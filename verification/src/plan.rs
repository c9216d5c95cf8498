//! Planning a build: walking a source tree against the rule lists and
//! emitting the ordered operation list, before anything touches the
//! filesystem.
//!
//! For every visited path, the force-keep rules are consulted first; a
//! match records the winning pattern and the entry is planned as if no
//! ignore rule existed. Otherwise a matching ignore rule records its
//! pattern and, for a directory, stops the walk below it. Every other
//! directory becomes a create step followed by its children, every other
//! file a copy step. The tool's own configuration directory at the tree
//! root is always skipped.

use vstd::prelude::*;

verus! {

use crate::pattern::spec_pattern_matches;
use crate::rules::RuleSet;
use crate::text::eq_str;
use crate::text::path_join;
use crate::tree::FsTree;
use vstd::string::StringExecFns;

/// What one planned step does.
pub enum OpKind {
    CreateDirectory,
    CopyFile,
    RecordedForceKeep { pattern: String },
    RecordedIgnore { pattern: String },
}

/// One planned step: where it reads, where it writes, what it does.
/// Produced by the planner, consumed once by the executor.
pub struct FileOperation {
    pub source: String,
    pub dest: String,
    pub kind: OpKind,
}

/// Mathematical image of `OpKind`.
pub enum OpKindModel {
    CreateDirectory,
    CopyFile,
    RecordedForceKeep { pattern: Seq<char> },
    RecordedIgnore { pattern: Seq<char> },
}

/// Mathematical image of `FileOperation`.
pub struct OpModel {
    pub source: Seq<char>,
    pub dest: Seq<char>,
    pub kind: OpKindModel,
}

impl View for OpKind {
    type V = OpKindModel;

    open spec fn view(&self) -> OpKindModel {
        match self {
            OpKind::CreateDirectory => OpKindModel::CreateDirectory,
            OpKind::CopyFile => OpKindModel::CopyFile,
            OpKind::RecordedForceKeep { pattern } => OpKindModel::RecordedForceKeep {
                pattern: pattern@,
            },
            OpKind::RecordedIgnore { pattern } => OpKindModel::RecordedIgnore {
                pattern: pattern@,
            },
        }
    }
}

impl View for FileOperation {
    type V = OpModel;

    open spec fn view(&self) -> OpModel {
        OpModel { source: self.source@, dest: self.dest@, kind: self.kind@ }
    }
}

impl DeepView for FileOperation {
    type V = OpModel;

    open spec fn deep_view(&self) -> OpModel {
        self.view()
    }
}

/// Index of the first rule at or after `i` whose pattern matches `path`,
/// `-1` when none does.
pub open spec fn first_match_from(rules: Seq<Seq<char>>, path: Seq<char>, i: int) -> int
    decreases rules.len() - i,
{
    if i < 0 || i >= rules.len() {
        -1
    } else if spec_pattern_matches(path, rules[i]) {
        i
    } else {
        first_match_from(rules, path, i + 1)
    }
}

/// Index of the first rule whose pattern matches `path`, `-1` when none.
pub open spec fn first_match(rules: Seq<Seq<char>>, path: Seq<char>) -> int {
    first_match_from(rules, path, 0)
}

/// `first_match` finds exactly the first matching rule: its result is in
/// range, matches, and no earlier rule matches; `-1` comes only when no
/// rule matches at all.
pub proof fn lemma_first_match(rules: Seq<Seq<char>>, path: Seq<char>)
    ensures
        first_match(rules, path) == -1 || first_match(rules, path) >= 0,
        first_match(rules, path) == -1 ==> forall|j: int|
            0 <= j < rules.len() ==> !spec_pattern_matches(path, #[trigger] rules[j]),
        first_match(rules, path) >= 0 ==> 0 <= first_match(rules, path) < rules.len()
            && spec_pattern_matches(path, rules[first_match(rules, path)]) && forall|j: int|
            0 <= j < first_match(rules, path) ==> !spec_pattern_matches(
                path,
                #[trigger] rules[j],
            ),
{
    lemma_first_match_from(rules, path, 0);
}

proof fn lemma_first_match_from(rules: Seq<Seq<char>>, path: Seq<char>, i: int)
    requires
        0 <= i <= rules.len(),
    ensures
        first_match_from(rules, path, i) == -1 || first_match_from(rules, path, i) >= 0,
        first_match_from(rules, path, i) == -1 ==> forall|j: int|
            i <= j < rules.len() ==> !spec_pattern_matches(path, #[trigger] rules[j]),
        first_match_from(rules, path, i) >= 0 ==> i <= first_match_from(rules, path, i)
            < rules.len() && spec_pattern_matches(path, rules[first_match_from(rules, path, i)])
            && forall|j: int|
            i <= j < first_match_from(rules, path, i) ==> !spec_pattern_matches(
                path,
                #[trigger] rules[j],
            ),
    decreases rules.len() - i,
{
    if i < rules.len() && !spec_pattern_matches(path, rules[i]) {
        lemma_first_match_from(rules, path, i + 1);
    }
}

/// Find the first rule in `rules` whose pattern matches `path`.
pub fn find_first_match(rules: &Vec<String>, path: &str) -> (r: Option<usize>)
    ensures
        match r {
            Some(i) => first_match(rules.deep_view(), path@) == i as int,
            None => first_match(rules.deep_view(), path@) == -1,
        },
{
    let ghost dv = rules.deep_view();
    let n = rules.len();
    let mut i: usize = 0;
    while i < n
        invariant
            n == rules.len(),
            i <= n,
            dv == rules.deep_view(),
            first_match(dv, path@) == first_match_from(dv, path@, i as int),
        decreases n - i,
    {
        if crate::pattern::pattern_matches(path, rules[i].as_str()) {
            return Some(i);
        }
        i = i + 1;
    }
    None
}

/// The rule decision for one path.
#[derive(PartialEq, Eq, Structural)]
pub enum Decision {
    /// A force-keep rule matches: the path is kept whatever the ignore
    /// rules say; the index names the first matching force-keep rule.
    Forced { index: usize },
    /// No force-keep rule matches and an ignore rule does: the path is
    /// dropped; the index names the first matching ignore rule.
    Ignored { index: usize },
    /// No rule matches: the path is kept.
    Normal,
}

/// Mathematical image of `Decision`.
pub enum DecisionModel {
    Forced { index: int },
    Ignored { index: int },
    Normal,
}

impl View for Decision {
    type V = DecisionModel;

    open spec fn view(&self) -> DecisionModel {
        match self {
            Decision::Forced { index } => DecisionModel::Forced { index: *index as int },
            Decision::Ignored { index } => DecisionModel::Ignored { index: *index as int },
            Decision::Normal => DecisionModel::Normal,
        }
    }
}

/// The rule decision for one path: force-keep rules are consulted first,
/// ignore rules only when no force-keep rule matches.
pub open spec fn decision_of(
    ignores: Seq<Seq<char>>,
    keeps: Seq<Seq<char>>,
    path: Seq<char>,
) -> DecisionModel {
    if first_match(keeps, path) >= 0 {
        DecisionModel::Forced { index: first_match(keeps, path) }
    } else if first_match(ignores, path) >= 0 {
        DecisionModel::Ignored { index: first_match(ignores, path) }
    } else {
        DecisionModel::Normal
    }
}

/// Decide what the rules say about one path.
pub fn decide(rules: &RuleSet, path: &str) -> (d: Decision)
    ensures
        d@ == decision_of(rules.ignore.deep_view(), rules.keep.deep_view(), path@),
{
    match find_first_match(&rules.keep, path) {
        Some(i) => Decision::Forced { index: i },
        None => match find_first_match(&rules.ignore, path) {
            Some(i) => Decision::Ignored { index: i },
            None => Decision::Normal,
        },
    }
}

/// Force-keep beats ignore: when any force-keep pattern matches a path,
/// the decision for that path is `Forced`, never `Ignored`, whatever the
/// ignore rules hold.
pub proof fn lemma_force_keep_beats_ignore(
    ignores: Seq<Seq<char>>,
    keeps: Seq<Seq<char>>,
    path: Seq<char>,
)
    requires
        exists|i: int| 0 <= i < keeps.len() && spec_pattern_matches(path, #[trigger] keeps[i]),
    ensures
        decision_of(ignores, keeps, path) is Forced,
{
    lemma_first_match(keeps, path);
    if first_match(keeps, path) < 0 {
        let i = choose|i: int|
            0 <= i < keeps.len() && spec_pattern_matches(path, #[trigger] keeps[i]);
        assert(!spec_pattern_matches(path, keeps[i]));
    }
}

/// The plan for one visited tree entry at relative path `rel`.
pub open spec fn plan_node_spec(
    t: FsTree,
    rel: Seq<char>,
    src_root: Seq<char>,
    dst_root: Seq<char>,
    ig: Seq<Seq<char>>,
    kp: Seq<Seq<char>>,
) -> Seq<OpModel>
    decreases t,
{
    let src = src_root + seq!['/'] + rel;
    let dst = dst_root + seq!['/'] + rel;
    let km = first_match(kp, rel);
    let im = first_match(ig, rel);
    if km < 0 && im >= 0 {
        seq![
            OpModel { source: src, dest: dst, kind: OpKindModel::RecordedIgnore {
                pattern: ig[im],
            } },
        ]
    } else {
        let forced: Seq<OpModel> = if km >= 0 {
            seq![
                OpModel { source: src, dest: dst, kind: OpKindModel::RecordedForceKeep {
                    pattern: kp[km],
                } },
            ]
        } else {
            Seq::empty()
        };
        match t {
            FsTree::File { .. } => forced + seq![
                OpModel { source: src, dest: dst, kind: OpKindModel::CopyFile },
            ],
            FsTree::Dir { children, .. } => forced + seq![
                OpModel { source: src, dest: dst, kind: OpKindModel::CreateDirectory },
            ] + plan_children_spec(children@, 0, rel, src_root, dst_root, ig, kp),
        }
    }
}

/// The plans of `children[from..]`, visited in order under directory `rel`.
pub open spec fn plan_children_spec(
    children: Seq<FsTree>,
    from: int,
    rel: Seq<char>,
    src_root: Seq<char>,
    dst_root: Seq<char>,
    ig: Seq<Seq<char>>,
    kp: Seq<Seq<char>>,
) -> Seq<OpModel>
    decreases children, children.len() - from,
{
    if from < 0 || from >= children.len() {
        Seq::empty()
    } else {
        plan_node_spec(
            children[from],
            rel + seq!['/'] + children[from].spec_name(),
            src_root,
            dst_root,
            ig,
            kp,
        ) + plan_children_spec(children, from + 1, rel, src_root, dst_root, ig, kp)
    }
}

/// The plans of the root's children from `from` on: as for any directory,
/// except that the entry named `.ksmm` — the tool's own state — is always
/// skipped, and the children's relative paths are bare names.
pub open spec fn plan_top_spec(
    children: Seq<FsTree>,
    from: int,
    src_root: Seq<char>,
    dst_root: Seq<char>,
    ig: Seq<Seq<char>>,
    kp: Seq<Seq<char>>,
) -> Seq<OpModel>
    decreases children, children.len() - from,
{
    if from < 0 || from >= children.len() {
        Seq::empty()
    } else if children[from].spec_name() == ".ksmm"@ {
        plan_top_spec(children, from + 1, src_root, dst_root, ig, kp)
    } else {
        plan_node_spec(children[from], children[from].spec_name(), src_root, dst_root, ig, kp)
            + plan_top_spec(children, from + 1, src_root, dst_root, ig, kp)
    }
}

/// The whole plan of one build: every entry under the source root, visited
/// depth first in directory order, parents before children. The root
/// itself gets no step of its own, and a source root that is no directory
/// plans nothing.
pub open spec fn plan_spec(
    root: FsTree,
    src_root: Seq<char>,
    dst_root: Seq<char>,
    ig: Seq<Seq<char>>,
    kp: Seq<Seq<char>>,
) -> Seq<OpModel> {
    match root {
        FsTree::File { .. } => Seq::empty(),
        FsTree::Dir { children, .. } => plan_top_spec(children@, 0, src_root, dst_root, ig, kp),
    }
}

/// The relative path a planned step concerns, read back out of its
/// source path.
pub open spec fn rel_of_op(op: OpModel, src_root: Seq<char>) -> Seq<char> {
    op.source.skip(src_root.len() + 1 as int)
}

proof fn lemma_ignore_needs_no_keep_node(
    t: FsTree,
    rel: Seq<char>,
    src_root: Seq<char>,
    dst_root: Seq<char>,
    ig: Seq<Seq<char>>,
    kp: Seq<Seq<char>>,
    i: int,
)
    requires
        0 <= i < plan_node_spec(t, rel, src_root, dst_root, ig, kp).len(),
        plan_node_spec(t, rel, src_root, dst_root, ig, kp)[i].kind is RecordedIgnore,
    ensures
        first_match(
            kp,
            rel_of_op(plan_node_spec(t, rel, src_root, dst_root, ig, kp)[i], src_root),
        ) == -1,
    decreases t,
{
    let ops = plan_node_spec(t, rel, src_root, dst_root, ig, kp);
    let km = first_match(kp, rel);
    let im = first_match(ig, rel);
    lemma_first_match(kp, rel);
    if km < 0 && im >= 0 {
        assert(ops[i].source == src_root + seq!['/'] + rel);
        assert(rel_of_op(ops[i], src_root) =~= rel);
    } else {
        match t {
            FsTree::File { .. } => {
                assert(false);
            },
            FsTree::Dir { children, .. } => {
                let lead: int = if km >= 0 {
                    2
                } else {
                    1
                };
                assert(i >= lead);
                lemma_ignore_needs_no_keep_children(
                    children@,
                    0,
                    rel,
                    src_root,
                    dst_root,
                    ig,
                    kp,
                    i - lead,
                );
            },
        }
    }
}

proof fn lemma_ignore_needs_no_keep_children(
    children: Seq<FsTree>,
    from: int,
    rel: Seq<char>,
    src_root: Seq<char>,
    dst_root: Seq<char>,
    ig: Seq<Seq<char>>,
    kp: Seq<Seq<char>>,
    i: int,
)
    requires
        0 <= i < plan_children_spec(children, from, rel, src_root, dst_root, ig, kp).len(),
        plan_children_spec(children, from, rel, src_root, dst_root, ig, kp)[i].kind
            is RecordedIgnore,
    ensures
        first_match(
            kp,
            rel_of_op(
                plan_children_spec(children, from, rel, src_root, dst_root, ig, kp)[i],
                src_root,
            ),
        ) == -1,
    decreases children, children.len() - from,
{
    let head = plan_node_spec(
        children[from],
        rel + seq!['/'] + children[from].spec_name(),
        src_root,
        dst_root,
        ig,
        kp,
    );
    if i < head.len() {
        lemma_ignore_needs_no_keep_node(
            children[from],
            rel + seq!['/'] + children[from].spec_name(),
            src_root,
            dst_root,
            ig,
            kp,
            i,
        );
    } else {
        lemma_ignore_needs_no_keep_children(
            children,
            from + 1,
            rel,
            src_root,
            dst_root,
            ig,
            kp,
            i - head.len(),
        );
    }
}

proof fn lemma_ignore_needs_no_keep_top(
    children: Seq<FsTree>,
    from: int,
    src_root: Seq<char>,
    dst_root: Seq<char>,
    ig: Seq<Seq<char>>,
    kp: Seq<Seq<char>>,
    i: int,
)
    requires
        0 <= i < plan_top_spec(children, from, src_root, dst_root, ig, kp).len(),
        plan_top_spec(children, from, src_root, dst_root, ig, kp)[i].kind is RecordedIgnore,
    ensures
        first_match(
            kp,
            rel_of_op(plan_top_spec(children, from, src_root, dst_root, ig, kp)[i], src_root),
        ) == -1,
    decreases children, children.len() - from,
{
    if children[from].spec_name() == ".ksmm"@ {
        lemma_ignore_needs_no_keep_top(children, from + 1, src_root, dst_root, ig, kp, i);
    } else {
        let head = plan_node_spec(
            children[from],
            children[from].spec_name(),
            src_root,
            dst_root,
            ig,
            kp,
        );
        if i < head.len() {
            lemma_ignore_needs_no_keep_node(
                children[from],
                children[from].spec_name(),
                src_root,
                dst_root,
                ig,
                kp,
                i,
            );
        } else {
            lemma_ignore_needs_no_keep_top(
                children,
                from + 1,
                src_root,
                dst_root,
                ig,
                kp,
                i - head.len(),
            );
        }
    }
}

/// Force-keep beats ignore across a whole plan: a recorded-ignore step
/// never concerns a path that any force-keep pattern matches, wherever
/// that path sits in the tree.
pub proof fn lemma_plan_never_ignores_kept_paths(
    root: FsTree,
    src_root: Seq<char>,
    dst_root: Seq<char>,
    ig: Seq<Seq<char>>,
    kp: Seq<Seq<char>>,
    i: int,
)
    requires
        0 <= i < plan_spec(root, src_root, dst_root, ig, kp).len(),
        plan_spec(root, src_root, dst_root, ig, kp)[i].kind is RecordedIgnore,
    ensures
        forall|j: int|
            0 <= j < kp.len() ==> !spec_pattern_matches(
                rel_of_op(plan_spec(root, src_root, dst_root, ig, kp)[i], src_root),
                #[trigger] kp[j],
            ),
{
    match root {
        FsTree::File { .. } => {
            assert(false);
        },
        FsTree::Dir { children, .. } => {
            lemma_ignore_needs_no_keep_top(children@, 0, src_root, dst_root, ig, kp, i);
            lemma_first_match(
                kp,
                rel_of_op(plan_spec(root, src_root, dst_root, ig, kp)[i], src_root),
            );
        },
    }
}

#[verifier::loop_isolation(false)]
fn plan_node(
    t: &FsTree,
    rel: &str,
    src_root: &str,
    dst_root: &str,
    rules: &RuleSet,
    out: &mut Vec<FileOperation>,
)
    ensures
        final(out).deep_view() =~= old(out).deep_view() + plan_node_spec(
            *t,
            rel@,
            src_root@,
            dst_root@,
            rules.ignore.deep_view(),
            rules.keep.deep_view(),
        ),
    decreases *t,
{
    let ghost ig = rules.ignore.deep_view();
    let ghost kp = rules.keep.deep_view();
    let ghost base = out.deep_view();
    let src = path_join(src_root, rel);
    let dst = path_join(dst_root, rel);
    let keep_hit = find_first_match(&rules.keep, rel);
    let ignore_hit = find_first_match(&rules.ignore, rel);
    if keep_hit.is_none() && ignore_hit.is_some() {
        let im = ignore_hit.unwrap();
        proof {
            lemma_first_match(ig, rel@);
        }
        out.push(
            FileOperation {
                source: src,
                dest: dst,
                kind: OpKind::RecordedIgnore { pattern: rules.ignore[im].clone() },
            },
        );
        proof {
            assert(out.deep_view() =~= base + plan_node_spec(*t, rel@, src_root@, dst_root@, ig, kp));
        }
        return ;
    }
    if let Some(km) = keep_hit {
        proof {
            lemma_first_match(kp, rel@);
        }
        out.push(
            FileOperation {
                source: src.clone(),
                dest: dst.clone(),
                kind: OpKind::RecordedForceKeep { pattern: rules.keep[km].clone() },
            },
        );
    }
    match t {
        FsTree::File { .. } => {
            out.push(FileOperation { source: src, dest: dst, kind: OpKind::CopyFile });
            proof {
                assert(out.deep_view() =~= base + plan_node_spec(
                    *t,
                    rel@,
                    src_root@,
                    dst_root@,
                    ig,
                    kp,
                ));
            }
        },
        FsTree::Dir { children, .. } => {
            out.push(FileOperation { source: src, dest: dst, kind: OpKind::CreateDirectory });
            let ghost mid = out.deep_view();
            let n = children.len();
            let mut ci: usize = 0;
            while ci < n
                invariant
                    n == children.len(),
                    ci <= n,
                    ig == rules.ignore.deep_view(),
                    kp == rules.keep.deep_view(),
                    out.deep_view() + plan_children_spec(
                        children@,
                        ci as int,
                        rel@,
                        src_root@,
                        dst_root@,
                        ig,
                        kp,
                    ) =~= mid + plan_children_spec(
                        children@,
                        0,
                        rel@,
                        src_root@,
                        dst_root@,
                        ig,
                        kp,
                    ),
                decreases n - ci,
            {
                let child = &children[ci];
                let child_rel = path_join(rel, child.name().as_str());
                let ghost pre = out.deep_view();
                proof {
                    assert(*children == t->Dir_children);
                    assert(decreases_to!(*t => t->Dir_children));
                    assert(decreases_to!(*children => children@));
                    assert(decreases_to!(children@ => children@[ci as int]));
                }
                plan_node(child, child_rel.as_str(), src_root, dst_root, rules, out);
                proof {
                    assert(out.deep_view() =~= pre + plan_node_spec(
                        children@[ci as int],
                        rel@ + seq!['/'] + children@[ci as int].spec_name(),
                        src_root@,
                        dst_root@,
                        ig,
                        kp,
                    ));
                    assert(out.deep_view() + plan_children_spec(
                        children@,
                        ci + 1,
                        rel@,
                        src_root@,
                        dst_root@,
                        ig,
                        kp,
                    ) =~= mid + plan_children_spec(
                        children@,
                        0,
                        rel@,
                        src_root@,
                        dst_root@,
                        ig,
                        kp,
                    ));
                }
                ci = ci + 1;
            }
            proof {
                assert(out.deep_view() =~= base + plan_node_spec(
                    *t,
                    rel@,
                    src_root@,
                    dst_root@,
                    ig,
                    kp,
                ));
            }
        },
    }
}

/// Plan a whole build: walk the source tree against the rules and emit the
/// ordered operation list. Nothing here touches the filesystem.
pub fn plan(root: &FsTree, src_root: &str, dst_root: &str, rules: &RuleSet) -> (ops: Vec<
    FileOperation,
>)
    ensures
        ops.deep_view() =~= plan_spec(
            *root,
            src_root@,
            dst_root@,
            rules.ignore.deep_view(),
            rules.keep.deep_view(),
        ),
{
    let ghost ig = rules.ignore.deep_view();
    let ghost kp = rules.keep.deep_view();
    let mut out: Vec<FileOperation> = Vec::new();
    proof {
        assert(out.deep_view() =~= Seq::<OpModel>::empty());
    }
    match root {
        FsTree::File { .. } => out,
        FsTree::Dir { children, .. } => {
            let n = children.len();
            let mut ci: usize = 0;
            while ci < n
                invariant
                    n == children.len(),
                    ci <= n,
                    ig == rules.ignore.deep_view(),
                    kp == rules.keep.deep_view(),
                    out.deep_view() + plan_top_spec(
                        children@,
                        ci as int,
                        src_root@,
                        dst_root@,
                        ig,
                        kp,
                    ) =~= plan_top_spec(children@, 0, src_root@, dst_root@, ig, kp),
                decreases n - ci,
            {
                let child = &children[ci];
                if eq_str(child.name().as_str(), ".ksmm") {
                    proof {
                        assert(children@[ci as int].spec_name() == ".ksmm"@);
                    }
                } else {
                    let ghost pre = out.deep_view();
                    let child_rel = String::from_str(child.name().as_str());
                    plan_node(child, child_rel.as_str(), src_root, dst_root, rules, &mut out);
                    proof {
                        assert(out.deep_view() + plan_top_spec(
                            children@,
                            ci + 1,
                            src_root@,
                            dst_root@,
                            ig,
                            kp,
                        ) =~= plan_top_spec(children@, 0, src_root@, dst_root@, ig, kp));
                    }
                }
                ci = ci + 1;
            }
            out
        },
    }
}

} // verus!
