use ksmm::execution::order_operations;
use ksmm::plan::decide;
use ksmm::plan::plan;
use ksmm::plan::Decision;
use ksmm::plan::FileOperation;
use ksmm::plan::OpKind;
use ksmm::rules::RuleSet;
use ksmm::tree::FsTree;

fn file(name: &str) -> FsTree {
    FsTree::File { name: name.to_string() }
}

fn dir(name: &str, children: Vec<FsTree>) -> FsTree {
    FsTree::Dir { name: name.to_string(), children }
}

fn kinds(ops: &[FileOperation]) -> Vec<String> {
    ops.iter()
        .map(|op| match &op.kind {
            OpKind::CreateDirectory => format!("dir {}", op.dest),
            OpKind::CopyFile => format!("copy {}", op.dest),
            OpKind::RecordedForceKeep { pattern } => format!("keep {} ({})", op.source, pattern),
            OpKind::RecordedIgnore { pattern } => format!("skip {} ({})", op.source, pattern),
        })
        .collect()
}

#[test]
fn force_keep_beats_ignore_scenario() {
    let mut rules = RuleSet::new();
    rules.add_text("build/\n!build/keep.txt\n");
    let root = dir("src", vec![dir("build", vec![file("keep.txt"), file("other.txt")])]);
    let ops = plan(&root, "in", "out", &rules);
    assert_eq!(
        kinds(&ops),
        vec![
            "dir out/build",
            "keep in/build/keep.txt (build/keep.txt)",
            "copy out/build/keep.txt",
            "skip in/build/other.txt (build/)",
        ]
    );
}

#[test]
fn decide_prefers_force_keep() {
    let mut rules = RuleSet::new();
    rules.add_text("*.log\n!error.log\n");
    assert!(decide(&rules, "error.log") == Decision::Forced { index: 0 });
    assert!(decide(&rules, "other.log") == Decision::Ignored { index: 0 });
    assert!(decide(&rules, "notes.txt") == Decision::Normal);
}

#[test]
fn decide_reports_first_matching_rule() {
    let mut rules = RuleSet::new();
    rules.add_text("*.tmp\ncache/\n*.tmp.bak\n");
    assert!(decide(&rules, "cache/a.txt") == Decision::Ignored { index: 1 });
    assert!(decide(&rules, "x.tmp") == Decision::Ignored { index: 0 });
}

#[test]
fn ignored_directory_is_not_entered() {
    let mut rules = RuleSet::new();
    rules.add_text("node_modules/\n");
    let root = dir(
        ".",
        vec![dir("a", vec![dir("node_modules", vec![file("dep.js")]), file("main.js")])],
    );
    let ops = plan(&root, "s", "d", &rules);
    assert_eq!(
        kinds(&ops),
        vec!["dir d/a", "skip s/a/node_modules (node_modules/)", "copy d/a/main.js"]
    );
}

#[test]
fn tool_state_directory_is_always_skipped() {
    let rules = RuleSet::new();
    let root = dir("p", vec![dir(".ksmm", vec![file("build.conf")]), file("module.prop")]);
    let ops = plan(&root, "s", "d", &rules);
    assert_eq!(kinds(&ops), vec!["copy d/module.prop"]);
}

#[test]
fn plan_walks_depth_first_parents_before_children() {
    let rules = RuleSet::new();
    let root = dir(
        "p",
        vec![dir("a", vec![file("one.txt"), dir("b", vec![file("two.txt")])]), file("three.txt")],
    );
    let ops = plan(&root, "s", "d", &rules);
    assert_eq!(
        kinds(&ops),
        vec![
            "dir d/a",
            "copy d/a/one.txt",
            "dir d/a/b",
            "copy d/a/b/two.txt",
            "copy d/three.txt",
        ]
    );
}

#[test]
fn plan_of_file_root_is_empty() {
    let rules = RuleSet::new();
    let ops = plan(&file("stray.txt"), "s", "d", &rules);
    assert!(ops.is_empty());
}

#[test]
fn plan_records_source_and_destination() {
    let rules = RuleSet::new();
    let root = dir("p", vec![file("m.txt")]);
    let ops = plan(&root, "/tmp/in", "/tmp/out", &rules);
    assert_eq!(ops.len(), 1);
    assert_eq!(ops[0].source.as_str(), "/tmp/in/m.txt");
    assert_eq!(ops[0].dest.as_str(), "/tmp/out/m.txt");
}

#[test]
fn execution_order_is_four_stable_buckets() {
    let mut rules = RuleSet::new();
    rules.add_text("*.log\n!keep.log\n");
    let root = dir(
        "p",
        vec![file("a.log"), dir("sub", vec![file("keep.log"), file("b.log")]), file("c.txt")],
    );
    let ops = plan(&root, "s", "d", &rules);
    let ordered = order_operations(&ops);
    assert_eq!(
        kinds(&ordered),
        vec![
            "keep s/sub/keep.log (keep.log)",
            "dir d/sub",
            "copy d/sub/keep.log",
            "copy d/c.txt",
            "skip s/a.log (*.log)",
            "skip s/sub/b.log (*.log)",
        ]
    );
}

#[test]
fn execution_order_puts_every_directory_before_every_copy() {
    let rules = RuleSet::new();
    let root = dir(
        "p",
        vec![file("early.txt"), dir("z", vec![file("deep.txt")]), dir("empty", vec![])],
    );
    let ordered = order_operations(&plan(&root, "s", "d", &rules));
    let first_copy = ordered
        .iter()
        .position(|op| matches!(op.kind, OpKind::CopyFile))
        .unwrap();
    let last_dir = ordered
        .iter()
        .rposition(|op| matches!(op.kind, OpKind::CreateDirectory))
        .unwrap();
    assert!(last_dir < first_copy);
}
