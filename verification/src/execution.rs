//! Ordering the operation list for execution.
//!
//! Before anything runs, the plan is reordered by a stable two-level key:
//! recorded force-keep steps come before everything else, and the rest run
//! directories first, file copies second, recorded ignores last. Within
//! each bucket the plan's own order is kept. The recorded steps only log;
//! the filesystem work is in the directory and copy steps, and the
//! ordering guarantees that every directory-creating step runs before
//! every file copy.

use vstd::prelude::*;

verus! {

use crate::plan::FileOperation;
use crate::plan::OpKind;
use crate::plan::OpModel;

/// The recorded force-keep steps of a plan, in plan order.
pub open spec fn keep_ops(ops: Seq<OpModel>) -> Seq<OpModel> {
    ops.filter(|op: OpModel| op.kind is RecordedForceKeep)
}

/// The directory-creating steps of a plan, in plan order.
pub open spec fn dir_ops(ops: Seq<OpModel>) -> Seq<OpModel> {
    ops.filter(|op: OpModel| op.kind is CreateDirectory)
}

/// The file-copying steps of a plan, in plan order.
pub open spec fn file_ops(ops: Seq<OpModel>) -> Seq<OpModel> {
    ops.filter(|op: OpModel| op.kind is CopyFile)
}

/// The recorded ignore steps of a plan, in plan order.
pub open spec fn ignore_ops(ops: Seq<OpModel>) -> Seq<OpModel> {
    ops.filter(|op: OpModel| op.kind is RecordedIgnore)
}

/// The execution order of a plan: force-keep records first, directory
/// creations second, file copies third, ignore records last, each bucket
/// keeping the plan's own order.
pub open spec fn ordered_spec(ops: Seq<OpModel>) -> Seq<OpModel> {
    keep_ops(ops) + dir_ops(ops) + file_ops(ops) + ignore_ops(ops)
}

/// A field-for-field copy of one planned step.
fn clone_op(op: &FileOperation) -> (r: FileOperation)
    ensures
        r@ == op@,
{
    let kind = match &op.kind {
        OpKind::CreateDirectory => OpKind::CreateDirectory,
        OpKind::CopyFile => OpKind::CopyFile,
        OpKind::RecordedForceKeep { pattern } => OpKind::RecordedForceKeep {
            pattern: pattern.clone(),
        },
        OpKind::RecordedIgnore { pattern } => OpKind::RecordedIgnore {
            pattern: pattern.clone(),
        },
    };
    FileOperation { source: op.source.clone(), dest: op.dest.clone(), kind }
}

/// Does this step belong to the bucket numbered `bucket`? Buckets follow
/// the execution order: force-keep records, directory creations, file
/// copies, ignore records.
fn op_in_bucket(op: &FileOperation, bucket: u8) -> (r: bool)
    requires
        bucket < 4,
    ensures
        r == bucket_pred(bucket as int)(op@),
{
    match &op.kind {
        OpKind::RecordedForceKeep { .. } => bucket == 0,
        OpKind::CreateDirectory => bucket == 1,
        OpKind::CopyFile => bucket == 2,
        OpKind::RecordedIgnore { .. } => bucket == 3,
    }
}

/// The membership test of each execution bucket.
pub open spec fn bucket_pred(bucket: int) -> spec_fn(OpModel) -> bool {
    if bucket == 0 {
        |op: OpModel| op.kind is RecordedForceKeep
    } else if bucket == 1 {
        |op: OpModel| op.kind is CreateDirectory
    } else if bucket == 2 {
        |op: OpModel| op.kind is CopyFile
    } else {
        |op: OpModel| op.kind is RecordedIgnore
    }
}

/// Reorder a plan for execution: a stable four-bucket sort under
/// `ordered_spec`.
pub fn order_operations(ops: &Vec<FileOperation>) -> (r: Vec<FileOperation>)
    ensures
        r.deep_view() =~= ordered_spec(ops.deep_view()),
{
    let ghost dv = ops.deep_view();
    let mut r: Vec<FileOperation> = Vec::new();
    let mut bucket: u8 = 0;
    proof {
        assert(r.deep_view() =~= Seq::<OpModel>::empty());
        assert(prefix_of_order(dv, 0) =~= Seq::<OpModel>::empty());
    }
    while bucket < 4
        invariant
            bucket <= 4,
            dv == ops.deep_view(),
            r.deep_view() =~= prefix_of_order(dv, bucket as int),
        decreases 4 - bucket,
    {
        let n = ops.len();
        let mut i: usize = 0;
        proof {
            reveal(Seq::filter);
            assert(dv.take(0).filter(bucket_pred(bucket as int)) =~= Seq::<OpModel>::empty());
        }
        while i < n
            invariant
                bucket < 4,
                n == ops.len(),
                i <= n,
                dv == ops.deep_view(),
                r.deep_view() =~= prefix_of_order(dv, bucket as int) + dv.take(i as int).filter(
                    bucket_pred(bucket as int),
                ),
            decreases n - i,
        {
            let ghost pre = r.deep_view();
            if op_in_bucket(&ops[i], bucket) {
                r.push(clone_op(&ops[i]));
                proof {
                    assert(r.deep_view() =~= pre.push(dv[i as int]));
                }
            }
            proof {
                reveal(Seq::filter);
                let ghost p = bucket_pred(bucket as int);
                assert(dv.take(i + 1).drop_last() =~= dv.take(i as int));
                assert(dv.take(i + 1).last() == dv[i as int]);
                assert(dv.take(i + 1).filter(p) =~= if p(dv[i as int]) {
                    dv.take(i as int).filter(p).push(dv[i as int])
                } else {
                    dv.take(i as int).filter(p)
                });
            }
            i = i + 1;
        }
        proof {
            assert(dv.take(n as int) =~= dv);
            assert(prefix_of_order(dv, bucket as int) + dv.filter(bucket_pred(bucket as int))
                =~= prefix_of_order(dv, bucket + 1));
        }
        bucket = bucket + 1;
    }
    proof {
        assert(prefix_of_order(dv, 4) =~= ordered_spec(dv));
    }
    r
}

/// The first `k` buckets of the execution order, concatenated.
pub open spec fn prefix_of_order(ops: Seq<OpModel>, k: int) -> Seq<OpModel> {
    if k <= 0 {
        Seq::empty()
    } else if k == 1 {
        keep_ops(ops)
    } else if k == 2 {
        keep_ops(ops) + dir_ops(ops)
    } else if k == 3 {
        keep_ops(ops) + dir_ops(ops) + file_ops(ops)
    } else {
        keep_ops(ops) + dir_ops(ops) + file_ops(ops) + ignore_ops(ops)
    }
}

/// The execution order is a permutation of the plan: reordering loses no
/// step and invents none.
pub proof fn lemma_order_is_permutation(ops: Seq<OpModel>)
    ensures
        ordered_spec(ops).to_multiset() =~= ops.to_multiset(),
    decreases ops.len(),
{
    broadcast use vstd::seq_lib::lemma_multiset_commutative;
    broadcast use vstd::seq_lib::group_to_multiset_ensures;
    broadcast use vstd::multiset::group_multiset_axioms;

    reveal(Seq::filter);
    if ops.len() == 0 {
        assert(keep_ops(ops) =~= Seq::<OpModel>::empty());
        assert(ordered_spec(ops) =~= ops);
    } else {
        let dl = ops.drop_last();
        let x = ops.last();
        lemma_order_is_permutation(dl);
        assert(ops =~= dl.push(x));
        assert(keep_ops(ops) =~= if (x.kind is RecordedForceKeep) {
            keep_ops(dl).push(x)
        } else {
            keep_ops(dl)
        });
        assert(dir_ops(ops) =~= if (x.kind is CreateDirectory) {
            dir_ops(dl).push(x)
        } else {
            dir_ops(dl)
        });
        assert(file_ops(ops) =~= if (x.kind is CopyFile) {
            file_ops(dl).push(x)
        } else {
            file_ops(dl)
        });
        assert(ignore_ops(ops) =~= if (x.kind is RecordedIgnore) {
            ignore_ops(dl).push(x)
        } else {
            ignore_ops(dl)
        });
        assert(ordered_spec(ops).to_multiset() =~= keep_ops(ops).to_multiset().add(
            dir_ops(ops).to_multiset(),
        ).add(file_ops(ops).to_multiset()).add(ignore_ops(ops).to_multiset()));
        assert(ordered_spec(dl).to_multiset() =~= keep_ops(dl).to_multiset().add(
            dir_ops(dl).to_multiset(),
        ).add(file_ops(dl).to_multiset()).add(ignore_ops(dl).to_multiset()));
        assert(ordered_spec(ops).to_multiset() =~= ordered_spec(dl).to_multiset().insert(x));
        assert(ops.to_multiset() =~= dl.to_multiset().insert(x));
    }
}

/// In the execution order, every directory-creating step stands before
/// every file-copying step, wherever the two sat in the plan: a file copy
/// never runs before the step that creates its directory.
pub proof fn lemma_dirs_before_files(ops: Seq<OpModel>, i: int, j: int)
    requires
        0 <= i < ordered_spec(ops).len(),
        0 <= j < ordered_spec(ops).len(),
        ordered_spec(ops)[i].kind is CopyFile,
        ordered_spec(ops)[j].kind is CreateDirectory,
    ensures
        j < i,
{
    broadcast use vstd::seq_lib::group_filter_ensures;

    let r = ordered_spec(ops);
    let ka = keep_ops(ops).len();
    let kb = dir_ops(ops).len();
    let kc = file_ops(ops).len();
    if i < ka {
        assert(r[i] == keep_ops(ops)[i]);
        assert(r[i].kind is RecordedForceKeep);
    } else if i < ka + kb {
        assert(r[i] == dir_ops(ops)[i - ka]);
        assert(r[i].kind is CreateDirectory);
    } else if i >= ka + kb + kc {
        assert(r[i] == ignore_ops(ops)[i - ka - kb - kc]);
        assert(r[i].kind is RecordedIgnore);
    }
    assert(ka + kb <= i < ka + kb + kc);
    if j < ka {
        assert(r[j] == keep_ops(ops)[j]);
        assert(r[j].kind is RecordedForceKeep);
    } else if j >= ka + kb + kc {
        assert(r[j] == ignore_ops(ops)[j - ka - kb - kc]);
        assert(r[j].kind is RecordedIgnore);
    } else if j >= ka + kb {
        assert(r[j] == file_ops(ops)[j - ka - kb]);
        assert(r[j].kind is CopyFile);
    }
    assert(ka <= j < ka + kb);
}

} // verus!
