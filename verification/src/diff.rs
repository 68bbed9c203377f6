//! Text difference computation: an edit script of equal / delete / insert
//! runs that rewrites one text into another.
//!
//! `diff` trims the longest common prefix and suffix of the two texts and
//! reports the remaining middle as one delete run followed by one insert
//! run. The contract pins the exact edit script; the governing laws are that
//! the script's source side re-reads as the old text and its target side as
//! the new text.

use vstd::prelude::*;

use crate::text::str_to_chars;
use crate::text::chars_range_to_string;

verus! {

/// One run of a textual edit script.
#[derive(Debug, Clone)]
pub enum DiffOp {
    /// Text present in both versions.
    Equal(String),
    /// Text present only in the old version.
    Delete(String),
    /// Text present only in the new version.
    Insert(String),
}

/// Mathematical model of one edit-script run.
pub enum OpModel {
    Equal(Seq<char>),
    Delete(Seq<char>),
    Insert(Seq<char>),
}

impl View for DiffOp {
    type V = OpModel;

    open spec fn view(&self) -> OpModel {
        match self {
            DiffOp::Equal(t) => OpModel::Equal(t@),
            DiffOp::Delete(t) => OpModel::Delete(t@),
            DiffOp::Insert(t) => OpModel::Insert(t@),
        }
    }
}

/// The models of a vector of edit-script runs.
pub open spec fn ops_model(ops: Seq<DiffOp>) -> Seq<OpModel> {
    ops.map_values(|op: DiffOp| op@)
}

/// The contribution of one run to the old (source) text.
pub open spec fn op_src(op: OpModel) -> Seq<char> {
    match op {
        OpModel::Equal(t) => t,
        OpModel::Delete(t) => t,
        OpModel::Insert(_) => Seq::empty(),
    }
}

/// The contribution of one run to the new (target) text.
pub open spec fn op_tgt(op: OpModel) -> Seq<char> {
    match op {
        OpModel::Equal(t) => t,
        OpModel::Insert(t) => t,
        OpModel::Delete(_) => Seq::empty(),
    }
}

/// The old text that an edit script describes.
pub open spec fn ops_src(ops: Seq<OpModel>) -> Seq<char>
    decreases ops.len(),
{
    if ops.len() == 0 {
        Seq::empty()
    } else {
        op_src(ops[0]) + ops_src(ops.drop_first())
    }
}

/// The new text that an edit script describes.
pub open spec fn ops_tgt(ops: Seq<OpModel>) -> Seq<char>
    decreases ops.len(),
{
    if ops.len() == 0 {
        Seq::empty()
    } else {
        op_tgt(ops[0]) + ops_tgt(ops.drop_first())
    }
}

/// Length of the longest common prefix of `a` and `b`.
pub open spec fn common_prefix_len(a: Seq<char>, b: Seq<char>) -> nat
    decreases a.len(),
{
    if a.len() > 0 && b.len() > 0 && a[0] == b[0] {
        1 + common_prefix_len(a.drop_first(), b.drop_first())
    } else {
        0
    }
}

/// Length of the longest common suffix of `a` and `b`.
pub open spec fn common_suffix_len(a: Seq<char>, b: Seq<char>) -> nat
    decreases a.len(),
{
    if a.len() > 0 && b.len() > 0 && a.last() == b.last() {
        1 + common_suffix_len(a.drop_last(), b.drop_last())
    } else {
        0
    }
}

pub proof fn lemma_common_prefix(a: Seq<char>, b: Seq<char>)
    ensures
        common_prefix_len(a, b) <= a.len(),
        common_prefix_len(a, b) <= b.len(),
        forall|i: int| 0 <= i < common_prefix_len(a, b) ==> a[i] == b[i],
        common_prefix_len(a, b) < a.len() && common_prefix_len(a, b) < b.len() ==> a[
            common_prefix_len(a, b) as int
        ] != b[common_prefix_len(a, b) as int],
    decreases a.len(),
{
    if a.len() > 0 && b.len() > 0 && a[0] == b[0] {
        lemma_common_prefix(a.drop_first(), b.drop_first());
        let p = common_prefix_len(a, b);
        assert forall|i: int| 0 <= i < p implies a[i] == b[i] by {
            if i > 0 {
                assert(a.drop_first()[i - 1] == b.drop_first()[i - 1]);
            }
        }
        if p < a.len() && p < b.len() {
            assert(a.drop_first()[p - 1] == a[p as int]);
            assert(b.drop_first()[p - 1] == b[p as int]);
        }
    }
}

pub proof fn lemma_common_suffix(a: Seq<char>, b: Seq<char>)
    ensures
        common_suffix_len(a, b) <= a.len(),
        common_suffix_len(a, b) <= b.len(),
        forall|i: int|
            a.len() - common_suffix_len(a, b) <= i < a.len() ==> #[trigger] a[i] == b[i - a.len()
                + b.len()],
        common_suffix_len(a, b) < a.len() && common_suffix_len(a, b) < b.len() ==> a[a.len() - 1
            - common_suffix_len(a, b)] != b[b.len() - 1 - common_suffix_len(a, b)],
    decreases a.len(),
{
    if a.len() > 0 && b.len() > 0 && a.last() == b.last() {
        let a1 = a.drop_last();
        let b1 = b.drop_last();
        lemma_common_suffix(a1, b1);
        let s = common_suffix_len(a, b);
        assert forall|i: int| a.len() - s <= i < a.len() implies #[trigger] a[i] == b[i - a.len()
            + b.len()] by {
            if i < a.len() - 1 {
                assert(a1[i] == b1[i - a1.len() + b1.len()]);
            } else {
                assert(a[i] == a.last());
                assert(b[i - a.len() + b.len()] == b.last());
            }
        }
        if s < a.len() && s < b.len() {
            assert(a1[a1.len() - 1 - (s - 1)] != b1[b1.len() - 1 - (s - 1)]);
        }
    }
}

/// The four segments the diff of `a` and `b` is built from: common prefix,
/// deleted middle, inserted middle, common suffix.
pub open spec fn diff_prefix(a: Seq<char>, b: Seq<char>) -> Seq<char> {
    a.take(common_prefix_len(a, b) as int)
}

pub open spec fn diff_suffix_len(a: Seq<char>, b: Seq<char>) -> nat {
    common_suffix_len(
        a.skip(common_prefix_len(a, b) as int),
        b.skip(common_prefix_len(a, b) as int),
    )
}

pub open spec fn diff_deleted(a: Seq<char>, b: Seq<char>) -> Seq<char> {
    a.subrange(common_prefix_len(a, b) as int, a.len() - diff_suffix_len(a, b))
}

pub open spec fn diff_inserted(a: Seq<char>, b: Seq<char>) -> Seq<char> {
    b.subrange(common_prefix_len(a, b) as int, b.len() - diff_suffix_len(a, b))
}

pub open spec fn diff_suffix(a: Seq<char>, b: Seq<char>) -> Seq<char> {
    a.skip(a.len() - diff_suffix_len(a, b))
}

/// The edit script from `a` to `b`: the common prefix kept, the middle of
/// `a` deleted, the middle of `b` inserted, the common suffix kept. Runs
/// that would carry empty text are omitted.
pub open spec fn spec_diff(a: Seq<char>, b: Seq<char>) -> Seq<OpModel> {
    let eq_p: Seq<OpModel> = if diff_prefix(a, b).len() > 0 {
        seq![OpModel::Equal(diff_prefix(a, b))]
    } else {
        Seq::empty()
    };
    let del: Seq<OpModel> = if diff_deleted(a, b).len() > 0 {
        seq![OpModel::Delete(diff_deleted(a, b))]
    } else {
        Seq::empty()
    };
    let ins: Seq<OpModel> = if diff_inserted(a, b).len() > 0 {
        seq![OpModel::Insert(diff_inserted(a, b))]
    } else {
        Seq::empty()
    };
    let eq_s: Seq<OpModel> = if diff_suffix(a, b).len() > 0 {
        seq![OpModel::Equal(diff_suffix(a, b))]
    } else {
        Seq::empty()
    };
    eq_p + del + ins + eq_s
}

/// The segments partition the two texts: `a` is prefix + deleted + suffix
/// and `b` is prefix + inserted + suffix, the prefix and suffix being common
/// to both.
pub proof fn lemma_diff_segments(a: Seq<char>, b: Seq<char>)
    ensures
        a =~= diff_prefix(a, b) + diff_deleted(a, b) + diff_suffix(a, b),
        b =~= diff_prefix(a, b) + diff_inserted(a, b) + diff_suffix(a, b),
        diff_prefix(a, b) =~= b.take(common_prefix_len(a, b) as int),
        diff_suffix(a, b) =~= b.skip(b.len() - diff_suffix_len(a, b)),
        diff_deleted(a, b).len() == 0 && diff_inserted(a, b).len() == 0 ==> a == b,
{
    let p = common_prefix_len(a, b);
    let a1 = a.skip(p as int);
    let b1 = b.skip(p as int);
    let s = common_suffix_len(a1, b1);
    lemma_common_prefix(a, b);
    lemma_common_suffix(a1, b1);
    assert(diff_prefix(a, b) =~= b.take(p as int));
    assert forall|j: int| a.len() - s <= j < a.len() implies #[trigger] a[j] == b[j - a.len()
        + b.len()] by {
        assert(a1[j - p] == b1[(j - p) - a1.len() + b1.len()]);
        assert(a1[j - p] == a[j]);
        assert(b1[(j - p) - a1.len() + b1.len()] == b[j - a.len() + b.len()]);
    }
    assert(diff_suffix(a, b) =~= b.skip(b.len() - s));
    if diff_deleted(a, b).len() == 0 && diff_inserted(a, b).len() == 0 {
        assert(a =~= b);
    }
}

/// The source side of the diff of `a` and `b` is `a`; the target side is
/// `b`. Stated over the segment decomposition.
pub proof fn lemma_diff_reads_back(a: Seq<char>, b: Seq<char>)
    ensures
        ops_src(spec_diff(a, b)) =~= a,
        ops_tgt(spec_diff(a, b)) =~= b,
{
    lemma_diff_segments(a, b);
    let eq_p: Seq<OpModel> = if diff_prefix(a, b).len() > 0 {
        seq![OpModel::Equal(diff_prefix(a, b))]
    } else {
        Seq::empty()
    };
    let del: Seq<OpModel> = if diff_deleted(a, b).len() > 0 {
        seq![OpModel::Delete(diff_deleted(a, b))]
    } else {
        Seq::empty()
    };
    let ins: Seq<OpModel> = if diff_inserted(a, b).len() > 0 {
        seq![OpModel::Insert(diff_inserted(a, b))]
    } else {
        Seq::empty()
    };
    let eq_s: Seq<OpModel> = if diff_suffix(a, b).len() > 0 {
        seq![OpModel::Equal(diff_suffix(a, b))]
    } else {
        Seq::empty()
    };
    let tail2 = ins + eq_s;
    let tail1 = del + tail2;
    let all = eq_p + tail1;
    lemma_ops_concat(ins, eq_s);
    lemma_ops_concat(del, tail2);
    lemma_ops_concat(eq_p, tail1);
    lemma_ops_single(eq_p);
    lemma_ops_single(del);
    lemma_ops_single(ins);
    lemma_ops_single(eq_s);
    assert(ops_src(eq_p) =~= diff_prefix(a, b));
    assert(ops_src(del) =~= diff_deleted(a, b));
    assert(ops_src(ins) =~= Seq::<char>::empty());
    assert(ops_src(eq_s) =~= diff_suffix(a, b));
    assert(ops_tgt(eq_p) =~= diff_prefix(a, b));
    assert(ops_tgt(del) =~= Seq::<char>::empty());
    assert(ops_tgt(ins) =~= diff_inserted(a, b));
    assert(ops_tgt(eq_s) =~= diff_suffix(a, b));
    assert(spec_diff(a, b) =~= all);
    assert(ops_src(all) =~= diff_prefix(a, b) + diff_deleted(a, b) + diff_suffix(a, b));
    assert(ops_tgt(all) =~= diff_prefix(a, b) + diff_inserted(a, b) + diff_suffix(a, b));
}

/// `ops_src` and `ops_tgt` distribute over concatenation of scripts.
pub proof fn lemma_ops_concat(x: Seq<OpModel>, y: Seq<OpModel>)
    ensures
        ops_src(x + y) =~= ops_src(x) + ops_src(y),
        ops_tgt(x + y) =~= ops_tgt(x) + ops_tgt(y),
    decreases x.len(),
{
    if x.len() == 0 {
        assert(x + y =~= y);
    } else {
        lemma_ops_concat(x.drop_first(), y);
        assert((x + y).drop_first() =~= x.drop_first() + y);
        assert((x + y)[0] == x[0]);
    }
}

/// The edit script from `old_text` to `new_text`, as `spec_diff` describes
/// it: common prefix and suffix kept, the differing middle deleted and
/// re-inserted.
pub fn diff(old_text: &str, new_text: &str) -> (ops: Vec<DiffOp>)
    ensures
        ops_model(ops@) == spec_diff(old_text@, new_text@),
        old_text@.len() <= usize::MAX,
        new_text@.len() <= usize::MAX,
{
    let a = str_to_chars(old_text);
    let b = str_to_chars(new_text);
    let alen = a.len();
    let blen = b.len();
    let mut p: usize = 0;
    while p < alen && p < blen && a[p] == b[p]
        invariant
            a@ == old_text@,
            b@ == new_text@,
            alen == a@.len(),
            blen == b@.len(),
            p <= alen,
            p <= blen,
            forall|k: int| 0 <= k < p ==> a@[k] == b@[k],
        decreases alen - p,
    {
        p = p + 1;
    }
    proof {
        lemma_common_prefix(a@, b@);
        let cpl = common_prefix_len(a@, b@);
        if p < cpl {
            assert(a@[p as int] == b@[p as int]);
            assert(false);
        }
        if cpl < p {
            assert(a@[cpl as int] == b@[cpl as int]);
            assert(false);
        }
        assert(p == cpl);
    }
    let ghost a1 = a@.skip(p as int);
    let ghost b1 = b@.skip(p as int);
    let mut s: usize = 0;
    while s < alen - p && s < blen - p && a[alen - 1 - s] == b[blen - 1 - s]
        invariant
            a@ == old_text@,
            b@ == new_text@,
            alen == a@.len(),
            blen == b@.len(),
            p <= alen,
            p <= blen,
            s <= alen - p,
            s <= blen - p,
            forall|k: int| alen - s <= k < alen ==> #[trigger] a@[k] == b@[k - alen + blen],
        decreases alen - p - s,
    {
        s = s + 1;
    }
    proof {
        lemma_common_suffix(a1, b1);
        let csl = common_suffix_len(a1, b1);
        assert(a1.len() == alen - p && b1.len() == blen - p);
        assert(forall|i: int| 0 <= i < a1.len() ==> #[trigger] a1[i] == a@[p + i]);
        assert(forall|i: int| 0 <= i < b1.len() ==> #[trigger] b1[i] == b@[p + i]);
        if s < csl {
            assert(a1[a1.len() - 1 - (s as int)] == b1[(a1.len() - 1 - (s as int)) - a1.len()
                + b1.len()]);
            assert(a@[alen - 1 - s] == b@[blen - 1 - s]);
            assert(false);
        }
        if csl < s {
            assert(a1[a1.len() - 1 - (csl as int)] != b1[b1.len() - 1 - (csl as int)]);
            assert(a@[alen - 1 - csl] == b@[(alen - 1 - csl) - alen + blen]);
            assert(a1[a1.len() - 1 - (csl as int)] == a@[alen - 1 - csl]);
            assert(b1[b1.len() - 1 - (csl as int)] == b@[blen - 1 - csl]);
            assert(false);
        }
        assert(s == csl);
        assert(s == diff_suffix_len(a@, b@));
    }
    let mut ops: Vec<DiffOp> = Vec::new();
    let ghost eq_p: Seq<OpModel> = if diff_prefix(a@, b@).len() > 0 {
        seq![OpModel::Equal(diff_prefix(a@, b@))]
    } else {
        Seq::empty()
    };
    let ghost del: Seq<OpModel> = if diff_deleted(a@, b@).len() > 0 {
        seq![OpModel::Delete(diff_deleted(a@, b@))]
    } else {
        Seq::empty()
    };
    let ghost ins: Seq<OpModel> = if diff_inserted(a@, b@).len() > 0 {
        seq![OpModel::Insert(diff_inserted(a@, b@))]
    } else {
        Seq::empty()
    };
    let ghost eq_s: Seq<OpModel> = if diff_suffix(a@, b@).len() > 0 {
        seq![OpModel::Equal(diff_suffix(a@, b@))]
    } else {
        Seq::empty()
    };
    if p > 0 {
        let t = chars_range_to_string(&a, 0, p);
        proof {
            assert(t@ =~= diff_prefix(a@, b@));
        }
        ops.push(DiffOp::Equal(t));
    }
    proof {
        assert(ops_model(ops@) =~= eq_p);
    }
    let ghost before_del = ops@;
    if alen - s > p {
        let t = chars_range_to_string(&a, p, alen - s);
        proof {
            assert(t@ =~= diff_deleted(a@, b@));
        }
        ops.push(DiffOp::Delete(t));
    }
    proof {
        assert(diff_deleted(a@, b@).len() == alen - s - p);
        assert(ops_model(ops@) =~= eq_p + del);
    }
    let ghost before_ins = ops@;
    if blen - s > p {
        let t = chars_range_to_string(&b, p, blen - s);
        proof {
            assert(t@ =~= diff_inserted(a@, b@));
        }
        ops.push(DiffOp::Insert(t));
    }
    proof {
        assert(diff_inserted(a@, b@).len() == blen - s - p);
        assert(ops_model(ops@) =~= eq_p + del + ins);
    }
    if s > 0 {
        let t = chars_range_to_string(&a, alen - s, alen);
        proof {
            assert(t@ =~= diff_suffix(a@, b@));
        }
        ops.push(DiffOp::Equal(t));
    }
    proof {
        assert(diff_suffix(a@, b@).len() == s);
        assert(ops_model(ops@) =~= eq_p + del + ins + eq_s);
        assert(ops_model(ops@) =~= spec_diff(a@, b@));
    }
    ops
}

/// Appending one run extends the source and target texts by that run's
/// contribution.
pub proof fn lemma_ops_push(s: Seq<OpModel>, x: OpModel)
    ensures
        ops_src(s.push(x)) =~= ops_src(s) + op_src(x),
        ops_tgt(s.push(x)) =~= ops_tgt(s) + op_tgt(x),
{
    assert(s.push(x) =~= s + seq![x]);
    lemma_ops_concat(s, seq![x]);
    lemma_ops_single(seq![x]);
}

/// `ops_src` and `ops_tgt` of an empty or one-run script.
proof fn lemma_ops_single(x: Seq<OpModel>)
    requires
        x.len() <= 1,
    ensures
        x.len() == 0 ==> ops_src(x) =~= Seq::<char>::empty() && ops_tgt(x) =~= Seq::<
            char,
        >::empty(),
        x.len() == 1 ==> ops_src(x) =~= op_src(x[0]) && ops_tgt(x) =~= op_tgt(x[0]),
{
    if x.len() == 1 {
        assert(x.drop_first().len() == 0);
        assert(ops_src(x) == op_src(x[0]) + ops_src(x.drop_first()));
        assert(ops_src(x.drop_first()) =~= Seq::<char>::empty());
        assert(ops_src(x) =~= op_src(x[0]));
        assert(ops_tgt(x) == op_tgt(x[0]) + ops_tgt(x.drop_first()));
        assert(ops_tgt(x) =~= op_tgt(x[0]));
    }
}

} // verus!
