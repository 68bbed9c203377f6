//! Grouping of an edit script into context-bearing hunks.
//!
//! A hunk is one maximal run of delete/insert operations, anchored at its
//! source position and carrying up to `CONTEXT_MARGIN` characters of the
//! unchanged text on either side, so that a receiver can check that the
//! patch still fits the text it is applied to.

use vstd::prelude::*;

use crate::diff::DiffOp;
use crate::diff::OpModel;
use crate::diff::ops_model;
use crate::diff::ops_src;
use crate::diff::ops_tgt;
use crate::diff::op_src;
use crate::diff::lemma_ops_concat;
use crate::text::str_to_chars;
use crate::text::chars_range_to_string;

verus! {

/// How many characters of unchanged text a hunk keeps on each side.
pub const CONTEXT_MARGIN: usize = 4;

/// Mathematical model of one hunk. `pos` is the character position in the
/// source text where the deleted run starts; `ctx_before` ends at `pos`.
pub struct HunkModel {
    pub pos: nat,
    pub ctx_before: Seq<char>,
    pub del: Seq<char>,
    pub ins: Seq<char>,
    pub ctx_after: Seq<char>,
}

/// One located, context-anchored unit of a patch.
#[derive(Debug, Clone)]
pub struct Hunk {
    pub pos: usize,
    pub ctx_before: String,
    pub del: String,
    pub ins: String,
    pub ctx_after: String,
}

impl View for Hunk {
    type V = HunkModel;

    open spec fn view(&self) -> HunkModel {
        HunkModel {
            pos: self.pos as nat,
            ctx_before: self.ctx_before@,
            del: self.del@,
            ins: self.ins@,
            ctx_after: self.ctx_after@,
        }
    }
}

/// Mathematical model of a whole patch: the lengths of the texts it was made
/// from and its hunks in source order.
pub struct PatchModel {
    pub src_len: nat,
    pub tgt_len: nat,
    pub hunks: Seq<HunkModel>,
}

/// A parsed or freshly built patch.
#[derive(Debug, Clone)]
pub struct TextPatch {
    pub src_len: usize,
    pub tgt_len: usize,
    pub hunks: Vec<Hunk>,
}

/// The models of a vector of hunks.
pub open spec fn hunks_model(hunks: Seq<Hunk>) -> Seq<HunkModel> {
    hunks.map_values(|h: Hunk| h@)
}

impl View for TextPatch {
    type V = PatchModel;

    open spec fn view(&self) -> PatchModel {
        PatchModel {
            src_len: self.src_len as nat,
            tgt_len: self.tgt_len as nat,
            hunks: hunks_model(self.hunks@),
        }
    }
}

/// The last `CONTEXT_MARGIN` characters of `t` (all of `t` if shorter).
pub open spec fn ctx_tail(t: Seq<char>) -> Seq<char> {
    if t.len() <= CONTEXT_MARGIN {
        t
    } else {
        t.skip(t.len() - CONTEXT_MARGIN)
    }
}

/// The first `CONTEXT_MARGIN` characters of `t` (all of `t` if shorter).
pub open spec fn ctx_head(t: Seq<char>) -> Seq<char> {
    if t.len() <= CONTEXT_MARGIN {
        t
    } else {
        t.take(CONTEXT_MARGIN as int)
    }
}

/// Hunks of the script `ops`, scanned outside a delete/insert run. `pos` is
/// the source position already consumed and `prev` the text of the equal run
/// just passed (empty at the start).
pub open spec fn hunks_from(ops: Seq<OpModel>, pos: nat, prev: Seq<char>) -> Seq<HunkModel>
    decreases ops.len(), 0nat,
{
    if ops.len() == 0 {
        Seq::empty()
    } else {
        match ops[0] {
            OpModel::Equal(t) => hunks_from(ops.drop_first(), pos + t.len(), t),
            OpModel::Delete(t) => hunks_run(ops.drop_first(), pos, ctx_tail(prev), t, Seq::empty()),
            OpModel::Insert(t) => hunks_run(ops.drop_first(), pos, ctx_tail(prev), Seq::empty(), t),
        }
    }
}

/// Hunks of the script `ops`, scanned inside a delete/insert run that
/// started at source position `run_pos` with leading context `cb` and has
/// accumulated the deleted text `del` and the inserted text `ins`.
pub open spec fn hunks_run(
    ops: Seq<OpModel>,
    run_pos: nat,
    cb: Seq<char>,
    del: Seq<char>,
    ins: Seq<char>,
) -> Seq<HunkModel>
    decreases ops.len(), 1nat,
{
    if ops.len() == 0 {
        seq![
            HunkModel { pos: run_pos, ctx_before: cb, del, ins, ctx_after: Seq::empty() },
        ]
    } else {
        match ops[0] {
            OpModel::Equal(t) => seq![
                HunkModel { pos: run_pos, ctx_before: cb, del, ins, ctx_after: ctx_head(t) },
            ] + hunks_from(ops, run_pos + del.len(), Seq::empty()),
            OpModel::Delete(t) => hunks_run(ops.drop_first(), run_pos, cb, del + t, ins),
            OpModel::Insert(t) => hunks_run(ops.drop_first(), run_pos, cb, del, ins + t),
        }
    }
}

/// The patch describing the edit script `ops`.
pub open spec fn spec_patch(ops: Seq<OpModel>) -> PatchModel {
    PatchModel {
        src_len: ops_src(ops).len(),
        tgt_len: ops_tgt(ops).len(),
        hunks: hunks_from(ops, 0, Seq::empty()),
    }
}

/// Splitting a script anywhere splits its source and target texts.
pub proof fn lemma_ops_split(ops: Seq<OpModel>, i: int)
    requires
        0 <= i <= ops.len(),
    ensures
        ops_src(ops) =~= ops_src(ops.take(i)) + ops_src(ops.skip(i)),
        ops_tgt(ops) =~= ops_tgt(ops.take(i)) + ops_tgt(ops.skip(i)),
{
    assert(ops =~= ops.take(i) + ops.skip(i));
    lemma_ops_concat(ops.take(i), ops.skip(i));
}

/// Total lengths of the source and target sides of `ops`.
fn script_lengths(ops: &Vec<DiffOp>) -> (r: (usize, usize))
    requires
        ops_src(ops_model(ops@)).len() <= usize::MAX,
        ops_tgt(ops_model(ops@)).len() <= usize::MAX,
    ensures
        r.0 == ops_src(ops_model(ops@)).len(),
        r.1 == ops_tgt(ops_model(ops@)).len(),
{
    let ghost m = ops_model(ops@);
    let mut src: usize = 0;
    let mut tgt: usize = 0;
    let n = ops.len();
    let mut i: usize = 0;
    while i < n
        invariant
            n == ops@.len(),
            m == ops_model(ops@),
            i <= n,
            src == ops_src(m.take(i as int)).len(),
            tgt == ops_tgt(m.take(i as int)).len(),
            ops_src(m).len() <= usize::MAX,
            ops_tgt(m).len() <= usize::MAX,
        decreases n - i,
    {
        proof {
            assert(m.take(i + 1) =~= m.take(i as int).push(m[i as int]));
            crate::diff::lemma_ops_push(m.take(i as int), m[i as int]);
            lemma_ops_split(m, i + 1);
        }
        match &ops[i] {
            DiffOp::Equal(t) => {
                let l = t.unicode_len();
                src = src + l;
                tgt = tgt + l;
            },
            DiffOp::Delete(t) => {
                let l = t.unicode_len();
                src = src + l;
            },
            DiffOp::Insert(t) => {
                let l = t.unicode_len();
                tgt = tgt + l;
            },
        }
        i = i + 1;
    }
    proof {
        assert(m.take(n as int) =~= m);
    }
    (src, tgt)
}

/// Groups the edit script `ops` into a patch, as `spec_patch` describes:
/// each maximal delete/insert run becomes one hunk at its source position,
/// with up to `CONTEXT_MARGIN` characters of unchanged context on each side.
pub fn build_patch(ops: &Vec<DiffOp>) -> (p: TextPatch)
    requires
        ops_src(ops_model(ops@)).len() <= usize::MAX,
        ops_tgt(ops_model(ops@)).len() <= usize::MAX,
    ensures
        p@ == spec_patch(ops_model(ops@)),
{
    let ghost m = ops_model(ops@);
    let (src_total, tgt_total) = script_lengths(ops);
    let mut hunks: Vec<Hunk> = Vec::new();
    let n = ops.len();
    let mut i: usize = 0;
    let mut in_run: bool = false;
    let mut pos: usize = 0;
    let mut prev: String = String::new();
    let mut run_pos: usize = 0;
    let mut cb: String = String::new();
    let mut del: String = String::new();
    let mut del_chars: usize = 0;
    let mut ins: String = String::new();
    let ghost target = hunks_from(m, 0, Seq::empty());
    proof {
        assert(m.skip(0) =~= m);
        assert(hunks_model(hunks@) =~= Seq::<HunkModel>::empty());
    }
    while i < n
        invariant
            n == ops@.len(),
            m == ops_model(ops@),
            i <= n,
            ops_src(m).len() <= usize::MAX,
            del_chars == del@.len(),
            !in_run ==> pos + ops_src(m.skip(i as int)).len() <= usize::MAX && target
                =~= hunks_model(hunks@) + hunks_from(m.skip(i as int), pos as nat, prev@),
            in_run ==> run_pos + del@.len() + ops_src(m.skip(i as int)).len() <= usize::MAX
                && target =~= hunks_model(hunks@) + hunks_run(
                m.skip(i as int),
                run_pos as nat,
                cb@,
                del@,
                ins@,
            ),
        decreases n - i,
    {
        let ghost rest = m.skip(i as int);
        let ghost pos0 = pos as nat;
        let ghost prev0 = prev@;
        let ghost run_pos0 = run_pos as nat;
        let ghost cb0 = cb@;
        let ghost del0 = del@;
        let ghost ins0 = ins@;
        let ghost in_run0 = in_run;
        proof {
            assert(rest.drop_first() =~= m.skip(i + 1));
            assert(rest[0] == m[i as int]);
            assert(ops_src(rest) == op_src(rest[0]) + ops_src(rest.drop_first()));
        }
        match &ops[i] {
            DiffOp::Equal(t) => {
                if in_run {
                    let ca = ctx_head_exec(t.as_str());
                    let h = Hunk {
                        pos: run_pos,
                        ctx_before: cb,
                        del,
                        ins,
                        ctx_after: ca,
                    };
                    proof {
                        assert(hunks_model(hunks@.push(h)) =~= hunks_model(hunks@).push(h@));
                        assert(hunks_run(rest, run_pos0, cb0, del0, ins0) =~= seq![h@]
                            + hunks_from(rest, run_pos0 + del0.len(), Seq::empty()));
                    }
                    hunks.push(h);
                    pos = run_pos + del_chars;
                    cb = String::new();
                    del = String::new();
                    del_chars = 0;
                    ins = String::new();
                    in_run = false;
                    proof {
                        assert(target =~= hunks_model(hunks@) + hunks_from(
                            rest,
                            pos as nat,
                            Seq::empty(),
                        ));
                        assert(hunks_from(rest, pos as nat, Seq::empty()) =~= hunks_from(
                            rest.drop_first(),
                            pos as nat + t@.len(),
                            t@,
                        ));
                    }
                } else {
                    proof {
                        assert(hunks_from(rest, pos0, prev0) =~= hunks_from(
                            rest.drop_first(),
                            pos0 + t@.len(),
                            t@,
                        ));
                    }
                }
                let l = t.unicode_len();
                pos = pos + l;
                prev = t.clone();
            },
            DiffOp::Delete(t) => {
                if !in_run {
                    run_pos = pos;
                    cb = ctx_tail_exec(prev.as_str());
                    del = String::new();
                    del_chars = 0;
                    ins = String::new();
                    in_run = true;
                    proof {
                        assert(hunks_from(rest, pos0, prev0) =~= hunks_run(
                            rest.drop_first(),
                            pos0,
                            ctx_tail(prev0),
                            t@,
                            Seq::empty(),
                        ));
                    }
                } else {
                    proof {
                        assert(hunks_run(rest, run_pos0, cb0, del0, ins0) =~= hunks_run(
                            rest.drop_first(),
                            run_pos0,
                            cb0,
                            del0 + t@,
                            ins0,
                        ));
                    }
                }
                let l = t.unicode_len();
                del.append(t.as_str());
                del_chars = del_chars + l;
                proof {
                    if !in_run0 {
                        assert(del@ =~= t@);
                    }
                }
            },
            DiffOp::Insert(t) => {
                if !in_run {
                    run_pos = pos;
                    cb = ctx_tail_exec(prev.as_str());
                    del = String::new();
                    del_chars = 0;
                    ins = String::new();
                    in_run = true;
                    proof {
                        assert(hunks_from(rest, pos0, prev0) =~= hunks_run(
                            rest.drop_first(),
                            pos0,
                            ctx_tail(prev0),
                            Seq::empty(),
                            t@,
                        ));
                    }
                } else {
                    proof {
                        assert(hunks_run(rest, run_pos0, cb0, del0, ins0) =~= hunks_run(
                            rest.drop_first(),
                            run_pos0,
                            cb0,
                            del0,
                            ins0 + t@,
                        ));
                    }
                }
                ins.append(t.as_str());
                proof {
                    if !in_run0 {
                        assert(ins@ =~= t@);
                    }
                }
            },
        }
        i = i + 1;
    }
    proof {
        assert(m.skip(n as int) =~= Seq::<OpModel>::empty());
    }
    if in_run {
        let h = Hunk {
            pos: run_pos,
            ctx_before: cb,
            del,
            ins,
            ctx_after: String::new(),
        };
        proof {
            assert(hunks_model(hunks@.push(h)) =~= hunks_model(hunks@).push(h@));
        }
        hunks.push(h);
    }
    proof {
        assert(hunks_model(hunks@) =~= target);
    }
    TextPatch { src_len: src_total, tgt_len: tgt_total, hunks }
}

/// The last `CONTEXT_MARGIN` characters of `t`, as a string.
pub fn ctx_tail_exec(t: &str) -> (r: String)
    ensures
        r@ == ctx_tail(t@),
{
    let v = str_to_chars(t);
    let n = v.len();
    if n <= CONTEXT_MARGIN {
        let r = chars_range_to_string(&v, 0, n);
        proof {
            assert(v@.subrange(0, n as int) =~= t@);
        }
        r
    } else {
        chars_range_to_string(&v, n - CONTEXT_MARGIN, n)
    }
}

/// The first `CONTEXT_MARGIN` characters of `t`, as a string.
pub fn ctx_head_exec(t: &str) -> (r: String)
    ensures
        r@ == ctx_head(t@),
{
    let v = str_to_chars(t);
    let n = v.len();
    if n <= CONTEXT_MARGIN {
        let r = chars_range_to_string(&v, 0, n);
        proof {
            assert(v@.subrange(0, n as int) =~= t@);
        }
        r
    } else {
        chars_range_to_string(&v, 0, CONTEXT_MARGIN)
    }
}

} // verus!
