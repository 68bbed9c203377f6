//! The governing laws of the diff/patch engine.
//!
//! First, a patch made from the diff of `a` to `b`, applied to `a`, yields
//! exactly `b` with every hunk succeeding, and its textual encoding parses
//! back to the same patch. Second, applying that same patch a second time,
//! to its own result `b`, is a recognized no-op: the text stays `b` and
//! every hunk still reports success. Third, the round trip holds not only
//! for diffs but for every edit script: the patch grouped from a script,
//! applied to the script's source text, rebuilds the script's target
//! text.

use vstd::prelude::*;

use crate::diff::OpModel;
use crate::diff::spec_diff;
use crate::diff::diff_prefix;
use crate::diff::diff_deleted;
use crate::diff::diff_inserted;
use crate::diff::diff_suffix;
use crate::diff::common_prefix_len;
use crate::diff::lemma_common_prefix;
use crate::diff::lemma_diff_segments;
use crate::diff::lemma_diff_reads_back;
use crate::diff::ops_src;
use crate::diff::ops_tgt;
use crate::diff::op_src;
use crate::diff::op_tgt;
use crate::hunk::HunkModel;
use crate::hunk::spec_patch;
use crate::hunk::hunks_from;
use crate::hunk::hunks_run;
use crate::hunk::ctx_tail;
use crate::hunk::ctx_head;
use crate::codec::spec_encode;
use crate::codec::spec_parse;
use crate::codec::patch_fits;
use crate::codec::lemma_parse_encode;
use crate::apply::spec_apply;
use crate::apply::fwd_text;
use crate::apply::fwd_flags;
use crate::apply::chk_flags;
use crate::apply::hunk_ok;
use crate::apply::hunk_applied;
use crate::apply::old_pat;
use crate::apply::new_pat;
use crate::apply::matches_at;
use crate::apply::lemma_matches_split;

verus! {

/// The one hunk that the diff of two unequal texts groups into.
pub open spec fn diff_hunk(a: Seq<char>, b: Seq<char>) -> HunkModel {
    HunkModel {
        pos: common_prefix_len(a, b),
        ctx_before: ctx_tail(diff_prefix(a, b)),
        del: diff_deleted(a, b),
        ins: diff_inserted(a, b),
        ctx_after: ctx_head(diff_suffix(a, b)),
    }
}

/// The patch of a diff has the two text lengths in its header and either no
/// hunks (equal texts) or exactly the one middle hunk.
pub proof fn lemma_diff_patch_shape(a: Seq<char>, b: Seq<char>)
    ensures
        spec_patch(spec_diff(a, b)).src_len == a.len(),
        spec_patch(spec_diff(a, b)).tgt_len == b.len(),
        diff_deleted(a, b).len() == 0 && diff_inserted(a, b).len() == 0 ==> spec_patch(
            spec_diff(a, b),
        ).hunks =~= Seq::<HunkModel>::empty(),
        diff_deleted(a, b).len() > 0 || diff_inserted(a, b).len() > 0 ==> spec_patch(
            spec_diff(a, b),
        ).hunks =~= seq![diff_hunk(a, b)],
{
    lemma_diff_reads_back(a, b);
    lemma_diff_segments(a, b);
    lemma_common_prefix(a, b);
    let ops = spec_diff(a, b);
    let p = diff_prefix(a, b);
    let dm = diff_deleted(a, b);
    let im = diff_inserted(a, b);
    let s = diff_suffix(a, b);
    let eq_s: Seq<OpModel> = if s.len() > 0 {
        seq![OpModel::Equal(s)]
    } else {
        Seq::empty()
    };
    if dm.len() == 0 && im.len() == 0 {
        if p.len() > 0 {
            if s.len() > 0 {
                assert(ops =~= seq![OpModel::Equal(p), OpModel::Equal(s)]);
                assert(ops[0] == OpModel::Equal(p));
                assert(ops.drop_first() =~= seq![OpModel::Equal(s)]);
                let r1 = ops.drop_first();
                assert(r1[0] == OpModel::Equal(s));
                assert(r1.drop_first() =~= Seq::<OpModel>::empty());
                assert(hunks_from(ops, 0, Seq::empty()) =~= hunks_from(r1, p.len() as nat, p));
                assert(hunks_from(r1, p.len() as nat, p) =~= hunks_from(
                    r1.drop_first(),
                    p.len() + s.len(),
                    s,
                ));
                assert(hunks_from(r1.drop_first(), p.len() + s.len(), s) =~= Seq::<
                    HunkModel,
                >::empty());
            } else {
                assert(ops =~= seq![OpModel::Equal(p)]);
                assert(ops[0] == OpModel::Equal(p));
                assert(ops.drop_first() =~= Seq::<OpModel>::empty());
                assert(hunks_from(ops, 0, Seq::empty()) =~= hunks_from(
                    ops.drop_first(),
                    p.len() as nat,
                    p,
                ));
                assert(hunks_from(ops.drop_first(), p.len() as nat, p) =~= Seq::<
                    HunkModel,
                >::empty());
            }
        } else {
            if s.len() > 0 {
                assert(ops =~= seq![OpModel::Equal(s)]);
                assert(ops[0] == OpModel::Equal(s));
                assert(ops.drop_first() =~= Seq::<OpModel>::empty());
                assert(hunks_from(ops, 0, Seq::empty()) =~= hunks_from(
                    ops.drop_first(),
                    s.len() as nat,
                    s,
                ));
                assert(hunks_from(ops.drop_first(), s.len() as nat, s) =~= Seq::<
                    HunkModel,
                >::empty());
            } else {
                assert(ops =~= Seq::<OpModel>::empty());
                assert(hunks_from(ops, 0, Seq::empty()) =~= Seq::<HunkModel>::empty());
            }
        }
        assert(spec_patch(ops).hunks =~= Seq::<HunkModel>::empty());
    } else {
        let h = diff_hunk(a, b);
        let run: Seq<OpModel> = if dm.len() > 0 && im.len() > 0 {
            seq![OpModel::Delete(dm), OpModel::Insert(im)]
        } else if dm.len() > 0 {
            seq![OpModel::Delete(dm)]
        } else {
            seq![OpModel::Insert(im)]
        };
        let rest = run + eq_s;
        assert(p.len() == common_prefix_len(a, b));
        lemma_run_shape(rest, dm, im, s, p.len() as nat, p);
        if p.len() > 0 {
            assert(ops =~= seq![OpModel::Equal(p)] + rest);
            assert(ops[0] == OpModel::Equal(p));
            assert(ops.drop_first() =~= rest);
            assert(hunks_from(ops, 0, Seq::empty()) =~= hunks_from(rest, p.len() as nat, p));
        } else {
            assert(ops =~= rest);
            assert(p =~= Seq::<char>::empty());
            assert(hunks_from(ops, 0, Seq::empty()) =~= hunks_from(rest, p.len() as nat, p));
        }
        assert(spec_patch(ops).hunks =~= seq![h]);
    }
}

/// The hunks of a delete/insert run followed by an optional equal tail: one
/// hunk carrying the run, with the tail's head as trailing context.
proof fn lemma_run_shape(
    rest: Seq<OpModel>,
    dm: Seq<char>,
    im: Seq<char>,
    s: Seq<char>,
    pos: nat,
    prev: Seq<char>,
)
    requires
        dm.len() > 0 || im.len() > 0,
        rest =~= (if dm.len() > 0 && im.len() > 0 {
            seq![OpModel::Delete(dm), OpModel::Insert(im)]
        } else if dm.len() > 0 {
            seq![OpModel::Delete(dm)]
        } else {
            seq![OpModel::Insert(im)]
        }) + (if s.len() > 0 {
            seq![OpModel::Equal(s)]
        } else {
            Seq::<OpModel>::empty()
        }),
    ensures
        hunks_from(rest, pos, prev) =~= seq![
            HunkModel {
                pos,
                ctx_before: ctx_tail(prev),
                del: dm,
                ins: im,
                ctx_after: ctx_head(s),
            },
        ],
{
    let eq_s: Seq<OpModel> = if s.len() > 0 {
        seq![OpModel::Equal(s)]
    } else {
        Seq::empty()
    };
    let h = HunkModel { pos, ctx_before: ctx_tail(prev), del: dm, ins: im, ctx_after: ctx_head(s) };
    if s.len() > 0 {
        assert(hunks_from(eq_s, pos + dm.len(), Seq::empty()) =~= hunks_from(
            eq_s.drop_first(),
            pos + dm.len() + s.len(),
            s,
        ));
        assert(eq_s.drop_first() =~= Seq::<OpModel>::empty());
    }
    if dm.len() > 0 && im.len() > 0 {
        assert(rest =~= seq![OpModel::Delete(dm), OpModel::Insert(im)] + eq_s);
        assert(rest[0] == OpModel::Delete(dm));
        assert(rest.drop_first() =~= seq![OpModel::Insert(im)] + eq_s);
        let r1 = rest.drop_first();
        assert(r1[0] == OpModel::Insert(im));
        assert(r1.drop_first() =~= eq_s);
        assert(hunks_from(rest, pos, prev) =~= hunks_run(
            r1,
            pos,
            ctx_tail(prev),
            dm,
            Seq::empty(),
        ));
        assert(hunks_run(r1, pos, ctx_tail(prev), dm, Seq::empty()) =~= hunks_run(
            eq_s,
            pos,
            ctx_tail(prev),
            dm,
            Seq::empty() + im,
        ));
        assert(Seq::empty() + im =~= im);
        if s.len() > 0 {
            assert(eq_s[0] == OpModel::Equal(s));
            assert(hunks_run(eq_s, pos, ctx_tail(prev), dm, im) =~= seq![h] + hunks_from(
                eq_s,
                pos + dm.len(),
                Seq::empty(),
            ));
        } else {
            assert(ctx_head(s) =~= Seq::<char>::empty());
            assert(hunks_run(eq_s, pos, ctx_tail(prev), dm, im) =~= seq![h]);
        }
    } else if dm.len() > 0 {
        assert(rest =~= seq![OpModel::Delete(dm)] + eq_s);
        assert(rest[0] == OpModel::Delete(dm));
        assert(rest.drop_first() =~= eq_s);
        assert(hunks_from(rest, pos, prev) =~= hunks_run(
            eq_s,
            pos,
            ctx_tail(prev),
            dm,
            Seq::empty(),
        ));
        assert(im =~= Seq::<char>::empty());
        if s.len() > 0 {
            assert(eq_s[0] == OpModel::Equal(s));
            assert(hunks_run(eq_s, pos, ctx_tail(prev), dm, im) =~= seq![h] + hunks_from(
                eq_s,
                pos + dm.len(),
                Seq::empty(),
            ));
        } else {
            assert(ctx_head(s) =~= Seq::<char>::empty());
            assert(hunks_run(eq_s, pos, ctx_tail(prev), dm, im) =~= seq![h]);
        }
    } else {
        assert(rest =~= seq![OpModel::Insert(im)] + eq_s);
        assert(rest[0] == OpModel::Insert(im));
        assert(rest.drop_first() =~= eq_s);
        assert(hunks_from(rest, pos, prev) =~= hunks_run(
            eq_s,
            pos,
            ctx_tail(prev),
            Seq::empty(),
            im,
        ));
        assert(dm =~= Seq::<char>::empty());
        if s.len() > 0 {
            assert(eq_s[0] == OpModel::Equal(s));
            assert(hunks_run(eq_s, pos, ctx_tail(prev), dm, im) =~= seq![h] + hunks_from(
                eq_s,
                pos + dm.len(),
                Seq::empty(),
            ));
        } else {
            assert(ctx_head(s) =~= Seq::<char>::empty());
            assert(hunks_run(eq_s, pos, ctx_tail(prev), dm, im) =~= seq![h]);
        }
    }
}

/// The window `ctx_tail(p) ++ mid ++ ctx_head(s)` stands in `p ++ mid ++ s`
/// at the end of `p`.
proof fn lemma_window(text: Seq<char>, p: Seq<char>, mid: Seq<char>, s: Seq<char>)
    requires
        text == p + mid + s,
    ensures
        matches_at(text, p.len() - ctx_tail(p).len(), ctx_tail(p) + mid + ctx_head(s)),
{
    let cb = ctx_tail(p);
    let ca = ctx_head(s);
    let start = p.len() - cb.len();
    assert forall|t: int| 0 <= t < cb.len() implies text.subrange(start, p.len() as int)[t] == cb[
        t
    ] by {
        assert(text[start + t] == (p + mid + s)[start + t]);
        assert(text.subrange(start, p.len() as int)[t] == text[start + t]);
        assert(cb[t] == p[p.len() - cb.len() + t]);
    }
    assert(text.subrange(start, p.len() as int) =~= cb);
    assert(matches_at(text, start, cb));
    assert forall|t: int| 0 <= t < mid.len() implies text.subrange(
        p.len() as int,
        (p.len() + mid.len()) as int,
    )[t] == mid[t] by {
        assert(text[p.len() + t] == (p + mid + s)[p.len() + t]);
        assert(text.subrange(p.len() as int, (p.len() + mid.len()) as int)[t] == text[p.len() + t]);
    }
    assert(text.subrange(p.len() as int, (p.len() + mid.len()) as int) =~= mid);
    assert(matches_at(text, p.len() as int, mid));
    assert forall|t: int| 0 <= t < ca.len() implies text.subrange(
        (p.len() + mid.len()) as int,
        (p.len() + mid.len() + ca.len()) as int,
    )[t] == ca[t] by {
        assert(text[p.len() + mid.len() + t] == (p + mid + s)[p.len() + mid.len() + t]);
        assert(text.subrange((p.len() + mid.len()) as int, (p.len() + mid.len() + ca.len()) as int)[t]
            == text[p.len() + mid.len() + t]);
        assert(ca[t] == s[t]);
    }
    assert(text.subrange((p.len() + mid.len()) as int, (p.len() + mid.len() + ca.len()) as int) =~= ca);
    assert(matches_at(text, (p.len() + mid.len()) as int, ca));
    lemma_matches_split(text, p.len() as int, mid, ca);
    assert(matches_at(text, p.len() as int, mid + ca));
    lemma_matches_split(text, start, cb, mid + ca);
    assert(cb + (mid + ca) =~= cb + mid + ca);
}

/// Round trip of the engine: the patch made from the diff of `a` to `b`
/// encodes to a text that parses back to the same patch, and applying that
/// patch to `a` yields exactly `b` with every hunk reporting success.
pub proof fn lemma_patch_round_trip(a: Seq<char>, b: Seq<char>)
    requires
        a.len() <= usize::MAX,
        b.len() <= usize::MAX,
    ensures
        patch_fits(spec_patch(spec_diff(a, b))),
        spec_parse(spec_encode(spec_patch(spec_diff(a, b)))) == Some(
            spec_patch(spec_diff(a, b)),
        ),
        spec_apply(spec_patch(spec_diff(a, b)), a).0 =~= b,
        spec_apply(spec_patch(spec_diff(a, b)), a).1 =~= Seq::new(
            spec_patch(spec_diff(a, b)).hunks.len(),
            |k: int| true,
        ),
{
    lemma_diff_patch_shape(a, b);
    lemma_diff_segments(a, b);
    lemma_common_prefix(a, b);
    let pm = spec_patch(spec_diff(a, b));
    let p = diff_prefix(a, b);
    let dm = diff_deleted(a, b);
    let im = diff_inserted(a, b);
    let s = diff_suffix(a, b);
    if dm.len() == 0 && im.len() == 0 {
        assert(a =~= b);
        assert(patch_fits(pm));
        lemma_parse_encode(pm);
        assert(spec_apply(pm, a).0 =~= b);
        assert(spec_apply(pm, a).1 =~= Seq::new(0, |k: int| true));
    } else {
        let h = diff_hunk(a, b);
        assert(pm.hunks =~= seq![h]);
        assert(h.pos == p.len());
        assert(h.ctx_before.len() <= p.len());
        assert(patch_fits(pm));
        lemma_parse_encode(pm);
        lemma_window(a, p, dm, s);
        assert(matches_at(a, h.pos - h.ctx_before.len(), old_pat(h)));
        assert(hunk_ok(h, a, 0));
        assert(pm.hunks.drop_first() =~= Seq::<HunkModel>::empty());
        let after = (h.pos + dm.len()) as nat;
        assert(fwd_text(pm.hunks, a, 0) =~= a.subrange(0, h.pos as int) + im + fwd_text(
            pm.hunks.drop_first(),
            a,
            after,
        ));
        assert(fwd_text(pm.hunks.drop_first(), a, after) =~= a.skip(after as int));
        assert(a.subrange(0, h.pos as int) =~= p);
        assert(a.skip(after as int) =~= s);
        assert(p + im + s =~= b);
        assert(spec_apply(pm, a).0 =~= b);
        assert(fwd_flags(pm.hunks, a, 0) =~= seq![true] + fwd_flags(
            pm.hunks.drop_first(),
            a,
            after,
        ));
        assert(spec_apply(pm, a).1 =~= Seq::new(1, |k: int| true));
    }
}

/// Idempotence of application: the patch made from the diff of `a` to `b`,
/// applied a second time — to its own result `b` — leaves `b` unchanged and
/// still reports success for every hunk.
pub proof fn lemma_patch_reapply_noop(a: Seq<char>, b: Seq<char>)
    ensures
        spec_apply(spec_patch(spec_diff(a, b)), b).0 =~= b,
        spec_apply(spec_patch(spec_diff(a, b)), b).1 =~= Seq::new(
            spec_patch(spec_diff(a, b)).hunks.len(),
            |k: int| true,
        ),
{
    lemma_diff_patch_shape(a, b);
    lemma_diff_segments(a, b);
    lemma_common_prefix(a, b);
    let pm = spec_patch(spec_diff(a, b));
    let p = diff_prefix(a, b);
    let dm = diff_deleted(a, b);
    let im = diff_inserted(a, b);
    let s = diff_suffix(a, b);
    if dm.len() == 0 && im.len() == 0 {
        assert(spec_apply(pm, b).1 =~= Seq::new(0, |k: int| true));
    } else {
        let h = diff_hunk(a, b);
        assert(pm.hunks =~= seq![h]);
        assert(pm.hunks.drop_first() =~= Seq::<HunkModel>::empty());
        lemma_window(b, p, im, s);
        assert(matches_at(b, h.pos - h.ctx_before.len(), new_pat(h)));
        assert(hunk_applied(h, b, 0));
        if b.len() == pm.src_len {
            assert(dm.len() == im.len());
            assert(dm.len() > 0 && im.len() > 0);
            assert(!hunk_ok(h, b, 0)) by {
                if matches_at(b, h.pos - h.ctx_before.len(), old_pat(h)) {
                    lemma_matches_split(b, h.pos - h.ctx_before.len(), h.ctx_before, dm
                        + h.ctx_after);
                    lemma_matches_split(b, h.pos as int, dm, h.ctx_after);
                    assert(h.ctx_before + dm + h.ctx_after =~= h.ctx_before + (dm + h.ctx_after));
                    assert(matches_at(b, h.pos as int, dm));
                    assert(b.subrange(h.pos as int, (h.pos + dm.len()) as int) =~= dm);
                    assert forall|t: int| 0 <= t < im.len() implies b.subrange(
                        h.pos as int,
                        (h.pos + im.len()) as int,
                    )[t] == im[t] by {
                        assert(b[h.pos + t] == (p + im + s)[p.len() + t]);
                        assert(b.subrange(h.pos as int, (h.pos + im.len()) as int)[t] == b[h.pos + t]);
                    }
                    assert(b.subrange(h.pos as int, (h.pos + im.len()) as int) =~= im);
                    assert(dm =~= im);
                    assert(a =~= p + dm + s);
                    assert(a =~= b);
                    assert(common_prefix_len(a, b) == a.len()) by {
                        if common_prefix_len(a, b) < a.len() {
                            assert(a[common_prefix_len(a, b) as int] != b[common_prefix_len(
                                a,
                                b,
                            ) as int]);
                        }
                    }
                    assert(diff_deleted(a, b).len() == 0);
                    assert(false);
                }
            }
            let after = (h.pos + im.len()) as nat;
            assert(fwd_text(pm.hunks, b, 0) =~= b.subrange(0, after as int) + fwd_text(
                pm.hunks.drop_first(),
                b,
                after,
            ));
            assert(fwd_text(pm.hunks.drop_first(), b, after) =~= b.skip(after as int));
            assert(fwd_text(pm.hunks, b, 0) =~= b);
            assert(fwd_flags(pm.hunks, b, 0) =~= seq![true] + fwd_flags(
                pm.hunks.drop_first(),
                b,
                after,
            ));
            assert(spec_apply(pm, b).1 =~= Seq::new(1, |k: int| true));
        } else {
            assert(b.len() == pm.tgt_len);
            assert(chk_flags(pm.hunks, b, 0, 0) =~= seq![true] + chk_flags(
                pm.hunks.drop_first(),
                b,
                (h.pos + h.del.len()) as nat,
                (h.pos + h.ins.len()) as nat,
            ));
            assert(spec_apply(pm, b).1 =~= Seq::new(1, |k: int| true));
        }
    }
}

/// A run in progress always yields at least one hunk.
proof fn lemma_hunks_run_nonempty(
    ops: Seq<OpModel>,
    run_pos: nat,
    cb: Seq<char>,
    del: Seq<char>,
    ins: Seq<char>,
)
    ensures
        hunks_run(ops, run_pos, cb, del, ins).len() >= 1,
    decreases ops.len(),
{
    if ops.len() > 0 {
        match ops[0] {
            OpModel::Equal(_) => {},
            OpModel::Delete(t) => {
                lemma_hunks_run_nonempty(ops.drop_first(), run_pos, cb, del + t, ins);
            },
            OpModel::Insert(t) => {
                lemma_hunks_run_nonempty(ops.drop_first(), run_pos, cb, del, ins + t);
            },
        }
    }
}

/// A script that groups into no hunks changes nothing: its source and
/// target texts are equal.
proof fn lemma_no_hunks_no_change(ops: Seq<OpModel>, pos: nat, prev: Seq<char>)
    requires
        hunks_from(ops, pos, prev).len() == 0,
    ensures
        ops_src(ops) =~= ops_tgt(ops),
    decreases ops.len(),
{
    if ops.len() > 0 {
        match ops[0] {
            OpModel::Equal(t) => {
                lemma_no_hunks_no_change(ops.drop_first(), pos + t.len(), t);
            },
            OpModel::Delete(t) => {
                lemma_hunks_run_nonempty(ops.drop_first(), pos, ctx_tail(prev), t, Seq::empty());
            },
            OpModel::Insert(t) => {
                lemma_hunks_run_nonempty(ops.drop_first(), pos, ctx_tail(prev), Seq::empty(), t);
            },
        }
    }
}

/// Forward application of the hunks grouped from `ops`, scanned outside a
/// run: with the text before `pos` already true to the source and `prev`
/// standing right before `pos`, the rest of the output is the not-yet-copied
/// text followed by the script's target side, every hunk succeeding.
proof fn lemma_fwd_from(ops: Seq<OpModel>, base: Seq<char>, pos: nat, prev: Seq<char>, src_i: nat)
    requires
        src_i <= pos <= base.len(),
        prev.len() <= pos,
        base.subrange(pos - prev.len(), pos as int) == prev,
        base.skip(pos as int) == ops_src(ops),
    ensures
        fwd_text(hunks_from(ops, pos, prev), base, src_i) =~= base.subrange(
            src_i as int,
            pos as int,
        ) + ops_tgt(ops),
        fwd_flags(hunks_from(ops, pos, prev), base, src_i).len() == hunks_from(
            ops,
            pos,
            prev,
        ).len(),
        forall|k: int|
            0 <= k < hunks_from(ops, pos, prev).len() ==> fwd_flags(
                hunks_from(ops, pos, prev),
                base,
                src_i,
            )[k],
    decreases ops.len(), 0nat,
{
    assert(ops_src(ops).len() == base.len() - pos);
    if ops.len() == 0 {
        assert(base.len() == pos);
        assert(fwd_text(Seq::<HunkModel>::empty(), base, src_i) == base.skip(src_i as int));
        assert(base.skip(src_i as int) =~= base.subrange(src_i as int, pos as int)
            + ops_tgt(ops));
    } else {
        let rest = ops.drop_first();
        assert(ops_src(ops) == op_src(ops[0]) + ops_src(rest));
        assert(ops_tgt(ops) == op_tgt(ops[0]) + ops_tgt(rest));
        match ops[0] {
            OpModel::Equal(t) => {
                let pos2 = pos + t.len();
                assert forall|u: int| 0 <= u < ops_src(ops).len() implies base[pos + u]
                    == ops_src(ops)[u] by {
                    assert(base.skip(pos as int)[u] == base[pos + u]);
                }
                assert(base.subrange(pos2 - t.len(), pos2 as int) =~= t);
                assert forall|u: int| 0 <= u < ops_src(rest).len() implies base.skip(
                    pos2 as int,
                )[u] == ops_src(rest)[u] by {
                    assert(base.skip(pos2 as int)[u] == base[pos2 + u]);
                    assert(base[pos + (t.len() + u)] == ops_src(ops)[t.len() + u]);
                }
                assert(base.skip(pos2 as int) =~= ops_src(rest));
                lemma_fwd_from(rest, base, pos2, t, src_i);
                assert(base.subrange(src_i as int, pos2 as int) =~= base.subrange(
                    src_i as int,
                    pos as int,
                ) + t);
                assert(base.subrange(src_i as int, pos as int) + t + ops_tgt(rest)
                    =~= base.subrange(src_i as int, pos as int) + (t + ops_tgt(rest)));
            },
            OpModel::Delete(t) => {
                let cb = ctx_tail(prev);
                assert(cb =~= prev.skip(prev.len() - cb.len()));
                assert forall|u: int| 0 <= u < cb.len() implies base.subrange(
                    pos - cb.len(),
                    pos as int,
                )[u] == cb[u] by {
                    assert(base.subrange(pos - prev.len(), pos as int)[prev.len() - cb.len()
                        + u] == prev[prev.len() - cb.len() + u]);
                    assert(base.subrange(pos - cb.len(), pos as int)[u] == base[pos - cb.len()
                        + u]);
                    assert(base.subrange(pos - prev.len(), pos as int)[prev.len() - cb.len()
                        + u] == base[pos - cb.len() + u]);
                }
                assert(base.subrange(pos - cb.len(), pos as int) =~= cb);
                assert(base.skip(pos as int) =~= t + ops_src(rest));
                lemma_fwd_run(rest, base, pos, cb, t, Seq::empty(), src_i);
                assert(base.subrange(src_i as int, pos as int) + Seq::<char>::empty()
                    + ops_tgt(rest) =~= base.subrange(src_i as int, pos as int) + ops_tgt(ops));
            },
            OpModel::Insert(t) => {
                let cb = ctx_tail(prev);
                assert(cb =~= prev.skip(prev.len() - cb.len()));
                assert forall|u: int| 0 <= u < cb.len() implies base.subrange(
                    pos - cb.len(),
                    pos as int,
                )[u] == cb[u] by {
                    assert(base.subrange(pos - prev.len(), pos as int)[prev.len() - cb.len()
                        + u] == prev[prev.len() - cb.len() + u]);
                    assert(base.subrange(pos - cb.len(), pos as int)[u] == base[pos - cb.len()
                        + u]);
                    assert(base.subrange(pos - prev.len(), pos as int)[prev.len() - cb.len()
                        + u] == base[pos - cb.len() + u]);
                }
                assert(base.subrange(pos - cb.len(), pos as int) =~= cb);
                assert(base.skip(pos as int) =~= Seq::<char>::empty() + ops_src(rest));
                lemma_fwd_run(rest, base, pos, cb, Seq::empty(), t, src_i);
                assert(base.subrange(src_i as int, pos as int) + t + ops_tgt(rest)
                    =~= base.subrange(src_i as int, pos as int) + ops_tgt(ops));
            },
        }
    }
}

/// Forward application of the hunks grouped from `ops`, scanned inside a
/// run that started at `run_pos`: the run's deleted text stands at
/// `run_pos` in the source, its leading context right before it, and the
/// output continues with the accumulated inserted text followed by the
/// remaining script's target side, every hunk succeeding.
proof fn lemma_fwd_run(
    ops: Seq<OpModel>,
    base: Seq<char>,
    run_pos: nat,
    cb: Seq<char>,
    del: Seq<char>,
    ins: Seq<char>,
    src_i: nat,
)
    requires
        src_i <= run_pos <= base.len(),
        cb.len() <= run_pos,
        base.subrange(run_pos - cb.len(), run_pos as int) == cb,
        base.skip(run_pos as int) == del + ops_src(ops),
    ensures
        fwd_text(hunks_run(ops, run_pos, cb, del, ins), base, src_i) =~= base.subrange(
            src_i as int,
            run_pos as int,
        ) + ins + ops_tgt(ops),
        fwd_flags(hunks_run(ops, run_pos, cb, del, ins), base, src_i).len() == hunks_run(
            ops,
            run_pos,
            cb,
            del,
            ins,
        ).len(),
        forall|k: int|
            0 <= k < hunks_run(ops, run_pos, cb, del, ins).len() ==> fwd_flags(
                hunks_run(ops, run_pos, cb, del, ins),
                base,
                src_i,
            )[k],
    decreases ops.len(), 1nat,
{
    assert(matches_at(base, run_pos - cb.len(), cb));
    assert((del + ops_src(ops)).len() == base.len() - run_pos);
    assert forall|u: int| 0 <= u < del.len() + ops_src(ops).len() implies base[run_pos + u] == (
    del + ops_src(ops))[u] by {
        assert(base.skip(run_pos as int)[u] == base[run_pos + u]);
    }
    assert forall|u: int| 0 <= u < del.len() implies base.subrange(
        run_pos as int,
        (run_pos + del.len()) as int,
    )[u] == del[u] by {
        assert(base[run_pos + u] == (del + ops_src(ops))[u]);
        assert(base.subrange(run_pos as int, (run_pos + del.len()) as int)[u] == base[run_pos
            + u]);
    }
    assert(base.subrange(run_pos as int, (run_pos + del.len()) as int) =~= del);
    assert(matches_at(base, run_pos as int, del));
    if ops.len() == 0 {
        let h = HunkModel {
            pos: run_pos,
            ctx_before: cb,
            del,
            ins,
            ctx_after: Seq::empty(),
        };
        let hs = hunks_run(ops, run_pos, cb, del, ins);
        assert(hs =~= seq![h]);
        assert(base.len() == run_pos + del.len());
        assert(base.subrange((run_pos + del.len()) as int, (run_pos + del.len()) as int) =~= Seq::<char>::empty());
        assert(matches_at(base, (run_pos + del.len()) as int, Seq::<char>::empty()));
        lemma_matches_split(base, run_pos as int, del, Seq::empty());
        lemma_matches_split(base, run_pos - cb.len(), cb, del + Seq::empty());
        assert(cb + (del + Seq::<char>::empty()) =~= old_pat(h));
        assert(hunk_ok(h, base, src_i));
        assert(hs.drop_first() =~= Seq::<HunkModel>::empty());
        assert(fwd_text(hs.drop_first(), base, run_pos + del.len()) == base.skip(
            (run_pos + del.len()) as int,
        ));
        assert(base.skip((run_pos + del.len()) as int) =~= Seq::<char>::empty());
        assert(fwd_text(hs, base, src_i) =~= base.subrange(src_i as int, run_pos as int) + ins
            + ops_tgt(ops));
        assert(fwd_flags(hs.drop_first(), base, (run_pos + del.len()) as nat) =~= Seq::<
            bool,
        >::empty());
        assert(fwd_flags(hs, base, src_i) =~= seq![true] + fwd_flags(
            hs.drop_first(),
            base,
            (run_pos + del.len()) as nat,
        ));
        assert(fwd_flags(hs, base, src_i) =~= seq![true]);
    } else {
        let rest = ops.drop_first();
        assert(ops_src(ops) == op_src(ops[0]) + ops_src(rest));
        assert(ops_tgt(ops) == op_tgt(ops[0]) + ops_tgt(rest));
        match ops[0] {
            OpModel::Equal(t) => {
                let ca = ctx_head(t);
                let h = HunkModel { pos: run_pos, ctx_before: cb, del, ins, ctx_after: ca };
                let hs = hunks_run(ops, run_pos, cb, del, ins);
                let tail = hunks_from(ops, run_pos + del.len(), Seq::empty());
                assert(hs =~= seq![h] + tail);
                assert(ca =~= t.take(ca.len() as int));
                assert forall|u: int| 0 <= u < ca.len() implies base.subrange(
                    (run_pos + del.len()) as int,
                    (run_pos + del.len() + ca.len()) as int,
                )[u] == ca[u] by {
                    assert(base[run_pos + (del.len() + u)] == (del + ops_src(ops))[del.len()
                        + u]);
                    assert((op_src(ops[0]) + ops_src(rest))[u] == t[u]);
                    assert(base.subrange((run_pos + del.len()) as int, (run_pos + del.len()
                        + ca.len()) as int)[u] == base[run_pos + del.len() + u]);
                }
                assert(base.subrange((run_pos + del.len()) as int, (run_pos + del.len()
                    + ca.len()) as int) =~= ca);
                assert(matches_at(base, (run_pos + del.len()) as int, ca));
                lemma_matches_split(base, run_pos as int, del, ca);
                lemma_matches_split(base, run_pos - cb.len(), cb, del + ca);
                assert(cb + (del + ca) =~= old_pat(h));
                assert(hunk_ok(h, base, src_i));
                let pos2 = run_pos + del.len();
                assert(base.subrange(pos2 as int, pos2 as int) =~= Seq::<char>::empty());
                assert forall|u: int| 0 <= u < ops_src(ops).len() implies base.skip(
                    pos2 as int,
                )[u] == ops_src(ops)[u] by {
                    assert(base.skip(pos2 as int)[u] == base[pos2 + u]);
                    assert(base[run_pos + (del.len() + u)] == (del + ops_src(ops))[del.len()
                        + u]);
                }
                assert(base.skip(pos2 as int) =~= ops_src(ops));
                lemma_fwd_from(ops, base, pos2, Seq::empty(), pos2);
                assert((seq![h] + tail)[0] == h);
                assert((seq![h] + tail).drop_first() =~= tail);
                assert(fwd_flags(hs, base, src_i) =~= seq![true] + fwd_flags(
                    tail,
                    base,
                    pos2,
                ));
                assert(fwd_text(hs, base, src_i) =~= base.subrange(
                    src_i as int,
                    run_pos as int,
                ) + ins + (base.subrange(pos2 as int, pos2 as int) + ops_tgt(ops)));
                assert(base.subrange(src_i as int, run_pos as int) + ins + (base.subrange(
                    pos2 as int,
                    pos2 as int,
                ) + ops_tgt(ops)) =~= base.subrange(src_i as int, run_pos as int) + ins
                    + ops_tgt(ops));
            },
            OpModel::Delete(t) => {
                assert(base.skip(run_pos as int) =~= (del + t) + ops_src(rest));
                lemma_fwd_run(rest, base, run_pos, cb, del + t, ins, src_i);
            },
            OpModel::Insert(t) => {
                assert(base.skip(run_pos as int) =~= del + ops_src(rest));
                lemma_fwd_run(rest, base, run_pos, cb, del, ins + t, src_i);
                assert(base.subrange(src_i as int, run_pos as int) + (ins + t) + ops_tgt(rest)
                    =~= base.subrange(src_i as int, run_pos as int) + ins + (t + ops_tgt(
                    rest,
                )));
            },
        }
    }
}

/// Round trip of patch building for any edit script: the patch grouped
/// from a script, applied to the script's own source text, yields exactly
/// the script's target text with every hunk reporting success.
pub proof fn lemma_script_round_trip(ops: Seq<OpModel>)
    ensures
        spec_apply(spec_patch(ops), ops_src(ops)).0 =~= ops_tgt(ops),
        spec_apply(spec_patch(ops), ops_src(ops)).1.len() == spec_patch(ops).hunks.len(),
        forall|k: int|
            0 <= k < spec_apply(spec_patch(ops), ops_src(ops)).1.len() ==> spec_apply(
                spec_patch(ops),
                ops_src(ops),
            ).1[k],
{
    let pm = spec_patch(ops);
    let base = ops_src(ops);
    if pm.hunks.len() == 0 {
        lemma_no_hunks_no_change(ops, 0, Seq::empty());
    } else {
        assert(base.skip(0) =~= ops_src(ops));
        assert(base.subrange(0, 0) =~= Seq::<char>::empty());
        lemma_fwd_from(ops, base, 0, Seq::empty(), 0);
        assert(base.subrange(0, 0) + ops_tgt(ops) =~= ops_tgt(ops));
    }
}

} // verus!
