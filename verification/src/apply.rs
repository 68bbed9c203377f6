//! Application of a patch to a base text.
//!
//! Each hunk is located at its recorded source position and applied only
//! when its whole window — leading context, deleted text, trailing context —
//! matches the text there. A hunk whose window instead already shows the
//! inserted text is recognized as already applied and skipped as a
//! successful no-op, so re-applying a patch to its own result leaves the
//! text unchanged. A hunk that matches neither way is skipped with a
//! `false` flag and the caller decides what a failed hunk means.
//!
//! A base whose length equals the patch's recorded source length is patched
//! forward; one whose length equals the recorded target length is only
//! checked hunk by hunk for being the patched result; any other length is
//! drifted beyond what the patch can locate, and every hunk reports
//! failure.

use vstd::prelude::*;

use crate::hunk::Hunk;
use crate::hunk::HunkModel;
use crate::hunk::PatchModel;
use crate::hunk::TextPatch;
use crate::hunk::hunks_model;
use crate::text::str_to_chars;
use crate::text::chars_to_string;

verus! {

/// The window a hunk expects before application.
pub open spec fn old_pat(h: HunkModel) -> Seq<char> {
    h.ctx_before + h.del + h.ctx_after
}

/// The window a hunk leaves after application.
pub open spec fn new_pat(h: HunkModel) -> Seq<char> {
    h.ctx_before + h.ins + h.ctx_after
}

/// Whether `pat` stands in `text` at position `start`.
pub open spec fn matches_at(text: Seq<char>, start: int, pat: Seq<char>) -> bool {
    &&& 0 <= start
    &&& start + pat.len() <= text.len()
    &&& text.subrange(start, start + pat.len()) == pat
}

/// Whether the hunk's old window stands at its position, at or after the
/// already-consumed prefix `src_i`.
pub open spec fn hunk_ok(h: HunkModel, base: Seq<char>, src_i: nat) -> bool {
    h.pos >= src_i && matches_at(base, h.pos - h.ctx_before.len(), old_pat(h))
}

/// Whether the hunk's new window stands at its position: the hunk is
/// already applied there.
pub open spec fn hunk_applied(h: HunkModel, base: Seq<char>, src_i: nat) -> bool {
    h.pos >= src_i && matches_at(base, h.pos - h.ctx_before.len(), new_pat(h))
}

/// The text that forward application of `hunks` to `base` produces, with
/// everything before `src_i` already emitted.
pub open spec fn fwd_text(hunks: Seq<HunkModel>, base: Seq<char>, src_i: nat) -> Seq<char>
    decreases hunks.len(),
{
    if hunks.len() == 0 {
        base.skip(src_i as int)
    } else {
        let h = hunks[0];
        if hunk_ok(h, base, src_i) {
            base.subrange(src_i as int, h.pos as int) + h.ins + fwd_text(
                hunks.drop_first(),
                base,
                (h.pos + h.del.len()) as nat,
            )
        } else if hunk_applied(h, base, src_i) {
            base.subrange(src_i as int, (h.pos + h.ins.len()) as int) + fwd_text(
                hunks.drop_first(),
                base,
                (h.pos + h.ins.len()) as nat,
            )
        } else {
            fwd_text(hunks.drop_first(), base, src_i)
        }
    }
}

/// The per-hunk success flags of forward application.
pub open spec fn fwd_flags(hunks: Seq<HunkModel>, base: Seq<char>, src_i: nat) -> Seq<bool>
    decreases hunks.len(),
{
    if hunks.len() == 0 {
        Seq::empty()
    } else {
        let h = hunks[0];
        if hunk_ok(h, base, src_i) {
            seq![true] + fwd_flags(hunks.drop_first(), base, (h.pos + h.del.len()) as nat)
        } else if hunk_applied(h, base, src_i) {
            seq![true] + fwd_flags(hunks.drop_first(), base, (h.pos + h.ins.len()) as nat)
        } else {
            seq![false] + fwd_flags(hunks.drop_first(), base, src_i)
        }
    }
}

/// The per-hunk flags of checking `base` as the already-patched result:
/// hunk positions are carried from source to target coordinates.
pub open spec fn chk_flags(hunks: Seq<HunkModel>, base: Seq<char>, src_i: nat, tgt_i: nat) -> Seq<
    bool,
>
    decreases hunks.len(),
{
    if hunks.len() == 0 {
        Seq::empty()
    } else {
        let h = hunks[0];
        if h.pos >= src_i {
            let tq = tgt_i + (h.pos - src_i);
            if matches_at(base, tq - h.ctx_before.len(), new_pat(h)) {
                seq![true] + chk_flags(
                    hunks.drop_first(),
                    base,
                    (h.pos + h.del.len()) as nat,
                    (tq + h.ins.len()) as nat,
                )
            } else {
                seq![false] + chk_flags(hunks.drop_first(), base, src_i, tgt_i)
            }
        } else {
            seq![false] + chk_flags(hunks.drop_first(), base, src_i, tgt_i)
        }
    }
}

/// The result of applying `p` to `base`: the best-effort result text and
/// one success flag per hunk.
pub open spec fn spec_apply(p: PatchModel, base: Seq<char>) -> (Seq<char>, Seq<bool>) {
    if p.hunks.len() == 0 {
        (base, Seq::empty())
    } else if base.len() == p.src_len {
        (fwd_text(p.hunks, base, 0), fwd_flags(p.hunks, base, 0))
    } else if base.len() == p.tgt_len {
        (base, chk_flags(p.hunks, base, 0, 0))
    } else {
        (base, Seq::new(p.hunks.len(), |k: int| false))
    }
}

/// A window matches exactly when its two halves match in place.
pub proof fn lemma_matches_split(text: Seq<char>, start: int, x: Seq<char>, y: Seq<char>)
    ensures
        matches_at(text, start, x + y) <==> (matches_at(text, start, x) && matches_at(
            text,
            start + x.len(),
            y,
        )),
{
    if matches_at(text, start, x + y) {
        let sub = text.subrange(start, start + x.len() + y.len());
        assert forall|t: int| 0 <= t < x.len() implies text.subrange(
            start,
            start + x.len(),
        )[t] == x[t] by {
            assert(sub[t] == (x + y)[t]);
            assert(sub[t] == text[start + t]);
            assert(text.subrange(start, start + x.len())[t] == text[start + t]);
        }
        assert(text.subrange(start, start + x.len()) =~= x);
        assert forall|t: int| 0 <= t < y.len() implies text.subrange(
            start + x.len(),
            start + x.len() + y.len(),
        )[t] == y[t] by {
            assert(sub[x.len() + t] == (x + y)[x.len() + t]);
            assert(sub[x.len() + t] == text[start + x.len() + t]);
            assert(text.subrange(start + x.len(), start + x.len() + y.len())[t] == text[start
                + x.len() + t]);
        }
        assert(text.subrange(start + x.len(), start + x.len() + y.len()) =~= y);
    }
    if matches_at(text, start, x) && matches_at(text, start + x.len(), y) {
        assert forall|t: int| 0 <= t < x.len() + y.len() implies text.subrange(
            start,
            start + x.len() + y.len(),
        )[t] == (x + y)[t] by {
            if t < x.len() {
                assert(text.subrange(start, start + x.len())[t] == text[start + t]);
            } else {
                assert(text.subrange(start + x.len(), start + x.len() + y.len())[t - x.len()]
                    == text[start + t]);
            }
            assert(text.subrange(start, start + x.len() + y.len())[t] == text[start + t]);
        }
        assert(text.subrange(start, start + x.len() + y.len()) =~= x + y);
    }
}

/// Whether `pat` stands in `v` at `at`.
fn str_matches_at(v: &Vec<char>, at: usize, pat: &str) -> (b: bool)
    ensures
        b == matches_at(v@, at as int, pat@),
{
    let n = pat.unicode_len();
    if at > v.len() {
        return false;
    }
    if n > v.len() - at {
        return false;
    }
    let mut k: usize = 0;
    while k < n
        invariant
            n == pat@.len(),
            v@.len() <= usize::MAX,
            at + n <= v@.len(),
            k <= n,
            forall|t: int| 0 <= t < k ==> v@[at + t] == #[trigger] pat@[t],
        decreases n - k,
    {
        if v[at + k] != pat.get_char(k) {
            proof {
                assert(v@.subrange(at as int, at + n)[k as int] != pat@[k as int]);
            }
            return false;
        }
        k = k + 1;
    }
    proof {
        assert forall|t: int| 0 <= t < n implies v@.subrange(at as int, at + n)[t] == pat@[t] by {
            assert(v@[at + t] == pat@[t]);
        }
        assert(v@.subrange(at as int, at + n) =~= pat@);
    }
    true
}

/// Whether the old window of `h` stands at position `at` in `v` (where `at`
/// is where the deleted text would start).
fn old_window_at(h: &Hunk, v: &Vec<char>, at: usize) -> (b: bool)
    ensures
        b == matches_at(v@, at - h@.ctx_before.len(), old_pat(h@)),
{
    proof {
        lemma_matches_split(v@, at - h@.ctx_before.len(), h@.ctx_before, h@.del + h@.ctx_after);
        lemma_matches_split(v@, at as int, h@.del, h@.ctx_after);
        assert(h@.ctx_before + (h@.del + h@.ctx_after) =~= old_pat(h@));
    }
    let vl = v.len();
    let cbl = h.ctx_before.unicode_len();
    if at < cbl {
        return false;
    }
    if !str_matches_at(v, at - cbl, h.ctx_before.as_str()) {
        return false;
    }
    if !str_matches_at(v, at, h.del.as_str()) {
        return false;
    }
    let dl = h.del.unicode_len();
    proof {
        assert(at + dl <= vl);
    }
    str_matches_at(v, at + dl, h.ctx_after.as_str())
}

/// Whether the new window of `h` stands at position `at` in `v`.
fn new_window_at(h: &Hunk, v: &Vec<char>, at: usize) -> (b: bool)
    ensures
        b == matches_at(v@, at - h@.ctx_before.len(), new_pat(h@)),
{
    proof {
        lemma_matches_split(v@, at - h@.ctx_before.len(), h@.ctx_before, h@.ins + h@.ctx_after);
        lemma_matches_split(v@, at as int, h@.ins, h@.ctx_after);
        assert(h@.ctx_before + (h@.ins + h@.ctx_after) =~= new_pat(h@));
    }
    let vl = v.len();
    let cbl = h.ctx_before.unicode_len();
    if at < cbl {
        return false;
    }
    if !str_matches_at(v, at - cbl, h.ctx_before.as_str()) {
        return false;
    }
    if !str_matches_at(v, at, h.ins.as_str()) {
        return false;
    }
    let il = h.ins.unicode_len();
    proof {
        assert(at + il <= vl);
    }
    str_matches_at(v, at + il, h.ctx_after.as_str())
}

/// Appends `v[from .. to)` to `out`.
fn extend_from_vec(out: &mut Vec<char>, v: &Vec<char>, from: usize, to: usize)
    requires
        from <= to <= v@.len(),
    ensures
        final(out)@ == old(out)@ + v@.subrange(from as int, to as int),
{
    let mut k: usize = from;
    while k < to
        invariant
            from <= k <= to <= v@.len(),
            out@ == old(out)@ + v@.subrange(from as int, k as int),
        decreases to - k,
    {
        out.push(v[k]);
        proof {
            assert(old(out)@ + v@.subrange(from as int, k + 1) =~= (old(out)@ + v@.subrange(
                from as int,
                k as int,
            )).push(v@[k as int]));
        }
        k = k + 1;
    }
    proof {
        assert(from == to ==> out@ =~= old(out)@ + v@.subrange(from as int, to as int));
    }
}

/// Appends the characters of `s` to `out`.
fn extend_from_str(out: &mut Vec<char>, s: &str)
    ensures
        final(out)@ == old(out)@ + s@,
{
    let n = s.unicode_len();
    let mut k: usize = 0;
    while k < n
        invariant
            n == s@.len(),
            k <= n,
            out@ == old(out)@ + s@.take(k as int),
        decreases n - k,
    {
        out.push(s.get_char(k));
        proof {
            assert(old(out)@ + s@.take(k + 1) =~= (old(out)@ + s@.take(k as int)).push(
                s@[k as int],
            ));
        }
        k = k + 1;
    }
    proof {
        assert(s@.take(n as int) == s@);
        assert(n == 0 ==> out@ =~= old(out)@ + s@);
    }
}

/// Applies `patch` to `base`, as `spec_apply` describes: the best-effort
/// result text and one success flag per hunk, in order.
pub fn apply_patch(patch: &TextPatch, base: &str) -> (r: (String, Vec<bool>))
    ensures
        (r.0@, r.1@) == spec_apply(patch@, base@),
{
    let v = str_to_chars(base);
    let n = patch.hunks.len();
    let ghost hm = hunks_model(patch.hunks@);
    if n == 0 {
        let flags: Vec<bool> = Vec::new();
        return (base.to_owned(), flags);
    }
    if v.len() == patch.src_len {
        apply_forward(patch, &v)
    } else if v.len() == patch.tgt_len {
        let flags = check_applied(patch, &v);
        (base.to_owned(), flags)
    } else {
        let mut flags: Vec<bool> = Vec::new();
        let mut k: usize = 0;
        while k < n
            invariant
                k <= n,
                flags@ =~= Seq::new(k as nat, |t: int| false),
            decreases n - k,
        {
            flags.push(false);
            proof {
                assert(flags@ =~= Seq::new((k + 1) as nat, |t: int| false));
            }
            k = k + 1;
        }
        proof {
            assert(flags@ =~= Seq::new(hm.len(), |t: int| false));
        }
        (base.to_owned(), flags)
    }
}

/// Forward application: `base` has the patch's source length.
fn apply_forward(patch: &TextPatch, v: &Vec<char>) -> (r: (String, Vec<bool>))
    requires
        patch.hunks@.len() > 0,
        v@.len() == patch@.src_len,
    ensures
        r.0@ == fwd_text(hunks_model(patch.hunks@), v@, 0),
        r.1@ == fwd_flags(hunks_model(patch.hunks@), v@, 0),
{
    let ghost hm = hunks_model(patch.hunks@);
    let n = patch.hunks.len();
    let vl = v.len();
    let mut out: Vec<char> = Vec::new();
    let mut flags: Vec<bool> = Vec::new();
    let mut src_i: usize = 0;
    let mut i: usize = 0;
    proof {
        assert(hm.skip(0) =~= hm);
    }
    while i < n
        invariant
            n == patch.hunks@.len(),
            hm == hunks_model(patch.hunks@),
            i <= n,
            vl == v@.len(),
            src_i <= v@.len(),
            fwd_text(hm, v@, 0) == out@ + fwd_text(hm.skip(i as int), v@, src_i as nat),
            fwd_flags(hm, v@, 0) == flags@ + fwd_flags(hm.skip(i as int), v@, src_i as nat),
        decreases n - i,
    {
        let ghost rest = hm.skip(i as int);
        proof {
            assert(rest.drop_first() =~= hm.skip(i + 1));
            assert(rest[0] == hm[i as int]);
        }
        let h = &patch.hunks[i];
        let hok = if h.pos >= src_i {
            old_window_at(h, &v, h.pos)
        } else {
            false
        };
        if hok {
            proof {
                assert(hunk_ok(h@, v@, src_i as nat));
                assert(h@.pos + h@.del.len() + h@.ctx_after.len() <= v@.len());
            }
            extend_from_vec(&mut out, &v, src_i, h.pos);
            extend_from_str(&mut out, h.ins.as_str());
            let dl = h.del.unicode_len();
            src_i = h.pos + dl;
            flags.push(true);
        } else {
            let happ = if h.pos >= src_i {
                new_window_at(h, &v, h.pos)
            } else {
                false
            };
            if happ {
                proof {
                    assert(hunk_applied(h@, v@, src_i as nat));
                    assert(h@.pos + h@.ins.len() + h@.ctx_after.len() <= v@.len());
                }
                let il = h.ins.unicode_len();
                extend_from_vec(&mut out, &v, src_i, h.pos + il);
                src_i = h.pos + il;
                flags.push(true);
            } else {
                flags.push(false);
            }
        }
        proof {
            assert(fwd_text(hm, v@, 0) =~= out@ + fwd_text(hm.skip(i + 1), v@, src_i as nat));
            assert(fwd_flags(hm, v@, 0) =~= flags@ + fwd_flags(hm.skip(i + 1), v@, src_i as nat));
        }
        i = i + 1;
    }
    proof {
        assert(hm.skip(n as int) =~= Seq::<HunkModel>::empty());
    }
    extend_from_vec(&mut out, &v, src_i, v.len());
    proof {
        assert(out@ =~= fwd_text(hm, v@, 0));
        assert(flags@ =~= fwd_flags(hm, v@, 0));
    }
    let text = chars_to_string(&out);
    (text, flags)
}

/// Already-applied check: `base` has the patch's target length.
fn check_applied(patch: &TextPatch, v: &Vec<char>) -> (flags: Vec<bool>)
    requires
        patch.hunks@.len() > 0,
        v@.len() == patch@.tgt_len,
    ensures
        flags@ == chk_flags(hunks_model(patch.hunks@), v@, 0, 0),
{
    let ghost hm = hunks_model(patch.hunks@);
    let n = patch.hunks.len();
    let mut flags: Vec<bool> = Vec::new();
    let mut src_i: u128 = 0;
    let mut tgt_i: usize = 0;
    let mut i: usize = 0;
    proof {
        assert(hm.skip(0) =~= hm);
    }
    while i < n
        invariant
            n == patch.hunks@.len(),
            hm == hunks_model(patch.hunks@),
            i <= n,
            tgt_i <= v@.len(),
            src_i <= u64::MAX as u128 + u64::MAX as u128,
            chk_flags(hm, v@, 0, 0) == flags@ + chk_flags(
                hm.skip(i as int),
                v@,
                src_i as nat,
                tgt_i as nat,
            ),
        decreases n - i,
    {
        let ghost rest = hm.skip(i as int);
        proof {
            assert(rest.drop_first() =~= hm.skip(i + 1));
            assert(rest[0] == hm[i as int]);
            assert(usize::MAX as u128 <= u64::MAX as u128);
        }
        let h = &patch.hunks[i];
        if (h.pos as u128) >= src_i && ((h.pos as u128) - src_i) <= ((v.len() - tgt_i) as u128) {
            let tq = tgt_i + ((h.pos as u128 - src_i) as usize);
            if new_window_at(h, &v, tq) {
                proof {
                    assert(tq as nat == tgt_i as nat + (h@.pos - src_i as nat));
                    assert(tq + h@.ins.len() + h@.ctx_after.len() <= v@.len());
                }
                let il = h.ins.unicode_len();
                let dl = h.del.unicode_len();
                tgt_i = tq + il;
                src_i = (h.pos as u128) + (dl as u128);
                flags.push(true);
            } else {
                flags.push(false);
            }
        } else {
            proof {
                let tq = tgt_i as nat + (h@.pos - src_i as nat);
                if h@.pos >= src_i as nat {
                    assert(tq > v@.len());
                    assert(tq + new_pat(hm[i as int]).len() >= tq);
                    assert(!matches_at(v@, tq - hm[i as int].ctx_before.len(), new_pat(
                        hm[i as int],
                    )));
                }
            }
            flags.push(false);
        }
        proof {
            assert(chk_flags(hm, v@, 0, 0) =~= flags@ + chk_flags(
                hm.skip(i + 1),
                v@,
                src_i as nat,
                tgt_i as nat,
            ));
        }
        i = i + 1;
    }
    proof {
        assert(hm.skip(n as int) =~= Seq::<HunkModel>::empty());
        assert(flags@ =~= chk_flags(hm, v@, 0, 0));
    }
    flags
}

} // verus!
