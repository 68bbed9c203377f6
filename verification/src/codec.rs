//! The textual patch encoding and its parser.
//!
//! A patch is serialized as `P<src>:<tgt>` followed by one record per hunk:
//! `@<pos>:<lb>:<ld>:<li>:<la>:` and then the hunk's four text fields
//! (leading context, deleted text, inserted text, trailing context) written
//! verbatim, their lengths being the four counts. Counted fields make the
//! encoding uniquely decodable whatever characters the texts hold, and
//! `spec_parse` is proved to invert `spec_encode`.

use vstd::prelude::*;

use crate::hunk::Hunk;
use crate::hunk::HunkModel;
use crate::hunk::PatchModel;
use crate::hunk::TextPatch;
use crate::hunk::hunks_model;
use crate::text::spec_dec;
use crate::text::spec_dec_val;
use crate::text::spec_is_digit;
use crate::text::spec_digit_val;
use crate::text::lemma_spec_dec_value;
use crate::text::append_dec;
use crate::text::push_char;
use crate::text::is_digit;
use crate::text::digit_val;
use crate::text::str_to_chars;
use crate::text::chars_range_to_string;

verus! {

/// Rejection of a patch text that `spec_parse` gives no meaning.
#[derive(Debug, Clone, PartialEq, Eq, Structural)]
pub enum PatchParseError {
    MalformedPatch,
}

/// The encoding of one hunk.
pub open spec fn spec_encode_hunk(h: HunkModel) -> Seq<char> {
    seq!['@'] + spec_dec(h.pos) + seq![':'] + spec_dec(h.ctx_before.len()) + seq![':'] + spec_dec(
        h.del.len(),
    ) + seq![':'] + spec_dec(h.ins.len()) + seq![':'] + spec_dec(h.ctx_after.len()) + seq![':']
        + h.ctx_before + h.del + h.ins + h.ctx_after
}

/// The encoding of a list of hunks, in order.
pub open spec fn spec_encode_hunks(hs: Seq<HunkModel>) -> Seq<char>
    decreases hs.len(),
{
    if hs.len() == 0 {
        Seq::empty()
    } else {
        spec_encode_hunk(hs[0]) + spec_encode_hunks(hs.drop_first())
    }
}

/// The encoding of a whole patch.
pub open spec fn spec_encode(p: PatchModel) -> Seq<char> {
    seq!['P'] + spec_dec(p.src_len) + seq![':'] + spec_dec(p.tgt_len) + spec_encode_hunks(p.hunks)
}

/// First position at or after `i` that does not hold a digit.
pub open spec fn digit_run_end(s: Seq<char>, i: nat) -> nat
    decreases s.len() - i
        when i <= s.len()
{
    if i < s.len() && spec_is_digit(s[i as int]) {
        digit_run_end(s, i + 1)
    } else {
        i
    }
}

/// Reads the decimal number starting at `i`: its value and the position
/// after its digits. Nothing to read, or a value that does not fit `usize`,
/// is a parse failure.
pub open spec fn spec_parse_num(s: Seq<char>, i: nat) -> Option<(nat, nat)> {
    let j = digit_run_end(s, i);
    if j == i {
        None
    } else if spec_dec_val(s.subrange(i as int, j as int)) > usize::MAX {
        None
    } else {
        Some((spec_dec_val(s.subrange(i as int, j as int)), j))
    }
}

/// Consumes the single character `c` at position `i`.
pub open spec fn spec_expect(s: Seq<char>, i: nat, c: char) -> Option<nat> {
    if i < s.len() && s[i as int] == c {
        Some((i + 1) as nat)
    } else {
        None
    }
}

/// Reads one hunk record starting at `i`: the hunk and the position after
/// it.
pub open spec fn spec_parse_hunk(s: Seq<char>, i: nat) -> Option<(HunkModel, nat)> {
    match spec_expect(s, i, '@') {
        None => None,
        Some(i1) => match spec_parse_num(s, i1) {
            None => None,
            Some((pos, i2)) => match spec_expect(s, i2, ':') {
                None => None,
                Some(i3) => match spec_parse_num(s, i3) {
                    None => None,
                    Some((lb, i4)) => match spec_expect(s, i4, ':') {
                        None => None,
                        Some(i5) => match spec_parse_num(s, i5) {
                            None => None,
                            Some((ld, i6)) => match spec_expect(s, i6, ':') {
                                None => None,
                                Some(i7) => match spec_parse_num(s, i7) {
                                    None => None,
                                    Some((li, i8)) => match spec_expect(s, i8, ':') {
                                        None => None,
                                        Some(i9) => match spec_parse_num(s, i9) {
                                            None => None,
                                            Some((la, i10)) => match spec_expect(s, i10, ':') {
                                                None => None,
                                                Some(i11) => if i11 + lb + ld + li + la
                                                    <= s.len() {
                                                    let cb = s.subrange(
                                                        i11 as int,
                                                        (i11 + lb) as int,
                                                    );
                                                    let del = s.subrange(
                                                        (i11 + lb) as int,
                                                        (i11 + lb + ld) as int,
                                                    );
                                                    let ins = s.subrange(
                                                        (i11 + lb + ld) as int,
                                                        (i11 + lb + ld + li) as int,
                                                    );
                                                    let ca = s.subrange(
                                                        (i11 + lb + ld + li) as int,
                                                        (i11 + lb + ld + li + la) as int,
                                                    );
                                                    Some(
                                                        (
                                                            HunkModel {
                                                                pos,
                                                                ctx_before: cb,
                                                                del,
                                                                ins,
                                                                ctx_after: ca,
                                                            },
                                                            (i11 + lb + ld + li + la) as nat,
                                                        ),
                                                    )
                                                } else {
                                                    None
                                                },
                                            },
                                        },
                                    },
                                },
                            },
                        },
                    },
                },
            },
        },
    }
}

/// Reads hunk records from `i` to the end of the text.
pub open spec fn spec_parse_hunks(s: Seq<char>, i: nat) -> Option<Seq<HunkModel>>
    decreases s.len() - i
        when i <= s.len()
{
    if i == s.len() {
        Some(Seq::empty())
    } else {
        match spec_parse_hunk(s, i) {
            None => None,
            Some((h, j)) => if i < j && j <= s.len() {
                match spec_parse_hunks(s, j) {
                    None => None,
                    Some(rest) => Some(seq![h] + rest),
                }
            } else {
                None
            },
        }
    }
}

/// The meaning of a patch text: the patch it encodes, or nothing if it is
/// malformed.
pub open spec fn spec_parse(s: Seq<char>) -> Option<PatchModel> {
    match spec_expect(s, 0, 'P') {
        None => None,
        Some(i1) => match spec_parse_num(s, i1) {
            None => None,
            Some((src, i2)) => match spec_expect(s, i2, ':') {
                None => None,
                Some(i3) => match spec_parse_num(s, i3) {
                    None => None,
                    Some((tgt, i4)) => match spec_parse_hunks(s, i4) {
                        None => None,
                        Some(hs) => Some(PatchModel { src_len: src, tgt_len: tgt, hunks: hs }),
                    },
                },
            },
        },
    }
}

/// Serializes `patch`, as `spec_encode` describes.
pub fn encode_patch(patch: &TextPatch) -> (s: String)
    ensures
        s@ == spec_encode(patch@),
{
    let mut s = String::new();
    push_char(&mut s, 'P');
    append_dec(&mut s, patch.src_len);
    push_char(&mut s, ':');
    append_dec(&mut s, patch.tgt_len);
    proof {
        assert(s@ =~= seq!['P'] + spec_dec(patch@.src_len) + seq![':'] + spec_dec(patch@.tgt_len));
    }
    let ghost header = s@;
    let n = patch.hunks.len();
    let mut i: usize = 0;
    while i < n
        invariant
            n == patch.hunks@.len(),
            i <= n,
            s@ == header + spec_encode_hunks(hunks_model(patch.hunks@).take(i as int)),
        decreases n - i,
    {
        append_hunk(&mut s, &patch.hunks[i]);
        proof {
            let hm = hunks_model(patch.hunks@);
            lemma_encode_hunks_take(hm, i as int);
            assert(s@ =~= header + spec_encode_hunks(hm.take(i + 1)));
        }
        i = i + 1;
    }
    proof {
        let hm = hunks_model(patch.hunks@);
        assert(hm.take(n as int) =~= hm);
    }
    s
}

/// Groups the edit script `ops` into hunks and serializes them: the patch
/// text that `parse_patch` reads back.
pub fn make_patch(ops: &Vec<crate::diff::DiffOp>) -> (patch_txt: String)
    requires
        crate::diff::ops_src(crate::diff::ops_model(ops@)).len() <= usize::MAX,
        crate::diff::ops_tgt(crate::diff::ops_model(ops@)).len() <= usize::MAX,
    ensures
        patch_txt@ == spec_encode(crate::hunk::spec_patch(crate::diff::ops_model(ops@))),
{
    let patch = crate::hunk::build_patch(ops);
    encode_patch(&patch)
}

/// Scans the decimal number at `i`, as `spec_parse_num` describes.
fn parse_num(v: &Vec<char>, i: usize) -> (r: Option<(usize, usize)>)
    requires
        i <= v@.len(),
    ensures
        match spec_parse_num(v@, i as nat) {
            Some((val, nxt)) => r matches Some(p) && p.0 == val && p.1 == nxt && i < p.1
                <= v@.len(),
            None => r is None,
        },
{
    let n = v.len();
    let mut j: usize = i;
    while j < n && is_digit(v[j])
        invariant
            n == v@.len(),
            i <= j <= n,
            digit_run_end(v@, i as nat) == digit_run_end(v@, j as nat),
            forall|t: int| i <= t < j ==> spec_is_digit(#[trigger] v@[t]),
        decreases n - j,
    {
        j = j + 1;
    }
    proof {
        assert(digit_run_end(v@, j as nat) == j);
    }
    if j == i {
        return None;
    }
    let cap: u128 = (usize::MAX as u128) + 1;
    let mut acc: u128 = 0;
    let mut k: usize = i;
    proof {
        assert(v@.subrange(i as int, i as int) =~= Seq::<char>::empty());
    }
    while k < j
        invariant
            n == v@.len(),
            i <= k <= j <= n,
            cap == usize::MAX as u128 + 1,
            forall|t: int| i <= t < j ==> spec_is_digit(#[trigger] v@[t]),
            acc == if spec_dec_val(v@.subrange(i as int, k as int)) > usize::MAX {
                cap as nat
            } else {
                spec_dec_val(v@.subrange(i as int, k as int))
            },
        decreases j - k,
    {
        let d = digit_val(v[k]);
        proof {
            let pre = v@.subrange(i as int, k as int);
            let cur = v@.subrange(i as int, k + 1);
            assert(cur.drop_last() =~= pre);
            assert(cur.last() == v@[k as int]);
            assert(spec_dec_val(cur) == spec_dec_val(pre) * 10 + spec_digit_val(v@[k as int]));
            assert(usize::MAX as u128 <= u64::MAX as u128);
        }
        let m = acc * 10 + (d as u128);
        if m >= cap {
            acc = cap;
            proof {
                let pre = v@.subrange(i as int, k as int);
                if spec_dec_val(pre) <= usize::MAX {
                    assert(spec_dec_val(v@.subrange(i as int, k + 1)) > usize::MAX);
                } else {
                    assert(spec_dec_val(pre) * 10 + spec_digit_val(v@[k as int]) >= spec_dec_val(
                        pre,
                    )) by (nonlinear_arith);
                }
            }
        } else {
            acc = m;
            proof {
                let pre = v@.subrange(i as int, k as int);
                if spec_dec_val(pre) > usize::MAX {
                    assert(acc == cap * 10 + spec_digit_val(v@[k as int]));
                    assert(false);
                }
            }
        }
        k = k + 1;
    }
    if acc > usize::MAX as u128 {
        None
    } else {
        Some((acc as usize, j))
    }
}

/// Whether `s[i .. j)` holds only digits: the digit run from `i` ends where
/// the first non-digit stands.
proof fn lemma_digit_run(s: Seq<char>, i: nat, j: nat)
    requires
        i <= j <= s.len(),
        forall|t: int| i <= t < j ==> spec_is_digit(#[trigger] s[t]),
        j == s.len() || !spec_is_digit(s[j as int]),
    ensures
        digit_run_end(s, i) == j,
    decreases j - i,
{
    if i < j {
        lemma_digit_run(s, i + 1, j);
    }
}

/// Consumes the single character `c` at `i`, as `spec_expect` describes.
fn expect(v: &Vec<char>, i: usize, c: char) -> (r: Option<usize>)
    requires
        i <= v@.len(),
    ensures
        match spec_expect(v@, i as nat, c) {
            Some(nxt) => r matches Some(x) && x == nxt && i < x <= v@.len(),
            None => r is None,
        },
{
    if i < v.len() && v[i] == c {
        Some(i + 1)
    } else {
        None
    }
}

/// Reads one hunk record at `i`, as `spec_parse_hunk` describes.
fn parse_hunk(v: &Vec<char>, i: usize) -> (r: Option<(Hunk, usize)>)
    requires
        i <= v@.len(),
    ensures
        match spec_parse_hunk(v@, i as nat) {
            Some((h, nxt)) => r matches Some(p) && p.0@ == h && p.1 == nxt && i < p.1 <= v@.len(),
            None => r is None,
        },
{
    let i1 = match expect(v, i, '@') {
        Some(x) => x,
        None => {
            return None;
        },
    };
    let (pos, i2) = match parse_num(v, i1) {
        Some(p) => p,
        None => {
            return None;
        },
    };
    let i3 = match expect(v, i2, ':') {
        Some(x) => x,
        None => {
            return None;
        },
    };
    let (lb, i4) = match parse_num(v, i3) {
        Some(p) => p,
        None => {
            return None;
        },
    };
    let i5 = match expect(v, i4, ':') {
        Some(x) => x,
        None => {
            return None;
        },
    };
    let (ld, i6) = match parse_num(v, i5) {
        Some(p) => p,
        None => {
            return None;
        },
    };
    let i7 = match expect(v, i6, ':') {
        Some(x) => x,
        None => {
            return None;
        },
    };
    let (li, i8) = match parse_num(v, i7) {
        Some(p) => p,
        None => {
            return None;
        },
    };
    let i9 = match expect(v, i8, ':') {
        Some(x) => x,
        None => {
            return None;
        },
    };
    let (la, i10) = match parse_num(v, i9) {
        Some(p) => p,
        None => {
            return None;
        },
    };
    let i11 = match expect(v, i10, ':') {
        Some(x) => x,
        None => {
            return None;
        },
    };
    let len = v.len();
    if lb > len - i11 {
        return None;
    }
    let cb_end = i11 + lb;
    if ld > len - cb_end {
        return None;
    }
    let del_end = cb_end + ld;
    if li > len - del_end {
        return None;
    }
    let ins_end = del_end + li;
    if la > len - ins_end {
        return None;
    }
    let ca_end = ins_end + la;
    let cb = chars_range_to_string(v, i11, cb_end);
    let del = chars_range_to_string(v, cb_end, del_end);
    let ins = chars_range_to_string(v, del_end, ins_end);
    let ca = chars_range_to_string(v, ins_end, ca_end);
    Some((Hunk { pos, ctx_before: cb, del, ins, ctx_after: ca }, ca_end))
}

/// Parses a patch text, as `spec_parse` describes: the encoded patch, or
/// `MalformedPatch` where the text encodes none.
pub fn parse_patch(patch_txt: &str) -> (r: Result<TextPatch, PatchParseError>)
    ensures
        match spec_parse(patch_txt@) {
            Some(m) => r matches Ok(p) && p@ == m,
            None => r matches Err(e) && e == PatchParseError::MalformedPatch,
        },
{
    let v = str_to_chars(patch_txt);
    let i1 = match expect(&v, 0, 'P') {
        Some(x) => x,
        None => {
            return Err(PatchParseError::MalformedPatch);
        },
    };
    let (src, i2) = match parse_num(&v, i1) {
        Some(p) => p,
        None => {
            return Err(PatchParseError::MalformedPatch);
        },
    };
    let i3 = match expect(&v, i2, ':') {
        Some(x) => x,
        None => {
            return Err(PatchParseError::MalformedPatch);
        },
    };
    let (tgt, i4) = match parse_num(&v, i3) {
        Some(p) => p,
        None => {
            return Err(PatchParseError::MalformedPatch);
        },
    };
    let mut hunks: Vec<Hunk> = Vec::new();
    let mut i: usize = i4;
    let n = v.len();
    proof {
        assert(hunks_model(hunks@) =~= Seq::<HunkModel>::empty());
    }
    while i < n
        invariant
            n == v@.len(),
            patch_txt@ == v@,
            i4 <= i <= n,
            spec_expect(v@, 0, 'P') == Some(i1 as nat),
            spec_parse_num(v@, i1 as nat) == Some((src as nat, i2 as nat)),
            spec_expect(v@, i2 as nat, ':') == Some(i3 as nat),
            spec_parse_num(v@, i3 as nat) == Some((tgt as nat, i4 as nat)),
            match spec_parse_hunks(v@, i as nat) {
                Some(rest) => spec_parse_hunks(v@, i4 as nat) == Some(
                    hunks_model(hunks@) + rest,
                ),
                None => spec_parse_hunks(v@, i4 as nat) is None,
            },
        decreases n - i,
    {
        let (h, j) = match parse_hunk(&v, i) {
            Some(p) => p,
            None => {
                proof {
                    assert(spec_parse_hunks(v@, i as nat) is None);
                    assert(spec_parse_hunks(v@, i4 as nat) is None);
                    assert(spec_expect(v@, 0, 'P') == Some(i1 as nat));
                    assert(spec_parse_num(v@, i1 as nat) == Some((src as nat, i2 as nat)));
                    assert(spec_expect(v@, i2 as nat, ':') == Some(i3 as nat));
                    assert(spec_parse_num(v@, i3 as nat) == Some((tgt as nat, i4 as nat)));
                    assert(spec_parse(patch_txt@) is None);
                }
                return Err(PatchParseError::MalformedPatch);
            },
        };
        proof {
            let hm = spec_parse_hunk(v@, i as nat)->0;
            match spec_parse_hunks(v@, j as nat) {
                Some(rest) => {
                    assert(spec_parse_hunks(v@, i as nat) == Some(seq![hm.0] + rest));
                    assert(hunks_model(hunks@.push(h)) =~= hunks_model(hunks@).push(h@));
                    assert(hunks_model(hunks@).push(h@) + rest =~= hunks_model(hunks@) + (seq![
                        hm.0,
                    ] + rest));
                },
                None => {
                    assert(spec_parse_hunks(v@, i as nat) is None);
                },
            }
        }
        hunks.push(h);
        i = j;
    }
    proof {
        assert(spec_parse_hunks(v@, n as nat) == Some(Seq::<HunkModel>::empty()));
        assert(hunks_model(hunks@) + Seq::<HunkModel>::empty() =~= hunks_model(hunks@));
    }
    Ok(TextPatch { src_len: src, tgt_len: tgt, hunks })
}

/// Appends the record of one hunk to `s`.
#[verifier::rlimit(30)]
fn append_hunk(s: &mut String, h: &Hunk)
    ensures
        final(s)@ == old(s)@ + spec_encode_hunk(h@),
{
    push_char(s, '@');
    append_dec(s, h.pos);
    push_char(s, ':');
    append_dec(s, h.ctx_before.unicode_len());
    push_char(s, ':');
    append_dec(s, h.del.unicode_len());
    push_char(s, ':');
    append_dec(s, h.ins.unicode_len());
    push_char(s, ':');
    append_dec(s, h.ctx_after.unicode_len());
    push_char(s, ':');
    s.append(h.ctx_before.as_str());
    s.append(h.del.as_str());
    s.append(h.ins.as_str());
    s.append(h.ctx_after.as_str());
    proof {
        assert(s@ =~= old(s)@ + spec_encode_hunk(h@));
    }
}

/// Whether all counts of `h` fit the machine word that the encoding's
/// reader accepts.
pub open spec fn hunk_fits(h: HunkModel) -> bool {
    h.pos <= usize::MAX && h.ctx_before.len() <= usize::MAX && h.del.len() <= usize::MAX
        && h.ins.len() <= usize::MAX && h.ctx_after.len() <= usize::MAX
}

/// Whether all counts of `p` fit the machine word.
pub open spec fn patch_fits(p: PatchModel) -> bool {
    p.src_len <= usize::MAX && p.tgt_len <= usize::MAX && forall|k: int|
        0 <= k < p.hunks.len() ==> hunk_fits(#[trigger] p.hunks[k])
}

/// Splitting the window `s[i .. i+|x|+|y|)` that holds `x + y` into the
/// part that holds `x` and the part that holds `y`.
proof fn lemma_concat_parts(x: Seq<char>, y: Seq<char>, s: Seq<char>, i: nat)
    requires
        i + x.len() + y.len() <= s.len(),
        s.subrange(i as int, (i + x.len() + y.len()) as int) == x + y,
    ensures
        s.subrange(i as int, (i + x.len()) as int) =~= x,
        s.subrange((i + x.len()) as int, (i + x.len() + y.len()) as int) =~= y,
{
    let big = s.subrange(i as int, (i + x.len() + y.len()) as int);
    assert forall|t: int| 0 <= t < x.len() implies s.subrange(i as int, (i + x.len()) as int)[t]
        == x[t] by {
        assert(big[t] == (x + y)[t]);
        assert(s.subrange(i as int, (i + x.len()) as int)[t] == s[i + t]);
        assert(big[t] == s[i + t]);
    }
    assert forall|t: int|
        0 <= t < y.len() implies s.subrange((i + x.len()) as int, (i + x.len() + y.len()) as int)[
        t
    ] == y[t] by {
        assert(big[x.len() + t] == (x + y)[x.len() + t]);
        assert(s.subrange((i + x.len()) as int, (i + x.len() + y.len()) as int)[t] == s[i + x.len()
            + t]);
        assert(big[x.len() + t] == s[i + x.len() + t]);
    }
}

/// Reading the decimal of `n` out of its place in a longer text.
proof fn lemma_parse_num_at(s: Seq<char>, i: nat, n: nat)
    requires
        n <= usize::MAX,
        i + spec_dec(n).len() <= s.len(),
        s.subrange(i as int, (i + spec_dec(n).len()) as int) == spec_dec(n),
        i + spec_dec(n).len() == s.len() || !spec_is_digit(s[(i + spec_dec(n).len()) as int]),
    ensures
        spec_parse_num(s, i) == Some((n, (i + spec_dec(n).len()) as nat)),
{
    lemma_spec_dec_value(n);
    let j = i + spec_dec(n).len();
    assert forall|t: int| i <= t < j implies spec_is_digit(#[trigger] s[t]) by {
        assert(s.subrange(i as int, j as int)[t - i] == s[t]);
        assert(s[t] == spec_dec(n)[t - i]);
    }
    lemma_digit_run(s, i, j as nat);
    assert(spec_dec_val(s.subrange(i as int, j as int)) == n);
}

/// A hunk record is read back as the hunk it was written from, whatever
/// follows it.
#[verifier::rlimit(100)]
#[verifier::spinoff_prover]
proof fn lemma_parse_hunk_at(s: Seq<char>, i: nat, h: HunkModel)
    requires
        hunk_fits(h),
        i + spec_encode_hunk(h).len() <= s.len(),
        s.subrange(i as int, (i + spec_encode_hunk(h).len()) as int) == spec_encode_hunk(h),
    ensures
        spec_parse_hunk(s, i) == Some((h, (i + spec_encode_hunk(h).len()) as nat)),
{
    let e = spec_encode_hunk(h);
    let d_pos = spec_dec(h.pos);
    let d_lb = spec_dec(h.ctx_before.len());
    let d_ld = spec_dec(h.del.len());
    let d_li = spec_dec(h.ins.len());
    let d_la = spec_dec(h.ctx_after.len());
    let o1 = i + 1;
    let o2 = o1 + d_pos.len();
    let o3 = o2 + 1;
    let o4 = o3 + d_lb.len();
    let o5 = o4 + 1;
    let o6 = o5 + d_ld.len();
    let o7 = o6 + 1;
    let o8 = o7 + d_li.len();
    let o9 = o8 + 1;
    let o10 = o9 + d_la.len();
    let o11 = o10 + 1;
    let o12 = o11 + h.ctx_before.len();
    let o13 = o12 + h.del.len();
    let o14 = o13 + h.ins.len();
    let end = o14 + h.ctx_after.len();
    let f1 = seq!['@'] + d_pos;
    let f2 = f1 + seq![':'];
    let f3 = f2 + d_lb;
    let f4 = f3 + seq![':'];
    let f5 = f4 + d_ld;
    let f6 = f5 + seq![':'];
    let f7 = f6 + d_li;
    let f8 = f7 + seq![':'];
    let f9 = f8 + d_la;
    let f10 = f9 + seq![':'];
    let f11 = f10 + h.ctx_before;
    let f12 = f11 + h.del;
    let f13 = f12 + h.ins;
    let f14 = f13 + h.ctx_after;
    assert(e == f14);
    assert(end == i + e.len());
    lemma_concat_parts(f13, h.ctx_after, s, i);
    lemma_concat_parts(f12, h.ins, s, i);
    lemma_concat_parts(f11, h.del, s, i);
    lemma_concat_parts(f10, h.ctx_before, s, i);
    lemma_concat_parts(f9, seq![':'], s, i);
    lemma_concat_parts(f8, d_la, s, i);
    lemma_concat_parts(f7, seq![':'], s, i);
    lemma_concat_parts(f6, d_li, s, i);
    lemma_concat_parts(f5, seq![':'], s, i);
    lemma_concat_parts(f4, d_ld, s, i);
    lemma_concat_parts(f3, seq![':'], s, i);
    lemma_concat_parts(f2, d_lb, s, i);
    lemma_concat_parts(f1, seq![':'], s, i);
    lemma_concat_parts(seq!['@'], d_pos, s, i);
    assert(s[i as int] == s.subrange(i as int, o1 as int)[0]);
    assert(s[i as int] == '@');
    assert(spec_expect(s, i, '@') == Some(o1));
    assert(s[o2 as int] == s.subrange(o2 as int, o3 as int)[0]);
    assert(s[o2 as int] == ':');
    assert(!spec_is_digit(':'));
    lemma_parse_num_at(s, o1, h.pos);
    assert(spec_expect(s, o2, ':') == Some(o3));
    assert(s[o4 as int] == s.subrange(o4 as int, o5 as int)[0]);
    assert(s[o4 as int] == ':');
    lemma_parse_num_at(s, o3, h.ctx_before.len());
    assert(spec_expect(s, o4, ':') == Some(o5));
    assert(s[o6 as int] == s.subrange(o6 as int, o7 as int)[0]);
    assert(s[o6 as int] == ':');
    lemma_parse_num_at(s, o5, h.del.len());
    assert(spec_expect(s, o6, ':') == Some(o7));
    assert(s[o8 as int] == s.subrange(o8 as int, o9 as int)[0]);
    assert(s[o8 as int] == ':');
    lemma_parse_num_at(s, o7, h.ins.len());
    assert(spec_expect(s, o8, ':') == Some(o9));
    assert(s[o10 as int] == s.subrange(o10 as int, o11 as int)[0]);
    assert(s[o10 as int] == ':');
    lemma_parse_num_at(s, o9, h.ctx_after.len());
    assert(spec_expect(s, o10, ':') == Some(o11));
    assert(o11 + h.ctx_before.len() + h.del.len() + h.ins.len() + h.ctx_after.len() <= s.len());
    let parsed = HunkModel {
        pos: h.pos,
        ctx_before: s.subrange(o11 as int, o12 as int),
        del: s.subrange(o12 as int, o13 as int),
        ins: s.subrange(o13 as int, o14 as int),
        ctx_after: s.subrange(o14 as int, end as int),
    };
    assert(parsed.ctx_before == h.ctx_before);
    assert(parsed.del == h.del);
    assert(parsed.ins == h.ins);
    assert(parsed.ctx_after == h.ctx_after);
    assert(parsed == h);
}

/// A list of hunk records ending the text is read back as the hunks it was
/// written from.
proof fn lemma_parse_hunks_at(s: Seq<char>, i: nat, hs: Seq<HunkModel>)
    requires
        forall|k: int| 0 <= k < hs.len() ==> hunk_fits(#[trigger] hs[k]),
        i + spec_encode_hunks(hs).len() == s.len(),
        s.subrange(i as int, s.len() as int) == spec_encode_hunks(hs),
    ensures
        spec_parse_hunks(s, i) == Some(hs),
    decreases hs.len(),
{
    if hs.len() == 0 {
        assert(i == s.len());
    } else {
        let h = hs[0];
        let e = spec_encode_hunk(h);
        let rest = hs.drop_first();
        let ehs = spec_encode_hunks(hs);
        assert(ehs == e + spec_encode_hunks(rest));
        assert(e.len() >= 1);
        let j = i + e.len();
        lemma_concat_parts(e, spec_encode_hunks(rest), s, i);
        assert(s.subrange(i as int, j as int) =~= e);
        lemma_parse_hunk_at(s, i, h);
        assert(s.subrange(j as int, s.len() as int) =~= spec_encode_hunks(rest));
        lemma_parse_hunks_at(s, j, rest);
        assert(seq![h] + rest =~= hs);
    }
}

/// A hunk record is never empty and starts with its `@` mark.
proof fn lemma_encode_hunk_head(h: HunkModel)
    ensures
        spec_encode_hunk(h).len() >= 6,
        spec_encode_hunk(h)[0] == '@',
{
    let e = spec_encode_hunk(h);
    let d_pos = spec_dec(h.pos);
    let d_lb = spec_dec(h.ctx_before.len());
    let d_ld = spec_dec(h.del.len());
    let d_li = spec_dec(h.ins.len());
    let d_la = spec_dec(h.ctx_after.len());
    let f1 = seq!['@'] + d_pos;
    let f2 = f1 + seq![':'];
    let f3 = f2 + d_lb;
    let f4 = f3 + seq![':'];
    let f5 = f4 + d_ld;
    let f6 = f5 + seq![':'];
    let f7 = f6 + d_li;
    let f8 = f7 + seq![':'];
    let f9 = f8 + d_la;
    let f10 = f9 + seq![':'];
    let f11 = f10 + h.ctx_before;
    let f12 = f11 + h.del;
    let f13 = f12 + h.ins;
    let f14 = f13 + h.ctx_after;
    assert(e == f14);
    assert(e.subrange(0, e.len() as int) =~= e);
    lemma_concat_parts(f13, h.ctx_after, e, 0);
    lemma_concat_parts(f12, h.ins, e, 0);
    lemma_concat_parts(f11, h.del, e, 0);
    lemma_concat_parts(f10, h.ctx_before, e, 0);
    lemma_concat_parts(f9, seq![':'], e, 0);
    lemma_concat_parts(f8, d_la, e, 0);
    lemma_concat_parts(f7, seq![':'], e, 0);
    lemma_concat_parts(f6, d_li, e, 0);
    lemma_concat_parts(f5, seq![':'], e, 0);
    lemma_concat_parts(f4, d_ld, e, 0);
    lemma_concat_parts(f3, seq![':'], e, 0);
    lemma_concat_parts(f2, d_lb, e, 0);
    lemma_concat_parts(f1, seq![':'], e, 0);
    lemma_concat_parts(seq!['@'], d_pos, e, 0);
    assert(e[0] == e.subrange(0, 1)[0]);
    assert(e[0] == '@');
}

/// Parsing inverts encoding: every patch whose counts fit the machine word
/// is read back, from its own encoding, exactly as it was written.
pub proof fn lemma_parse_encode(p: PatchModel)
    requires
        patch_fits(p),
    ensures
        spec_parse(spec_encode(p)) == Some(p),
{
    let s = spec_encode(p);
    let d_src = spec_dec(p.src_len);
    let d_tgt = spec_dec(p.tgt_len);
    let eh = spec_encode_hunks(p.hunks);
    let o1: nat = 1;
    let o2 = o1 + d_src.len();
    let o3 = o2 + 1;
    let o4 = o3 + d_tgt.len();
    let g1 = seq!['P'] + d_src;
    let g2 = g1 + seq![':'];
    let g3 = g2 + d_tgt;
    let g4 = g3 + eh;
    assert(s == g4);
    assert(s.len() == 2 + d_src.len() + d_tgt.len() + eh.len());
    assert(s.subrange(0, s.len() as int) =~= s);
    lemma_concat_parts(g3, eh, s, 0);
    lemma_concat_parts(g2, d_tgt, s, 0);
    lemma_concat_parts(g1, seq![':'], s, 0);
    lemma_concat_parts(seq!['P'], d_src, s, 0);
    assert(s[0] == s.subrange(0, 1)[0]);
    assert(s[0] == 'P');
    assert(spec_expect(s, 0, 'P') == Some(o1));
    assert(s[o2 as int] == s.subrange(o2 as int, o3 as int)[0]);
    assert(s[o2 as int] == ':');
    assert(!spec_is_digit(':'));
    lemma_parse_num_at(s, o1, p.src_len);
    assert(spec_expect(s, o2, ':') == Some(o3));
    if eh.len() == 0 {
        assert(o4 == s.len());
    } else {
        lemma_encode_hunk_head(p.hunks[0]);
        lemma_concat_parts(spec_encode_hunk(p.hunks[0]), spec_encode_hunks(p.hunks.drop_first()), s, o4);
        assert(s[o4 as int] == s.subrange(o4 as int, (o4 + spec_encode_hunk(p.hunks[0]).len()) as int)[0]);
        assert(s[o4 as int] == '@');
        assert(!spec_is_digit('@'));
    }
    lemma_parse_num_at(s, o3, p.tgt_len);
    lemma_parse_hunks_at(s, o4, p.hunks);
    let parsed = PatchModel { src_len: p.src_len, tgt_len: p.tgt_len, hunks: p.hunks };
    assert(parsed == p);
}


/// Extending the encoded prefix by one hunk.
proof fn lemma_encode_hunks_take(hs: Seq<HunkModel>, i: int)
    requires
        0 <= i < hs.len(),
    ensures
        spec_encode_hunks(hs.take(i + 1)) =~= spec_encode_hunks(hs.take(i)) + spec_encode_hunk(
            hs[i],
        ),
    decreases i,
{
    if i == 0 {
        assert(hs.take(1).drop_first() =~= Seq::<HunkModel>::empty());
        assert(hs.take(0) =~= Seq::<HunkModel>::empty());
        assert(hs.take(1)[0] == hs[0]);
    } else {
        lemma_encode_hunks_take(hs.drop_first(), i - 1);
        assert(hs.take(i + 1).drop_first() =~= hs.drop_first().take(i));
        assert(hs.take(i).drop_first() =~= hs.drop_first().take(i - 1));
        assert(hs.take(i + 1)[0] == hs[0]);
        assert(hs.take(i)[0] == hs[0]);
        assert(hs.drop_first()[i - 1] == hs[i]);
    }
}

} // verus!
