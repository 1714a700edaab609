//! Byte-level lexing for the text encoding: line splitting, whitespace
//! tokenization, and decimal integer tokens.

use vstd::prelude::*;
use vstd::slice::slice_index_get;
use vstd::slice::slice_subrange;
use vstd::slice::slice_to_vec;

verus! {

/// ASCII whitespace, the token and line separators of the text format.
/// Whitespace that only Unicode knows (a non-breaking space and the like)
/// does not separate tokens here: its bytes stay inside the surrounding
/// token, where numeric parsing rejects them, so a line relying on such
/// separators is rejected as invalid rather than split.
pub open spec fn is_ws(b: u8) -> bool {
    b == 32 || (9 <= b && b <= 13)
}

fn is_ws_byte(b: u8) -> (r: bool)
    ensures
        r == is_ws(b),
{
    b == 32 || (9 <= b && b <= 13)
}

/// How many bytes of `s` come strictly before the first occurrence of `b`
/// (all of `s` if `b` does not occur).
pub open spec fn run_len(s: Seq<u8>, b: u8) -> nat
    decreases s.len(),
{
    if s.len() == 0 {
        0
    } else if s[0] == b {
        0
    } else {
        1 + run_len(s.skip(1), b)
    }
}

/// Index of the first occurrence of `b` in `s` at or after `from`
/// (`s.len()` if there is none).
pub fn find_byte(s: &[u8], from: usize, b: u8) -> (r: usize)
    requires
        from <= s@.len(),
    ensures
        r == from + run_len(s@.skip(from as int), b),
        from <= r <= s@.len(),
        r < s@.len() ==> s@[r as int] == b,
        forall|j: int| from <= j < r ==> s@[j] != b,
{
    let len = s.len();
    let mut i: usize = from;
    while i < len && *slice_index_get(s, i) != b
        invariant
            from <= i <= len,
            len == s@.len(),
            run_len(s@.skip(from as int), b) == (i - from) + run_len(s@.skip(i as int), b),
            forall|j: int| from <= j < i ==> s@[j] != b,
        decreases len - i,
    {
        proof {
            assert(s@.skip(i as int).skip(1) =~= s@.skip(i + 1));
        }
        i = i + 1;
    }
    proof {
        if i < len {
            assert(s@.skip(i as int)[0] == s@[i as int]);
        }
        assert(run_len(s@.skip(i as int), b) == 0);
    }
    i
}

pub proof fn lemma_run_len_le(s: Seq<u8>, b: u8)
    ensures
        run_len(s, b) <= s.len(),
    decreases s.len(),
{
    if s.len() > 0 && s[0] != b {
        lemma_run_len_le(s.skip(1), b);
    }
}

pub proof fn lemma_run_len_concat(u: Seq<u8>, v: Seq<u8>, b: u8)
    requires
        forall|j: int| 0 <= j < u.len() ==> u[j] != b,
    ensures
        run_len(u + v, b) == u.len() + run_len(v, b),
    decreases u.len(),
{
    if u.len() > 0 {
        assert((u + v)[0] == u[0]);
        assert((u + v).skip(1) =~= u.skip(1) + v);
        assert(forall|j: int| 0 <= j < u.skip(1).len() ==> u.skip(1)[j] != b);
        lemma_run_len_concat(u.skip(1), v, b);
    } else {
        assert(u + v =~= v);
    }
}

/// End (exclusive) of the line starting at `p`: just after the next newline,
/// or the end of the input on its last line.
pub open spec fn next_line(s: Seq<u8>, p: int) -> int {
    let r = p + run_len(s.skip(p), 10);
    if r < s.len() {
        r + 1
    } else {
        r
    }
}

/// End of the line starting at `p`, the newline included.
pub fn take_line(s: &[u8], p: usize) -> (e: usize)
    requires
        p <= s@.len(),
    ensures
        e == next_line(s@, p as int),
        p <= e <= s@.len(),
        p < s@.len() ==> p < e,
{
    proof {
        lemma_run_len_le(s@.skip(p as int), 10);
    }
    let q = find_byte(s, p, 10);
    if q < s.len() {
        q + 1
    } else {
        q
    }
}

/// Length of the maximal token (run of non-whitespace bytes) at the start of
/// `s`.
pub open spec fn tok_len(s: Seq<u8>) -> nat
    decreases s.len(),
{
    if s.len() == 0 || is_ws(s[0]) {
        0
    } else {
        1 + tok_len(s.skip(1))
    }
}

pub proof fn lemma_tok_len_le(s: Seq<u8>)
    ensures
        tok_len(s) <= s.len(),
    decreases s.len(),
{
    if s.len() == 0 || is_ws(s[0]) {
    } else {
        lemma_tok_len_le(s.skip(1));
    }
}

/// The whitespace-separated tokens of `s`, in order.
pub open spec fn tokens_of(s: Seq<u8>) -> Seq<Seq<u8>>
    decreases s.len(),
    via tokens_of_decreases
{
    if s.len() == 0 {
        Seq::empty()
    } else if is_ws(s[0]) {
        tokens_of(s.skip(1))
    } else {
        seq![s.take(tok_len(s) as int)] + tokens_of(s.skip(tok_len(s) as int))
    }
}

#[via_fn]
proof fn tokens_of_decreases(s: Seq<u8>) {
    if s.len() > 0 && !is_ws(s[0]) {
        lemma_tok_len_le(s);
    }
}

/// Splits `line` into its whitespace-separated tokens.
pub fn tokenize(line: &[u8]) -> (toks: Vec<Vec<u8>>)
    ensures
        toks.deep_view() == tokens_of(line@),
{
    let len = line.len();
    let mut toks: Vec<Vec<u8>> = Vec::new();
    let mut i: usize = 0;
    proof {
        assert(line@.skip(0) =~= line@);
        assert(toks.deep_view() =~= Seq::<Seq<u8>>::empty());
        assert(toks.deep_view() + tokens_of(line@) =~= tokens_of(line@));
    }
    while i < len
        invariant
            i <= len,
            len == line@.len(),
            tokens_of(line@) == toks.deep_view() + tokens_of(line@.skip(i as int)),
        decreases len - i,
    {
        if is_ws_byte(*slice_index_get(line, i)) {
            proof {
                assert(line@.skip(i as int)[0] == line@[i as int]);
                assert(line@.skip(i as int).skip(1) =~= line@.skip(i + 1));
            }
            i = i + 1;
        } else {
            let start = i;
            while i < len && !is_ws_byte(*slice_index_get(line, i))
                invariant
                    start <= i <= len,
                    len == line@.len(),
                    tok_len(line@.skip(start as int)) == (i - start) + tok_len(
                        line@.skip(i as int),
                    ),
                decreases len - i,
            {
                proof {
                    assert(line@.skip(i as int)[0] == line@[i as int]);
                    assert(line@.skip(i as int).skip(1) =~= line@.skip(i + 1));
                }
                i = i + 1;
            }
            proof {
                if i < len {
                    assert(line@.skip(i as int)[0] == line@[i as int]);
                }
                assert(tok_len(line@.skip(i as int)) == 0);
                assert(tok_len(line@.skip(start as int)) == i - start);
            }
            let tok = slice_to_vec(slice_subrange(line, start, i));
            proof {
                let rest = line@.skip(start as int);
                assert(rest[0] == line@[start as int]);
                assert(rest.take((i - start) as int) =~= line@.subrange(start as int, i as int));
                assert(rest.skip((i - start) as int) =~= line@.skip(i as int));
                assert(tokens_of(rest) == seq![tok@] + tokens_of(line@.skip(i as int)));
            }
            let ghost pre = toks.deep_view();
            toks.push(tok);
            proof {
                assert(toks.deep_view() =~~= pre.push(tok@));
                assert(pre + (seq![tok@] + tokens_of(line@.skip(i as int))) =~= pre.push(tok@)
                    + tokens_of(line@.skip(i as int)));
            }
        }
    }
    proof {
        assert(line@.skip(len as int) =~= Seq::<u8>::empty());
        assert(tokens_of(line@.skip(len as int)) == Seq::<Seq<u8>>::empty());
        assert(toks.deep_view() + Seq::<Seq<u8>>::empty() =~= toks.deep_view());
    }
    toks
}

/// `b` is an ASCII decimal digit.
pub open spec fn is_digit(b: u8) -> bool {
    48 <= b && b <= 57
}

pub open spec fn all_digits(t: Seq<u8>) -> bool {
    forall|j: int| 0 <= j < t.len() ==> is_digit(#[trigger] t[j])
}

/// Value of a non-empty run of decimal digits.
pub open spec fn digits_val(t: Seq<u8>) -> int
    decreases t.len(),
{
    if t.len() == 0 {
        0
    } else {
        10 * digits_val(t.drop_last()) + (t.last() - 48)
    }
}

pub proof fn lemma_digits_val_nonneg(t: Seq<u8>)
    requires
        all_digits(t),
    ensures
        digits_val(t) >= 0,
    decreases t.len(),
{
    if t.len() > 0 {
        assert(all_digits(t.drop_last()));
        lemma_digits_val_nonneg(t.drop_last());
    }
}

pub proof fn lemma_digits_val_mono(t: Seq<u8>, i: int)
    requires
        all_digits(t),
        0 <= i <= t.len(),
    ensures
        digits_val(t.take(i)) <= digits_val(t),
        digits_val(t.take(i)) >= 0,
    decreases t.len() - i,
{
    assert(all_digits(t.take(i)));
    lemma_digits_val_nonneg(t.take(i));
    if i < t.len() {
        assert(t.take(i + 1).drop_last() =~= t.take(i));
        assert(t.take(i + 1).last() == t[i]);
        lemma_digits_val_mono(t, i + 1);
    } else {
        assert(t.take(i) =~= t);
    }
}

/// The sign and magnitude of a decimal integer token (an optional `+` or `-`
/// followed by one or more digits), if the token has that shape.
pub open spec fn int_token(t: Seq<u8>) -> Option<(bool, int)> {
    if t.len() > 0 && (t[0] == 43 || t[0] == 45) {
        if t.len() > 1 && all_digits(t.skip(1)) {
            Some((t[0] == 45, digits_val(t.skip(1))))
        } else {
            None
        }
    } else if t.len() > 0 && all_digits(t) {
        Some((false, digits_val(t)))
    } else {
        None
    }
}

/// The value of a signed 64-bit decimal token; out-of-range values are
/// rejected, as integer parsing rejects them.
pub open spec fn i64_token(t: Seq<u8>) -> Option<i64> {
    match int_token(t) {
        Some((neg, v)) => {
            let sv = if neg {
                -v
            } else {
                v
            };
            if i64::MIN <= sv <= i64::MAX {
                Some(sv as i64)
            } else {
                None
            }
        },
        None => None,
    }
}

/// The value of an unsigned 64-bit decimal token; a `-` sign is rejected.
pub open spec fn u64_token(t: Seq<u8>) -> Option<u64> {
    match int_token(t) {
        Some((neg, v)) => if !neg && v <= u64::MAX {
            Some(v as u64)
        } else {
            None
        },
        None => None,
    }
}

pub open spec fn i32_token(t: Seq<u8>) -> Option<i32> {
    match i64_token(t) {
        Some(v) => if i32::MIN <= v <= i32::MAX {
            Some(v as i32)
        } else {
            None
        },
        None => None,
    }
}

pub open spec fn u8_token(t: Seq<u8>) -> Option<u8> {
    match u64_token(t) {
        Some(v) => if v <= u8::MAX {
            Some(v as u8)
        } else {
            None
        },
        None => None,
    }
}

/// Magnitude of the digit run `t[from..]`, or `None` if it is empty, holds a
/// non-digit, or exceeds `u64::MAX`.
fn parse_digits(t: &[u8], from: usize) -> (r: Option<u64>)
    requires
        from <= t@.len(),
    ensures
        ({
            let sfx = t@.skip(from as int);
            match r {
                Some(v) => sfx.len() > 0 && all_digits(sfx) && v == digits_val(sfx),
                None => !(sfx.len() > 0 && all_digits(sfx) && digits_val(sfx) <= u64::MAX),
            }
        }),
{
    let ghost sfx = t@.skip(from as int);
    let len = t.len();
    if from == len {
        return None;
    }
    let mut acc: u64 = 0;
    let mut i: usize = from;
    while i < len
        invariant
            from <= i <= len,
            len == t@.len(),
            sfx == t@.skip(from as int),
            all_digits(sfx.take((i - from) as int)),
            acc == digits_val(sfx.take((i - from) as int)),
        decreases len - i,
    {
        let b = *slice_index_get(t, i);
        proof {
            assert(sfx[i - from] == t@[i as int]);
        }
        if !(48 <= b && b <= 57) {
            proof {
                assert(!is_digit(sfx[i - from]));
            }
            return None;
        }
        let d: u64 = (b - 48) as u64;
        proof {
            assert(sfx.take((i - from) as int + 1).drop_last() =~= sfx.take((i - from) as int));
            assert(sfx.take((i - from) as int + 1).last() == sfx[i - from]);
        }
        if acc > (u64::MAX - d) / 10 {
            proof {
                let pfx = (i - from) as int + 1;
                assert(digits_val(sfx.take(pfx)) == 10 * (acc as int) + d);
                assert(10 * (acc as int) + d > u64::MAX) by (nonlinear_arith)
                    requires
                        acc > (u64::MAX - d) / 10,
                        d <= 9,
                ;
                if all_digits(sfx) {
                    lemma_digits_val_mono(sfx, pfx);
                }
            }
            return None;
        }
        acc = acc * 10 + d;
        i = i + 1;
    }
    proof {
        assert(sfx.take((len - from) as int) =~= sfx);
    }
    Some(acc)
}

/// Value of a signed 64-bit decimal token (an optional sign and digits, in
/// range), or `None` for any other token.
pub fn parse(t: &[u8]) -> (r: Option<i64>)
    ensures
        r == i64_token(t@),
{
    if t.len() == 0 {
        return None;
    }
    let b0 = *slice_index_get(t, 0);
    let signed = b0 == 43 || b0 == 45;
    let neg = b0 == 45;
    let start: usize = if signed {
        1
    } else {
        0
    };
    proof {
        if !signed {
            assert(t@.skip(0) =~= t@);
        }
        if let Some((n, v)) = int_token(t@) {
            if signed {
                lemma_digits_val_nonneg(t@.skip(1));
            } else {
                lemma_digits_val_nonneg(t@);
            }
        }
    }
    match parse_digits(t, start) {
        None => None,
        Some(v) => {
            if neg {
                if v <= 0x7fff_ffff_ffff_ffff {
                    Some(-(v as i64))
                } else if v == 0x8000_0000_0000_0000 {
                    Some(i64::MIN)
                } else {
                    None
                }
            } else {
                if v <= 0x7fff_ffff_ffff_ffff {
                    Some(v as i64)
                } else {
                    None
                }
            }
        },
    }
}

/// Value of an unsigned 64-bit decimal token (`+` allowed, `-` rejected), or
/// `None` for any other token.
pub fn parse_u64(t: &[u8]) -> (r: Option<u64>)
    ensures
        r == u64_token(t@),
{
    if t.len() == 0 {
        return None;
    }
    let b0 = *slice_index_get(t, 0);
    if b0 == 45 {
        return None;
    }
    let start: usize = if b0 == 43 {
        1
    } else {
        0
    };
    proof {
        if b0 != 43 {
            assert(t@.skip(0) =~= t@);
        }
        if let Some((n, v)) = int_token(t@) {
            if b0 == 43 {
                lemma_digits_val_nonneg(t@.skip(1));
            } else {
                lemma_digits_val_nonneg(t@);
            }
        }
    }
    parse_digits(t, start)
}

/// Value of a signed 32-bit decimal token.
pub fn parse_i32(t: &[u8]) -> (r: Option<i32>)
    ensures
        r == i32_token(t@),
{
    match parse(t) {
        Some(v) => if -0x8000_0000i64 <= v && v <= 0x7fff_ffff {
            Some(v as i32)
        } else {
            None
        },
        None => None,
    }
}

/// Value of an unsigned 8-bit decimal token.
pub fn parse_u8(t: &[u8]) -> (r: Option<u8>)
    ensures
        r == u8_token(t@),
{
    match parse_u64(t) {
        Some(v) => if v <= 255 {
            Some(v as u8)
        } else {
            None
        },
        None => None,
    }
}

} // verus!
