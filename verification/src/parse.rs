//! Parsing of the protocol's text: the handshake's `SIZE <w> <h>` response
//! and the `<x>x<y>` placement and resize expressions, with `E` (end) and `M`
//! (middle) as symbolic offsets. Every malformed input is rejected, never
//! guessed at.

use vstd::prelude::*;

use crate::numfmt::spec_dec;

verus! {

/// ASCII whitespace, as token separators.
pub open spec fn spec_is_ws(b: u8) -> bool {
    b == 32 || b == 9 || b == 10 || b == 12 || b == 13
}

/// An ASCII decimal digit.
pub open spec fn spec_is_digit(b: u8) -> bool {
    48 <= b <= 57
}

/// The length of the leading run of non-whitespace bytes.
pub open spec fn spec_token_len(s: Seq<u8>) -> nat
    decreases s.len(),
{
    if s.len() == 0 || spec_is_ws(s[0]) {
        0
    } else {
        1 + spec_token_len(s.drop_first())
    }
}

/// A token never runs past the end of the input.
pub proof fn lemma_token_len_le(s: Seq<u8>)
    ensures
        spec_token_len(s) <= s.len(),
    decreases s.len(),
{
    if s.len() == 0 || spec_is_ws(s[0]) {
    } else {
        lemma_token_len_le(s.drop_first());
    }
}

/// The maximal whitespace-separated tokens of `s`, in order.
pub open spec fn spec_tokens(s: Seq<u8>) -> Seq<Seq<u8>>
    decreases s.len(),
    via spec_tokens_decreases
{
    if s.len() == 0 {
        Seq::empty()
    } else if spec_is_ws(s[0]) {
        spec_tokens(s.drop_first())
    } else {
        let n = spec_token_len(s) as int;
        seq![s.take(n)] + spec_tokens(s.skip(n))
    }
}

#[via_fn]
proof fn spec_tokens_decreases(s: Seq<u8>) {
    if s.len() > 0 && !spec_is_ws(s[0]) {
        lemma_token_len_le(s);
        assert(spec_token_len(s) >= 1);
    }
}

/// The leading token is exactly the first `k` bytes when those are non-blank
/// and a blank byte (or the end) follows.
proof fn lemma_token_len_is(s: Seq<u8>, k: int)
    requires
        0 <= k <= s.len(),
        forall|j: int| 0 <= j < k ==> !spec_is_ws(#[trigger] s[j]),
        k == s.len() || spec_is_ws(s[k]),
    ensures
        spec_token_len(s) == k,
    decreases k,
{
    if k == 0 {
    } else {
        assert(!spec_is_ws(s[0]));
        let t = s.drop_first();
        assert(forall|j: int| 0 <= j < k - 1 ==> t[j] == s[j + 1] && !spec_is_ws(#[trigger] t[j]));
        assert(k - 1 == t.len() || spec_is_ws(t[k - 1]));
        lemma_token_len_is(t, k - 1);
    }
}

/// The numeric value of a digit string, most significant digit first.
pub open spec fn spec_dec_value(s: Seq<u8>) -> int
    decreases s.len(),
{
    if s.len() == 0 {
        0
    } else {
        spec_dec_value(s.drop_last()) * 10 + (s.last() - 48)
    }
}

/// What parsing an unsigned decimal returns: the value, if the token is a
/// nonempty all-digit string whose value fits; `None` on anything else.
pub open spec fn spec_parse_u32(s: Seq<u8>) -> Option<u32> {
    if s.len() > 0 && (forall|i: int| 0 <= i < s.len() ==> spec_is_digit(#[trigger] s[i]))
        && spec_dec_value(s) <= u32::MAX {
        Some(spec_dec_value(s) as u32)
    } else {
        None
    }
}

proof fn lemma_dec_value_nonneg(s: Seq<u8>)
    requires
        forall|i: int| 0 <= i < s.len() ==> spec_is_digit(#[trigger] s[i]),
    ensures
        spec_dec_value(s) >= 0,
    decreases s.len(),
{
    if s.len() > 0 {
        assert(forall|i: int|
            0 <= i < s.drop_last().len() ==> spec_is_digit(#[trigger] s.drop_last()[i]));
        lemma_dec_value_nonneg(s.drop_last());
    }
}

/// A longer digit prefix never has a smaller value: once a prefix is too big,
/// the whole token is too big.
proof fn lemma_dec_value_prefix_le(s: Seq<u8>, k: int)
    requires
        0 <= k <= s.len(),
        forall|i: int| 0 <= i < s.len() ==> spec_is_digit(#[trigger] s[i]),
    ensures
        spec_dec_value(s.take(k)) <= spec_dec_value(s),
    decreases s.len() - k,
{
    if k == s.len() {
        assert(s.take(k) =~= s);
    } else {
        lemma_dec_value_prefix_le(s, k + 1);
        let t = s.take(k + 1);
        assert(t.drop_last() =~= s.take(k));
        assert(t.last() == s[k]);
        assert(spec_dec_value(s.take(k + 1)) == spec_dec_value(s.take(k)) * 10 + (s[k] - 48));
        assert(forall|i: int| 0 <= i < s.take(k).len() ==> spec_is_digit(#[trigger] s.take(k)[i]));
        lemma_dec_value_nonneg(s.take(k));
    }
}

/// Parses a nonempty all-digit token as a `u32`; rejects anything else,
/// an overflowing value included.
pub fn parse_u32(t: &Vec<u8>) -> (r: Option<u32>)
    ensures
        r == spec_parse_u32(t@),
{
    if t.len() == 0 {
        return None;
    }
    let mut acc: u64 = 0;
    let mut i: usize = 0;
    while i < t.len()
        invariant
            0 <= i <= t@.len(),
            forall|j: int| 0 <= j < i ==> spec_is_digit(#[trigger] t@[j]),
            acc == spec_dec_value(t@.take(i as int)),
            acc <= u32::MAX,
        decreases t@.len() - i,
    {
        let b = t[i];
        if b < 48 || b > 57 {
            return None;
        }
        proof {
            assert(t@.take(i as int + 1).drop_last() =~= t@.take(i as int));
            assert(t@.take(i as int + 1).last() == t@[i as int]);
        }
        acc = acc * 10 + (b - 48) as u64;
        i = i + 1;
        if acc > 0xffff_ffff {
            proof {
                if forall|j: int| 0 <= j < t@.len() ==> spec_is_digit(#[trigger] t@[j]) {
                    lemma_dec_value_prefix_le(t@, i as int);
                }
            }
            return None;
        }
    }
    proof {
        assert(t@.take(i as int) =~= t@);
    }
    Some(acc as u32)
}

proof fn lemma_dec_value_of_dec(n: nat)
    ensures
        spec_dec(n).len() > 0,
        forall|i: int| 0 <= i < spec_dec(n).len() ==> spec_is_digit(#[trigger] spec_dec(n)[i]),
        spec_dec_value(spec_dec(n)) == n,
    decreases n,
{
    if n < 10 {
        let s = seq![(48 + n) as u8];
        assert(spec_dec(n) == s);
        assert(s.drop_last() =~= Seq::<u8>::empty());
        assert(spec_dec_value(Seq::<u8>::empty()) == 0);
        assert(s.last() == (48 + n) as u8);
        assert(spec_dec_value(s) == spec_dec_value(s.drop_last()) * 10 + (s.last() - 48));
        assert(spec_dec_value(s) == n);
    } else {
        lemma_dec_value_of_dec(n / 10);
        let s = spec_dec(n / 10);
        let c = (48 + n % 10) as u8;
        assert(spec_dec(n) == s.push(c));
        assert(s.push(c).drop_last() =~= s);
        assert(s.push(c).last() == c);
        assert(spec_dec_value(s.push(c)) == (n / 10) * 10 + n % 10);
        vstd::arithmetic::div_mod::lemma_fundamental_div_mod(n as int, 10);
        assert(forall|i: int|
            0 <= i < s.push(c).len() ==> spec_is_digit(#[trigger] s.push(c)[i]));
    }
}

/// The wire format read back: a number printed in the protocol's decimal
/// form parses to exactly that number.
pub proof fn lemma_dec_round_trip(n: u32)
    ensures
        spec_parse_u32(spec_dec(n as nat)) == Some(n),
{
    lemma_dec_value_of_dec(n as nat);
}

/// Splits `s` into its whitespace-separated tokens.
pub fn tokenize(s: &Vec<u8>) -> (r: Vec<Vec<u8>>)
    ensures
        r.deep_view() == spec_tokens(s@),
{
    let mut out: Vec<Vec<u8>> = Vec::new();
    let mut i: usize = 0;
    proof {
        assert(s@.skip(0) =~= s@);
        assert(out.deep_view() + spec_tokens(s@) =~~= spec_tokens(s@));
    }
    while i < s.len()
        invariant
            0 <= i <= s@.len(),
            spec_tokens(s@) == out.deep_view() + spec_tokens(s@.skip(i as int)),
        decreases s@.len() - i,
    {
        let ghost rest = s@.skip(i as int);
        if is_ws(s[i]) {
            proof {
                assert(rest[0] == s@[i as int]);
                assert(rest.drop_first() =~= s@.skip(i as int + 1));
            }
            i = i + 1;
        } else {
            let start = i;
            let mut tok: Vec<u8> = Vec::new();
            while i < s.len() && !is_ws_at(s, i)
                invariant
                    start <= i <= s@.len(),
                    start < s@.len(),
                    tok@ =~= s@.subrange(start as int, i as int),
                    forall|j: int| start <= j < i ==> !spec_is_ws(#[trigger] s@[j]),
                decreases s@.len() - i,
            {
                tok.push(s[i]);
                i = i + 1;
            }
            proof {
                assert(forall|j: int|
                    0 <= j < i - start ==> rest[j] == s@[start + j] && !spec_is_ws(
                        #[trigger] rest[j],
                    ));
                assert(i - start == rest.len() || spec_is_ws(rest[i - start]));
                lemma_token_len_is(rest, i - start);
                assert(rest.take(i - start) =~= s@.subrange(start as int, i as int));
                assert(rest.skip(i - start) =~= s@.skip(i as int));
            }
            let ghost old_out = out.deep_view();
            let ghost tokv = tok@;
            out.push(tok);
            proof {
                assert(out.deep_view() =~~= old_out + seq![tokv]);
                assert(spec_tokens(rest) == seq![rest.take(i - start)] + spec_tokens(
                    rest.skip(i - start),
                ));
                assert(out.deep_view() + spec_tokens(s@.skip(i as int)) =~~= old_out
                    + spec_tokens(rest));
            }
        }
    }
    proof {
        assert(s@.skip(i as int) =~= Seq::<u8>::empty());
        assert(out.deep_view() =~~= out.deep_view() + spec_tokens(s@.skip(i as int)));
    }
    out
}

fn is_ws(b: u8) -> (r: bool)
    ensures
        r == spec_is_ws(b),
{
    b == 32 || b == 9 || b == 10 || b == 12 || b == 13
}

fn is_ws_at(s: &Vec<u8>, i: usize) -> (r: bool)
    requires
        i < s@.len(),
    ensures
        r == spec_is_ws(s@[i as int]),
{
    is_ws(s[i])
}

/// What the handshake parser returns for a response line: the second and
/// third whitespace-separated tokens read as decimal width and height, or
/// `None` when either is missing or not a number.
pub open spec fn spec_parse_size(s: Seq<u8>) -> Option<(u32, u32)> {
    let t = spec_tokens(s);
    if t.len() < 3 {
        None
    } else {
        match (spec_parse_u32(t[1]), spec_parse_u32(t[2])) {
            (Some(w), Some(h)) => Some((w, h)),
            _ => None,
        }
    }
}

/// Parses a `SIZE <width> <height>` response line.
pub fn parse_size_response(line: &Vec<u8>) -> (r: Option<(u32, u32)>)
    ensures
        r == spec_parse_size(line@),
{
    let toks = tokenize(line);
    if toks.len() < 3 {
        return None;
    }
    assert(toks@[1]@ == toks.deep_view()[1] && toks@[2]@ == toks.deep_view()[2]);
    let w = parse_u32(&toks[1]);
    let h = parse_u32(&toks[2]);
    match (w, h) {
        (Some(w), Some(h)) => Some((w, h)),
        _ => None,
    }
}

pub const DEFAULT_CANVAS_W: u32 = 1024;

pub const DEFAULT_CANVAS_H: u32 = 768;

/// The canvas size used for placement: the parsed handshake response, or the
/// documented default on a missing or malformed response.
pub open spec fn spec_canvas_size(resp: Option<Seq<u8>>) -> (u32, u32) {
    match resp {
        Some(s) => match spec_parse_size(s) {
            Some(wh) => wh,
            None => (DEFAULT_CANVAS_W, DEFAULT_CANVAS_H),
        },
        None => (DEFAULT_CANVAS_W, DEFAULT_CANVAS_H),
    }
}

/// Turns the handshake's outcome into the canvas size, falling back to the
/// default rather than failing.
pub fn canvas_size(resp: Option<Vec<u8>>) -> (r: (u32, u32))
    ensures
        r == spec_canvas_size(match resp {
            Some(v) => Some(v@),
            None => None,
        }),
{
    match resp {
        Some(line) => match parse_size_response(&line) {
            Some(wh) => wh,
            None => (DEFAULT_CANVAS_W, DEFAULT_CANVAS_H),
        },
        None => (DEFAULT_CANVAS_W, DEFAULT_CANVAS_H),
    }
}

/// The position of the first `x` (the axis separator), if any.
pub open spec fn spec_find_x(s: Seq<u8>) -> Option<int>
    decreases s.len(),
{
    if s.len() == 0 {
        None
    } else if s[0] == 120 {
        Some(0)
    } else {
        match spec_find_x(s.drop_first()) {
            Some(i) => Some(i + 1),
            None => None,
        }
    }
}

proof fn lemma_find_x_is(s: Seq<u8>, k: int)
    requires
        0 <= k <= s.len(),
        forall|j: int| 0 <= j < k ==> s[j] != 120,
        k == s.len() || s[k] == 120,
    ensures
        k < s.len() ==> spec_find_x(s) == Some(k),
        k == s.len() ==> spec_find_x(s) is None,
    decreases k,
{
    if k == 0 {
    } else {
        let t = s.drop_first();
        assert(forall|j: int| 0 <= j < k - 1 ==> t[j] == s[j + 1] && #[trigger] t[j] != 120);
        lemma_find_x_is(t, k - 1);
    }
}

/// Splits `<a>x<b>` at the first `x`; `None` when no `x` occurs.
pub fn split_at_x(s: &Vec<u8>) -> (r: Option<(Vec<u8>, Vec<u8>)>)
    ensures
        match r {
            Some(p) => {
                &&& spec_find_x(s@) == Some(p.0@.len() as int)
                &&& p.0@ == s@.take(p.0@.len() as int)
                &&& p.1@ == s@.skip(p.0@.len() as int + 1)
            },
            None => spec_find_x(s@) is None,
        },
{
    let mut i: usize = 0;
    while i < s.len()
        invariant
            0 <= i <= s@.len(),
            forall|j: int| 0 <= j < i ==> s@[j] != 120,
        decreases s@.len() - i,
    {
        if s[i] == 120 {
            proof {
                lemma_find_x_is(s@, i as int);
            }
            let mut a: Vec<u8> = Vec::new();
            let mut b: Vec<u8> = Vec::new();
            let mut k: usize = 0;
            while k < i
                invariant
                    0 <= k <= i <= s@.len(),
                    a@ =~= s@.take(k as int).take(k as int),
                    a@.len() == k,
                decreases i - k,
            {
                a.push(s[k]);
                k = k + 1;
            }
            let mut k: usize = i + 1;
            while k < s.len()
                invariant
                    i + 1 <= k <= s@.len(),
                    b@ =~= s@.subrange(i as int + 1, k as int),
                decreases s@.len() - k,
            {
                b.push(s[k]);
                k = k + 1;
            }
            proof {
                assert(a@ =~= s@.take(i as int));
                assert(b@ =~= s@.skip(i as int + 1));
            }
            return Some((a, b));
        }
        i = i + 1;
    }
    proof {
        lemma_find_x_is(s@, s@.len() as int);
    }
    None
}

} // verus!
