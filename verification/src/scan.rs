//! Byte-level scanning primitives shared by the wire-protocol parsers:
//! newline search, ASCII-whitespace tokenization, decimal parsing, trimming,
//! and UTF-8 decoding.

use vstd::prelude::*;

verus! {

/// The ASCII characters that `char::is_whitespace` accepts: TAB, LF, VT, FF,
/// CR and space.
pub open spec fn is_ascii_ws(b: u8) -> bool {
    b == 9 || b == 10 || b == 11 || b == 12 || b == 13 || b == 32
}

/// Index of the first occurrence of `b` in `s` at or after `i`; `s.len()` when
/// there is none.
pub open spec fn find_from(s: Seq<u8>, i: int, b: u8) -> int
    decreases s.len() - i,
{
    if 0 <= i < s.len() {
        if s[i] == b {
            i
        } else {
            find_from(s, i + 1, b)
        }
    } else {
        s.len() as int
    }
}

pub proof fn lemma_find_from_bounds(s: Seq<u8>, i: int, b: u8)
    requires
        0 <= i <= s.len(),
    ensures
        i <= find_from(s, i, b) <= s.len(),
        find_from(s, i, b) < s.len() ==> s[find_from(s, i, b)] == b,
    decreases s.len() - i,
{
    if i < s.len() && s[i] != b {
        lemma_find_from_bounds(s, i + 1, b);
    }
}

/// Index of the first non-whitespace byte at or after `i`; `s.len()` when the
/// rest is all whitespace.
pub open spec fn skip_ws(s: Seq<u8>, i: int) -> int
    decreases s.len() - i,
{
    if 0 <= i < s.len() {
        if is_ascii_ws(s[i]) {
            skip_ws(s, i + 1)
        } else {
            i
        }
    } else {
        s.len() as int
    }
}

/// Index of the first whitespace byte at or after `i`; `s.len()` when the rest
/// is all non-whitespace.
pub open spec fn token_end(s: Seq<u8>, i: int) -> int
    decreases s.len() - i,
{
    if 0 <= i < s.len() {
        if is_ascii_ws(s[i]) {
            i
        } else {
            token_end(s, i + 1)
        }
    } else {
        s.len() as int
    }
}

pub proof fn lemma_token_end_bounds(s: Seq<u8>, i: int)
    requires
        0 <= i <= s.len(),
    ensures
        i <= token_end(s, i) <= s.len(),
    decreases s.len() - i,
{
    if i < s.len() && !is_ascii_ws(s[i]) {
        lemma_token_end_bounds(s, i + 1);
    }
}

/// The maximal runs of non-whitespace bytes of `s` from position `i` on, in
/// order: what `str::split_whitespace` yields for ASCII text.
pub open spec fn tokens_from(s: Seq<u8>, i: int) -> Seq<Seq<u8>>
    decreases s.len() - i,
        when 0 <= i <= s.len()
        via tokens_from_decreases
{
    if i >= s.len() {
        Seq::empty()
    } else if is_ascii_ws(s[i]) {
        tokens_from(s, i + 1)
    } else {
        seq![s.subrange(i, token_end(s, i))] + tokens_from(s, token_end(s, i))
    }
}

#[via_fn]
proof fn tokens_from_decreases(s: Seq<u8>, i: int) {
    if 0 <= i <= s.len() && i < s.len() && !is_ascii_ws(s[i]) {
        lemma_token_end_bounds(s, i + 1);
    }
}

pub open spec fn is_digit(b: u8) -> bool {
    48 <= b <= 57
}

pub open spec fn all_digits(s: Seq<u8>) -> bool {
    forall|k: int| 0 <= k < s.len() ==> is_digit(#[trigger] s[k])
}

/// Value of a string of decimal digits, most significant first.
pub open spec fn digits_val(s: Seq<u8>) -> int
    decreases s.len(),
{
    if s.len() == 0 {
        0
    } else {
        digits_val(s.drop_last()) * 10 + (s.last() - 48)
    }
}

pub proof fn lemma_digits_val_nonneg(s: Seq<u8>)
    requires
        all_digits(s),
    ensures
        digits_val(s) >= 0,
    decreases s.len(),
{
    if s.len() > 0 {
        assert(all_digits(s.drop_last()));
        lemma_digits_val_nonneg(s.drop_last());
    }
}

pub proof fn lemma_digits_val_take_monotone(s: Seq<u8>, k: int)
    requires
        all_digits(s),
        0 <= k <= s.len(),
    ensures
        digits_val(s.take(k)) <= digits_val(s),
    decreases s.len() - k,
{
    if k == s.len() {
        assert(s.take(k) =~= s);
    } else {
        lemma_digits_val_take_monotone(s, k + 1);
        let t = s.take(k + 1);
        assert(t.drop_last() =~= s.take(k));
        assert(all_digits(t));
        lemma_digits_val_nonneg(t.drop_last());
        assert(digits_val(t) == digits_val(s.take(k)) * 10 + (t.last() - 48));
        assert(is_digit(s[k]));
        assert(digits_val(s.take(k)) <= digits_val(t));
    }
}

/// The digit part of a decimal numeral: an optional leading `+` is dropped.
pub open spec fn dec_digits(s: Seq<u8>) -> Seq<u8> {
    if s.len() > 0 && s[0] == 43 {
        s.skip(1)
    } else {
        s
    }
}

/// What `usize::from_str` accepts: an optional `+`, then at least one digit,
/// with a value that fits in `usize`.
pub open spec fn dec_value(s: Seq<u8>) -> Option<int> {
    let d = dec_digits(s);
    if d.len() > 0 && all_digits(d) && digits_val(d) <= usize::MAX {
        Some(digits_val(d))
    } else {
        None
    }
}

/// `s` with ASCII whitespace removed from both ends.
pub open spec fn trimmed(s: Seq<u8>) -> Seq<u8> {
    let a = skip_ws(s, 0);
    let b = rskip_ws(s, s.len() as int);
    if a <= b {
        s.subrange(a, b)
    } else {
        Seq::empty()
    }
}

/// Index one past the last non-whitespace byte of `s` before `i`; 0 when all
/// of them are whitespace.
pub open spec fn rskip_ws(s: Seq<u8>, i: int) -> int
    decreases i,
{
    if 0 < i <= s.len() {
        if is_ascii_ws(s[i - 1]) {
            rskip_ws(s, i - 1)
        } else {
            i
        }
    } else {
        0
    }
}

fn is_ws_byte(b: u8) -> (r: bool)
    ensures
        r == is_ascii_ws(b),
{
    b == 9 || b == 10 || b == 11 || b == 12 || b == 13 || b == 32
}

/// First occurrence of `target` in `data` at or after `from`, as an index;
/// `data.len()` when there is none.
pub fn find_byte(data: &[u8], from: usize, target: u8) -> (r: usize)
    requires
        from <= data@.len(),
    ensures
        r == find_from(data@, from as int, target),
{
    let n = data.len();
    let mut j = from;
    while j < n
        invariant
            from <= j <= n,
            n == data@.len(),
            find_from(data@, from as int, target) == find_from(data@, j as int, target),
        decreases n - j,
    {
        if data[j] == target {
            return j;
        }
        j += 1;
    }
    n
}

/// First whitespace byte at or after `from`, as an index; `line.len()` when
/// the rest is all non-whitespace.
fn scan_token_end(line: &[u8], from: usize) -> (r: usize)
    requires
        from <= line@.len(),
    ensures
        r == token_end(line@, from as int),
{
    let n = line.len();
    let mut j = from;
    while j < n
        invariant
            from <= j <= n,
            n == line@.len(),
            token_end(line@, from as int) == token_end(line@, j as int),
        decreases n - j,
    {
        if is_ws_byte(line[j]) {
            return j;
        }
        j += 1;
    }
    n
}

/// Splits `line` at runs of ASCII whitespace; mirrors `str::split_whitespace`
/// on ASCII separators.
pub fn split_ws(line: &[u8]) -> (r: Vec<Vec<u8>>)
    ensures
        r@.len() == tokens_from(line@, 0).len(),
        forall|k: int|
            0 <= k < r@.len() ==> #[trigger] r@[k]@ == tokens_from(line@, 0)[k],
{
    let n = line.len();
    let mut r: Vec<Vec<u8>> = Vec::new();
    let mut i: usize = 0;
    while i < n
        invariant
            i <= n,
            n == line@.len(),
            tokens_from(line@, 0) == r@.map_values(|t: Vec<u8>| t@) + tokens_from(
                line@,
                i as int,
            ),
        decreases n - i,
    {
        if is_ws_byte(line[i]) {
            i += 1;
        } else {
            let ghost te = token_end(line@, i as int);
            proof {
                lemma_token_end_bounds(line@, i as int);
            }
            let j = scan_token_end(line, i);
            assert(j == te);
            let tok = vstd::slice::slice_to_vec(vstd::slice::slice_subrange(line, i, j));
            let ghost old_map = r@.map_values(|t: Vec<u8>| t@);
            r.push(tok);
            proof {
                assert(r@.map_values(|t: Vec<u8>| t@) =~= old_map + seq![line@.subrange(
                    i as int,
                    j as int,
                )]);
                assert(tokens_from(line@, i as int) == seq![line@.subrange(i as int, te)]
                    + tokens_from(line@, te));
            }
            i = j;
        }
    }
    proof {
        assert(tokens_from(line@, 0) =~= r@.map_values(|t: Vec<u8>| t@));
        assert(forall|k: int|
            0 <= k < r@.len() ==> #[trigger] r@[k]@ == r@.map_values(|t: Vec<u8>| t@)[k]);
    }
    r
}

/// Whether two byte slices hold the same bytes.
pub fn bytes_eq(a: &[u8], b: &[u8]) -> (r: bool)
    ensures
        r == (a@ == b@),
{
    let n = a.len();
    if n != b.len() {
        assert(a@ != b@) by {
            assert(a@.len() != b@.len());
        }
        return false;
    }
    let mut i: usize = 0;
    while i < n
        invariant
            i <= n,
            n == a@.len() && n == b@.len(),
            forall|k: int| 0 <= k < i ==> a@[k] == b@[k],
        decreases n - i,
    {
        if a[i] != b[i] {
            return false;
        }
        i += 1;
    }
    proof {
        assert(a@ =~= b@);
    }
    true
}

/// Parses a decimal numeral as `usize::from_str` does: optional `+`, then
/// digits; `None` on anything else or on overflow.
pub fn parse_usize_dec(tok: &[u8]) -> (r: Option<usize>)
    ensures
        r is Some <==> dec_value(tok@) is Some,
        r matches Some(v) ==> dec_value(tok@) == Some(v as int),
{
    let n = tok.len();
    if n == 0 {
        return None;
    }
    let start: usize = if tok[0] == 43 {
        1
    } else {
        0
    };
    let ghost d = dec_digits(tok@);
    proof {
        assert(d =~= tok@.subrange(start as int, n as int));
    }
    if start == n {
        assert(d.len() == 0);
        return None;
    }
    let mut acc: usize = 0;
    let mut i = start;
    while i < n
        invariant
            start <= i <= n,
            n == tok@.len(),
            start == 1 ==> tok@[0] == 43,
            start == 0 ==> (n > 0 && tok@[0] != 43),
            d == dec_digits(tok@),
            d =~= tok@.subrange(start as int, n as int),
            all_digits(d.take(i - start)),
            acc == digits_val(d.take(i - start)),
        decreases n - i,
    {
        let b = tok[i];
        if b < 48 || b > 57 {
            assert(!is_digit(d[i - start]));
            assert(!all_digits(d));
            return None;
        }
        let digit = (b - 48) as usize;
        let step = match acc.checked_mul(10) {
            Some(m) => m.checked_add(digit),
            None => None,
        };
        proof {
            let t = d.take(i - start + 1);
            assert(t.drop_last() =~= d.take(i - start));
            assert(t.last() == d[i - start]);
            assert(digits_val(t) == acc * 10 + digit);
        }
        match step {
            Some(v) => {
                acc = v;
            },
            None => {
                proof {
                    assert(digits_val(d.take(i - start + 1)) > usize::MAX);
                    if all_digits(d) {
                        lemma_digits_val_take_monotone(d, i - start + 1);
                    }
                }
                return None;
            },
        }
        i += 1;
    }
    proof {
        assert(d.take(n - start) =~= d);
    }
    Some(acc)
}

fn scan_skip_ws(data: &[u8]) -> (r: usize)
    ensures
        r == skip_ws(data@, 0),
        r <= data@.len(),
{
    let n = data.len();
    let mut a: usize = 0;
    while a < n
        invariant
            a <= n,
            n == data@.len(),
            skip_ws(data@, 0) == skip_ws(data@, a as int),
        decreases n - a,
    {
        if !is_ws_byte(data[a]) {
            return a;
        }
        a += 1;
    }
    n
}

fn scan_rskip_ws(data: &[u8]) -> (r: usize)
    ensures
        r == rskip_ws(data@, data@.len() as int),
        r <= data@.len(),
{
    let n = data.len();
    let mut b: usize = n;
    while b > 0
        invariant
            b <= n,
            n == data@.len(),
            rskip_ws(data@, n as int) == rskip_ws(data@, b as int),
        decreases b,
    {
        if !is_ws_byte(data[b - 1]) {
            return b;
        }
        b -= 1;
    }
    0
}

/// `data` with ASCII whitespace removed from both ends.
pub fn trim_ascii_ws<'a>(data: &'a [u8]) -> (r: &'a [u8])
    ensures
        r@ == trimmed(data@),
{
    let a = scan_skip_ws(data);
    let b = scan_rskip_ws(data);
    if a >= b {
        proof {
            assert(trimmed(data@) =~= Seq::<u8>::empty());
        }
        vstd::slice::slice_subrange(data, 0, 0)
    } else {
        vstd::slice::slice_subrange(data, a, b)
    }
}

/// Relies on `core::str::from_utf8`: it succeeds exactly on well-formed UTF-8
/// and the returned string reads the decoded bytes.
#[verifier::external_body]
pub(crate) fn utf8_to_str(b: &[u8]) -> (r: Option<&str>)
    ensures
        r is Some <==> vstd::utf8::valid_utf8(b@),
        r matches Some(s) ==> s@ == vstd::utf8::decode_utf8(b@),
{
    core::str::from_utf8(b).ok()
}

} // verus!
