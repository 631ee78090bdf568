//! Character-level text utilities: converting between strings and
//! character vectors, whitespace splitting, and decimal integer parsing.
//!
//! Everything here works on `Vec<char>` so that the command grammar can be
//! stated over sequences of characters.

use vstd::prelude::*;

verus! {

/// Relies on std's `FromIterator` for `String`: collecting an iterator of
/// characters yields the string of exactly those characters, in order.
#[verifier::external_body]
pub fn chars_to_string(v: &Vec<char>) -> (s: String)
    ensures
        s@ == v@,
{
    v.iter().collect()
}

/// The characters of `s`, in order, as a vector.
pub fn str_to_chars(s: &str) -> (v: Vec<char>)
    ensures
        v@ == s@,
{
    let n = s.unicode_len();
    let mut v: Vec<char> = Vec::new();
    let mut i: usize = 0;
    while i < n
        invariant
            n == s@.len(),
            i <= n,
            v@ == s@.subrange(0, i as int),
        decreases n - i,
    {
        let c = s.get_char(i);
        v.push(c);
        proof {
            assert(v@ =~= s@.subrange(0, i + 1));
        }
        i = i + 1;
    }
    proof {
        assert(v@ =~= s@);
    }
    v
}

/// Whether `t` and `s` hold the same characters.
pub fn tok_eq_str(t: &Vec<char>, s: &str) -> (b: bool)
    ensures
        b == (t@ == s@),
{
    let n = s.unicode_len();
    if t.len() != n {
        return false;
    }
    let mut i: usize = 0;
    while i < n
        invariant
            n == s@.len(),
            t@.len() == n,
            i <= n,
            forall|j: int| 0 <= j < i ==> t@[j] == s@[j],
        decreases n - i,
    {
        if t[i] != s.get_char(i) {
            return false;
        }
        i = i + 1;
    }
    proof {
        assert(t@ =~= s@);
    }
    true
}

/// The Unicode white-space characters, the set `char::is_whitespace`
/// recognizes and `str::split_whitespace` splits on.
pub open spec fn is_wspace(c: char) -> bool {
    let u = c as u32;
    (9 <= u && u <= 13) || u == 32 || u == 0x85 || u == 0xA0 || u == 0x1680 || (0x2000 <= u && u
        <= 0x200A) || u == 0x2028 || u == 0x2029 || u == 0x202F || u == 0x205F || u == 0x3000
}

/// Whether `c` separates tokens.
pub fn is_space(c: char) -> (b: bool)
    ensures
        b == is_wspace(c),
{
    let u = c as u32;
    (9 <= u && u <= 13) || u == 32 || u == 0x85 || u == 0xA0 || u == 0x1680 || (0x2000 <= u && u
        <= 0x200A) || u == 0x2028 || u == 0x2029 || u == 0x202F || u == 0x205F || u == 0x3000
}

/// The length of the leading run of non-white-space characters.
pub open spec fn token_len(s: Seq<char>) -> int
    decreases s.len(),
{
    if s.len() == 0 || is_wspace(s[0]) {
        0
    } else {
        1 + token_len(s.skip(1))
    }
}

/// The leading token length never exceeds the text length.
pub proof fn lemma_token_len_bounds(s: Seq<char>)
    ensures
        0 <= token_len(s) <= s.len(),
    decreases s.len(),
{
    if s.len() != 0 && !is_wspace(s[0]) {
        lemma_token_len_bounds(s.skip(1));
    }
}

/// The white-space-separated tokens of `s`, in order.
pub open spec fn tokens(s: Seq<char>) -> Seq<Seq<char>>
    decreases s.len(),
{
    if s.len() == 0 {
        Seq::empty()
    } else if is_wspace(s[0]) {
        tokens(s.skip(1))
    } else {
        proof {
            lemma_token_len_bounds(s);
            lemma_token_len_bounds(s.skip(1));
        }
        seq![s.take(token_len(s))] + tokens(s.skip(token_len(s)))
    }
}

/// If the first `k` characters are no white space and the text ends or
/// holds white space at position `k`, the leading token is exactly `k`
/// characters long.
pub proof fn lemma_token_len_of(s: Seq<char>, k: int)
    requires
        0 <= k <= s.len(),
        forall|j: int| 0 <= j < k ==> !is_wspace(#[trigger] s[j]),
        k == s.len() || is_wspace(s[k]),
    ensures
        token_len(s) == k,
    decreases k,
{
    if k > 0 {
        assert forall|j: int| 0 <= j < k - 1 implies !is_wspace(#[trigger] s.skip(1)[j]) by {
            assert(s.skip(1)[j] == s[j + 1]);
        }
        assert(k - 1 == s.skip(1).len() || is_wspace(s.skip(1)[k - 1]));
        lemma_token_len_of(s.skip(1), k - 1);
    }
}

/// The token views of a vector of tokens.
pub open spec fn views(ts: Seq<Vec<char>>) -> Seq<Seq<char>> {
    ts.map_values(|t: Vec<char>| t@)
}

/// Splits `s` into its white-space-separated tokens.
pub fn tokenize(s: &Vec<char>) -> (toks: Vec<Vec<char>>)
    ensures
        views(toks@) == tokens(s@),
        forall|i: int| 0 <= i < toks@.len() ==> #[trigger] toks@[i]@.len() > 0,
{
    let mut toks: Vec<Vec<char>> = Vec::new();
    let mut i: usize = 0;
    proof {
        assert(s@.skip(0) =~= s@);
        assert(views(toks@) + tokens(s@.skip(0)) =~= tokens(s@));
    }
    while i < s.len()
        invariant
            i <= s@.len(),
            views(toks@) + tokens(s@.skip(i as int)) == tokens(s@),
            forall|j: int| 0 <= j < toks@.len() ==> #[trigger] toks@[j]@.len() > 0,
        decreases s@.len() - i,
    {
        if is_space(s[i]) {
            proof {
                assert(s@.skip(i as int).skip(1) =~= s@.skip(i as int + 1));
                assert(views(toks@) + tokens(s@.skip(i as int + 1)) =~= tokens(s@));
            }
            i = i + 1;
        } else {
            let start = i;
            let mut tok: Vec<char> = Vec::new();
            while i < s.len() && !is_space(s[i])
                invariant
                    start <= i <= s@.len(),
                    start < s@.len(),
                    tok@ == s@.subrange(start as int, i as int),
                    forall|l: int| start <= l < i ==> !is_wspace(#[trigger] s@[l]),
                decreases s@.len() - i,
            {
                let c = s[i];
                tok.push(c);
                proof {
                    assert(tok@ =~= s@.subrange(start as int, i as int + 1));
                }
                i = i + 1;
            }
            proof {
                let rest = s@.skip(start as int);
                assert forall|j: int| 0 <= j < i - start implies !is_wspace(#[trigger] rest[j]) by {
                    assert(rest[j] == s@[start + j]);
                }
                if (i as int) < s@.len() {
                    assert(is_wspace(rest[i - start]));
                }
                lemma_token_len_of(rest, i - start);
                assert(rest.take(i - start) =~= s@.subrange(start as int, i as int));
                assert(rest.skip(i - start) =~= s@.skip(i as int));
                assert(tokens(rest) == seq![tok@] + tokens(s@.skip(i as int)));
                assert(views(toks@.push(tok)) =~= views(toks@) + seq![tok@]);
                assert((views(toks@) + seq![tok@]) + tokens(s@.skip(i as int)) =~= views(toks@) + (
                seq![tok@] + tokens(s@.skip(i as int))));
                assert(tok@.len() > 0);
            }
            toks.push(tok);
            proof {
                assert(views(toks@) + tokens(s@.skip(i as int)) =~= tokens(s@));
            }
        }
    }
    proof {
        assert(s@.skip(s@.len() as int).len() == 0);
        assert(views(toks@) =~= tokens(s@));
    }
    toks
}

/// Whether `c` is a decimal digit.
pub open spec fn is_digit(c: char) -> bool {
    48 <= c as u32 <= 57
}

/// The numeric value of the digit `c`.
pub open spec fn digit_val(c: char) -> int {
    c as u32 - 48
}

/// Whether every character of `t` is a decimal digit.
pub open spec fn all_digits(t: Seq<char>) -> bool {
    forall|i: int| 0 <= i < t.len() ==> is_digit(#[trigger] t[i])
}

/// The value of a non-empty run of decimal digits, most significant
/// first.
pub open spec fn digits_val(t: Seq<char>) -> int
    decreases t.len(),
{
    if t.len() == 0 {
        0
    } else {
        digits_val(t.take(t.len() - 1)) * 10 + digit_val(t[t.len() - 1])
    }
}

/// A run of digits has a non-negative value.
pub proof fn lemma_digits_val_nonneg(t: Seq<char>)
    requires
        all_digits(t),
    ensures
        digits_val(t) >= 0,
    decreases t.len(),
{
    if t.len() > 0 {
        assert(t.take(t.len() - 1) =~= t.subrange(0, t.len() - 1));
        lemma_digits_val_nonneg(t.take(t.len() - 1));
    }
}

/// Dropping trailing digits never increases the value.
pub proof fn lemma_digits_val_prefix(t: Seq<char>, k: int)
    requires
        all_digits(t),
        0 <= k <= t.len(),
    ensures
        digits_val(t.take(k)) <= digits_val(t),
    decreases t.len() - k,
{
    if k == t.len() {
        assert(t.take(k) =~= t);
    } else {
        lemma_digits_val_prefix(t, k + 1);
        assert(t.take(k + 1).take(k) =~= t.take(k));
        assert(all_digits(t.take(k)));
        lemma_digits_val_nonneg(t.take(k));
        let ext = t.take(k + 1);
        assert(ext[k] == t[k]);
        assert(is_digit(t[k]));
        assert(digits_val(ext) == digits_val(t.take(k)) * 10 + digit_val(ext[k]));
    }
}

/// Parses the digits of `t` from `start` on as an unsigned decimal
/// number.  The value comes back exactly when every remaining character
/// is a digit, there is at least one, and the value fits in `usize`.
pub fn parse_digits(t: &Vec<char>, start: usize) -> (r: Option<usize>)
    requires
        start <= t@.len(),
    ensures
        match r {
            Some(m) => {
                &&& start < t@.len()
                &&& all_digits(t@.skip(start as int))
                &&& m == digits_val(t@.skip(start as int))
            },
            None => !{
                &&& start < t@.len()
                &&& all_digits(t@.skip(start as int))
                &&& digits_val(t@.skip(start as int)) <= usize::MAX
            },
        },
{
    if start >= t.len() {
        return None;
    }
    let ghost d = t@.skip(start as int);
    let mut m: usize = 0;
    let mut i: usize = start;
    while i < t.len()
        invariant
            start <= i <= t@.len(),
            start < t@.len(),
            d == t@.skip(start as int),
            all_digits(d.take(i - start)),
            m == digits_val(d.take(i - start)),
        decreases t@.len() - i,
    {
        let c = t[i];
        proof {
            assert(d[i - start] == t@[i as int]);
        }
        let u = c as u32;
        if u < 48 || u > 57 {
            return None;
        }
        let dv = (u - 48) as usize;
        let q = usize::MAX / 10;
        let rm = usize::MAX % 10;
        proof {
            assert(d.take(i - start + 1).take(i - start) =~= d.take(i - start));
            assert(d.take(i - start + 1)[i - start] == c);
            assert(all_digits(d.take(i - start + 1)));
        }
        if m > q || (m == q && dv > rm) {
            proof {
                if all_digits(d) && digits_val(d) <= usize::MAX {
                    lemma_digits_val_prefix(d, i - start + 1);
                    assert(digits_val(d.take(i - start + 1)) == m * 10 + dv);
                    assert(false);
                }
            }
            return None;
        }
        m = m * 10 + dv;
        i = i + 1;
    }
    proof {
        assert(d.take(i - start) =~= d);
    }
    Some(m)
}

/// The integer token body: the characters after an optional leading sign.
pub open spec fn int_body(t: Seq<char>) -> Seq<char> {
    if t.len() > 0 && (t[0] == '+' || t[0] == '-') {
        t.skip(1)
    } else {
        t
    }
}

/// Whether `t` is a signed decimal token: an optional sign, then at least
/// one digit.
pub open spec fn is_int_token(t: Seq<char>) -> bool {
    int_body(t).len() > 0 && all_digits(int_body(t))
}

/// The signed value of an integer token.
pub open spec fn int_val(t: Seq<char>) -> int {
    if t.len() > 0 && t[0] == '-' {
        -digits_val(int_body(t))
    } else {
        digits_val(int_body(t))
    }
}

/// Whether `t` parses as an `isize`, as `str::parse` decides it: a sign
/// and digits, with the value in range.
pub open spec fn fits_isize(t: Seq<char>) -> bool {
    is_int_token(t) && isize::MIN <= int_val(t) <= isize::MAX
}

/// The unsigned token body: the characters after an optional leading
/// plus sign.
pub open spec fn uint_body(t: Seq<char>) -> Seq<char> {
    if t.len() > 0 && t[0] == '+' {
        t.skip(1)
    } else {
        t
    }
}

/// Whether `t` is an unsigned decimal token.
pub open spec fn is_uint_token(t: Seq<char>) -> bool {
    uint_body(t).len() > 0 && all_digits(uint_body(t))
}

/// The value of an unsigned token.
pub open spec fn uint_val(t: Seq<char>) -> int {
    digits_val(uint_body(t))
}

/// Whether `t` parses as a `usize`, as `str::parse` decides it.
pub open spec fn fits_usize(t: Seq<char>) -> bool {
    is_uint_token(t) && uint_val(t) <= usize::MAX
}

/// Parses `t` as a signed decimal number the way `str::parse::<isize>`
/// does.
pub fn parse_isize_token(t: &Vec<char>) -> (r: Option<isize>)
    ensures
        r is Some <==> fits_isize(t@),
        r matches Some(v) ==> v == int_val(t@),
{
    if t.len() == 0 {
        return None;
    }
    let c0 = t[0];
    let neg = c0 == '-';
    let start: usize = if c0 == '-' || c0 == '+' {
        1
    } else {
        0
    };
    proof {
        if start == 1 {
            assert(int_body(t@) == t@.skip(1));
        } else {
            assert(int_body(t@) == t@);
        }
        assert(t@.skip(0) =~= t@);
        if is_int_token(t@) {
            lemma_digits_val_nonneg(int_body(t@));
        }
    }
    match parse_digits(t, start) {
        None => None,
        Some(m) => {
            if neg {
                if m <= isize::MAX as usize {
                    Some(-(m as isize))
                } else if m - 1 == isize::MAX as usize {
                    Some(isize::MIN)
                } else {
                    None
                }
            } else {
                if m <= isize::MAX as usize {
                    Some(m as isize)
                } else {
                    None
                }
            }
        },
    }
}

/// Parses `t` as an unsigned decimal number the way `str::parse::<usize>`
/// does.
pub fn parse_usize_token(t: &Vec<char>) -> (r: Option<usize>)
    ensures
        r is Some <==> fits_usize(t@),
        r matches Some(v) ==> v == uint_val(t@),
{
    if t.len() == 0 {
        return None;
    }
    let start: usize = if t[0] == '+' {
        1
    } else {
        0
    };
    proof {
        if start == 1 {
            assert(uint_body(t@) == t@.skip(1));
        } else {
            assert(uint_body(t@) == t@);
        }
        assert(t@.skip(0) =~= t@);
        if is_uint_token(t@) {
            lemma_digits_val_nonneg(uint_body(t@));
        }
    }
    parse_digits(t, start)
}

} // verus!
