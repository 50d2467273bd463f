//! Decimal text for 64-bit integers: the mathematical form of decimal
//! digit strings, a verified parser matching `i64` parsing (optional
//! sign, digits only, range-checked), and a verified printer that emits
//! the canonical representation.

use vstd::prelude::*;
use vstd::string::StringExecFns;
use vstd::string::StrSliceExecFns;

verus! {

/// `c` is an ASCII decimal digit.
pub open spec fn is_dec_digit(c: char) -> bool {
    '0' <= c && c <= '9'
}

/// Numeric value of a digit character.
pub open spec fn digit_val(c: char) -> int {
    c as int - 48
}

pub open spec fn all_digits(s: Seq<char>) -> bool {
    forall|i: int| 0 <= i < s.len() ==> is_dec_digit(#[trigger] s[i])
}

/// Value of an unsigned digit string, most significant digit first.
pub open spec fn digits_val(s: Seq<char>) -> int
    decreases s.len(),
{
    if s.len() == 0 {
        0
    } else {
        digits_val(s.drop_last()) * 10 + digit_val(s.last())
    }
}

/// The shape accepted when parsing a signed integer: an optional leading
/// `+` or `-`, then at least one digit and nothing else.
pub open spec fn valid_signed(s: Seq<char>) -> bool {
    if s.len() == 0 {
        false
    } else if s[0] == '-' || s[0] == '+' {
        s.len() >= 2 && all_digits(s.subrange(1, s.len() as int))
    } else {
        all_digits(s)
    }
}

/// Value of a signed digit string.
pub open spec fn signed_val(s: Seq<char>) -> int
    recommends
        valid_signed(s),
{
    if s.len() > 0 && s[0] == '-' {
        -digits_val(s.subrange(1, s.len() as int))
    } else if s.len() > 0 && s[0] == '+' {
        digits_val(s.subrange(1, s.len() as int))
    } else {
        digits_val(s)
    }
}

/// What parsing an `i64` from text returns: the value when the text is a
/// well-formed signed decimal within range, and nothing otherwise.
pub open spec fn parse_i64_spec(s: Seq<char>) -> Option<i64> {
    if valid_signed(s) && i64::MIN <= signed_val(s) <= i64::MAX {
        Some(signed_val(s) as i64)
    } else {
        None
    }
}

/// The digit character for `d`.
pub open spec fn digit_char(d: int) -> char {
    if d == 0 {
        '0'
    } else if d == 1 {
        '1'
    } else if d == 2 {
        '2'
    } else if d == 3 {
        '3'
    } else if d == 4 {
        '4'
    } else if d == 5 {
        '5'
    } else if d == 6 {
        '6'
    } else if d == 7 {
        '7'
    } else if d == 8 {
        '8'
    } else {
        '9'
    }
}

/// Canonical decimal digits of a non-negative integer (no leading zeros).
pub open spec fn dec_digits(n: int) -> Seq<char>
    recommends
        n >= 0,
    decreases n,
{
    if n < 10 {
        seq![digit_char(n)]
    } else {
        dec_digits(n / 10).push(digit_char(n % 10))
    }
}

/// Canonical decimal text of an integer: a `-` sign for negatives, then
/// the digits.
pub open spec fn int_chars(i: int) -> Seq<char> {
    if i < 0 {
        seq!['-'] + dec_digits(-i)
    } else {
        dec_digits(i)
    }
}

pub proof fn lemma_digits_val_nonneg(s: Seq<char>)
    requires
        all_digits(s),
    ensures
        digits_val(s) >= 0,
    decreases s.len(),
{
    if s.len() > 0 {
        assert(all_digits(s.drop_last())) by {
            assert(forall|i: int|
                0 <= i < s.len() - 1 ==> s.drop_last()[i] == #[trigger] s[i]);
        }
        lemma_digits_val_nonneg(s.drop_last());
    }
}

/// A digit string is worth at least any of its prefixes.
pub proof fn lemma_digits_val_prefix_le(s: Seq<char>, k: int)
    requires
        all_digits(s),
        0 <= k <= s.len(),
    ensures
        digits_val(s.subrange(0, k)) <= digits_val(s),
    decreases s.len(),
{
    if k == s.len() {
        assert(s.subrange(0, k) =~= s);
    } else {
        let d = s.drop_last();
        assert(all_digits(d)) by {
            assert(forall|i: int| 0 <= i < s.len() - 1 ==> d[i] == #[trigger] s[i]);
        }
        assert(s.subrange(0, k) =~= d.subrange(0, k));
        lemma_digits_val_prefix_le(d, k);
        lemma_digits_val_nonneg(d);
        assert(digits_val(d) <= digits_val(d) * 10 + digit_val(s.last()));
    }
}

pub proof fn lemma_dec_digits_wf(n: int)
    requires
        n >= 0,
    ensures
        dec_digits(n).len() >= 1,
        all_digits(dec_digits(n)),
    decreases n,
{
    if n >= 10 {
        lemma_dec_digits_wf(n / 10);
        assert(is_dec_digit(digit_char(n % 10)));
        assert(forall|i: int|
            0 <= i < dec_digits(n / 10).len() ==> dec_digits(n)[i] == #[trigger] dec_digits(
                n / 10,
            )[i]);
    }
}

/// Printing then evaluating a non-negative integer gives it back.
pub proof fn lemma_dec_digits_val(n: int)
    requires
        n >= 0,
    ensures
        digits_val(dec_digits(n)) == n,
    decreases n,
{
    if n < 10 {
        assert(seq![digit_char(n)].drop_last() =~= Seq::<char>::empty());
        assert(digit_val(digit_char(n)) == n);
        assert(digits_val(dec_digits(n)) == digits_val(Seq::<char>::empty()) * 10 + n);
    } else {
        lemma_dec_digits_val(n / 10);
        let w = dec_digits(n / 10).push(digit_char(n % 10));
        assert(w.drop_last() =~= dec_digits(n / 10));
        assert(digits_val(w) == n / 10 * 10 + n % 10);
    }
}

/// The canonical text of any `i64` parses back to that value.
pub proof fn lemma_parse_int_chars(i: int)
    requires
        i64::MIN <= i <= i64::MAX,
    ensures
        parse_i64_spec(int_chars(i)) == Some(i as i64),
{
    if i < 0 {
        let s = seq!['-'] + dec_digits(-i);
        lemma_dec_digits_wf(-i);
        lemma_dec_digits_val(-i);
        assert(s.subrange(1, s.len() as int) =~= dec_digits(-i));
        assert(s[0] == '-');
        assert(valid_signed(s));
        assert(signed_val(s) == i);
    } else {
        let s = dec_digits(i);
        lemma_dec_digits_wf(i);
        lemma_dec_digits_val(i);
        assert(is_dec_digit(s[0]));
        assert(s[0] != '-' && s[0] != '+');
        assert(valid_signed(s));
        assert(signed_val(s) == i);
    }
}

/// Parses a signed decimal integer exactly as `i64` parsing does:
/// an optional sign, then digits only, rejecting overflow.
pub fn parse_i64(s: &str) -> (r: Option<i64>)
    ensures
        r == parse_i64_spec(s@),
{
    let n = s.unicode_len();
    if n == 0 {
        return None;
    }
    let c0 = s.get_char(0);
    let neg = c0 == '-';
    let start: usize = if c0 == '-' || c0 == '+' {
        1
    } else {
        0
    };
    if n == start {
        return None;
    }
    let limit: u64 = if neg {
        9223372036854775808
    } else {
        9223372036854775807
    };
    let ghost seg = s@.subrange(start as int, n as int);
    let mut acc: u64 = 0;
    let mut i: usize = start;
    while i < n
        invariant
            start <= i <= n == s@.len(),
            start == 0 || start == 1,
            n > start,
            seg == s@.subrange(start as int, n as int),
            limit == if neg { 9223372036854775808u64 } else { 9223372036854775807u64 },
            neg ==> s@[0] == '-',
            !neg && start == 1 ==> s@[0] == '+',
            start == 0 ==> s@[0] != '-' && s@[0] != '+',
            all_digits(s@.subrange(start as int, i as int)),
            acc == digits_val(s@.subrange(start as int, i as int)),
            acc <= limit,
        decreases n - i,
    {
        let c = s.get_char(i);
        let cv = c as u32;
        if cv < 48 || cv > 57 {
            proof {
                assert(!is_dec_digit(seg[i - start]));
                assert(!valid_signed(s@));
            }
            return None;
        }
        let d: u64 = ((cv - 48) as u8) as u64;
        let ghost pre = s@.subrange(start as int, i as int);
        let ghost cur = s@.subrange(start as int, i + 1 as int);
        proof {
            assert(cur.drop_last() =~= pre);
            assert(all_digits(cur)) by {
                assert(forall|j: int| 0 <= j < cur.len() - 1 ==> cur[j] == #[trigger] pre[j]);
                assert(cur.last() == s@[i as int]);
            }
        }
        if acc > (limit - d) / 10 {
            proof {
                assert(acc * 10 + d > limit) by (nonlinear_arith)
                    requires
                        acc > (limit - d) / 10,
                        d <= 9,
                        (limit - d) / 10 * 10 + (limit - d) % 10 == limit - d,
                        0 <= (limit - d) % 10 < 10,
                ;
                assert(digits_val(cur) == acc * 10 + d);
                if valid_signed(s@) {
                    assert(all_digits(seg));
                    lemma_digits_val_prefix_le(seg, i + 1 - start);
                    assert(seg.subrange(0, i + 1 - start) =~= cur);
                    assert(digits_val(seg) >= digits_val(cur));
                    if neg {
                        assert(s@.subrange(1, s@.len() as int) =~= seg);
                        assert(signed_val(s@) == -digits_val(seg));
                        assert(signed_val(s@) < i64::MIN);
                    } else if start == 1 {
                        assert(s@.subrange(1, s@.len() as int) =~= seg);
                        assert(signed_val(s@) == digits_val(seg));
                        assert(signed_val(s@) > i64::MAX);
                    } else {
                        assert(seg =~= s@);
                        assert(signed_val(s@) == digits_val(seg));
                        assert(signed_val(s@) > i64::MAX);
                    }
                }
            }
            return None;
        }
        proof {
            assert(acc * 10 + d <= limit) by (nonlinear_arith)
                requires
                    acc <= (limit - d) / 10,
                    d <= 9,
                    (limit - d) / 10 * 10 + (limit - d) % 10 == limit - d,
                    0 <= (limit - d) % 10 < 10,
            ;
            assert(digits_val(cur) == acc * 10 + d);
        }
        acc = acc * 10 + d;
        i = i + 1;
    }
    proof {
        assert(s@.subrange(start as int, i as int) =~= seg);
        assert(all_digits(seg));
        if start == 1 {
            assert(s@.subrange(1, s@.len() as int) =~= seg);
        } else {
            assert(seg =~= s@);
        }
        assert(valid_signed(s@));
        if neg {
            assert(signed_val(s@) == -digits_val(seg));
        } else {
            assert(signed_val(s@) == digits_val(seg));
            lemma_digits_val_nonneg(seg);
        }
    }
    if neg {
        if acc == 9223372036854775808 {
            proof {
                assert(signed_val(s@) == -digits_val(seg));
                assert(signed_val(s@) == i64::MIN);
            }
            Some(i64::MIN)
        } else {
            proof {
                assert(signed_val(s@) == -digits_val(seg));
            }
            Some(-(acc as i64))
        }
    } else {
        Some(acc as i64)
    }
}

fn digit_string(d: u64) -> (r: String)
    requires
        d < 10,
    ensures
        r@ =~= seq![digit_char(d as int)],
{
    proof {
        reveal_strlit("0");
        reveal_strlit("1");
        reveal_strlit("2");
        reveal_strlit("3");
        reveal_strlit("4");
        reveal_strlit("5");
        reveal_strlit("6");
        reveal_strlit("7");
        reveal_strlit("8");
        reveal_strlit("9");
    }
    if d == 0 {
        String::from_str("0")
    } else if d == 1 {
        String::from_str("1")
    } else if d == 2 {
        String::from_str("2")
    } else if d == 3 {
        String::from_str("3")
    } else if d == 4 {
        String::from_str("4")
    } else if d == 5 {
        String::from_str("5")
    } else if d == 6 {
        String::from_str("6")
    } else if d == 7 {
        String::from_str("7")
    } else if d == 8 {
        String::from_str("8")
    } else {
        String::from_str("9")
    }
}

/// Prints a `u64` in canonical decimal.
pub fn u64_to_dec(n: u64) -> (r: String)
    ensures
        r@ == dec_digits(n as int),
{
    let mut cur: u64 = n;
    let mut tail = String::new();
    while cur >= 10
        invariant
            dec_digits(n as int) =~= dec_digits(cur as int) + tail@,
        decreases cur,
    {
        let d = cur % 10;
        let ghost old_tail = tail@;
        let ds = digit_string(d);
        tail = ds.concat(tail.as_str());
        proof {
            assert(dec_digits(cur as int) =~= dec_digits(cur as int / 10) + (seq![
                digit_char(cur as int % 10),
            ] + old_tail).subrange(0, 1));
            assert(dec_digits(cur as int) + old_tail =~= dec_digits((cur / 10) as int)
                + tail@);
        }
        cur = cur / 10;
    }
    let ds = digit_string(cur);
    let r = ds.concat(tail.as_str());
    proof {
        assert(r@ =~= dec_digits(cur as int) + tail@);
        assert(r@ =~= dec_digits(n as int));
    }
    r
}

/// Prints an `i64` in canonical decimal, with a `-` sign when negative.
pub fn i64_to_dec(i: i64) -> (r: String)
    ensures
        r@ == int_chars(i as int),
{
    if i >= 0 {
        let r = u64_to_dec(i as u64);
        proof {
            assert(r@ =~= int_chars(i as int));
        }
        r
    } else {
        let mag: u64 = ((-(i + 1)) as u64) + 1;
        let ds = u64_to_dec(mag);
        proof {
            reveal_strlit("-");
        }
        let r = String::from_str("-").concat(ds.as_str());
        proof {
            assert(r@ =~= seq!['-'] + dec_digits(mag as int));
            assert(mag as int == -(i as int));
            assert(r@ =~= int_chars(i as int));
        }
        r
    }
}

} // verus!
