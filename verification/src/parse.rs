//! Decimal board identifiers: text to number and back.
//!
//! A submitted board identifier arrives as text.  It is accepted
//! exactly when it is an optional leading `+` followed by one or more
//! ASCII digits whose value fits a signed 64-bit identifier; anything
//! else is rejected before any mutation is attempted.

use vstd::prelude::*;
use vstd::string::{StringExecFns, StrSliceExecFns};

verus! {

pub open spec fn is_ascii_digit(c: char) -> bool {
    '0' <= c && c <= '9'
}

pub open spec fn digit_value(c: char) -> int {
    c as int - '0' as int
}

pub open spec fn all_digits(s: Seq<char>) -> bool {
    forall|i: int| 0 <= i < s.len() ==> is_ascii_digit(#[trigger] s[i])
}

/// The number denoted by a digit string, most significant digit first.
pub open spec fn digits_value(s: Seq<char>) -> int
    decreases s.len(),
{
    if s.len() == 0 {
        0
    } else {
        digits_value(s.drop_last()) * 10 + digit_value(s.last())
    }
}

/// The digits of an identifier string: everything after one optional
/// leading `+`.
pub open spec fn digit_part(s: Seq<char>) -> Seq<char> {
    if s.len() > 0 && s[0] == '+' {
        s.drop_first()
    } else {
        s
    }
}

/// What parsing an identifier string yields: its value when the digit
/// part is non-empty, all digits, and in range; nothing otherwise.
pub open spec fn spec_parse_board_id(s: Seq<char>) -> Option<int> {
    let d = digit_part(s);
    if d.len() > 0 && all_digits(d) && digits_value(d) <= i64::MAX {
        Some(digits_value(d))
    } else {
        None
    }
}

proof fn lemma_digits_value_nonneg(s: Seq<char>)
    requires
        all_digits(s),
    ensures
        digits_value(s) >= 0,
    decreases s.len(),
{
    if s.len() > 0 {
        assert(all_digits(s.drop_last()));
        lemma_digits_value_nonneg(s.drop_last());
    }
}

/// Appending digits never shrinks the value: the value of a prefix
/// bounds the value of the whole string from below.
proof fn lemma_digits_value_prefix_le(s: Seq<char>, k: int)
    requires
        all_digits(s),
        0 <= k <= s.len(),
    ensures
        digits_value(s.take(k)) <= digits_value(s),
    decreases s.len() - k,
{
    assert(all_digits(s.take(k)));
    if k == s.len() {
        assert(s.take(k) =~= s);
    } else {
        assert(s.take(k + 1).drop_last() =~= s.take(k));
        lemma_digits_value_nonneg(s.take(k));
        assert(is_ascii_digit(s[k]));
        assert(digits_value(s.take(k + 1)) == digits_value(s.take(k)) * 10 + digit_value(s[k]));
        lemma_digits_value_prefix_le(s, k + 1);
    }
}

/// Parse a decimal board identifier.  Yields exactly what
/// [`spec_parse_board_id`] says: the identifier's value, or nothing
/// for text that is not a plain in-range decimal number.
pub fn parse_board_id(s: &str) -> (r: Option<i64>)
    ensures
        spec_parse_board_id(s@) == (match r {
            Some(v) => Some(v as int),
            None => None::<int>,
        }),
{
    let len = s.unicode_len();
    let start: usize = if len > 0 && s.get_char(0) == '+' {
        1
    } else {
        0
    };
    let ghost d = digit_part(s@);
    proof {
        assert(d =~= s@.subrange(start as int, len as int));
    }
    if start == len {
        return None;
    }
    let mut acc: i64 = 0;
    let mut i: usize = start;
    while i < len
        invariant
            start <= i <= len,
            start + d.len() == len,
            d == digit_part(s@),
            d == s@.subrange(start as int, len as int),
            s@.len() == len,
            all_digits(d.take(i - start)),
            0 <= acc,
            acc == digits_value(d.take(i - start)),
        decreases len - i,
    {
        let c = s.get_char(i);
        proof {
            assert(d[i - start] == c);
        }
        if !('0' <= c && c <= '9') {
            proof {
                assert(!is_ascii_digit(d[i - start]));
                assert(!all_digits(d));
            }
            return None;
        }
        let dv = (c as u32 - '0' as u32) as i64;
        proof {
            assert(d.take(i - start + 1).drop_last() =~= d.take(i - start));
            assert(digits_value(d.take(i - start + 1)) == acc * 10 + dv);
        }
        if acc > 922_337_203_685_477_580i64 || (acc == 922_337_203_685_477_580i64 && dv > 7) {
            proof {
                assert(digits_value(d.take(i - start + 1)) > i64::MAX);
                if all_digits(d) {
                    lemma_digits_value_prefix_le(d, i - start + 1);
                    assert(digits_value(d) > i64::MAX);
                }
            }
            return None;
        }
        acc = acc * 10 + dv;
        i = i + 1;
    }
    proof {
        assert(d.take(i - start) =~= d);
    }
    Some(acc)
}

/// Render a digit as a one-character string.
fn digit_to_str(d: u8) -> (r: &'static str)
    requires
        d < 10,
    ensures
        r@.len() == 1,
        is_ascii_digit(r@[0]),
        digit_value(r@[0]) == d as int,
{
    proof {
        reveal_strlit("0");
        reveal_strlit("1");
        reveal_strlit("2");
        reveal_strlit("3");
        reveal_strlit("4");
        reveal_strlit("5");
        reveal_strlit("6");
        reveal_strlit("7");
        reveal_strlit("8");
        reveal_strlit("9");
    }
    match d {
        0 => "0",
        1 => "1",
        2 => "2",
        3 => "3",
        4 => "4",
        5 => "5",
        6 => "6",
        7 => "7",
        8 => "8",
        _ => "9",
    }
}

/// The number denoted by a digit sequence read least significant
/// digit first.
spec fn low_first_value(ds: Seq<u8>) -> int
    decreases ds.len(),
{
    if ds.len() == 0 {
        0
    } else {
        ds[0] + 10 * low_first_value(ds.drop_first())
    }
}

spec fn pow10(n: nat) -> int
    decreases n,
{
    if n == 0 {
        1
    } else {
        10 * pow10((n - 1) as nat)
    }
}

proof fn lemma_pow10_pos(n: nat)
    ensures
        pow10(n) >= 1,
    decreases n,
{
    if n > 0 {
        lemma_pow10_pos((n - 1) as nat);
    }
}

proof fn lemma_low_first_push(ds: Seq<u8>, d: u8)
    ensures
        low_first_value(ds.push(d)) == low_first_value(ds) + d * pow10(ds.len()),
    decreases ds.len(),
{
    if ds.len() == 0 {
        assert(ds.push(d).drop_first() =~= Seq::<u8>::empty());
        assert(low_first_value(ds.push(d)) == ds.push(d)[0] + 10 * low_first_value(
            ds.push(d).drop_first(),
        ));
        assert(low_first_value(Seq::<u8>::empty()) == 0);
    } else {
        assert(ds.push(d).drop_first() =~= ds.drop_first().push(d));
        lemma_low_first_push(ds.drop_first(), d);
        assert(low_first_value(ds.push(d)) == ds[0] + 10 * (low_first_value(ds.drop_first())
            + d * pow10((ds.len() - 1) as nat)));
        assert(10 * (d * pow10((ds.len() - 1) as nat)) == d * pow10(ds.len())) by (nonlinear_arith)
            requires pow10(ds.len()) == 10 * pow10((ds.len() - 1) as nat);
    }
}

/// Render a nonnegative identifier in decimal, without sign or
/// leading zeroes.  The result is pinned down by its value: it is a
/// digit string denoting exactly `id`.
pub fn format_id(id: i64) -> (r: String)
    requires
        id >= 0,
    ensures
        r@.len() > 0,
        all_digits(r@),
        digits_value(r@) == id as int,
        r@.len() > 1 ==> r@[0] != '0',
{
    if id == 0 {
        let r = String::from_str("0");
        proof {
            reveal_strlit("0");
            assert(r@.len() == 1);
            assert(r@.drop_last() =~= Seq::<char>::empty());
            assert(digits_value(Seq::<char>::empty()) == 0);
            assert(digits_value(r@) == digit_value('0'));
        }
        return r;
    }
    let mut ds: Vec<u8> = Vec::new();
    let mut v: i64 = id;
    while v > 0
        invariant
            0 <= v,
            id == low_first_value(ds@) + v * pow10(ds@.len()),
            forall|j: int| 0 <= j < ds@.len() ==> #[trigger] ds@[j] < 10,
            v == 0 ==> ds@.len() > 0 && ds@.last() != 0,
            ds@.len() > 0 && v > 0 ==> ds@.last() < 10,
        decreases v,
    {
        let d = (v % 10) as u8;
        let ghost n = ds@.len();
        proof {
            lemma_low_first_push(ds@, d);
            lemma_pow10_pos(n);
            assert(v * pow10(n) == (v % 10) * pow10(n) + (v / 10) * pow10(n + 1))
                by (nonlinear_arith)
                requires v >= 0, pow10(n + 1) == 10 * pow10(n);
            if v / 10 == 0 {
                assert(d == v % 10);
                assert(v % 10 != 0) by {
                    if v % 10 == 0 {
                        assert(v == 10 * (v / 10) + v % 10);
                    }
                };
            }
        }
        ds.push(d);
        v = v / 10;
    }
    let mut r = String::new();
    let mut k = ds.len();
    proof {
        assert(ds@.skip(k as int) =~= Seq::<u8>::empty());
    }
    while k > 0
        invariant
            0 <= k <= ds@.len(),
            forall|j: int| 0 <= j < ds@.len() ==> #[trigger] ds@[j] < 10,
            ds@.len() > 0 && ds@.last() != 0,
            digits_value(r@) == low_first_value(ds@.skip(k as int)),
            all_digits(r@),
            r@.len() == ds@.len() - k,
            r@.len() > 0 ==> digit_value(r@[0]) == ds@.last() as int,
        decreases k,
    {
        k = k - 1;
        let t = digit_to_str(ds[k]);
        let ghost old_r = r@;
        r.append(t);
        proof {
            assert(r@.drop_last() =~= old_r);
            assert(r@.last() == t@[0]);
            assert(ds@.skip(k as int).drop_first() =~= ds@.skip(k as int + 1));
            assert(low_first_value(ds@.skip(k as int)) == ds@[k as int]
                + 10 * low_first_value(ds@.skip(k as int + 1)));
            assert(digits_value(r@) == digits_value(old_r) * 10 + digit_value(t@[0]));
        }
    }
    proof {
        assert(ds@.skip(0) =~= ds@);
        assert(r@[0] != '0') by {
            assert(digit_value(r@[0]) == ds@.last() as int);
            assert(ds@.last() != 0);
        };
    }
    r
}

} // verus!
