//! Decimal rendering and parsing of unsigned integers, used by the
//! system-information handlers: a timestamp is reported as its decimal
//! seconds, and a memory figure is read back from a decimal field.

use vstd::prelude::*;

use crate::text::push_char;

verus! {

/// A decimal digit.
pub open spec fn is_digit(c: char) -> bool {
    '0' <= c <= '9'
}

/// The numeric value of a decimal digit.
pub open spec fn digit_val(c: char) -> int {
    c as int - '0' as int
}

/// The digit character of a value below ten.
pub open spec fn digit_char(d: int) -> char {
    ((d + 48) as u8) as char
}

/// Every character is a decimal digit.
pub open spec fn all_digits(s: Seq<char>) -> bool {
    forall|i: int| 0 <= i < s.len() ==> is_digit(#[trigger] s[i])
}

/// The number a digit string denotes, most significant digit first.
pub open spec fn dec_val(s: Seq<char>) -> int
    decreases s.len(),
{
    if s.len() == 0 {
        0
    } else {
        dec_val(s.drop_last()) * 10 + digit_val(s.last())
    }
}

/// The canonical decimal rendering of a non-negative number: no sign, no
/// leading zero except on zero itself.
pub open spec fn dec_str(n: int) -> Seq<char>
    decreases n,
{
    if n < 10 {
        seq![digit_char(n)]
    } else {
        dec_str(n / 10).push(digit_char(n % 10))
    }
}

/// A digit string denotes a non-negative number.
proof fn lemma_dec_val_nonneg(s: Seq<char>)
    requires
        all_digits(s),
    ensures
        dec_val(s) >= 0,
    decreases s.len(),
{
    if s.len() > 0 {
        assert(all_digits(s.drop_last())) by {
            assert(forall|i: int| 0 <= i < s.len() - 1 ==> s.drop_last()[i] == s[i]);
        }
        lemma_dec_val_nonneg(s.drop_last());
    }
}

/// A prefix of a digit string denotes at most what the whole denotes.
proof fn lemma_dec_val_prefix_le(s: Seq<char>, j: int)
    requires
        all_digits(s),
        0 <= j <= s.len(),
    ensures
        dec_val(s.subrange(0, j)) <= dec_val(s),
    decreases s.len() - j,
{
    if j < s.len() {
        let t = s.subrange(0, j + 1);
        assert(t.drop_last() =~= s.subrange(0, j));
        assert(dec_val(t) == dec_val(s.subrange(0, j)) * 10 + digit_val(t.last()));
        assert(all_digits(s.subrange(0, j))) by {
            assert(forall|i: int| 0 <= i < j ==> s.subrange(0, j)[i] == s[i]);
        }
        lemma_dec_val_nonneg(s.subrange(0, j));
        assert(is_digit(s[j]));
        lemma_dec_val_prefix_le(s, j + 1);
    } else {
        assert(s.subrange(0, j) =~= s);
    }
}

/// The canonical rendering is all digits and denotes the number it renders.
pub proof fn lemma_dec_str_val(n: int)
    requires
        n >= 0,
    ensures
        all_digits(dec_str(n)),
        dec_val(dec_str(n)) == n,
        dec_str(n).len() >= 1,
    decreases n,
{
    if n < 10 {
        assert(dec_str(n) =~= seq![digit_char(n)]);
        assert(is_digit(digit_char(n)));
        assert(dec_str(n).drop_last() =~= Seq::<char>::empty());
        assert(dec_val(Seq::<char>::empty()) == 0);
        assert(digit_val(digit_char(n)) == n);
        assert(dec_val(dec_str(n)) == dec_val(dec_str(n).drop_last()) * 10 + digit_val(
            dec_str(n).last(),
        ));
    } else {
        lemma_dec_str_val(n / 10);
        let s = dec_str(n);
        assert(s == dec_str(n / 10).push(digit_char(n % 10)));
        assert(s.drop_last() =~= dec_str(n / 10));
        assert(digit_val(digit_char(n % 10)) == n % 10);
        assert(dec_val(s) == (n / 10) * 10 + n % 10);
        assert(forall|i: int|
            0 <= i < s.len() - 1 ==> #[trigger] s[i] == dec_str(n / 10)[i]);
        assert(is_digit(s[s.len() - 1]));
    }
}

/// The characters of a byte sequence, reversed.
spec fn chars_rev(d: Seq<u8>) -> Seq<char>
    decreases d.len(),
{
    if d.len() == 0 {
        Seq::<char>::empty()
    } else {
        seq![d.last() as char] + chars_rev(d.drop_last())
    }
}

/// Peeling the first byte of a reversal appends its character.
proof fn lemma_chars_rev_first(d: Seq<u8>)
    requires
        d.len() > 0,
    ensures
        chars_rev(d) == chars_rev(d.subrange(1, d.len() as int)) + seq![d[0] as char],
    decreases d.len(),
{
    if d.len() == 1 {
        assert(d.drop_last() =~= Seq::<u8>::empty());
        assert(d.subrange(1, 1) =~= Seq::<u8>::empty());
        assert(chars_rev(d) =~= chars_rev(d.subrange(1, 1)) + seq![d[0] as char]);
    } else {
        let t = d.drop_last();
        lemma_chars_rev_first(t);
        let u = d.subrange(1, d.len() as int);
        assert(u.drop_last() =~= t.subrange(1, t.len() as int));
        assert(u.last() == d.last());
        assert(chars_rev(u) == seq![d.last() as char] + chars_rev(t.subrange(1, t.len() as int)));
        assert(t[0] == d[0]);
        assert(chars_rev(d) =~= chars_rev(u) + seq![d[0] as char]);
    }
}

/// Render a number in decimal.
pub fn u64_to_string(n: u64) -> (r: String)
    ensures
        r@ == dec_str(n as int),
{
    let mut digits: Vec<u8> = Vec::new();
    digits.push(48 + (n % 10) as u8);
    let mut m: u64 = n / 10;
    proof {
        assert(digits@.drop_last() =~= Seq::<u8>::empty());
        assert(chars_rev(Seq::<u8>::empty()) =~= Seq::<char>::empty());
        assert(digits@.last() as char == digit_char(n as int % 10));
        assert(chars_rev(digits@) =~= seq![digit_char(n as int % 10)]);
        if m > 0 {
            assert(dec_str(n as int) == dec_str(n as int / 10).push(digit_char(n as int % 10)));
            assert(dec_str(n as int) =~= dec_str(m as int) + chars_rev(digits@));
        } else {
            assert(dec_str(n as int) =~= seq![digit_char(n as int)]);
            assert(n as int % 10 == n as int);
            assert(dec_str(n as int) =~= chars_rev(digits@));
        }
    }
    while m > 0
        invariant
            m > 0 ==> dec_str(n as int) == dec_str(m as int) + chars_rev(digits@),
            m == 0 ==> dec_str(n as int) == chars_rev(digits@),
            digits@.len() >= 1,
        decreases m,
    {
        let ghost d0 = digits@;
        digits.push(48 + (m % 10) as u8);
        let ghost m0 = m;
        m = m / 10;
        proof {
            assert(digits@.drop_last() =~= d0);
            assert(chars_rev(digits@) == seq![digit_char(m0 as int % 10)] + chars_rev(d0));
            if m > 0 {
                assert(dec_str(m0 as int) == dec_str(m as int).push(digit_char(m0 as int % 10)));
                assert(dec_str(m as int).push(digit_char(m0 as int % 10)) =~= dec_str(m as int)
                    + seq![digit_char(m0 as int % 10)]);
                assert(dec_str(n as int) =~= dec_str(m as int) + chars_rev(digits@));
            } else {
                assert(dec_str(m0 as int) =~= seq![digit_char(m0 as int)]);
                assert(dec_str(n as int) =~= chars_rev(digits@));
            }
        }
    }
    let mut out = String::new();
    let mut k = digits.len();
    proof {
        assert(digits@.subrange(k as int, digits@.len() as int) =~= Seq::<u8>::empty());
    }
    while k > 0
        invariant
            k <= digits@.len(),
            dec_str(n as int) == chars_rev(digits@),
            out@ == chars_rev(digits@.subrange(k as int, digits@.len() as int)),
        decreases k,
    {
        k = k - 1;
        push_char(&mut out, digits[k] as char);
        proof {
            let t = digits@.subrange(k as int, digits@.len() as int);
            lemma_chars_rev_first(t);
            assert(t.subrange(1, t.len() as int) =~= digits@.subrange(
                k as int + 1,
                digits@.len() as int,
            ));
            assert(out@ =~= chars_rev(t));
        }
    }
    proof {
        assert(digits@.subrange(0, digits@.len() as int) =~= digits@);
    }
    out
}

/// A timestamp is reported as its whole seconds, in decimal.
pub fn format_timestamp(secs: u64) -> (r: String)
    ensures
        r@ == dec_str(secs as int),
{
    u64_to_string(secs)
}

/// The digits of a number written with an optional leading plus sign.
pub open spec fn digits_part(s: Seq<char>) -> Seq<char> {
    if s.len() > 0 && s[0] == '+' {
        s.subrange(1, s.len() as int)
    } else {
        s
    }
}

/// The number denoted, when the text is an optionally plus-signed digit
/// string whose value fits.
pub open spec fn parses_to(s: Seq<char>, n: u64) -> bool {
    let d = digits_part(s);
    &&& d.len() > 0
    &&& all_digits(d)
    &&& dec_val(d) == n as int
}

/// Whether the text denotes any number that fits.
pub open spec fn parseable(s: Seq<char>) -> bool {
    let d = digits_part(s);
    &&& d.len() > 0
    &&& all_digits(d)
    &&& dec_val(d) <= u64::MAX as int
}

/// Parse a decimal number with an optional leading plus sign, rejecting
/// any other character and any value that does not fit.
pub fn parse_u64(s: &str) -> (r: Option<u64>)
    ensures
        parseable(s@) ==> (r matches Some(v) && parses_to(s@, v)),
        !parseable(s@) ==> r is None,
{
    let n = s.unicode_len();
    let mut i: usize = 0;
    if n > 0 && s.get_char(0) == '+' {
        i = 1;
    }
    let ghost d = digits_part(s@);
    if i == n {
        return None;
    }
    let start = i;
    let mut acc: u64 = 0;
    while i < n
        invariant
            start <= i <= n,
            n == s@.len(),
            start == (if s@.len() > 0 && s@[0] == '+' {
                1int
            } else {
                0int
            }),
            start < n,
            d == digits_part(s@),
            d.len() == n - start,
            forall|k: int| 0 <= k < d.len() ==> d[k] == s@[k + start],
            forall|k: int| 0 <= k < i - start ==> is_digit(#[trigger] d[k]),
            acc as int == dec_val(d.subrange(0, i - start)),
        decreases n - i,
    {
        let c = s.get_char(i);
        if !(c >= '0' && c <= '9') {
            proof {
                assert(!is_digit(d[i - start]));
            }
            return None;
        }
        let dv: u64 = (c as u32 - 48) as u64;
        let next = match acc.checked_mul(10) {
            Some(t) => t.checked_add(dv),
            None => None,
        };
        proof {
            let t = d.subrange(0, i - start + 1);
            assert(t.drop_last() =~= d.subrange(0, i - start));
            assert(t.last() == d[i - start]);
            assert(digit_val(d[i - start]) == dv as int);
            assert(dec_val(t) == acc as int * 10 + dv as int);
        }
        match next {
            Some(v) => {
                acc = v;
            },
            None => {
                proof {
                    if parseable(s@) {
                        lemma_dec_val_prefix_le(d, i - start + 1);
                    }
                }
                return None;
            },
        }
        i += 1;
    }
    proof {
        assert(d.subrange(0, d.len() as int) =~= d);
    }
    Some(acc)
}

/// Round trip: what `format_timestamp` and `u64_to_string` write,
/// `parse_u64` reads back as the same number.
pub proof fn lemma_format_then_parse(n: u64)
    ensures
        parseable(dec_str(n as int)),
        parses_to(dec_str(n as int), n),
{
    lemma_dec_str_val(n as int);
    let s = dec_str(n as int);
    assert(is_digit(s[0]));
    assert('+' < '0');
    assert(digits_part(s) == s);
}

/// Read a memory figure in kilobytes from an optional decimal field,
/// falling back to zero when the field is absent or not a number that fits.
pub fn parse_mem_value_kb(value: Option<&str>) -> (r: u64)
    ensures
        match value {
            Some(v) => (parseable(v@) ==> parses_to(v@, r)) && (!parseable(v@) ==> r == 0),
            None => r == 0,
        },
{
    match value {
        Some(v) => match parse_u64(v) {
            Some(n) => n,
            None => 0,
        },
        None => 0,
    }
}

} // verus!
