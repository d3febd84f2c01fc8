//! Decimal numbers in text: writing counters and reading process ids.
use vstd::prelude::*;

use crate::text::{chars_of, string_of};

verus! {

/// The character of the decimal digit `d`.
pub open spec fn digit_char(d: nat) -> char
    recommends
        d < 10,
{
    if d == 0 {
        '0'
    } else if d == 1 {
        '1'
    } else if d == 2 {
        '2'
    } else if d == 3 {
        '3'
    } else if d == 4 {
        '4'
    } else if d == 5 {
        '5'
    } else if d == 6 {
        '6'
    } else if d == 7 {
        '7'
    } else if d == 8 {
        '8'
    } else {
        '9'
    }
}

/// `c` is one of `0` to `9`.
pub open spec fn is_digit(c: char) -> bool {
    '0' <= c && c <= '9'
}

/// The value of the decimal digit `c`.
pub open spec fn digit_value(c: char) -> nat {
    (c as nat - '0' as nat) as nat
}

/// The decimal digits of `n`, most significant first, without leading zeros.
pub open spec fn decimal(n: nat) -> Seq<char>
    decreases n,
{
    if n < 10 {
        seq![digit_char(n)]
    } else {
        decimal(n / 10).push(digit_char(n % 10))
    }
}

/// The value of a run of decimal digits.
pub open spec fn digits_value(s: Seq<char>) -> nat
    decreases s.len(),
{
    if s.len() == 0 {
        0
    } else {
        digits_value(s.drop_last()) * 10 + digit_value(s.last())
    }
}

/// All characters of `s` are decimal digits.
pub open spec fn all_digits(s: Seq<char>) -> bool {
    forall|i: int| 0 <= i < s.len() ==> is_digit(#[trigger] s[i])
}

/// `s` right-aligned in a field of `width` characters, padded with spaces.
pub open spec fn padded(s: Seq<char>, width: nat) -> Seq<char> {
    if s.len() >= width {
        s
    } else {
        Seq::new((width - s.len()) as nat, |i: int| ' ') + s
    }
}

/// What `i32::from_str_radix(s, 10)` accepts and gives: an optional `+` or
/// `-`, then at least one decimal digit, with a value that fits in an `i32`.
pub open spec fn parsed_i32(s: Seq<char>) -> Option<i32> {
    if s.len() == 0 {
        None
    } else {
        let negative = s[0] == '-';
        let body = if s[0] == '-' || s[0] == '+' {
            s.drop_first()
        } else {
            s
        };
        if body.len() == 0 || !all_digits(body) {
            None
        } else {
            let v: int = if negative {
                -(digits_value(body) as int)
            } else {
                digits_value(body) as int
            };
            if i32::MIN <= v <= i32::MAX {
                Some(v as i32)
            } else {
                None
            }
        }
    }
}

proof fn lemma_digit_char(d: nat)
    requires
        d < 10,
    ensures
        is_digit(digit_char(d)),
        digit_value(digit_char(d)) == d,
{
}

/// Law: the digits written for a number read back as that number.
pub proof fn law_decimal_reads_back(n: nat)
    ensures
        all_digits(decimal(n)),
        digits_value(decimal(n)) == n,
        decimal(n).len() >= 1,
    decreases n,
{
    if n < 10 {
        lemma_digit_char(n);
        assert(decimal(n).drop_last() =~= Seq::<char>::empty());
        assert(digits_value(Seq::<char>::empty()) == 0);
    } else {
        law_decimal_reads_back(n / 10);
        lemma_digit_char(n % 10);
        let s = decimal(n);
        assert(s.drop_last() =~= decimal(n / 10));
        assert(s.last() == digit_char(n % 10));
        assert(n == (n / 10) * 10 + n % 10);
        assert(digits_value(s) == digits_value(decimal(n / 10)) * 10 + digit_value(s.last()));
        assert forall|i: int| 0 <= i < s.len() implies is_digit(#[trigger] s[i]) by {
            if i < s.len() - 1 {
                assert(s[i] == decimal(n / 10)[i]);
            }
        }
    }
}

/// Law: a count written in decimal is read back by the process-id reader.
pub proof fn law_decimal_parses(n: nat)
    requires
        n <= i32::MAX,
    ensures
        parsed_i32(decimal(n)) == Some(n as i32),
{
    law_decimal_reads_back(n);
    let s = decimal(n);
    assert(is_digit(s[0]));
}

/// Law: the digit characters are `0` to `9` in order of their values.
pub proof fn law_digit_chars(d: nat)
    requires
        d < 10,
    ensures
        digit_char(d) as nat == 48 + d,
        '0' <= digit_char(d) <= '9',
{
}

/// Law: the last character of a number's digits is the digit of its last
/// place, it has one digit exactly when it is under ten, and its first digit
/// is `0` only for zero.
pub proof fn law_decimal_digits(n: nat)
    ensures
        decimal(n).len() >= 1,
        decimal(n).last() == digit_char(n % 10),
        decimal(n).len() == 1 <==> n < 10,
        decimal(n)[0] == '0' <==> n == 0,
    decreases n,
{
    if n >= 10 {
        law_decimal_digits(n / 10);
        assert(decimal(n)[0] == decimal(n / 10)[0]);
    }
}

/// Law: padding right-aligns: the result is as long as the wider of the
/// text and the field, ends in the text, and holds only spaces before it.
pub proof fn law_padded(s: Seq<char>, width: nat)
    ensures
        padded(s, width).len() == if s.len() >= width {
            s.len()
        } else {
            width
        },
        padded(s, width).subrange(padded(s, width).len() - s.len(), padded(s, width).len() as int)
            == s,
        forall|j: int| 0 <= j < padded(s, width).len() - s.len() ==> #[trigger] padded(s, width)[j] == ' ',
{
    let p = padded(s, width);
    assert(p.subrange(p.len() - s.len(), p.len() as int) =~= s);
}

/// Law: the process-id reader takes an optional sign before the digits: `-`
/// and the digits of a number give its negation, down to `i32::MIN`; `+`
/// and the digits give the number; a number past the `i32` range gives
/// none, and so do empty text, a lone sign, and text with a character that
/// is no digit after its optional sign.
pub proof fn law_signed_numbers_parse(n: nat, s: Seq<char>, k: int)
    ensures
        n <= 2147483648 ==> parsed_i32(seq!['-'] + decimal(n)) == Some((-(n as int)) as i32),
        n <= 2147483647 ==> parsed_i32(seq!['+'] + decimal(n)) == Some(n as i32),
        n > 2147483647 ==> parsed_i32(decimal(n)) is None,
        n > 2147483647 ==> parsed_i32(seq!['+'] + decimal(n)) is None,
        n > 2147483648 ==> parsed_i32(seq!['-'] + decimal(n)) is None,
        parsed_i32(Seq::empty()) is None,
        parsed_i32(seq!['-']) is None,
        parsed_i32(seq!['+']) is None,
        0 < k < s.len() && (s[k] < '0' || s[k] > '9') ==> parsed_i32(s) is None,
        s.len() > 0 && (s[0] < '0' || s[0] > '9') && s[0] != '-' && s[0] != '+' ==> parsed_i32(s) is None,
{
    law_decimal_reads_back(n);
    law_decimal_digits(n);
    let m = seq!['-'] + decimal(n);
    let q = seq!['+'] + decimal(n);
    assert(m.drop_first() =~= decimal(n));
    assert(q.drop_first() =~= decimal(n));
    assert(m[0] == '-');
    assert(q[0] == '+');
    assert(decimal(n)[0] != '-' && decimal(n)[0] != '+') by {
        assert(is_digit(decimal(n)[0]));
    }
    assert(seq!['-'].drop_first() =~= Seq::<char>::empty());
    assert(seq!['+'].drop_first() =~= Seq::<char>::empty());
    if 0 < k < s.len() && (s[k] < '0' || s[k] > '9') {
        if s[0] == '-' || s[0] == '+' {
            assert(s.drop_first()[k - 1] == s[k]);
        } else {
            assert(!is_digit(s[k]));
        }
    }
    if s.len() > 0 && (s[0] < '0' || s[0] > '9') && s[0] != '-' && s[0] != '+' {
        assert(!is_digit(s[0]));
    }
}

/// The decimal digits of `n` (`n.to_string()` for an unsigned number).
pub fn decimal_string(n: usize) -> (s: String)
    ensures
        s@ == decimal(n as nat),
{
    let mut digits: Vec<char> = Vec::new();
    let mut m = n;
    while m >= 10
        invariant
            decimal(n as nat) == decimal(m as nat) + digits@,
        decreases m,
    {
        let d = digit(m % 10);
        let ghost before = digits@;
        digits.insert(0, d);
        assert(decimal(m as nat) == decimal((m / 10) as nat).push(d));
        assert(digits@ =~= seq![d] + before);
        assert(decimal((m / 10) as nat) + digits@ =~= decimal((m / 10) as nat).push(d) + before);
        m = m / 10;
    }
    let d = digit(m);
    let ghost before = digits@;
    digits.insert(0, d);
    assert(digits@ =~= seq![d] + before);
    string_of(&digits)
}

/// The character of the decimal digit `d`.
fn digit(d: usize) -> (c: char)
    requires
        d < 10,
    ensures
        c == digit_char(d as nat),
{
    if d == 0 {
        '0'
    } else if d == 1 {
        '1'
    } else if d == 2 {
        '2'
    } else if d == 3 {
        '3'
    } else if d == 4 {
        '4'
    } else if d == 5 {
        '5'
    } else if d == 6 {
        '6'
    } else if d == 7 {
        '7'
    } else if d == 8 {
        '8'
    } else {
        '9'
    }
}

/// `s` right-aligned in a field of `width` characters (`format!("{:>width$}")`).
pub fn pad_left(s: &String, width: usize) -> (r: String)
    ensures
        r@ == padded(s@, width as nat),
{
    let v = chars_of(s.as_str());
    if v.len() >= width {
        return string_of(&v);
    }
    let fill = width - v.len();
    let mut out: Vec<char> = Vec::new();
    for i in 0..fill
        invariant
            out@ == Seq::new(i as nat, |j: int| ' '),
    {
        out.push(' ');
        assert(out@ =~= Seq::new((i + 1) as nat, |j: int| ' '));
    }
    for i in 0..v.len()
        invariant
            out@ == Seq::new(fill as nat, |j: int| ' ') + v@.take(i as int),
    {
        out.push(v[i]);
        assert(out@ =~= Seq::new(fill as nat, |j: int| ' ') + v@.take(i + 1));
    }
    assert(v@.take(v.len() as int) =~= v@);
    string_of(&out)
}

/// Reads a signed decimal number the way `i32::from_str_radix(text, 10)`
/// does; `None` where that call returns an error.
pub fn parse_i32(text: &str) -> (r: Option<i32>)
    ensures
        r == parsed_i32(text@),
{
    let v = chars_of(text);
    if v.len() == 0 {
        return None;
    }
    let negative = v[0] == '-';
    let start: usize = if v[0] == '-' || v[0] == '+' {
        1
    } else {
        0
    };
    let ghost body = if v@[0] == '-' || v@[0] == '+' {
        v@.drop_first()
    } else {
        v@
    };
    assert(body =~= v@.skip(start as int));
    if start == v.len() {
        return None;
    }
    // The value read so far, held at no more than `cap`, a bound past both
    // ends of the `i32` range.
    let cap: u64 = 2147483649;
    let mut acc: u64 = 0;
    let mut i = start;
    while i < v.len()
        invariant
            start <= i <= v.len(),
            v@ == text@,
            v@.len() > 0,
            body == if v@[0] == '-' || v@[0] == '+' {
                v@.drop_first()
            } else {
                v@
            },
            body == v@.skip(start as int),
            cap == 2147483649,
            all_digits(v@.subrange(start as int, i as int)),
            acc as int == if digits_value(v@.subrange(start as int, i as int)) < cap {
                digits_value(v@.subrange(start as int, i as int)) as int
            } else {
                cap as int
            },
        decreases v.len() - i,
    {
        let c = v[i];
        if !('0' <= c && c <= '9') {
            assert(body[i - start] == c);
            assert(!is_digit(body[i - start]));
            assert(!all_digits(body));
            return None;
        }
        let d = (c as u32 - '0' as u32) as u64;
        let ghost prefix = v@.subrange(start as int, i as int);
        let ghost next = v@.subrange(start as int, i + 1);
        assert(next.drop_last() =~= prefix);
        assert(digits_value(next) == digits_value(prefix) * 10 + d);
        assert(acc <= cap);
        let grown = acc * 10 + d;
        proof {
            if digits_value(prefix) >= cap {
                assert(digits_value(prefix) * 10 + d >= cap) by (nonlinear_arith)
                    requires
                        digits_value(prefix) >= cap,
                        cap > 0,
                ;
            }
        }
        acc = if grown < cap {
            grown
        } else {
            cap
        };
        i = i + 1;
        assert forall|j: int| 0 <= j < next.len() implies is_digit(#[trigger] next[j]) by {
            if j < next.len() - 1 {
                assert(next[j] == prefix[j]);
            }
        }
    }
    assert(v@.subrange(start as int, v.len() as int) =~= body);
    if negative {
        if acc <= 2147483648 {
            Some((0 - acc as i64) as i32)
        } else {
            None
        }
    } else {
        if acc <= 2147483647 {
            Some(acc as i32)
        } else {
            None
        }
    }
}

} // verus!
