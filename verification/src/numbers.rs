//! Numbers as text: decimal and hexadecimal digits, and reading decimals back.
use vstd::prelude::*;

use crate::text;

verus! {

// ── Specification ─────────────────────────────────────────────────────────

/// The decimal digit of a number below ten.
pub open spec fn digit_char(d: nat) -> char {
    (48 + d) as char
}

/// The hexadecimal digit of a number below sixteen, in lower case.
pub open spec fn hex_char(d: nat) -> char {
    if d < 10 {
        (48 + d) as char
    } else {
        (87 + d) as char
    }
}

/// The decimal digits of a number, most significant first.
pub open spec fn digits(n: nat) -> Seq<char>
    decreases n,
{
    if n < 10 {
        seq![digit_char(n)]
    } else {
        digits(n / 10).push(digit_char(n % 10))
    }
}

/// The last `width` hexadecimal digits of a number, most significant first.
pub open spec fn hex_digits(n: nat, width: nat) -> Seq<char>
    decreases width,
{
    if width == 0 {
        Seq::empty()
    } else {
        hex_digits(n / 16, (width - 1) as nat).push(hex_char(n % 16))
    }
}

/// The text `0` repeated.
pub open spec fn zeros(count: nat) -> Seq<char> {
    Seq::new(count, |i: int| '0')
}

/// The decimal digits of a number, filled up on the left with `0` to the width.
pub open spec fn padded(n: nat, width: nat) -> Seq<char> {
    let d = digits(n);
    if d.len() < width {
        zeros((width - d.len()) as nat) + d
    } else {
        d
    }
}

/// Whether the character is a decimal digit.
pub open spec fn is_digit(c: char) -> bool {
    '0' <= c <= '9'
}

/// The number that a sequence of decimal digits stands for.
pub open spec fn digits_value(s: Seq<char>) -> nat
    decreases s.len(),
{
    if s.len() == 0 {
        0
    } else {
        digits_value(s.drop_last()) * 10 + (s.last() as nat - 48) as nat
    }
}

/// The digits of a number that is written with an optional leading `+`.
pub open spec fn unsigned_part(s: Seq<char>) -> Seq<char> {
    if s.len() > 0 && s[0] == '+' {
        s.skip(1)
    } else {
        s
    }
}

/// Whether the text is an optional `+` and at least one decimal digit, and nothing else.
pub open spec fn is_number(s: Seq<char>) -> bool {
    let d = unsigned_part(s);
    d.len() > 0 && forall|i: int| 0 <= i < d.len() ==> is_digit(#[trigger] d[i])
}

/// The number that the text is, where it is one and is at most `max`.
pub open spec fn parsed(s: Seq<char>, max: nat) -> Option<nat> {
    if is_number(s) && digits_value(unsigned_part(s)) <= max {
        Some(digits_value(unsigned_part(s)))
    } else {
        None
    }
}

// ── Writing ───────────────────────────────────────────────────────────────

/// The decimal digit of a number below ten.
fn digit_of(d: u64) -> (c: char)
    requires
        d < 10,
    ensures
        c == digit_char(d as nat),
{
    let code: u8 = 48u8 + d as u8;
    code as char
}

/// The number in decimal.
pub fn decimal(n: u64) -> (r: String)
    ensures
        r@ == digits(n as nat),
    decreases n,
{
    if n < 10 {
        let mut out = String::new();
        out.push(digit_of(n));
        proof {
            assert(out@ =~= seq![digit_char(n as nat)]);
        }
        out
    } else {
        let mut out = decimal(n / 10);
        out.push(digit_of(n % 10));
        out
    }
}

/// The number in decimal, filled up on the left with `0` to the width.
pub fn decimal_padded(n: u64, width: usize) -> (r: String)
    ensures
        r@ == padded(n as nat, width as nat),
{
    let d = decimal(n);
    let len: usize = text::chars_of(d.as_str()).len();
    let mut out = String::new();
    let mut k: usize = len;
    while k < width
        invariant
            len == d@.len(),
            len <= k,
            k <= width || k == len,
            out@ == zeros((k - len) as nat),
        decreases width - k,
    {
        out.push('0');
        proof {
            assert(out@ =~= zeros((k + 1 - len) as nat));
        }
        k += 1;
    }
    out.push_str(d.as_str());
    proof {
        if len >= width {
            assert(zeros(0) + d@ =~= d@);
        }
    }
    out
}

/// The hexadecimal digit of a number below sixteen, in lower case.
fn hex_of(d: u32) -> (c: char)
    requires
        d < 16,
    ensures
        c == hex_char(d as nat),
{
    if d < 10 {
        let code: u8 = 48u8 + d as u8;
        code as char
    } else {
        let code: u8 = 87u8 + d as u8;
        code as char
    }
}

/// The last `width` hexadecimal digits of the number.
fn hex_last(n: u32, width: u32) -> (r: String)
    ensures
        r@ == hex_digits(n as nat, width as nat),
    decreases width,
{
    if width == 0 {
        String::new()
    } else {
        let mut out = hex_last(n / 16, width - 1);
        out.push(hex_of(n % 16));
        out
    }
}

/// The number as eight hexadecimal digits.
pub fn hex8(n: u32) -> (r: String)
    ensures
        r@ == hex_digits(n as nat, 8),
{
    hex_last(n, 8)
}

// ── Reading ───────────────────────────────────────────────────────────────

/// The number that the text is, where it is one and is at most `max`.
pub fn parse_number(s: &str, max: u64) -> (r: Option<u64>)
    ensures
        match r {
            Some(n) => parsed(s@, max as nat) == Some(n as nat),
            None => parsed(s@, max as nat) is None,
        },
{
    let v = text::chars_of(s);
    let start: usize = if v.len() > 0 && v[0] == '+' {
        1
    } else {
        0
    };
    let ghost d = unsigned_part(s@);
    proof {
        assert(d =~= s@.skip(start as int));
    }
    if start == v.len() {
        return None;
    }
    let mut value: u64 = 0;
    let mut i: usize = start;
    let mut fits = true;
    while i < v.len()
        invariant
            v@ == s@,
            d == unsigned_part(s@),
            d == s@.skip(start as int),
            start <= i <= v@.len(),
            forall|j: int| 0 <= j < i - start ==> is_digit(#[trigger] d[j]),
            fits ==> value == digits_value(d.take(i - start)) && value <= max,
            !fits ==> digits_value(d.take(i - start)) > max,
        decreases v.len() - i,
    {
        let c = v[i];
        proof {
            assert(d[i - start] == c);
        }
        if c < '0' || c > '9' {
            proof {
                assert(!is_digit(d[i - start]));
            }
            return None;
        }
        let digit: u64 = (c as u32 - 48) as u64;
        proof {
            let k = i - start;
            assert(d.take(k + 1).drop_last() =~= d.take(k));
            assert(d.take(k + 1).last() == c);
        }
        if fits {
            if value <= max / 10 && digit <= max - value * 10 {
                value = value * 10 + digit;
            } else {
                fits = false;
            }
        }
        i += 1;
    }
    proof {
        assert(d.take(i - start) =~= d);
    }
    if fits {
        Some(value)
    } else {
        None
    }
}

// ── Properties ────────────────────────────────────────────────────────────

/// The power of ten.
pub open spec fn ten_to(k: nat) -> nat
    decreases k,
{
    if k == 0 {
        1
    } else {
        10 * ten_to((k - 1) as nat)
    }
}

/// A number is written with digits alone.
pub proof fn lemma_digits_plain(n: nat)
    ensures
        forall|i: int| 0 <= i < digits(n).len() ==> is_digit(#[trigger] digits(n)[i]),
        !digits(n).contains('\n'),
    decreases n,
{
    if n >= 10 {
        lemma_digits_plain(n / 10);
        let before = digits(n / 10);
        assert forall|i: int| 0 <= i < digits(n).len() implies is_digit(#[trigger] digits(n)[i]) by {
            if i < before.len() {
                assert(digits(n)[i] == before[i]);
            }
        }
    }
    if digits(n).contains('\n') {
        let i = choose|i: int| 0 <= i < digits(n).len() && digits(n)[i] == '\n';
        assert(is_digit(digits(n)[i]));
    }
}

proof fn lemma_digits_len(n: nat, width: nat)
    requires
        width > 0,
        n < ten_to(width),
    ensures
        digits(n).len() <= width,
    decreases width,
{
    if n >= 10 {
        if width == 1 {
            assert(ten_to(0) == 1);
        } else {
            lemma_digits_len(n / 10, (width - 1) as nat);
        }
    }
}

proof fn lemma_padded_step(n: nat, width: nat)
    requires
        width > 0,
        n < ten_to(width),
    ensures
        padded(n, width).len() == width,
        width > 1 ==> padded(n, width) == padded(n / 10, (width - 1) as nat).push(
            digit_char(n % 10),
        ),
{
    lemma_digits_len(n, width);
    if width > 1 {
        assert(n / 10 < ten_to((width - 1) as nat));
        lemma_digits_len(n / 10, (width - 1) as nat);
        if n < 10 {
            assert(digits(0) =~= seq!['0']);
        }
        assert(padded(n, width) =~= padded(n / 10, (width - 1) as nat).push(digit_char(n % 10)));
    }
}

/// Numbers filled up to one width sort as text as they do as numbers.
pub proof fn lemma_padded_less(a: nat, b: nat, width: nat, x: Seq<char>, y: Seq<char>)
    requires
        width > 0,
        a < b < ten_to(width),
    ensures
        text::text_less(padded(a, width) + x, padded(b, width) + y),
    decreases width,
{
    lemma_padded_step(a, width);
    lemma_padded_step(b, width);
    let p = padded(a, width) + x;
    let q = padded(b, width) + y;
    if width == 1 {
        assert(ten_to(0) == 1);
        assert(padded(a, 1) =~= seq![digit_char(a)]);
        assert(padded(b, 1) =~= seq![digit_char(b)]);
        assert(p.take(0) =~= q.take(0));
        assert(text::less_at(p, q, 0));
    } else {
        let w = (width - 1) as nat;
        let u = seq![digit_char(a % 10)] + x;
        let v = seq![digit_char(b % 10)] + y;
        assert(p =~= padded(a / 10, w) + u);
        assert(q =~= padded(b / 10, w) + v);
        assert(b / 10 < ten_to(w));
        if a / 10 < b / 10 {
            lemma_padded_less(a / 10, b / 10, w, u, v);
        } else {
            lemma_padded_step(a / 10, w);
            assert(p.take(w as int) =~= q.take(w as int));
            assert(text::less_at(p, q, w as int));
        }
    }
}

/// Any number of hexadecimal digits: their count, and the characters they are made of.
pub proof fn lemma_hex_digits(n: nat, width: nat)
    ensures
        hex_digits(n, width).len() == width,
        forall|i: int|
            0 <= i < width ==> is_digit(#[trigger] hex_digits(n, width)[i]) || 'a' <= hex_digits(
                n,
                width,
            )[i] <= 'f',
    decreases width,
{
    if width > 0 {
        lemma_hex_digits(n / 16, (width - 1) as nat);
    }
}

// ── Laws ──────────────────────────────────────────────────────────────────

/// Digits are read one by one, each worth ten times as much as the one behind it.
pub proof fn law_digits_are_positional(s: Seq<char>, c: char)
    requires
        48 <= c as u32 <= 57,
    ensures
        digits_value(Seq::<char>::empty()) == 0,
        digits_value(s.push(c)) == digits_value(s) * 10 + (c as u32 - 48),
        is_digit(c),
{
    assert(s.push(c).drop_last() =~= s);
}

/// A number that is written is read back as that number, and has no digit `0` in front of others.
pub proof fn law_decimal_reads_back(n: nat, max: nat)
    ensures
        digits_value(digits(n)) == n,
        n <= max ==> parsed(digits(n), max) == Some(n),
        n > max ==> parsed(digits(n), max).is_none(),
        digits(n).len() > 0,
        digits(n).len() > 1 ==> digits(n)[0] as u32 != 48,
        forall|i: int| 0 <= i < digits(n).len() ==> 48 <= (#[trigger] digits(n)[i]) as u32 <= 57,
    decreases n,
{
    lemma_digits_plain(n);
    if n < 10 {
        assert(digits(n).drop_last() =~= Seq::<char>::empty());
        assert(digits_value(Seq::<char>::empty()) == 0);
        assert(digits(n).last() as nat == 48 + n);
    } else {
        law_decimal_reads_back(n / 10, max);
        assert(digits(n).drop_last() =~= digits(n / 10));
        assert(digits(n)[0] == digits(n / 10)[0]);
        assert(digits(n).last() as nat == 48 + n % 10);
        if n / 10 < 10 {
            assert(digits(n / 10)[0] == digit_char(n / 10));
            assert(digits(n / 10)[0] as nat == 48 + n / 10);
        } else {
            law_decimal_reads_back(n / 10 / 10, max);
            assert(digits(n / 10).len() > 1);
        }
    }
    assert(is_digit(digits(n)[0]));
    assert(unsigned_part(digits(n)) == digits(n));
}

/// Different numbers are written differently.
pub proof fn law_decimal_is_unique(m: nat, n: nat)
    ensures
        digits(m) == digits(n) <==> m == n,
{
    law_decimal_reads_back(m, m);
    law_decimal_reads_back(n, n);
}

/// A number is read only from digits, with a `+` before them or without: any other character
/// spoils it.
pub proof fn law_only_digits_are_read(s: Seq<char>, max: nat, i: int)
    requires
        0 <= i < s.len(),
        !(48 <= s[i] as u32 <= 57),
        i > 0 || s[0] as u32 != 43,
    ensures
        parsed(s, max).is_none(),
{
    let d = unsigned_part(s);
    if s[0] == '+' {
        assert(d[i - 1] == s[i]);
    }
    if is_number(s) {
        assert(is_digit(d[if s[0] == '+' {
            i - 1
        } else {
            i
        }]));
    }
}

/// A number that is filled up to a width has that width, and is read as the same number.
pub proof fn law_padded_reads_back(n: nat, width: nat)
    ensures
        digits_value(padded(n, width)) == n,
        padded(n, width).len() >= width,
        digits(n).len() <= width ==> padded(n, width).len() == width,
{
    law_decimal_reads_back(n, n);
    let d = digits(n);
    if d.len() < width {
        lemma_zeros_in_front((width - d.len()) as nat, d);
    }
}

proof fn lemma_zeros_in_front(count: nat, d: Seq<char>)
    ensures
        digits_value(zeros(count) + d) == digits_value(d),
    decreases d.len(), count,
{
    let s = zeros(count) + d;
    if d.len() > 0 {
        assert(s.drop_last() =~= zeros(count) + d.drop_last());
        assert(s.last() == d.last());
        lemma_zeros_in_front(count, d.drop_last());
    } else if count > 0 {
        let less = (count - 1) as nat;
        assert(s.drop_last() =~= zeros(less) + d);
        assert(s.last() == '0');
        lemma_zeros_in_front(less, d);
    } else {
        assert(s =~= d);
    }
}

/// What a hexadecimal digit is worth.
pub open spec fn hex_worth(c: char) -> int {
    if 48 <= c as u32 <= 57 {
        c as u32 - 48
    } else {
        c as u32 - 87
    }
}

/// Hexadecimal digits are read back as the number, as far as there are enough of them; the last
/// one is worth what is left by sixteen, and the others are those of a sixteenth.
pub proof fn law_hex_reads_back(n: nat, width: nat)
    requires
        width > 0,
    ensures
        hex_digits(n, width).len() == width,
        hex_worth(hex_digits(n, width).last()) == n % 16,
        hex_digits(n, width).drop_last() == hex_digits(n / 16, (width - 1) as nat),
{
    lemma_hex_digits(n, width);
    assert(hex_digits(n, width).drop_last() =~= hex_digits(n / 16, (width - 1) as nat));
}

/// A number is read with a plus sign before it and with zeros before its digits, and empty text
/// and a sign alone are no numbers.
pub proof fn law_sign_and_zeros(n: nat, max: nat, count: nat)
    requires
        n <= max,
    ensures
        parsed(seq!['+'] + digits(n), max) == Some(n),
        parsed(zeros(count) + digits(n), max) == Some(n),
        parsed(Seq::empty(), max).is_none(),
        parsed(seq!['+'], max).is_none(),
{
    let d = digits(n);
    law_decimal_reads_back(n, max);
    lemma_digits_plain(n);
    let signed = seq!['+'] + d;
    assert(signed.skip(1) =~= d);
    assert(is_number(d));
    assert(d[0] != '+');
    let filled = zeros(count) + d;
    lemma_zeros_in_front(count, d);
    assert(filled[0] != '+') by {
        if count > 0 {
            assert(filled[0] == '0');
        } else {
            assert(filled[0] == d[0]);
        }
    }
    assert forall|i: int| 0 <= i < filled.len() implies is_digit(#[trigger] filled[i]) by {
        if i >= count {
            assert(filled[i] == d[i - count]);
        }
    }
    assert(seq!['+'].skip(1) =~= Seq::<char>::empty());
}

} // verus!
