//! Text built from literals, names and numbers.

use vstd::prelude::*;
use vstd::string::StringExecFns;

verus! {

/// `String::push` appends one character to the end of the string.
pub assume_specification[ std::string::String::push ](s: &mut std::string::String, c: char)
    ensures
        final(s)@ == old(s)@.push(c),
;

/// The character of one decimal digit.
pub open spec fn digit(d: int) -> char {
    (0x30 + d) as char
}

/// The decimal digits of `n`, without leading zeros.
pub open spec fn decimal(n: nat) -> Seq<char>
    decreases n,
{
    if n < 10 {
        seq![digit(n as int)]
    } else {
        decimal(n / 10).push(digit((n % 10) as int))
    }
}

/// The character of one lower-case hexadecimal digit.
pub open spec fn hex_digit(d: int) -> char {
    if d < 10 {
        (0x30 + d) as char
    } else {
        (0x57 + d) as char
    }
}

/// The lowest `width` hexadecimal digits of `n`.
pub open spec fn hex(n: nat, width: nat) -> Seq<char>
    decreases width,
{
    if width == 0 {
        seq![]
    } else {
        hex(n / 16, (width - 1) as nat).push(hex_digit((n % 16) as int))
    }
}

fn hex_char(d: u8) -> (c: char)
    requires
        d < 16,
    ensures
        c == hex_digit(d as int),
{
    match d {
        0 => '0',
        1 => '1',
        2 => '2',
        3 => '3',
        4 => '4',
        5 => '5',
        6 => '6',
        7 => '7',
        8 => '8',
        9 => '9',
        10 => 'a',
        11 => 'b',
        12 => 'c',
        13 => 'd',
        14 => 'e',
        _ => 'f',
    }
}

/// Appends `n` in decimal.
pub fn push_decimal(s: &mut String, n: u64)
    ensures
        final(s)@ == old(s)@ + decimal(n as nat),
    decreases n,
{
    let ghost before = s@;
    if n >= 10 {
        push_decimal(s, n / 10);
    }
    s.push(hex_char((n % 10) as u8));
    assert(s@ =~= before + decimal(n as nat));
}

/// Appends the lowest `width` hexadecimal digits of `n`.
pub fn push_hex(s: &mut String, n: u32, width: u32)
    ensures
        final(s)@ == old(s)@ + hex(n as nat, width as nat),
    decreases width,
{
    let ghost before = s@;
    if width > 0 {
        push_hex(s, n / 16, width - 1);
        s.push(hex_char((n % 16) as u8));
    }
    assert(s@ =~= before + hex(n as nat, width as nat));
}

/// `a`.
pub fn lit(a: &str) -> (s: String)
    ensures
        s@ == a@,
{
    a.to_owned()
}

/// `a`, a number, `b`.
pub fn with_num(a: &str, n: u64, b: &str) -> (s: String)
    ensures
        s@ == a@ + decimal(n as nat) + b@,
{
    let mut s = a.to_owned();
    push_decimal(&mut s, n);
    s.append(b);
    s
}

/// `a`, a number, `b`, a number, `c`.
pub fn with_nums(a: &str, n: u64, b: &str, m: u64, c: &str) -> (s: String)
    ensures
        s@ == a@ + decimal(n as nat) + b@ + decimal(m as nat) + c@,
{
    let mut s = with_num(a, n, b);
    push_decimal(&mut s, m);
    s.append(c);
    s
}

/// `a`, a name, `b`.
pub fn with_name(a: &str, name: &str, b: &str) -> (s: String)
    ensures
        s@ == a@ + name@ + b@,
{
    let mut s = a.to_owned();
    s.append(name);
    s.append(b);
    s
}

/// `a`, a name, `b`, a number, `c`.
pub fn with_name_num(a: &str, name: &str, b: &str, n: u64, c: &str) -> (s: String)
    ensures
        s@ == a@ + name@ + b@ + decimal(n as nat) + c@,
{
    let mut s = with_name(a, name, b);
    push_decimal(&mut s, n);
    s.append(c);
    s
}

/// `a`, the eight hexadecimal digits of a number.
pub fn with_hex(a: &str, n: u32) -> (s: String)
    ensures
        s@ == a@ + hex(n as nat, 8),
{
    let mut s = a.to_owned();
    push_hex(&mut s, n, 8);
    s
}

/// `s`, and `b` behind it.
pub fn and(s: String, b: &str) -> (r: String)
    ensures
        r@ == s@ + b@,
{
    let mut r = s;
    r.append(b);
    r
}

/// `s`, and a number behind it.
pub fn and_num(s: String, n: u64) -> (r: String)
    ensures
        r@ == s@ + decimal(n as nat),
{
    let mut r = s;
    push_decimal(&mut r, n);
    r
}

/// The character of one upper-case hexadecimal digit.
pub open spec fn upper_hex_digit(d: int) -> char {
    if d < 10 {
        (0x30 + d) as char
    } else {
        (0x37 + d) as char
    }
}

/// The lowest `width` hexadecimal digits of `n`, in upper case.
pub open spec fn upper_hex(n: nat, width: nat) -> Seq<char>
    decreases width,
{
    if width == 0 {
        seq![]
    } else {
        upper_hex(n / 16, (width - 1) as nat).push(upper_hex_digit((n % 16) as int))
    }
}

fn upper_hex_char(d: u8) -> (c: char)
    requires
        d < 16,
    ensures
        c == upper_hex_digit(d as int),
{
    match d {
        10 => 'A',
        11 => 'B',
        12 => 'C',
        13 => 'D',
        14 => 'E',
        15 => 'F',
        _ => hex_char(d),
    }
}

fn push_upper_hex(s: &mut String, n: u32, width: u32)
    ensures
        final(s)@ == old(s)@ + upper_hex(n as nat, width as nat),
    decreases width,
{
    let ghost before = s@;
    if width > 0 {
        push_upper_hex(s, n / 16, width - 1);
        s.push(upper_hex_char((n % 16) as u8));
    }
    assert(s@ =~= before + upper_hex(n as nat, width as nat));
}

/// `a`, the eight upper-case hexadecimal digits of a number.
pub fn with_upper_hex(a: &str, n: u32) -> (s: String)
    ensures
        s@ == a@ + upper_hex(n as nat, 8),
{
    let mut s = a.to_owned();
    push_upper_hex(&mut s, n, 8);
    s
}

/// The decimal digits of a number, behind a minus sign if it is negative.
pub open spec fn signed_decimal(n: int) -> Seq<char> {
    if n < 0 {
        seq!['-'] + decimal((-n) as nat)
    } else {
        decimal(n as nat)
    }
}

/// Appends `n` in decimal, behind a minus sign if it is negative.
pub fn push_signed(s: &mut String, n: i64)
    ensures
        final(s)@ == old(s)@ + signed_decimal(n as int),
{
    let ghost before = s@;
    if n < 0 {
        s.push('-');
        push_decimal(s, (-(n + 1)) as u64 + 1);
    } else {
        push_decimal(s, n as u64);
    }
    assert(s@ =~= before + signed_decimal(n as int));
}

/// `s`, and a signed number behind it.
pub fn and_int(s: String, n: i32) -> (r: String)
    ensures
        r@ == s@ + signed_decimal(n as int),
{
    let mut r = s;
    push_signed(&mut r, n as i64);
    r
}

/// What `Debug` writes for a string.
pub uninterp spec fn quoted_form(s: Seq<char>) -> Seq<char>;

/// `Debug` of `str` writes the string in quotation marks, with characters
/// escaped that would not show; what it writes depends on the string alone.
#[verifier::external_body]
pub(crate) fn quoted(s: &str) -> (r: String)
    ensures
        r@ == quoted_form(s@),
{
    format!("{s:?}")
}

/// The strings of a list.
pub open spec fn words(list: Seq<String>) -> Seq<Seq<char>> {
    Seq::new(list.len(), |i: int| list[i]@)
}

/// A number is written by its digits, the lowest one last; only zero itself starts
/// with a zero.
pub proof fn digits_are_written_lowest_last(n: nat, d: int, c: char)
    requires
        0 <= d < 10,
        c as int == '0' as int + d,
    ensures
        decimal(d as nat) == seq![c],
        n > 0 ==> decimal(10 * n + d as nat) == decimal(n).push(c),
        n > 0 ==> decimal(n).len() > 0 && decimal(n)[0] != '0',
    decreases n,
{
    assert(digit(d) == c);
    if n > 0 {
        assert((10 * n + d as nat) / 10 == n && (10 * n + d as nat) % 10 == d);
        let h = n % 10;
        if n >= 10 {
            digits_are_written_lowest_last(n / 10, h as int, digit(h as int));
            assert(n / 10 > 0);
            assert(decimal(n)[0] == decimal(n / 10)[0]);
        }
    }
}

/// Hexadecimal digits are written lowest last, `width` of them: lower-case letters
/// in one form and upper-case letters in the other.
pub proof fn hex_digits_are_written_lowest_last(n: nat, width: nat, d: int, c: char, u: char)
    requires
        0 <= d < 16,
        d < 10 ==> c as int == '0' as int + d && u == c,
        d >= 10 ==> c as int == 'a' as int + d - 10 && u as int == 'A' as int + d - 10,
    ensures
        hex(n, 0).len() == 0,
        upper_hex(n, 0).len() == 0,
        hex(16 * n + d as nat, width + 1) == hex(n, width).push(c),
        upper_hex(16 * n + d as nat, width + 1) == upper_hex(n, width).push(u),
{
    assert((16 * n + d as nat) / 16 == n && (16 * n + d as nat) % 16 == d);
}

/// A negative number is written as a minus sign and the number without its sign.
pub proof fn a_minus_sign_comes_first(n: nat)
    ensures
        signed_decimal(n as int) == decimal(n),
        n > 0 ==> signed_decimal(-n) == seq!['-'] + decimal(n),
{
}

} // verus!
