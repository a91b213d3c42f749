//! Byte streams that should be UTF-8 but need not be.
//!
//! An ill-formed part of a stream is the longest run of bytes that begins a
//! character without completing one, or a single byte that begins none. Each
//! such part is replaced by one U+FFFD. Bytes at the end of a stream that may
//! still become a character are not ill-formed yet.

use vstd::prelude::*;
use vstd::utf8::*;

verus! {

/// `char::from_u32` gives the character with this scalar value, and `None`
/// where there is none: beyond 0x10FFFF, and from 0xD800 to 0xDFFF.
pub assume_specification[ char::from_u32 ](i: u32) -> (r: Option<char>)
    ensures
        match r {
            Some(c) => c as u32 == i,
            None => !is_scalar(i),
        },
;

/// The replacement character.
pub const REPLACEMENT: char = '\u{FFFD}';

// ---------------------------------------------------------------------------
// Models
// ---------------------------------------------------------------------------

/// `p` begins the encoding of a character without completing it.
pub open spec fn begins_char(p: Seq<u8>) -> bool {
    p.len() > 0 && exists|c: char| #[trigger] begins(p, c)
}

/// `p` begins the encoding of `c` without completing it.
pub open spec fn begins(p: Seq<u8>, c: char) -> bool {
    let e = encode_scalar(c as u32);
    p.len() < e.len() && p == e.take(p.len() as int)
}

/// The length of the ill-formed part at the start of `s`.
pub open spec fn bad_len(s: Seq<u8>) -> int {
    if s.len() >= 3 && begins_char(s.take(3)) {
        3
    } else if s.len() >= 2 && begins_char(s.take(2)) {
        2
    } else {
        1
    }
}

/// The length of the well-formed part at the start of `s`.
pub open spec fn valid_up_to(s: Seq<u8>) -> int
    decreases s.len(),
{
    if s.len() == 0 || !valid_first_scalar(s) {
        0
    } else {
        length_of_first_scalar(s) + valid_up_to(pop_first_scalar(s))
    }
}

/// The length of the ill-formed part after the well-formed start of `s`; zero
/// where `s` ends there, or in the middle of a character.
pub open spec fn bad_after(s: Seq<u8>) -> int {
    let rest = s.skip(valid_up_to(s));
    if rest.len() == 0 || begins_char(rest) {
        0
    } else {
        bad_len(rest)
    }
}

/// The characters of `s`, one U+FFFD for each ill-formed part.
pub open spec fn lossy(s: Seq<u8>) -> Seq<char>
    decreases s.len(),
{
    if s.len() == 0 {
        seq![]
    } else if valid_first_scalar(s) {
        seq![decode_first_scalar(s) as char] + lossy(pop_first_scalar(s))
    } else if begins_char(s) {
        seq![REPLACEMENT]
    } else {
        seq![REPLACEMENT] + lossy(s.skip(bad_len(s)))
    }
}

/// What can be written of `s`: its characters, and U+FFFD for each ill-formed
/// part.
pub open spec fn written(s: Seq<u8>) -> Seq<u8>
    decreases s.len(),
{
    if s.len() == 0 {
        seq![]
    } else if valid_first_scalar(s) {
        take_first_scalar(s) + written(pop_first_scalar(s))
    } else if begins_char(s) {
        seq![]
    } else {
        encode_scalar(0xFFFD) + written(s.skip(bad_len(s)))
    }
}

/// What must wait of `s`: the bytes at its end that may become a character.
pub open spec fn held(s: Seq<u8>) -> Seq<u8>
    decreases s.len(),
{
    if s.len() == 0 {
        seq![]
    } else if valid_first_scalar(s) {
        held(pop_first_scalar(s))
    } else if begins_char(s) {
        s
    } else {
        held(s.skip(bad_len(s)))
    }
}

// ---------------------------------------------------------------------------
// Which bytes begin a character
// ---------------------------------------------------------------------------

/// `b` continues a character.
spec fn cont(b: u8) -> bool {
    0x80 <= b <= 0xBF
}

/// `b1` may follow `b0` in a character of three or four bytes.
spec fn second(b0: u8, b1: u8) -> bool {
    &&& 0xE0 <= b0 <= 0xF4
    &&& cont(b1)
    &&& b0 == 0xE0 ==> b1 >= 0xA0
    &&& b0 == 0xED ==> b1 <= 0x9F
    &&& b0 == 0xF0 ==> b1 >= 0x90
    &&& b0 == 0xF4 ==> b1 <= 0x8F
}

proof fn encoded_ranges(c: u32)
    by (bit_vector)
    ensures
        has_width_2_encoding(c) ==> 0xC2 <= leading_byte_width_2(c) <= 0xDF,
        has_width_3_encoding(c) ==> 0xE0 <= leading_byte_width_3(c) <= 0xEF,
        has_width_3_encoding(c) ==> 0x80 <= second_last_continuation_byte(c) <= 0xBF,
        has_width_3_encoding(c) && leading_byte_width_3(c) == 0xE0
            ==> second_last_continuation_byte(c) >= 0xA0,
        has_width_3_encoding(c) && leading_byte_width_3(c) == 0xED
            ==> second_last_continuation_byte(c) <= 0x9F,
        has_width_4_encoding(c) ==> 0xF0 <= leading_byte_width_4(c) <= 0xF4,
        has_width_4_encoding(c) ==> 0x80 <= third_last_continuation_byte(c) <= 0xBF,
        has_width_4_encoding(c) && leading_byte_width_4(c) == 0xF0
            ==> third_last_continuation_byte(c) >= 0x90,
        has_width_4_encoding(c) && leading_byte_width_4(c) == 0xF4
            ==> third_last_continuation_byte(c) <= 0x8F,
        has_width_4_encoding(c) ==> 0x80 <= second_last_continuation_byte(c) <= 0xBF,
{
}

/// The character whose first bytes are `b0`, `b1` and, if it has four, `b2`.
spec fn witness(b0: u8, b1: u8, b2: u8) -> u32 {
    if b0 < 0xE0 {
        ((b0 & 0x1F) as u32) << 6
    } else if b0 < 0xF0 {
        (((b0 & 0x0F) as u32) << 12) | (((b1 & 0x3F) as u32) << 6)
    } else {
        (((b0 & 0x07) as u32) << 18) | (((b1 & 0x3F) as u32) << 12) | (((b2 & 0x3F) as u32) << 6)
    }
}

proof fn witness_encodes(b0: u8, b1: u8, b2: u8)
    by (bit_vector)
    requires
        0x80 <= b1 <= 0xBF,
        0x80 <= b2 <= 0xBF,
        0xC2 <= b0 <= 0xF4,
        b0 == 0xE0 ==> b1 >= 0xA0,
        b0 == 0xED ==> b1 <= 0x9F,
        b0 == 0xF0 ==> b1 >= 0x90,
        b0 == 0xF4 ==> b1 <= 0x8F,
    ensures
        b0 < 0xE0 ==> has_width_2_encoding(witness(b0, b1, b2)) && leading_byte_width_2(
            witness(b0, b1, b2),
        ) == b0,
        0xE0 <= b0 < 0xF0 ==> has_width_3_encoding(witness(b0, b1, b2)) && leading_byte_width_3(
            witness(b0, b1, b2),
        ) == b0 && second_last_continuation_byte(witness(b0, b1, b2)) == b1,
        b0 >= 0xF0 ==> has_width_4_encoding(witness(b0, b1, b2)) && leading_byte_width_4(
            witness(b0, b1, b2),
        ) == b0 && third_last_continuation_byte(witness(b0, b1, b2)) == b1
            && second_last_continuation_byte(witness(b0, b1, b2)) == b2,
{
}

proof fn one_begins(b0: u8)
    ensures
        begins_char(seq![b0]) <==> 0xC2 <= b0 <= 0xF4,
{
    let p = seq![b0];
    if begins_char(p) {
        let c = choose|c: char| #[trigger] begins(p, c);
        char_is_scalar(c);
        encoded_ranges(c as u32);
        assert(encode_scalar(c as u32).take(1)[0] == encode_scalar(c as u32)[0]);
        assert(p[0] == b0);
    }
    if 0xC2 <= b0 <= 0xF4 {
        let b1: u8 = if b0 == 0xE0 {
            0xA0
        } else if b0 == 0xF0 {
            0x90
        } else {
            0x80
        };
        witness_encodes(b0, b1, 0x80);
        let c = witness(b0, b1, 0x80) as char;
        assert(c as u32 == witness(b0, b1, 0x80));
        assert(p =~= encode_scalar(c as u32).take(1));
        assert(begins(p, c));
    }
}

proof fn two_begin(b0: u8, b1: u8)
    ensures
        begins_char(seq![b0, b1]) <==> second(b0, b1),
{
    let p = seq![b0, b1];
    if begins_char(p) {
        let c = choose|c: char| #[trigger] begins(p, c);
        char_is_scalar(c);
        encoded_ranges(c as u32);
        let e = encode_scalar(c as u32);
        assert(e.take(2)[0] == e[0] && e.take(2)[1] == e[1]);
        assert(p[0] == b0 && p[1] == b1);
    }
    if second(b0, b1) {
        witness_encodes(b0, b1, 0x80);
        let c = witness(b0, b1, 0x80) as char;
        assert(c as u32 == witness(b0, b1, 0x80));
        assert(p =~= encode_scalar(c as u32).take(2));
        assert(begins(p, c));
    }
}

proof fn three_begin(b0: u8, b1: u8, b2: u8)
    ensures
        begins_char(seq![b0, b1, b2]) <==> b0 >= 0xF0 && second(b0, b1) && cont(b2),
{
    let p = seq![b0, b1, b2];
    if begins_char(p) {
        let c = choose|c: char| #[trigger] begins(p, c);
        char_is_scalar(c);
        encoded_ranges(c as u32);
        let e = encode_scalar(c as u32);
        assert(e.take(3)[0] == e[0] && e.take(3)[1] == e[1] && e.take(3)[2] == e[2]);
        assert(p[0] == b0 && p[1] == b1 && p[2] == b2);
    }
    if b0 >= 0xF0 && second(b0, b1) && cont(b2) {
        witness_encodes(b0, b1, b2);
        let c = witness(b0, b1, b2) as char;
        assert(c as u32 == witness(b0, b1, b2));
        assert(p =~= encode_scalar(c as u32).take(3));
        assert(begins(p, c));
    }
}

/// What begins a character has a prefix that begins one.
proof fn prefix_begins(p: Seq<u8>, k: int)
    requires
        begins_char(p),
        0 < k <= p.len(),
    ensures
        begins_char(p.take(k)),
        p.len() <= 3,
{
    let c = choose|c: char| #[trigger] begins(p, c);
    assert(p.take(k) =~= encode_scalar(c as u32).take(k));
    assert(begins(p.take(k), c));
}

proof fn codepoint_ranges(b0: u8, b1: u8, b2: u8, b3: u8)
    by (bit_vector)
    ensures
        0xC0 <= b0 <= 0xDF && 0x80 <= b1 <= 0xBF ==> (0x80 <= codepoint_width_2(b0, b1) <==> b0
            >= 0xC2) && codepoint_width_2(b0, b1) < 0x800 && codepoint_width_2(b0, b1) == (b0
            - 0xC0) * 0x40 + (b1 - 0x80),
        0xE0 <= b0 <= 0xEF && 0x80 <= b1 <= 0xBF && 0x80 <= b2 <= 0xBF ==> codepoint_width_3(
            b0,
            b1,
            b2,
        ) == (b0 - 0xE0) * 0x1000 + (b1 - 0x80) * 0x40 + (b2 - 0x80),
        0xF0 <= b0 <= 0xF7 && 0x80 <= b1 <= 0xBF && 0x80 <= b2 <= 0xBF && 0x80 <= b3 <= 0xBF
            ==> codepoint_width_4(b0, b1, b2, b3) == (b0 - 0xF0) * 0x4_0000 + (b1 - 0x80) * 0x1000
            + (b2 - 0x80) * 0x40 + (b3 - 0x80),
        b0 <= 0x7F ==> codepoint_width_1(b0) == b0,
{
}

// ---------------------------------------------------------------------------
// Scanning
// ---------------------------------------------------------------------------

/// What a non-empty run of bytes starts with.
pub enum Head {
    /// A character, and the number of its bytes.
    Char(char, usize),
    /// The run as a whole begins a character without completing it.
    Partial,
    /// An ill-formed part, and the number of its bytes.
    Bad(usize),
}

/// What `s` starts with.
pub open spec fn is_head(s: Seq<u8>, h: Head) -> bool {
    match h {
        Head::Char(c, n) => valid_first_scalar(s) && n == length_of_first_scalar(s) && c
            == decode_first_scalar(s) as char && 1 <= n <= s.len(),
        Head::Partial => !valid_first_scalar(s) && begins_char(s),
        Head::Bad(n) => !valid_first_scalar(s) && !begins_char(s) && n == bad_len(s) && 1 <= n
            <= s.len(),
    }
}

fn make_char(cp: u32) -> (c: char)
    requires
        is_scalar(cp),
    ensures
        c == cp as char,
{
    match char::from_u32(cp) {
        Some(c) => {
            proof {
                char_u32_cast(c, cp);
            }
            c
        },
        None => {
            assert(false);
            REPLACEMENT
        },
    }
}

/// What the bytes from `i` on start with.
#[verifier::rlimit(60)]
pub fn head_at(bytes: &[u8], i: usize) -> (h: Head)
    requires
        i < bytes.len(),
    ensures
        is_head(bytes@.skip(i as int), h),
{
    let ghost s = bytes@.skip(i as int);
    let n: usize = bytes.len() - i;
    let b0: u8 = bytes[i];
    proof {
        one_begins(b0);
        codepoint_ranges(b0, 0, 0, 0);
        if n == 1 {
            assert(s =~= seq![b0]);
        }
    }
    if b0 < 0x80 {
        return Head::Char(make_char(b0 as u32), 1);
    }
    if b0 < 0xC2 || b0 > 0xF4 {
        proof {
            if n > 1 {
                codepoint_ranges(b0, bytes[i + 1], 0, 0);
                two_begin(b0, bytes[i + 1]);
                assert(s.take(2) =~= seq![b0, bytes[i + 1]]);
                if n > 2 {
                    three_begin(b0, bytes[i + 1], bytes[i + 2]);
                    assert(s.take(3) =~= seq![b0, bytes[i + 1], bytes[i + 2]]);
                    if n > 3 {
                        codepoint_ranges(b0, bytes[i + 1], bytes[i + 2], bytes[i + 3]);
                    }
                }
            }
            if begins_char(s) {
                prefix_begins(s, 1);
                assert(s.take(1) =~= seq![b0]);
            }
        }
        return Head::Bad(1);
    }
    if n == 1 {
        return Head::Partial;
    }
    let b1: u8 = bytes[i + 1];
    proof {
        two_begin(b0, b1);
        codepoint_ranges(b0, b1, 0, 0);
        assert(s.take(2) =~= seq![b0, b1]);
        if n == 2 {
            assert(s =~= seq![b0, b1]);
        }
    }
    if b0 < 0xE0 {
        if b1 >= 0x80 && b1 <= 0xBF {
            let cp: u32 = (b0 as u32 - 0xC0) * 0x40 + (b1 as u32 - 0x80);
            return Head::Char(make_char(cp), 2);
        }
        proof {
            if n > 2 {
                three_begin(b0, b1, bytes[i + 2]);
                assert(s.take(3) =~= seq![b0, b1, bytes[i + 2]]);
            }
            if begins_char(s) {
                prefix_begins(s, 2);
            }
        }
        return Head::Bad(1);
    }
    let ok: bool = b1 >= 0x80 && b1 <= 0xBF && (b0 != 0xE0 || b1 >= 0xA0) && (b0 != 0xED || b1
        <= 0x9F) && (b0 != 0xF0 || b1 >= 0x90) && (b0 != 0xF4 || b1 <= 0x8F);
    assert(ok == second(b0, b1));
    if !ok {
        proof {
            if n > 2 {
                codepoint_ranges(b0, b1, bytes[i + 2], 0);
                three_begin(b0, b1, bytes[i + 2]);
                assert(s.take(3) =~= seq![b0, b1, bytes[i + 2]]);
                if n > 3 {
                    codepoint_ranges(b0, b1, bytes[i + 2], bytes[i + 3]);
                }
            }
            if begins_char(s) {
                prefix_begins(s, 2);
            }
        }
        return Head::Bad(1);
    }
    if n == 2 {
        return Head::Partial;
    }
    let b2: u8 = bytes[i + 2];
    proof {
        three_begin(b0, b1, b2);
        codepoint_ranges(b0, b1, b2, 0);
        assert(s.take(3) =~= seq![b0, b1, b2]);
        if n == 3 {
            assert(s =~= seq![b0, b1, b2]);
        }
    }
    if b2 < 0x80 || b2 > 0xBF {
        proof {
            if begins_char(s) {
                prefix_begins(s, 3);
            }
        }
        return Head::Bad(2);
    }
    if b0 < 0xF0 {
        let cp: u32 = (b0 as u32 - 0xE0) * 0x1000 + (b1 as u32 - 0x80) * 0x40 + (b2 as u32 - 0x80);
        return Head::Char(make_char(cp), 3);
    }
    if n == 3 {
        return Head::Partial;
    }
    let b3: u8 = bytes[i + 3];
    proof {
        codepoint_ranges(b0, b1, b2, b3);
    }
    if b3 < 0x80 || b3 > 0xBF {
        proof {
            if begins_char(s) {
                prefix_begins(s, 3);
            }
        }
        return Head::Bad(3);
    }
    let cp: u32 = (b0 as u32 - 0xF0) * 0x4_0000 + (b1 as u32 - 0x80) * 0x1000 + (b2 as u32 - 0x80)
        * 0x40 + (b3 as u32 - 0x80);
    Head::Char(make_char(cp), 4)
}

/// Splits `bytes` after its well-formed start: the length of that start, and
/// the length of the ill-formed part that follows. The second is zero where
/// nothing follows, or only bytes that may still become a character.
pub fn utf8_split(bytes: &[u8]) -> (r: (usize, usize))
    ensures
        r.0 == valid_up_to(bytes@),
        r.1 == bad_after(bytes@),
        r.0 + r.1 <= bytes@.len(),
{
    let mut i: usize = 0;
    assert(bytes@.skip(0) =~= bytes@);
    while i < bytes.len()
        invariant
            i <= bytes.len(),
            valid_up_to(bytes@) == i + valid_up_to(bytes@.skip(i as int)),
        decreases bytes.len() - i,
    {
        let ghost s = bytes@.skip(i as int);
        match head_at(bytes, i) {
            Head::Char(_, n) => {
                assert(pop_first_scalar(s) =~= bytes@.skip(i + n));
                i += n;
            },
            Head::Partial => {
                return (i, 0);
            },
            Head::Bad(n) => {
                return (i, n);
            },
        }
    }
    (i, 0)
}

/// The text of `bytes`, one U+FFFD for each ill-formed part.
pub fn from_utf8_lossy(bytes: &[u8]) -> (text: String)
    ensures
        text@ == lossy(bytes@),
{
    let mut text = String::new();
    let mut i: usize = 0;
    assert(bytes@.skip(0) =~= bytes@);
    assert(text@ + lossy(bytes@) =~= lossy(bytes@));
    while i < bytes.len()
        invariant
            i <= bytes.len(),
            lossy(bytes@) == text@ + lossy(bytes@.skip(i as int)),
        decreases bytes.len() - i,
    {
        let ghost s = bytes@.skip(i as int);
        let ghost before = text@;
        match head_at(bytes, i) {
            Head::Char(c, n) => {
                assert(pop_first_scalar(s) =~= bytes@.skip(i + n));
                text.push(c);
                assert(before + lossy(s) =~= text@ + lossy(bytes@.skip(i + n)));
                i += n;
            },
            Head::Partial => {
                text.push(REPLACEMENT);
                assert(before + lossy(s) =~= text@);
                return text;
            },
            Head::Bad(n) => {
                assert(s.skip(n as int) =~= bytes@.skip(i + n));
                text.push(REPLACEMENT);
                assert(before + lossy(s) =~= text@ + lossy(bytes@.skip(i + n)));
                i += n;
            },
        }
    }
    assert(text@ + lossy(bytes@.skip(i as int)) =~= text@);
    text
}

fn put_replacement(out: &mut Vec<u8>)
    ensures
        final(out)@ == old(out)@ + encode_scalar(0xFFFD),
{
    let ghost before = out@;
    proof {
        encoded_replacement();
    }
    out.push(0xEF);
    out.push(0xBF);
    out.push(0xBD);
    assert(out@ =~= before + encode_scalar(0xFFFD));
}

proof fn encoded_replacement()
    ensures
        encode_scalar(0xFFFD) == seq![0xEFu8, 0xBFu8, 0xBDu8],
{
    assert(leading_byte_width_3(0xFFFD) == 0xEF && second_last_continuation_byte(0xFFFD) == 0xBF
        && last_continuation_byte(0xFFFD) == 0xBD) by (bit_vector);
}

/// Writes what `pending` holds so far, with U+FFFD for each ill-formed part.
/// Bytes at its end that may still become a character stay in `pending`,
/// unless `flush_partial` says that nothing more will come: then they, too,
/// are replaced.
pub fn write_utf8(out: &mut Vec<u8>, pending: &mut Vec<u8>, flush_partial: bool)
    ensures
        if flush_partial && held(old(pending)@).len() > 0 {
            &&& final(out)@ == old(out)@ + written(old(pending)@) + encode_scalar(0xFFFD)
            &&& final(pending)@.len() == 0
        } else {
            &&& final(out)@ == old(out)@ + written(old(pending)@)
            &&& final(pending)@ == held(old(pending)@)
        },
{
    let ghost all = pending@;
    let ghost start = out@;
    let mut i: usize = 0;
    let mut partial: bool = false;
    assert(all.skip(0) =~= all);
    assert(start + written(all) =~= out@ + written(all.skip(0)));
    while i < pending.len() && !partial
        invariant
            pending@ == all,
            i <= all.len(),
            start + written(all) == out@ + written(all.skip(i as int)),
            held(all) == held(all.skip(i as int)),
            partial ==> i < all.len() && held(all) == all.skip(i as int) && start + written(all)
                == out@,
        decreases
            all.len() - i,
            if partial {
                0int
            } else {
                1int
            },
    {
        let ghost s = all.skip(i as int);
        let ghost before = out@;
        match head_at(pending.as_slice(), i) {
            Head::Char(_, n) => {
                let mut k: usize = 0;
                while k < n
                    invariant
                        pending@ == all,
                        i + n <= pending.len(),
                        k <= n,
                        out@ == before + all.subrange(i as int, i + k),
                    decreases n - k,
                {
                    out.push(pending[i + k]);
                    assert(out@ =~= before + all.subrange(i as int, i + k + 1));
                    k += 1;
                }
                assert(take_first_scalar(s) =~= all.subrange(i as int, i + n));
                assert(pop_first_scalar(s) =~= all.skip(i + n));
                assert(before + written(s) =~= out@ + written(all.skip(i + n)));
                i += n;
            },
            Head::Partial => {
                assert(before + written(s) =~= out@);
                partial = true;
            },
            Head::Bad(n) => {
                put_replacement(out);
                assert(s.skip(n as int) =~= all.skip(i + n));
                assert(before + written(s) =~= out@ + written(all.skip(i + n)));
                i += n;
            },
        }
    }
    if partial {
        if flush_partial {
            put_replacement(out);
            pending.clear();
        } else {
            let rest = pending.split_off(i);
            *pending = rest;
            assert(pending@ =~= all.skip(i as int));
        }
    } else {
        assert(out@ + written(all.skip(i as int)) =~= out@);
        pending.clear();
        assert(pending@ =~= held(all));
    }
}

// ---------------------------------------------------------------------------
// Laws
// ---------------------------------------------------------------------------

/// What is held back is empty or begins a character; it is at most three
/// bytes long.
pub proof fn held_begins_a_char(s: Seq<u8>)
    ensures
        held(s).len() == 0 || begins_char(held(s)),
        held(s).len() <= 3,
    decreases s.len(),
{
    if s.len() == 0 {
    } else if valid_first_scalar(s) {
        held_begins_a_char(pop_first_scalar(s));
    } else if begins_char(s) {
        prefix_begins(s, 1);
    } else {
        held_begins_a_char(s.skip(bad_len(s)));
    }
}

/// What is written is well-formed.
pub proof fn written_is_valid(s: Seq<u8>)
    ensures
        valid_utf8(written(s)),
    decreases s.len(),
{
    if s.len() == 0 {
    } else if valid_first_scalar(s) {
        written_is_valid(pop_first_scalar(s));
        let t = take_first_scalar(s);
        assert(valid_first_scalar(t));
        assert(pop_first_scalar(t) =~= seq![]);
        assert(valid_utf8(pop_first_scalar(t)));
        valid_utf8_concat(t, written(pop_first_scalar(s)));
    } else if begins_char(s) {
    } else {
        written_is_valid(s.skip(bad_len(s)));
        let r = encode_utf8(seq![REPLACEMENT]);
        encode_utf8_valid_utf8(seq![REPLACEMENT]);
        assert(seq![REPLACEMENT].drop_first() =~= seq![]);
        assert(encode_utf8(seq![REPLACEMENT].drop_first()) =~= seq![]);
        assert(r =~= encode_scalar(0xFFFD));
        valid_utf8_concat(encode_scalar(0xFFFD), written(s.skip(bad_len(s))));
    }
}

/// A well-formed text is written as it is, and nothing of it is held back.
pub proof fn valid_is_unchanged(s: Seq<u8>)
    requires
        valid_utf8(s),
    ensures
        written(s) == s,
        held(s).len() == 0,
        lossy(s) == decode_utf8(s),
        valid_up_to(s) == s.len(),
    decreases s.len(),
{
    if s.len() > 0 {
        valid_is_unchanged(pop_first_scalar(s));
        assert(take_first_scalar(s) + pop_first_scalar(s) =~= s);
    }
}

/// Appending bytes to a run that neither starts with a character nor begins
/// one changes neither.
proof fn bad_stays_bad(s: Seq<u8>, t: Seq<u8>)
    requires
        s.len() > 0,
        !valid_first_scalar(s),
        !begins_char(s),
    ensures
        !valid_first_scalar(s + t),
        !begins_char(s + t),
        bad_len(s + t) == bad_len(s),
{
    let u = s + t;
    if begins_char(u) {
        prefix_begins(u, s.len() as int);
        assert(u.take(s.len() as int) =~= s);
    }
    if valid_first_scalar(u) {
        let n = length_of_first_scalar(u);
        if s.len() < n {
            // Then `s` begins the character that `u` starts with.
            let f = take_first_scalar(u);
            assert(valid_first_scalar(f));
            assert(pop_first_scalar(f) =~= seq![]);
            assert(valid_utf8(pop_first_scalar(f)));
            assert(valid_utf8(f));
            decode_utf8_first_scalar(f);
            let c = decode_first_scalar(f) as char;
            assert(take_first_scalar(f) =~= f);
            assert(encode_scalar(c as u32) == f);
            assert(s =~= f.take(s.len() as int));
            assert(begins(s, c));
        }
    }
    if s.len() >= 2 {
        assert(u.take(2) =~= s.take(2));
    } else if u.len() >= 2 && begins_char(u.take(2)) {
        prefix_begins(u.take(2), 1);
        assert(u.take(2).take(1) =~= s);
    }
    if s.len() >= 3 {
        assert(u.take(3) =~= s.take(3));
    } else if u.len() >= 3 && begins_char(u.take(3)) {
        prefix_begins(u.take(3), s.len() as int);
        assert(u.take(3).take(s.len() as int) =~= s);
    }
}

/// A stream may be cut anywhere: writing its parts one after the other writes
/// what writing it as a whole does, and holds back the same bytes.
pub proof fn stream_in_parts(a: Seq<u8>, b: Seq<u8>)
    ensures
        written(a + b) == written(a) + written(held(a) + b),
        held(a + b) == held(held(a) + b),
    decreases a.len(),
{
    let u = a + b;
    if a.len() == 0 {
        assert(u =~= b);
        assert(held(a) + b =~= b);
        assert(written(a) + written(held(a) + b) =~= written(b));
    } else if valid_first_scalar(a) {
        let n = length_of_first_scalar(a);
        assert(valid_first_scalar(u) && length_of_first_scalar(u) == n);
        assert(take_first_scalar(u) =~= take_first_scalar(a));
        assert(pop_first_scalar(u) =~= pop_first_scalar(a) + b);
        stream_in_parts(pop_first_scalar(a), b);
        assert(written(u) =~= written(a) + written(held(a) + b));
    } else if begins_char(a) {
        assert(written(a) + written(held(a) + b) =~= written(u));
    } else {
        bad_stays_bad(a, b);
        let n = bad_len(a);
        assert(u.skip(n) =~= a.skip(n) + b);
        stream_in_parts(a.skip(n), b);
        assert(written(u) =~= written(a) + written(held(a) + b));
    }
}

/// A stream is UTF-8 exactly if all of it is its valid prefix.
pub proof fn valid_prefix_decides(s: Seq<u8>)
    ensures
        valid_up_to(s) == s.len() <==> valid_utf8(s),
    decreases s.len(),
{
    if valid_utf8(s) {
        valid_is_unchanged(s);
    } else if s.len() > 0 && valid_first_scalar(s) {
        valid_prefix_decides(pop_first_scalar(s));
    }
}

/// The bytes that begin a character without completing it: one that starts a longer
/// character, two of which the second may follow the first, and three of a character
/// of four.
pub proof fn which_bytes_begin_a_character(b0: u8, b1: u8, b2: u8)
    ensures
        begins_char(seq![b0]) <==> 0xC2 <= b0 <= 0xF4,
        begins_char(seq![b0, b1]) ==> 0xE0 <= b0 <= 0xF4 && 0x80 <= b1 <= 0xBF,
        0xE1 <= b0 <= 0xEC && 0x80 <= b1 <= 0xBF ==> begins_char(seq![b0, b1]),
        0xF1 <= b0 <= 0xF3 && 0x80 <= b1 <= 0xBF ==> begins_char(seq![b0, b1]),
        begins_char(seq![0xE0u8, b1]) <==> 0xA0 <= b1 <= 0xBF,
        begins_char(seq![0xEDu8, b1]) <==> 0x80 <= b1 <= 0x9F,
        begins_char(seq![0xF0u8, b1]) <==> 0x90 <= b1 <= 0xBF,
        begins_char(seq![0xF4u8, b1]) <==> 0x80 <= b1 <= 0x8F,
        begins_char(seq![b0, b1, b2]) <==> b0 >= 0xF0 && begins_char(seq![b0, b1]) && 0x80 <= b2
            <= 0xBF,
{
    one_begins(b0);
    two_begin(b0, b1);
    two_begin(0xE0, b1);
    two_begin(0xED, b1);
    two_begin(0xF0, b1);
    two_begin(0xF4, b1);
    three_begin(b0, b1, b2);
}

/// What begins a character and is broken off by a byte that does not continue it is
/// replaced by one U+FFFD, and reading goes on with that byte.
pub proof fn a_broken_character_is_replaced_once(p: Seq<u8>, b: u8, rest: Seq<u8>)
    requires
        begins_char(p),
        !begins_char(p.push(b)),
        !valid_first_scalar(p.push(b)),
    ensures
        lossy(p.push(b) + rest) == seq!['\u{FFFD}'] + lossy(seq![b] + rest),
        written(p.push(b) + rest) == seq![0xEFu8, 0xBFu8, 0xBDu8] + written(seq![b] + rest),
        held(p.push(b) + rest) == held(seq![b] + rest),
{
    let s = p.push(b) + rest;
    bad_stays_bad(p.push(b), rest);
    prefix_begins(p, 1);
    encoded_replacement();
    let n = p.len() as int;
    assert(s.take(n) =~= p);
    assert(s.take(n + 1) =~= p.push(b));
    if n == 1 {
        if s.len() >= 3 && begins_char(s.take(3)) {
            prefix_begins(s.take(3), 2);
            assert(s.take(3).take(2) =~= p.push(b));
        }
    }
    assert(bad_len(s) == n);
    assert(s.skip(n) =~= seq![b] + rest);
}

/// A byte that neither stands alone nor begins a character is replaced by one
/// U+FFFD.
pub proof fn a_stray_byte_is_replaced(b: u8, rest: Seq<u8>)
    requires
        0x80 <= b < 0xC2 || b > 0xF4,
    ensures
        lossy(seq![b] + rest) == seq!['\u{FFFD}'] + lossy(rest),
        written(seq![b] + rest) == seq![0xEFu8, 0xBFu8, 0xBDu8] + written(rest),
        held(seq![b] + rest) == held(rest),
{
    let s = seq![b];
    one_begins(b);
    encoded_replacement();
    codepoint_ranges(b, 0, 0, 0);
    assert(!valid_first_scalar(s));
    bad_stays_bad(s, rest);
    assert(bad_len(s) == 1);
    assert((s + rest).skip(1) =~= rest);
}

/// An unfinished character at the end waits, and where nothing follows it stands for
/// one U+FFFD.
pub proof fn an_unfinished_character_waits(p: Seq<u8>)
    requires
        begins_char(p),
        !valid_first_scalar(p),
    ensures
        lossy(p) == seq!['\u{FFFD}'],
        written(p).len() == 0,
        held(p) == p,
{
}

proof fn valid_start_is_passed(v: Seq<u8>, s: Seq<u8>)
    requires
        valid_utf8(v),
    ensures
        valid_up_to(v + s) == v.len() + valid_up_to(s),
    decreases v.len(),
{
    let u = v + s;
    if v.len() == 0 {
        assert(u =~= s);
    } else {
        let n = length_of_first_scalar(v);
        assert(valid_first_scalar(u) && length_of_first_scalar(u) == n);
        assert(pop_first_scalar(u) =~= pop_first_scalar(v) + s);
        valid_start_is_passed(pop_first_scalar(v), s);
    }
}

/// Behind a well-formed start, a character that is broken off is the ill-formed part,
/// and an unfinished one at the end is none yet.
pub proof fn the_ill_formed_part_follows_the_valid_start(
    v: Seq<u8>,
    p: Seq<u8>,
    b: u8,
    rest: Seq<u8>,
)
    requires
        valid_utf8(v),
        begins_char(p),
        !valid_first_scalar(p),
        !begins_char(p.push(b)),
        !valid_first_scalar(p.push(b)),
    ensures
        valid_up_to(v + (p.push(b) + rest)) == v.len(),
        bad_after(v + (p.push(b) + rest)) == p.len(),
        valid_up_to(v + p) == v.len(),
        bad_after(v + p) == 0,
        bad_after(v) == 0,
{
    let s = p.push(b) + rest;
    bad_stays_bad(p.push(b), rest);
    valid_start_is_passed(v, s);
    valid_start_is_passed(v, p);
    valid_is_unchanged(v);
    prefix_begins(p, 1);
    let n = p.len() as int;
    assert(s.take(n) =~= p);
    assert(s.take(n + 1) =~= p.push(b));
    if n == 1 {
        if s.len() >= 3 && begins_char(s.take(3)) {
            prefix_begins(s.take(3), 2);
            assert(s.take(3).take(2) =~= p.push(b));
        }
    }
    assert((v + s).skip(v.len() as int) =~= s);
    assert((v + p).skip(v.len() as int) =~= p);
}

} // verus!
