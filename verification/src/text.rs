//! Building display text: decimal numbers, quoting, and the small string operations
//! that the printers share.
use vstd::prelude::*;

verus! {

/// The character of a decimal digit.
pub open spec fn digit_char(d: nat) -> char {
    if d == 0 {
        '0'
    } else if d == 1 {
        '1'
    } else if d == 2 {
        '2'
    } else if d == 3 {
        '3'
    } else if d == 4 {
        '4'
    } else if d == 5 {
        '5'
    } else if d == 6 {
        '6'
    } else if d == 7 {
        '7'
    } else if d == 8 {
        '8'
    } else {
        '9'
    }
}

/// The decimal text of a natural number, without leading zeros.
pub open spec fn nat_text(n: nat) -> Seq<char>
    decreases n,
{
    if n < 10 {
        seq![digit_char(n)]
    } else {
        nat_text(n / 10).push(digit_char(n % 10))
    }
}

/// The decimal text of an integer, with a leading `-` when it is negative.
pub open spec fn int_text(i: int) -> Seq<char> {
    if i < 0 {
        seq!['-'] + nat_text((-i) as nat)
    } else {
        nat_text(i as nat)
    }
}

/// The hexadecimal digit character of `d` (lower case).
pub open spec fn hex_char(d: nat) -> char {
    if d < 10 {
        digit_char(d)
    } else if d == 10 {
        'a'
    } else if d == 11 {
        'b'
    } else if d == 12 {
        'c'
    } else if d == 13 {
        'd'
    } else if d == 14 {
        'e'
    } else {
        'f'
    }
}

/// The hexadecimal text of a natural number, without leading zeros.
pub open spec fn hex_text(n: nat) -> Seq<char>
    decreases n,
{
    if n < 16 {
        seq![hex_char(n)]
    } else {
        hex_text(n / 16).push(hex_char(n % 16))
    }
}

/// The text that Rust's `Debug` gives for one character inside a quoted string.
pub open spec fn escape_char(c: char) -> Seq<char> {
    if c == '"' {
        seq!['\\', '"']
    } else if c == '\\' {
        seq!['\\', '\\']
    } else if c == '\n' {
        seq!['\\', 'n']
    } else if c == '\r' {
        seq!['\\', 'r']
    } else if c == '\t' {
        seq!['\\', 't']
    } else if c == '\0' {
        seq!['\\', '0']
    } else if (c as u32) < 0x20 || (c as u32) == 0x7f {
        seq!['\\', 'u', '{'] + hex_text(c as u32 as nat) + seq!['}']
    } else {
        seq![c]
    }
}

/// The escaped form of a whole string, without the surrounding quotes.
pub open spec fn escape_text(s: Seq<char>) -> Seq<char>
    decreases s.len(),
{
    if s.len() == 0 {
        Seq::empty()
    } else {
        escape_text(s.drop_last()) + escape_char(s.last())
    }
}

/// A string quoted the way Rust's `Debug` prints it.
pub open spec fn debug_quoted(s: Seq<char>) -> Seq<char> {
    seq!['"'] + escape_text(s) + seq!['"']
}

/// A fresh string holding the text of `s`.
pub fn owned(s: &str) -> (r: String)
    ensures
        r@ == s@,
{
    String::from_str(s)
}

/// Appends `tail` to `buf`.
pub fn push_str(buf: &mut String, tail: &str)
    ensures
        final(buf)@ == old(buf)@ + tail@,
{
    buf.append(tail);
}

/// The one-character string of a decimal digit.
pub fn digit_str(d: u64) -> (r: &'static str)
    requires
        d < 10,
    ensures
        r@ == seq![digit_char(d as nat)],
{
    if d == 0 {
        proof { reveal_strlit("0"); }
        "0"
    } else if d == 1 {
        proof { reveal_strlit("1"); }
        "1"
    } else if d == 2 {
        proof { reveal_strlit("2"); }
        "2"
    } else if d == 3 {
        proof { reveal_strlit("3"); }
        "3"
    } else if d == 4 {
        proof { reveal_strlit("4"); }
        "4"
    } else if d == 5 {
        proof { reveal_strlit("5"); }
        "5"
    } else if d == 6 {
        proof { reveal_strlit("6"); }
        "6"
    } else if d == 7 {
        proof { reveal_strlit("7"); }
        "7"
    } else if d == 8 {
        proof { reveal_strlit("8"); }
        "8"
    } else {
        proof { reveal_strlit("9"); }
        "9"
    }
}

/// The one-character string of a hexadecimal digit.
pub fn hex_str(d: u64) -> (r: &'static str)
    requires
        d < 16,
    ensures
        r@ == seq![hex_char(d as nat)],
{
    if d < 10 {
        digit_str(d)
    } else if d == 10 {
        proof { reveal_strlit("a"); }
        "a"
    } else if d == 11 {
        proof { reveal_strlit("b"); }
        "b"
    } else if d == 12 {
        proof { reveal_strlit("c"); }
        "c"
    } else if d == 13 {
        proof { reveal_strlit("d"); }
        "d"
    } else if d == 14 {
        proof { reveal_strlit("e"); }
        "e"
    } else {
        proof { reveal_strlit("f"); }
        "f"
    }
}

/// Appends the decimal text of `n` to `buf`.
pub fn push_u64(buf: &mut String, n: u64)
    ensures
        final(buf)@ == old(buf)@ + nat_text(n as nat),
    decreases n,
{
    if n < 10 {
        push_str(buf, digit_str(n));
    } else {
        push_u64(buf, n / 10);
        push_str(buf, digit_str(n % 10));
        assert(old(buf)@ + nat_text(n as nat) =~= old(buf)@ + nat_text((n / 10) as nat) + seq![
            digit_char((n % 10) as nat),
        ]);
    }
}

/// Appends the decimal text of `n` to `buf`.
pub fn push_usize(buf: &mut String, n: usize)
    ensures
        final(buf)@ == old(buf)@ + nat_text(n as nat),
{
    push_u64(buf, n as u64);
}

/// Appends the decimal text of `i`, with a leading `-` when it is negative, to `buf`.
pub fn push_i64(buf: &mut String, i: i64)
    ensures
        final(buf)@ == old(buf)@ + int_text(i as int),
{
    if i < 0 {
        proof { reveal_strlit("-"); }
        push_str(buf, "-");
        let magnitude: u64 = ((-(i + 1)) as u64) + 1;
        push_u64(buf, magnitude);
        assert(old(buf)@ + int_text(i as int) =~= old(buf)@ + seq!['-'] + nat_text(magnitude as nat));
    } else {
        push_u64(buf, i as u64);
    }
}

/// Appends the hexadecimal text of `n` to `buf`.
pub fn push_hex(buf: &mut String, n: u64)
    ensures
        final(buf)@ == old(buf)@ + hex_text(n as nat),
    decreases n,
{
    if n < 16 {
        push_str(buf, hex_str(n));
    } else {
        push_hex(buf, n / 16);
        push_str(buf, hex_str(n % 16));
        assert(old(buf)@ + hex_text(n as nat) =~= old(buf)@ + hex_text((n / 16) as nat) + seq![
            hex_char((n % 16) as nat),
        ]);
    }
}

/// Appends the `Debug` escape of one character, taken as the one-character string `ch`.
fn push_escaped_char(buf: &mut String, ch: &str)
    requires
        ch@.len() == 1,
    ensures
        final(buf)@ == old(buf)@ + escape_char(ch@[0]),
{
    let c = ch.get_char(0);
    if c == '"' {
        proof { reveal_strlit("\\\""); }
        push_str(buf, "\\\"");
    } else if c == '\\' {
        proof { reveal_strlit("\\\\"); }
        push_str(buf, "\\\\");
    } else if c == '\n' {
        proof { reveal_strlit("\\n"); }
        push_str(buf, "\\n");
    } else if c == '\r' {
        proof { reveal_strlit("\\r"); }
        push_str(buf, "\\r");
    } else if c == '\t' {
        proof { reveal_strlit("\\t"); }
        push_str(buf, "\\t");
    } else if c == '\0' {
        proof { reveal_strlit("\\0"); }
        push_str(buf, "\\0");
    } else if (c as u32) < 0x20 || (c as u32) == 0x7f {
        proof { reveal_strlit("\\u{"); reveal_strlit("}"); }
        push_str(buf, "\\u{");
        push_hex(buf, c as u32 as u64);
        push_str(buf, "}");
        assert(old(buf)@ + escape_char(c) =~= old(buf)@ + seq!['\\', 'u', '{'] + hex_text(
            c as u32 as nat,
        ) + seq!['}']);
    } else {
        push_str(buf, ch);
        assert(ch@ =~= seq![c]);
    }
}

/// Appends `s` quoted and escaped the way Rust's `Debug` prints a string.
pub fn push_debug_quoted(buf: &mut String, s: &str)
    ensures
        final(buf)@ == old(buf)@ + debug_quoted(s@),
{
    proof { reveal_strlit("\""); }
    push_str(buf, "\"");
    let n = s.unicode_len();
    let mut i: usize = 0;
    let ghost start = buf@;
    while i < n
        invariant
            n == s@.len(),
            i <= n,
            buf@ == start + escape_text(s@.subrange(0, i as int)),
        decreases n - i,
    {
        let ch = s.substring_char(i, i + 1);
        push_escaped_char(buf, ch);
        assert(s@.subrange(0, i + 1).drop_last() =~= s@.subrange(0, i as int));
        assert(ch@[0] == s@.subrange(0, i + 1).last());
        i += 1;
    }
    assert(s@.subrange(0, n as int) =~= s@);
    push_str(buf, "\"");
    assert(buf@ =~= old(buf)@ + debug_quoted(s@));
}

} // verus!
