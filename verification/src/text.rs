//! Verified text building: decimal rendering, JSON string escaping, and
//! character-wise string comparison.
use vstd::prelude::*;

verus! {

/// Relies on std's `String::push`: appends exactly the given character.
#[verifier::external_body]
pub fn push_char(s: &mut String, c: char)
    ensures
        final(s)@ == old(s)@.push(c),
{
    s.push(c);
}

/// The decimal digit character for `d` in `0 .. 10`.
pub open spec fn dec_digit(d: int) -> char {
    if d == 0 {
        '0'
    } else if d == 1 {
        '1'
    } else if d == 2 {
        '2'
    } else if d == 3 {
        '3'
    } else if d == 4 {
        '4'
    } else if d == 5 {
        '5'
    } else if d == 6 {
        '6'
    } else if d == 7 {
        '7'
    } else if d == 8 {
        '8'
    } else {
        '9'
    }
}

/// The decimal rendering of a non-negative integer, most significant digit
/// first, with no leading zeros (a bare `0` for zero).
pub open spec fn dec_rep(n: nat) -> Seq<char>
    decreases n,
{
    if n < 10 {
        seq![dec_digit(n as int)]
    } else {
        dec_rep(n / 10) + seq![dec_digit((n % 10) as int)]
    }
}

/// The decimal rendering of an integer, with a leading minus sign when
/// negative.
pub open spec fn int_rep(n: int) -> Seq<char> {
    if n < 0 {
        seq!['-'] + dec_rep((-n) as nat)
    } else {
        dec_rep(n as nat)
    }
}

fn digit_char(d: u64) -> (c: char)
    requires
        d < 10,
    ensures
        c == dec_digit(d as int),
{
    if d == 0 {
        '0'
    } else if d == 1 {
        '1'
    } else if d == 2 {
        '2'
    } else if d == 3 {
        '3'
    } else if d == 4 {
        '4'
    } else if d == 5 {
        '5'
    } else if d == 6 {
        '6'
    } else if d == 7 {
        '7'
    } else if d == 8 {
        '8'
    } else {
        '9'
    }
}

/// Appends the decimal rendering of `n` to `out`.
pub fn push_u64(out: &mut String, n: u64)
    ensures
        final(out)@ == old(out)@ + dec_rep(n as nat),
    decreases n,
{
    if n < 10 {
        push_char(out, digit_char(n));
        proof {
            assert(final(out)@ =~= old(out)@ + dec_rep(n as nat));
        }
    } else {
        push_u64(out, n / 10);
        push_char(out, digit_char(n % 10));
        proof {
            assert(final(out)@ =~= old(out)@ + dec_rep(n as nat));
        }
    }
}

/// The decimal rendering of `n` as a fresh string.
pub fn u64_to_string(n: u64) -> (r: String)
    ensures
        r@ == dec_rep(n as nat),
{
    let mut out: String = String::new();
    push_u64(&mut out, n);
    proof {
        assert(out@ =~= dec_rep(n as nat));
    }
    out
}

/// Appends the decimal rendering of a signed value to `out`.
pub fn push_i64(out: &mut String, n: i64)
    ensures
        final(out)@ == old(out)@ + int_rep(n as int),
{
    if n < 0 {
        let mag: u64 = (-(n as i128)) as u64;
        push_char(out, '-');
        push_u64(out, mag);
        proof {
            assert(final(out)@ =~= old(out)@ + int_rep(n as int));
        }
    } else {
        push_u64(out, n as u64);
    }
}

/// Whether two string slices hold the same characters.
pub fn str_eq(a: &str, b: &str) -> (r: bool)
    ensures
        r == (a@ == b@),
{
    let la: usize = a.unicode_len();
    let lb: usize = b.unicode_len();
    if la != lb {
        proof {
            assert(a@ != b@);
        }
        return false;
    }
    let mut i: usize = 0;
    while i < la
        invariant
            la == a@.len(),
            la == b@.len(),
            i <= la,
            forall|j: int| 0 <= j < i ==> a@[j] == b@[j],
        decreases la - i,
    {
        let ca: char = a.get_char(i);
        let cb: char = b.get_char(i);
        if ca != cb {
            return false;
        }
        i = i + 1;
    }
    proof {
        assert(a@ =~= b@);
    }
    true
}

/// The lower-case hexadecimal digit character for `d` in `0 .. 16`.
pub open spec fn hex_digit(d: int) -> char {
    if d < 10 {
        dec_digit(d)
    } else if d == 10 {
        'a'
    } else if d == 11 {
        'b'
    } else if d == 12 {
        'c'
    } else if d == 13 {
        'd'
    } else if d == 14 {
        'e'
    } else {
        'f'
    }
}

fn hex_digit_char(d: u32) -> (c: char)
    requires
        d < 16,
    ensures
        c == hex_digit(d as int),
{
    if d < 10 {
        digit_char(d as u64)
    } else if d == 10 {
        'a'
    } else if d == 11 {
        'b'
    } else if d == 12 {
        'c'
    } else if d == 13 {
        'd'
    } else if d == 14 {
        'e'
    } else {
        'f'
    }
}

/// How one character appears inside a JSON string literal: quotes and
/// backslashes are escaped, control characters take their short escape or
/// a `\u00xx` form, and everything else stands as itself.
pub open spec fn json_escaped_char(c: char) -> Seq<char> {
    if c == '"' {
        seq!['\\', '"']
    } else if c == '\\' {
        seq!['\\', '\\']
    } else if c == '\u{8}' {
        seq!['\\', 'b']
    } else if c == '\u{9}' {
        seq!['\\', 't']
    } else if c == '\u{A}' {
        seq!['\\', 'n']
    } else if c == '\u{C}' {
        seq!['\\', 'f']
    } else if c == '\u{D}' {
        seq!['\\', 'r']
    } else if (c as int) < 0x20 {
        seq!['\\', 'u', '0', '0', hex_digit((c as int) / 16), hex_digit((c as int) % 16)]
    } else {
        seq![c]
    }
}

/// The body of a JSON string literal holding the characters of `s`.
pub open spec fn json_escaped(s: Seq<char>) -> Seq<char>
    decreases s.len(),
{
    if s.len() == 0 {
        Seq::empty()
    } else {
        json_escaped(s.drop_last()) + json_escaped_char(s.last())
    }
}

/// Appends `s`, escaped for use inside a JSON string literal, to `out`.
pub fn push_json_escaped(out: &mut String, s: &str)
    ensures
        final(out)@ == old(out)@ + json_escaped(s@),
{
    let len: usize = s.unicode_len();
    let mut i: usize = 0;
    while i < len
        invariant
            len == s@.len(),
            i <= len,
            out@ == old(out)@ + json_escaped(s@.subrange(0, i as int)),
        decreases len - i,
    {
        let c: char = s.get_char(i);
        let ghost pre: Seq<char> = out@;
        if c == '"' {
            push_char(out, '\\');
            push_char(out, '"');
        } else if c == '\\' {
            push_char(out, '\\');
            push_char(out, '\\');
        } else if c == '\u{8}' {
            push_char(out, '\\');
            push_char(out, 'b');
        } else if c == '\u{9}' {
            push_char(out, '\\');
            push_char(out, 't');
        } else if c == '\u{A}' {
            push_char(out, '\\');
            push_char(out, 'n');
        } else if c == '\u{C}' {
            push_char(out, '\\');
            push_char(out, 'f');
        } else if c == '\u{D}' {
            push_char(out, '\\');
            push_char(out, 'r');
        } else if (c as u32) < 0x20 {
            push_char(out, '\\');
            push_char(out, 'u');
            push_char(out, '0');
            push_char(out, '0');
            push_char(out, hex_digit_char((c as u32) / 16));
            push_char(out, hex_digit_char((c as u32) % 16));
        } else {
            push_char(out, c);
        }
        proof {
            assert(out@ =~= pre + json_escaped_char(c));
            assert(s@.subrange(0, i + 1).drop_last() =~= s@.subrange(0, i as int));
            assert(s@.subrange(0, i + 1).last() == c);
            assert(out@ =~= old(out)@ + json_escaped(s@.subrange(0, i + 1)));
        }
        i = i + 1;
    }
    proof {
        assert(s@.subrange(0, s@.len() as int) =~= s@);
    }
}

} // verus!
