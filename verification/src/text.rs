//! The bridge from rendered ASCII bytes to display strings.
//!
//! Number renderings and the edit buffer are byte strings over a small
//! alphabet; display rows carry `String`s.  [`ascii_text`] converts one
//! to the other, character for character.

use vstd::prelude::*;
use vstd::string::StringExecFns;

verus! {

/// The character a rendered byte denotes.  Bytes outside the rendering
/// alphabet map to a placeholder.
pub open spec fn byte_char(b: u8) -> char {
    if b == 45 {
        '-'
    } else if b == 43 {
        '+'
    } else if b == 46 {
        '.'
    } else if b == 101 {
        'e'
    } else if b == 69 {
        'E'
    } else if b == 48 {
        '0'
    } else if b == 49 {
        '1'
    } else if b == 50 {
        '2'
    } else if b == 51 {
        '3'
    } else if b == 52 {
        '4'
    } else if b == 53 {
        '5'
    } else if b == 54 {
        '6'
    } else if b == 55 {
        '7'
    } else if b == 56 {
        '8'
    } else if b == 57 {
        '9'
    } else {
        '?'
    }
}

/// The characters a rendered byte string denotes.
pub open spec fn text_of(s: Seq<u8>) -> Seq<char> {
    s.map_values(|b: u8| byte_char(b))
}

/// The one-character string for a rendered byte.
fn byte_str(b: u8) -> (r: &'static str)
    ensures
        r@ == seq![byte_char(b)],
{
    let r: &'static str = if b == 45 {
        "-"
    } else if b == 43 {
        "+"
    } else if b == 46 {
        "."
    } else if b == 101 {
        "e"
    } else if b == 69 {
        "E"
    } else if b == 48 {
        "0"
    } else if b == 49 {
        "1"
    } else if b == 50 {
        "2"
    } else if b == 51 {
        "3"
    } else if b == 52 {
        "4"
    } else if b == 53 {
        "5"
    } else if b == 54 {
        "6"
    } else if b == 55 {
        "7"
    } else if b == 56 {
        "8"
    } else if b == 57 {
        "9"
    } else {
        "?"
    };
    proof {
        reveal_strlit("-");
        reveal_strlit("+");
        reveal_strlit(".");
        reveal_strlit("e");
        reveal_strlit("E");
        reveal_strlit("0");
        reveal_strlit("1");
        reveal_strlit("2");
        reveal_strlit("3");
        reveal_strlit("4");
        reveal_strlit("5");
        reveal_strlit("6");
        reveal_strlit("7");
        reveal_strlit("8");
        reveal_strlit("9");
        reveal_strlit("?");
        assert(r@ =~= seq![byte_char(b)]);
    }
    r
}

/// Converts a rendered byte string into the display string it denotes.
#[verifier::loop_isolation(false)]
pub fn ascii_text(bytes: &Vec<u8>) -> (r: String)
    ensures
        r@ == text_of(bytes@),
{
    let mut out = String::new();
    let mut i: usize = 0;
    while i < bytes.len()
        invariant
            i <= bytes@.len(),
            out@ == text_of(bytes@.subrange(0, i as int)),
        decreases bytes@.len() - i,
    {
        out.append(byte_str(bytes[i]));
        proof {
            assert(out@ =~= text_of(bytes@.subrange(0, i as int + 1)));
        }
        i = i + 1;
    }
    proof {
        assert(bytes@.subrange(0, bytes@.len() as int) =~= bytes@);
    }
    out
}

/// Appends the display string for a rendered byte string.
pub fn append_ascii(out: &mut String, bytes: &Vec<u8>)
    ensures
        final(out)@ == old(out)@ + text_of(bytes@),
{
    let piece = ascii_text(bytes);
    out.append(piece.as_str());
}

} // verus!
