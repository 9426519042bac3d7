//! Textual hex patterns: parsing the catalog's whitespace-separated hex byte
//! tokens into pattern bytes, and rendering pattern bytes back as hex for
//! display.
//!
//! A pattern text is a sequence of tokens of one or two hex digits, separated
//! by blanks. Any other character, or a token of three or more digits, makes
//! the whole pattern malformed; the compiler then skips that record.

use vstd::prelude::*;

verus! {

/// Token separators accepted inside a hex pattern.
pub open spec fn is_blank(c: char) -> bool {
    c == ' ' || c == '\t'
}

/// Whether `c` is a hex digit in either case.
pub open spec fn is_hex_digit(c: char) -> bool {
    ('0' <= c && c <= '9') || ('a' <= c && c <= 'f') || ('A' <= c && c <= 'F')
}

/// Value of a hex digit.
pub open spec fn hex_digit_value(c: char) -> int {
    if '0' <= c && c <= '9' {
        c as int - '0' as int
    } else if 'a' <= c && c <= 'f' {
        c as int - 'a' as int + 10
    } else {
        c as int - 'A' as int + 10
    }
}

/// One left-to-right pass over the pattern text. `cur` carries the token
/// being read as (digit count, value so far); `acc` the bytes already read.
/// `None` means the text is malformed.
pub open spec fn spec_parse_hex_rec(s: Seq<char>, cur: Option<(int, int)>, acc: Seq<u8>) -> Option<
    Seq<u8>,
>
    decreases s.len(),
{
    if s.len() == 0 {
        match cur {
            None => Some(acc),
            Some((d, v)) => Some(acc.push(v as u8)),
        }
    } else {
        let c = s[0];
        if is_blank(c) {
            match cur {
                None => spec_parse_hex_rec(s.drop_first(), None, acc),
                Some((d, v)) => spec_parse_hex_rec(s.drop_first(), None, acc.push(v as u8)),
            }
        } else if is_hex_digit(c) {
            match cur {
                None => spec_parse_hex_rec(s.drop_first(), Some((1, hex_digit_value(c))), acc),
                Some((d, v)) => if d == 1 {
                    spec_parse_hex_rec(s.drop_first(), Some((2, v * 16 + hex_digit_value(c))), acc)
                } else {
                    None
                },
            }
        } else {
            None
        }
    }
}

/// The bytes denoted by a hex pattern text, or `None` if it is malformed.
pub open spec fn spec_parse_hex(s: Seq<char>) -> Option<Seq<u8>> {
    spec_parse_hex_rec(s, None, Seq::empty())
}

/// Value of one hex digit character, or `None` if it is not a hex digit.
fn hex_digit_val_exec(c: char) -> (r: Option<u8>)
    ensures
        r is Some <==> is_hex_digit(c),
        r matches Some(v) ==> v as int == hex_digit_value(c) && v < 16,
{
    if '0' <= c && c <= '9' {
        Some(c as u8 - '0' as u8)
    } else if 'a' <= c && c <= 'f' {
        Some(c as u8 - 'a' as u8 + 10)
    } else if 'A' <= c && c <= 'F' {
        Some(c as u8 - 'A' as u8 + 10)
    } else {
        None
    }
}

/// Parses a hex pattern text into its bytes; `None` on malformed text.
pub fn parse_hex_pattern(s: &str) -> (r: Option<Vec<u8>>)
    ensures
        r is Some <==> spec_parse_hex(s@) is Some,
        r matches Some(v) ==> spec_parse_hex(s@) == Some(v@),
{
    let n = s.unicode_len();
    let mut acc: Vec<u8> = Vec::new();
    let mut cur: Option<(u8, u8)> = None;
    let mut i: usize = 0;
    proof {
        assert(s@.skip(0) =~= s@);
    }
    while i < n
        invariant
            n == s@.len(),
            i <= n,
            cur matches Some((d, v)) ==> (d == 1 && v < 16) || d == 2,
            spec_parse_hex(s@) == spec_parse_hex_rec(
                s@.skip(i as int),
                match cur {
                    None => None,
                    Some((d, v)) => Some((d as int, v as int)),
                },
                acc@,
            ),
        decreases n - i,
    {
        let c = s.get_char(i);
        proof {
            assert(s@.skip(i as int)[0] == s@[i as int]);
            assert(s@.skip(i as int).drop_first() =~= s@.skip(i + 1 as int));
        }
        if c == ' ' || c == '\t' {
            match cur {
                None => {},
                Some((_, v)) => {
                    acc.push(v);
                    cur = None;
                },
            }
        } else {
            match hex_digit_val_exec(c) {
                Some(h) => {
                    match cur {
                        None => {
                            cur = Some((1, h));
                        },
                        Some((d, v)) => {
                            if d == 1 {
                                cur = Some((2, v * 16 + h));
                            } else {
                                return None;
                            }
                        },
                    }
                },
                None => {
                    return None;
                },
            }
        }
        i = i + 1;
    }
    proof {
        assert(s@.skip(n as int) =~= Seq::<char>::empty());
    }
    match cur {
        None => Some(acc),
        Some((_, v)) => {
            acc.push(v);
            Some(acc)
        },
    }
}

/// One hex digit character, upper case, for a value below 16.
pub open spec fn hex_digit_char(v: int) -> char {
    if 0 <= v && v < 10 {
        ('0' as int + v) as char
    } else {
        ('A' as int + v - 10) as char
    }
}

/// The two hex digit characters of one byte.
pub open spec fn spec_byte_chars(b: u8) -> Seq<char> {
    seq![hex_digit_char(b as int / 16), hex_digit_char(b as int % 16)]
}

/// A byte sequence rendered as two-digit hex tokens separated by single
/// spaces, e.g. `50 4B 03 04`.
pub open spec fn spec_hex_render(p: Seq<u8>) -> Seq<char>
    decreases p.len(),
{
    if p.len() == 0 {
        Seq::empty()
    } else if p.len() == 1 {
        spec_byte_chars(p[0])
    } else {
        spec_hex_render(p.drop_last()) + seq![' '] + spec_byte_chars(p.last())
    }
}

/// One hex digit character, upper case, for a value below 16.
fn hex_digit_char_exec(v: u8) -> (r: char)
    requires
        v < 16,
    ensures
        r == hex_digit_char(v as int),
{
    if v < 10 {
        ('0' as u8 + v) as char
    } else {
        ('A' as u8 + v - 10) as char
    }
}

/// Renders pattern bytes as hex text, as `spec_hex_render` describes.
pub fn render_hex(p: &Vec<u8>) -> (r: String)
    ensures
        r@ == spec_hex_render(p@),
{
    let mut r = String::new();
    let mut i: usize = 0;
    while i < p.len()
        invariant
            i <= p@.len(),
            r@ == spec_hex_render(p@.take(i as int)),
        decreases p@.len() - i,
    {
        if i > 0 {
            crate::text::push_char(&mut r, ' ');
        }
        let b = p[i];
        crate::text::push_char(&mut r, hex_digit_char_exec(b / 16));
        crate::text::push_char(&mut r, hex_digit_char_exec(b % 16));
        proof {
            assert(p@.take(i + 1 as int).drop_last() =~= p@.take(i as int));
            assert(p@.take(i + 1 as int).last() == p@[i as int]);
            assert(r@ =~= spec_hex_render(p@.take(i + 1 as int)));
        }
        i = i + 1;
    }
    proof {
        assert(p@.take(p@.len() as int) =~= p@);
    }
    r
}

} // verus!
