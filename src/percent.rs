//! Percent-decoding of the paths of links, before they are resolved.
use crate::codec::utf8_string;
use crate::error::{EpubError, ErrorView};
use vstd::prelude::*;
use vstd::utf8::{decode_utf8, is_ascii_chars, valid_utf8};

verus! {

/// The value of the hexadecimal digit `c`.
pub open spec fn hex_digit(c: char) -> Option<u8> {
    if '0' <= c && c <= '9' {
        Some(((c as u32) - 48) as u8)
    } else if 'a' <= c && c <= 'f' {
        Some(((c as u32) - 87) as u8)
    } else if 'A' <= c && c <= 'F' {
        Some(((c as u32) - 55) as u8)
    } else {
        None
    }
}

/// Whether `s` starts with an escape: `%` and two hexadecimal digits.
pub open spec fn starts_with_escape(s: Seq<char>) -> bool {
    s.len() >= 3 && s[0] == '%' && hex_digit(s[1]) is Some && hex_digit(s[2]) is Some
}

/// The bytes that the ASCII text `s` stands for: each escape gives the byte
/// its two digits denote, every other character its own code.
pub open spec fn percent_decoded(s: Seq<char>) -> Seq<u8>
    decreases s.len(),
{
    if s.len() == 0 {
        seq![]
    } else if starts_with_escape(s) {
        seq![(hex_digit(s[1])->0 * 16 + hex_digit(s[2])->0) as u8] + percent_decoded(
            s.subrange(3, s.len() as int),
        )
    } else {
        seq![(s[0] as u32) as u8] + percent_decoded(s.drop_first())
    }
}

/// The value of the hexadecimal digit `c`.
pub fn hex_value(c: char) -> (r: Option<u8>)
    ensures
        r == hex_digit(c),
{
    if '0' <= c && c <= '9' {
        Some(((c as u32) - 48) as u8)
    } else if 'a' <= c && c <= 'f' {
        Some(((c as u32) - 87) as u8)
    } else if 'A' <= c && c <= 'F' {
        Some(((c as u32) - 55) as u8)
    } else {
        None
    }
}

/// The text that the ASCII text `s` stands for once its escapes are decoded;
/// it fails where the decoded bytes are not UTF-8.
pub fn percent_decode(s: &str) -> (r: Result<String, EpubError>)
    requires
        is_ascii_chars(s@),
    ensures
        r is Ok <==> valid_utf8(percent_decoded(s@)),
        r matches Ok(t) ==> t@ == decode_utf8(percent_decoded(s@)),
        r matches Err(e) ==> e@ == ErrorView::Utf8,
{
    let n = s.unicode_len();
    let mut out: Vec<u8> = Vec::new();
    let mut i: usize = 0;
    assert(s@.subrange(0, n as int) =~= s@);
    while i < n
        invariant
            n == s@.len(),
            i <= n,
            is_ascii_chars(s@),
            out@ + percent_decoded(s@.subrange(i as int, n as int)) == percent_decoded(s@),
        decreases n - i,
    {
        let ghost rest = s@.subrange(i as int, n as int);
        let c = s.get_char(i);
        assert(rest[0] == c);
        let mut escaped: Option<u8> = None;
        if c == '%' && n - i > 2 {
            let hi = hex_value(s.get_char(i + 1));
            let lo = hex_value(s.get_char(i + 2));
            assert(rest[1] == s@[i + 1]);
            assert(rest[2] == s@[i + 2]);
            match (hi, lo) {
                (Some(h), Some(l)) => {
                    escaped = Some(h * 16 + l);
                },
                _ => {},
            }
        }
        match escaped {
            Some(b) => {
                assert(starts_with_escape(rest));
                assert(rest.subrange(3, rest.len() as int) =~= s@.subrange(i + 3, n as int));
                let ghost before = out@;
                out.push(b);
                assert(out@ + percent_decoded(s@.subrange(i + 3, n as int)) =~= before + (seq![b]
                    + percent_decoded(rest.subrange(3, rest.len() as int))));
                i = i + 3;
            },
            None => {
                assert(!starts_with_escape(rest));
                assert(rest.drop_first() =~= s@.subrange(i + 1, n as int));
                assert('\0' <= s@[i as int] <= '\u{7f}');
                let b = (c as u32) as u8;
                let ghost before = out@;
                out.push(b);
                assert(out@ + percent_decoded(s@.subrange(i + 1, n as int)) =~= before + (seq![b]
                    + percent_decoded(rest.drop_first())));
                i = i + 1;
            },
        }
    }
    assert(s@.subrange(n as int, n as int) =~= seq![]);
    assert(out@ + seq![] =~= out@);
    match utf8_string(out) {
        Ok(t) => Ok(t),
        Err(e) => Err(EpubError::Utf8(e)),
    }
}

} // verus!
