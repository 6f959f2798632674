//! Text conversions that the outside crates and std perform: base64, UTF-8
//! decoding, whitespace trimming, and URL references.
use vstd::prelude::*;
use vstd::utf8::{decode_utf8, is_ascii_chars, valid_utf8};

verus! {

/// The standard base64 encoding (RFC 4648 alphabet, with padding) of `bytes`.
pub uninterp spec fn base64_standard(bytes: Seq<u8>) -> Seq<char>;

/// Whether `c` has the Unicode White_Space property, which
/// `char::is_whitespace` tests.
pub open spec fn is_white_space(c: char) -> bool {
    ||| '\u{9}' <= c <= '\u{d}'
    ||| c == ' '
    ||| c == '\u{85}'
    ||| c == '\u{a0}'
    ||| c == '\u{1680}'
    ||| '\u{2000}' <= c <= '\u{200a}'
    ||| c == '\u{2028}'
    ||| c == '\u{2029}'
    ||| c == '\u{202f}'
    ||| c == '\u{205f}'
    ||| c == '\u{3000}'
}

/// The number of white space characters that `s` starts with.
pub open spec fn leading_white(s: Seq<char>) -> nat
    decreases s.len(),
{
    if s.len() > 0 && is_white_space(s[0]) {
        1 + leading_white(s.drop_first())
    } else {
        0
    }
}

/// The number of white space characters that `s` ends with.
pub open spec fn trailing_white(s: Seq<char>) -> nat
    decreases s.len(),
{
    if s.len() > 0 && is_white_space(s.last()) {
        1 + trailing_white(s.drop_last())
    } else {
        0
    }
}

/// `s` without its leading and trailing white space.
pub open spec fn trimmed(s: Seq<char>) -> Seq<char> {
    if leading_white(s) >= s.len() {
        seq![]
    } else {
        s.subrange(leading_white(s) as int, s.len() - trailing_white(s))
    }
}

/// The path component of the URL that `reference` designates relative to
/// the URL `base`, where both parse.
pub uninterp spec fn url_path_of(base: Seq<char>, reference: Seq<char>) -> Option<Seq<char>>;

proof fn lemma_leading_white_bound(s: Seq<char>, i: int)
    requires
        0 <= i < s.len(),
        !is_white_space(s[i]),
    ensures
        leading_white(s) <= i,
    decreases s.len(),
{
    if s.len() > 0 && is_white_space(s[0]) {
        assert(i > 0);
        assert(s.drop_first()[i - 1] == s[i]);
        lemma_leading_white_bound(s.drop_first(), i - 1);
    }
}

proof fn lemma_trailing_white_bound(s: Seq<char>, i: int)
    requires
        0 <= i < s.len(),
        !is_white_space(s[i]),
    ensures
        trailing_white(s) <= s.len() - 1 - i,
    decreases s.len(),
{
    if s.len() > 0 && is_white_space(s.last()) {
        assert(i < s.len() - 1);
        assert(s.drop_last()[i] == s[i]);
        lemma_trailing_white_bound(s.drop_last(), i);
    }
}

/// Text with a character that is not white space keeps it once trimmed:
/// the result is not empty.
pub proof fn lemma_trimmed_not_empty(s: Seq<char>, i: int)
    requires
        0 <= i < s.len(),
        !is_white_space(s[i]),
    ensures
        trimmed(s).len() > 0,
{
    lemma_leading_white_bound(s, i);
    lemma_trailing_white_bound(s, i);
}

/// Relies on base64's `encode_config_buf` with the `STANDARD`
/// configuration: appends the encoding of `bytes` to `out`.
#[verifier::external_body]
pub(crate) fn append_base64(bytes: &[u8], out: &mut String)
    ensures
        final(out)@ == old(out)@ + base64_standard(bytes@),
{
    base64::encode_config_buf(bytes, base64::STANDARD, out)
}

/// Relies on `String::from_utf8`: succeeds exactly on valid UTF-8, with the
/// characters that the bytes encode.
#[verifier::external_body]
pub(crate) fn utf8_string(bytes: Vec<u8>) -> (r: Result<String, std::string::FromUtf8Error>)
    ensures
        r is Ok <==> valid_utf8(bytes@),
        r matches Ok(s) ==> s@ == decode_utf8(bytes@),
{
    String::from_utf8(bytes)
}

/// Relies on `str::trim`: removes leading and trailing characters with the
/// White_Space property.
#[verifier::external_body]
pub(crate) fn trim_text(s: &str) -> (r: String)
    ensures
        r@ == trimmed(s@),
{
    s.trim().to_string()
}

/// Relies on url's `Url::parse` and `ParseOptions::parse` with a base URL:
/// the path of `reference` resolved against `base`, which `Url::path`
/// gives as a percent-encoded ASCII string.
#[verifier::external_body]
pub(crate) fn join_url_path(base: &str, reference: &str) -> (r: Result<String, url::ParseError>)
    ensures
        r is Ok <==> url_path_of(base@, reference@) is Some,
        r matches Ok(p) ==> url_path_of(base@, reference@) == Some(p@) && is_ascii_chars(p@),
{
    let base = url::Url::parse(base)?;
    let url = url::Url::options().base_url(Some(&base)).parse(reference)?;
    Ok(url.path().to_string())
}

} // verus!
