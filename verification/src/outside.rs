//! What the library takes on trust: calls into other crates and into parts of
//! the standard library, each with the contract that is believed of it.

use crate::address::{HostKind, PageUrl, UrlModel};
use crate::paths;
use crate::text;
use base64::Engine as _;
use vstd::prelude::*;

verus! {

/// `String::push` appends the given character.
pub assume_specification[ String::push ](string: &mut String, c: char)
    ensures
        final(string)@ == old(string)@.push(c),
;

/// The digit of a number below sixteen, in lower case.
pub open spec fn hex_digit(n: nat) -> char {
    (if n < 10 {
        48 + n
    } else {
        87 + n
    }) as char
}

/// How JSON text writes one character of a string.
pub open spec fn json_char(c: char) -> Seq<char> {
    if c == '"' || c == '\\' {
        seq!['\\', c]
    } else if c == '\u{8}' {
        seq!['\\', 'b']
    } else if c == '\u{9}' {
        seq!['\\', 't']
    } else if c == '\u{a}' {
        seq!['\\', 'n']
    } else if c == '\u{c}' {
        seq!['\\', 'f']
    } else if c == '\u{d}' {
        seq!['\\', 'r']
    } else if c as nat <= 31 {
        seq!['\\', 'u', '0', '0', hex_digit(c as nat / 16), hex_digit(c as nat % 16)]
    } else {
        seq![c]
    }
}

/// The characters between the quotes of a JSON string.
pub open spec fn json_body(s: Seq<char>) -> Seq<char>
    decreases s.len(),
{
    if s.len() == 0 {
        seq![]
    } else {
        json_body(s.drop_last()) + json_char(s.last())
    }
}

/// A string as JSON text.
pub open spec fn json_string(s: Seq<char>) -> Seq<char> {
    seq!['"'] + json_body(s) + seq!['"']
}

/// `serde_json::to_string` of a string: the text between double quotes, with quotes, reverse
/// solidi and the control characters below U+0020 escaped and all else as it stands.
#[verifier::external_body]
pub(crate) fn json_text(text: &str) -> (r: String)
    ensures
        r@ == json_string(text@),
{
    serde_json::to_string(text).expect("a string is serializable")
}

/// The character that stands for six bits in the standard base64 alphabet.
pub open spec fn sextet(n: nat) -> char {
    (if n < 26 {
        65 + n
    } else if n < 52 {
        71 + n
    } else if n < 62 {
        (n - 4) as nat
    } else if n == 62 {
        43
    } else {
        47
    }) as char
}

/// Bytes in base64: three bytes make four characters, and `=` fills the last four.
pub open spec fn base64_of(data: Seq<u8>) -> Seq<char>
    decreases data.len(),
{
    let a = data[0] as nat;
    let b = data[1] as nat;
    let c = data[2] as nat;
    if data.len() == 0 {
        seq![]
    } else if data.len() == 1 {
        seq![sextet(a / 4), sextet(a % 4 * 16), '=', '=']
    } else if data.len() == 2 {
        seq![sextet(a / 4), sextet(a % 4 * 16 + b / 16), sextet(b % 16 * 4), '=']
    } else {
        seq![
            sextet(a / 4),
            sextet(a % 4 * 16 + b / 16),
            sextet(b % 16 * 4 + c / 64),
            sextet(c % 64),
        ] + base64_of(data.skip(3))
    }
}

/// `Engine::encode` of base64's standard engine: the standard alphabet, with padding.
#[verifier::external_body]
pub(crate) fn base64_text(data: &Vec<u8>) -> (r: String)
    ensures
        r@ == base64_of(data@),
{
    base64::engine::general_purpose::STANDARD.encode(data)
}

/// What `url::Url::parse` makes of a text: the normal form, host, kind of host and path of the
/// URL, or the reason why it is none.
pub uninterp spec fn parsed_url(text: Seq<char>) -> Result<UrlModel, Seq<char>>;

/// `url::Url::parse`, read out through `as_str`, `host_str`, `host` and `path`.  The grammar of
/// URLs is not stated: the outcome is named, as a function of the text alone.  A URL has a kind of
/// host exactly where it has a host, and a host is never the empty text.
#[verifier::external_body]
pub(crate) fn parse_url(text: &str) -> (r: Result<PageUrl, String>)
    ensures
        match r {
            Ok(url) => parsed_url(text@) == Ok::<UrlModel, Seq<char>>(url@) && url@.wf(),
            Err(reason) => parsed_url(text@) == Err::<UrlModel, Seq<char>>(reason@),
        },
{
    let url = url::Url::parse(text).map_err(|e| e.to_string())?;
    let kind = match url.host() {
        None => HostKind::Missing,
        Some(url::Host::Domain(_)) => HostKind::Name,
        Some(url::Host::Ipv4(address)) => HostKind::V4(u32::from(address)),
        Some(url::Host::Ipv6(address)) => HostKind::V6(u128::from(address)),
    };
    let host = url.host_str().map(|h| h.to_string());
    Ok(PageUrl { text: url.as_str().to_string(), host, kind, path: url.path().to_string() })
}

/// How the standard library's `Debug` writes a string.
pub uninterp spec fn debug_of(text: Seq<char>) -> Seq<char>;

/// `format!` with `{:?}` of a string: the text between double quotes, escaped where it would not
/// print.  Which characters print is not stated: the outcome is named.
#[verifier::external_body]
pub(crate) fn debug_text(text: &str) -> (r: String)
    ensures
        r@ == debug_of(text@),
{
    format!("{:?}", text)
}

/// `std::path::Path::extension`: what follows the last dot of the file name, if a dot stands
/// behind its first character.  The file name is the last part of the path; solidi and parts `.`
/// at the end do not count, and `..` is no file name.  How a path is parted that holds a reverse
/// solidus or a drive, or begins with two separators, depends on the platform: of these the
/// extension is stated where the tail of the path decides it on every platform.
#[verifier::external_body]
pub(crate) fn path_extension(path: &str) -> (r: Option<String>)
    ensures
        paths::may_end_in(path@, text::text_option(r)),
{
    std::path::Path::new(path).extension().map(|e| e.to_string_lossy().into_owned())
}

/// `std::path::absolute`, or `None` where it fails, as it does for an empty path.  The result
/// depends on the working directory of the process and on the platform.  Of a result that begins
/// with a solidus it is stated that it is the path without its repeated solidi and parts `.` where
/// the path was absolute, and else ends in that.  The working directory before it, and what other
/// platforms make of a path, are not stated.
#[verifier::external_body]
pub(crate) fn absolute_path(path: &str) -> (r: Option<String>)
    ensures
        path@.len() == 0 ==> r is None,
        r matches Some(absolute) ==> paths::may_become(path@, absolute@),
{
    std::path::absolute(path).ok().map(|p| p.to_string_lossy().into_owned())
}

/// `std::path::Path::join` of a directory and the name of a file in it: the directory, the
/// platform's separator unless one ends the directory or the directory is a drive, and the name.
/// Of a directory that begins with the verbatim mark only that the path ends in the name is stated,
/// since one platform rewrites the directory.
#[verifier::external_body]
pub(crate) fn join_path(directory: &str, name: &str) -> (r: String)
    ensures
        paths::may_join(directory@, name@, r@),
{
    std::path::Path::new(directory).join(name).to_string_lossy().into_owned()
}

} // verus!
