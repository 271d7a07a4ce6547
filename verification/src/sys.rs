//! The library's contact points with code it does not verify: URL parsing by
//! the `url` crate, lossy UTF-8 decoding and path queries from std. Each item
//! here is trusted; its doc comment says what its contract claims.
use vstd::prelude::*;
use vstd::utf8::{decode_utf8, valid_utf8};

verus! {

/// The parts of a parsed URL that the library reads.
pub struct UrlParts {
    pub scheme: String,
    pub path: String,
}

/// What `url::Url::parse` makes of `input`: the parsed URL's scheme and path,
/// or the text of the parse error.
pub uninterp spec fn url_parse(input: Seq<char>) -> Result<(Seq<char>, Seq<char>), Seq<char>>;

pub open spec fn url_parts_view(r: Result<UrlParts, String>) -> Result<
    (Seq<char>, Seq<char>),
    Seq<char>,
> {
    match r {
        Ok(p) => Ok((p.scheme@, p.path@)),
        Err(e) => Err(e@),
    }
}

/// Calls `url::Url::parse`. The contract claims only that the result is a
/// function of the input (`url_parse`), handed over as its scheme
/// (`Url::scheme`) and path (`Url::path`), or as the error's text.
#[verifier::external_body]
pub(crate) fn parse_url(input: &str) -> (r: Result<UrlParts, String>)
    ensures
        url_parts_view(r) == url_parse(input@),
{
    match url::Url::parse(input) {
        Ok(u) => Ok(UrlParts { scheme: u.scheme().to_string(), path: u.path().to_string() }),
        Err(e) => Err(e.to_string()),
    }
}

/// What `String::from_utf8_lossy` makes of `bytes`.
pub uninterp spec fn utf8_lossy(bytes: Seq<u8>) -> Seq<char>;

/// Calls `String::from_utf8_lossy`. The contract claims that the result is a
/// function of the bytes, and, as std documents, that valid UTF-8 comes back
/// decoded unchanged, while an invalid sequence is replaced by U+FFFD (so a
/// single byte that is not ASCII, which is invalid alone, gives one U+FFFD).
#[verifier::external_body]
pub(crate) fn decode_lossy(bytes: &Vec<u8>) -> (s: String)
    ensures
        s@ == utf8_lossy(bytes@),
        valid_utf8(bytes@) ==> s@ == decode_utf8(bytes@),
        (bytes@.len() == 1 && bytes@[0] >= 0x80) ==> s@ == seq!['\u{FFFD}'],
{
    String::from_utf8_lossy(bytes).into_owned()
}

pub open spec fn opt_view(o: Option<String>) -> Option<Seq<char>> {
    match o {
        Some(s) => Some(s@),
        None => None,
    }
}

/// What `std::path::Path::parent` gives for the path `p`.
pub uninterp spec fn path_parent(p: Seq<char>) -> Option<Seq<char>>;

/// What `std::path::Path::file_name` gives for the path `p`.
pub uninterp spec fn path_file_name(p: Seq<char>) -> Option<Seq<char>>;

/// The index of the last `.` in `n`, or -1 when there is none.
pub open spec fn last_dot(n: Seq<char>) -> int
    decreases n.len(),
{
    if n.len() == 0 {
        -1
    } else if n.last() == '.' {
        n.len() - 1
    } else {
        last_dot(n.drop_last())
    }
}

/// The stem of a file name as `Path::file_stem` documents it: the whole name
/// when it has no `.`, or only a leading one; else the part before the last `.`.
pub open spec fn name_stem(n: Seq<char>) -> Seq<char> {
    if last_dot(n) <= 0 {
        n
    } else {
        n.take(last_dot(n))
    }
}

/// The extension of a file name as `Path::extension` documents it: none when
/// the name has no `.`, or only a leading one; else the part after the last `.`.
pub open spec fn name_extension(n: Seq<char>) -> Option<Seq<char>> {
    if last_dot(n) <= 0 {
        None
    } else {
        Some(n.skip(last_dot(n) + 1))
    }
}

/// What `Path::file_stem` gives: the stem of the file name, if there is one.
pub open spec fn path_file_stem(p: Seq<char>) -> Option<Seq<char>> {
    match path_file_name(p) {
        Some(n) => Some(name_stem(n)),
        None => None,
    }
}

/// What `Path::extension` gives: the extension of the file name, if any.
pub open spec fn path_extension(p: Seq<char>) -> Option<Seq<char>> {
    match path_file_name(p) {
        Some(n) => name_extension(n),
        None => None,
    }
}

/// Calls `Path::parent`; claims only that the result is a function of the path.
#[verifier::external_body]
pub(crate) fn parent_of(p: &str) -> (r: Option<String>)
    ensures
        opt_view(r) == path_parent(p@),
{
    match std::path::Path::new(p).parent() {
        Some(x) => Some(x.to_string_lossy().into_owned()),
        None => None,
    }
}

/// Calls `Path::file_name`; claims only that the result is a function of the path.
#[verifier::external_body]
pub(crate) fn file_name_of(p: &str) -> (r: Option<String>)
    ensures
        opt_view(r) == path_file_name(p@),
{
    match std::path::Path::new(p).file_name() {
        Some(x) => Some(x.to_string_lossy().into_owned()),
        None => None,
    }
}

/// Calls `Path::exists`. What is on disk decides the answer, so nothing is
/// claimed of it.
#[verifier::external_body]
pub(crate) fn path_exists(p: &str) -> bool {
    std::path::Path::new(p).exists()
}

/// Calls `Path::is_dir`. What is on disk decides the answer, so nothing is
/// claimed of it.
#[verifier::external_body]
pub(crate) fn path_is_dir(p: &str) -> bool {
    std::path::Path::new(p).is_dir()
}

/// Calls `Path::is_file`. What is on disk decides the answer, so nothing is
/// claimed of it.
#[verifier::external_body]
pub(crate) fn path_is_file(p: &str) -> bool {
    std::path::Path::new(p).is_file()
}

} // verus!
