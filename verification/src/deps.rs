//! The trusted boundary of the crate: thin wrappers around the outside
//! crates (url, md-5, base64, encoding_rs, mime, select, regex) and around
//! the few std string operations that vstd leaves unspecified.
//!
//! Each wrapped call computes a function of its arguments alone; where that
//! function is too large to state, its result is given an uninterpreted name
//! that the callers' contracts speak of.

use base64::Engine;
use md5::Digest;
use vstd::prelude::*;

verus! {

/// What `str::to_lowercase` returns.
pub uninterp spec fn lower_of(s: Seq<char>) -> Seq<char>;

/// What `str::trim` returns.
pub uninterp spec fn trim_of(s: Seq<char>) -> Seq<char>;

/// What `url::Url::parse` returns, serialized, on an absolute URL string.
pub uninterp spec fn url_parse_of(s: Seq<char>) -> Option<Seq<char>>;

/// What parsing `base` and joining `rel` against it returns, serialized.
pub uninterp spec fn url_join_of(base: Seq<char>, rel: Seq<char>) -> Option<Seq<char>>;

/// What parsing `url` and replacing its path component returns, serialized.
pub uninterp spec fn url_with_path_of(url: Seq<char>, path: Seq<char>) -> Option<Seq<char>>;

/// The 16-byte MD5 digest of the input.
pub uninterp spec fn md5_of(bytes: Seq<u8>) -> Seq<u8>;

/// What base64 decoding with the standard alphabet returns.
pub uninterp spec fn base64_decode_of(s: Seq<char>) -> Option<Seq<u8>>;

/// What best-effort (lossy) UTF-8 decoding returns.
pub uninterp spec fn utf8_lossy_of(bytes: Seq<u8>) -> Seq<char>;

/// What decoding `bytes` under the encoding that `label` names returns;
/// an unknown label stands for UTF-8.
pub uninterp spec fn decode_of(label: Seq<char>, bytes: Seq<u8>) -> Seq<char>;

/// The `charset` parameter of a parsed Content-Type value.
pub uninterp spec fn mime_charset_of(content_type: Seq<char>) -> Option<Seq<char>>;

/// Whether a Content-Type value parses with top-level type `image`.
pub uninterp spec fn mime_is_image_of(content_type: Seq<char>) -> bool;

/// The `charset` attributes of the `<meta>` tags of a document, in order.
pub uninterp spec fn meta_charsets_of(html: Seq<char>) -> Seq<Seq<char>>;

/// The (`http-equiv`, `content`) attribute pairs of the `<meta>` tags that
/// carry both, in document order.
pub uninterp spec fn meta_refresh_of(html: Seq<char>) -> Seq<(Seq<char>, Seq<char>)>;

/// The (`rel`, `href`) attribute pairs of the `<link>` tags that carry both,
/// in document order.
pub uninterp spec fn link_rel_href_of(html: Seq<char>) -> Seq<(Seq<char>, Seq<char>)>;

/// For each `<title>` tag in order: its text and its `_html` attribute.
pub uninterp spec fn title_nodes_of(html: Seq<char>) -> Seq<(Seq<char>, Option<Seq<char>>)>;

/// The (`property`, `content`) attribute pairs of the `<meta>` tags that
/// carry a `property` attribute; a missing `content` stands as empty.
pub uninterp spec fn meta_property_of(html: Seq<char>) -> Seq<(Seq<char>, Seq<char>)>;

/// The quoted target captured from the first JavaScript-style
/// `.location = "..."` assignment found in the text.
pub uninterp spec fn js_assign_of(text: Seq<char>) -> Option<Seq<char>>;

/// The argument captured from the first JavaScript-style
/// `.location.open(...)` or `.location.replace(...)` call found in the text.
pub uninterp spec fn js_call_of(text: Seq<char>) -> Option<Seq<char>>;

/// Relies on `str::to_lowercase`: the result depends on the characters alone;
/// an empty string stays empty.
#[verifier::external_body]
pub(crate) fn lowercase(s: &str) -> (r: String)
    ensures
        r@ == lower_of(s@),
        s@.len() == 0 ==> r@.len() == 0,
{
    s.to_lowercase()
}

/// Relies on `str::trim`: the result depends on the characters alone.
#[verifier::external_body]
pub(crate) fn trim_str(s: &str) -> (r: String)
    ensures
        r@ == trim_of(s@),
{
    s.trim().to_owned()
}

/// Relies on `String::push`: appends one character.
#[verifier::external_body]
pub(crate) fn push_char(s: &mut String, c: char)
    ensures
        final(s)@ == old(s)@.push(c),
{
    s.push(c);
}

/// Relies on `url::Url::parse`: parses an absolute URL string, `None` when it
/// is not a valid absolute URL.
#[verifier::external_body]
pub(crate) fn parse_absolute_url(s: &str) -> (r: Option<String>)
    ensures
        r.deep_view() == url_parse_of(s@),
{
    match url::Url::parse(s) {
        Ok(u) => Some(String::from(u)),
        Err(_) => None,
    }
}

/// Relies on `url::Url::parse` and `url::Url::join`: resolves `rel` against
/// the URL that `base` serializes, `None` when either step fails.
#[verifier::external_body]
pub(crate) fn join_url(base: &str, rel: &str) -> (r: Option<String>)
    ensures
        r.deep_view() == url_join_of(base@, rel@),
{
    match url::Url::parse(base) {
        Ok(u) => match u.join(rel) {
            Ok(j) => Some(String::from(j)),
            Err(_) => None,
        },
        Err(_) => None,
    }
}

/// Relies on `url::Url::parse` and `url::Url::set_path`: replaces the path
/// component of the URL that `u` serializes.
#[verifier::external_body]
pub(crate) fn url_with_path(u: &str, path: &str) -> (r: Option<String>)
    ensures
        r.deep_view() == url_with_path_of(u@, path@),
{
    match url::Url::parse(u) {
        Ok(mut x) => {
            x.set_path(path);
            Some(String::from(x))
        },
        Err(_) => None,
    }
}

/// Relies on `md5::Md5` through the `Digest` trait: the 16-byte MD5 digest of
/// the input.
#[verifier::external_body]
pub(crate) fn md5_digest(content: &[u8]) -> (r: Vec<u8>)
    ensures
        r@ == md5_of(content@),
        r@.len() == 16,
{
    md5::Md5::digest(content).to_vec()
}

/// Relies on base64's standard-alphabet engine: decodes, `None` on invalid
/// input.
#[verifier::external_body]
pub(crate) fn decode_base64(s: &str) -> (r: Option<Vec<u8>>)
    ensures
        r.deep_view() == base64_decode_of(s@),
{
    base64::engine::general_purpose::STANDARD.decode(s).ok()
}

/// Relies on `encoding_rs::UTF_8.decode`: best-effort UTF-8 decoding with
/// replacement characters; empty input decodes to empty text.
#[verifier::external_body]
pub(crate) fn utf8_lossy(bytes: &[u8]) -> (r: String)
    ensures
        r@ == utf8_lossy_of(bytes@),
        bytes@.len() == 0 ==> r@.len() == 0,
{
    let (text, _, _) = encoding_rs::UTF_8.decode(bytes);
    text.into_owned()
}

/// Relies on `encoding_rs::Encoding::for_label` and `Encoding::decode`:
/// decodes `bytes` with the encoding that `label` names, falling back to
/// UTF-8 when the label is unknown.
#[verifier::external_body]
pub(crate) fn decode_with_label(label: &str, bytes: &[u8]) -> (r: String)
    ensures
        r@ == decode_of(label@, bytes@),
{
    let enc = encoding_rs::Encoding::for_label(label.as_bytes()).unwrap_or(encoding_rs::UTF_8);
    let (text, _, _) = enc.decode(bytes);
    text.into_owned()
}

/// Relies on mime's parser: the `charset` parameter of a Content-Type value,
/// `None` when the value does not parse or has no such parameter.
#[verifier::external_body]
pub(crate) fn mime_charset(content_type: &str) -> (r: Option<String>)
    ensures
        r.deep_view() == mime_charset_of(content_type@),
{
    match content_type.parse::<mime::Mime>() {
        Ok(m) => m.get_param("charset").map(|c| c.as_str().to_owned()),
        Err(_) => None,
    }
}

/// Relies on mime's parser: whether the Content-Type value parses with
/// top-level type `image`.
#[verifier::external_body]
pub(crate) fn mime_is_image(content_type: &str) -> (r: bool)
    ensures
        r == mime_is_image_of(content_type@),
{
    match content_type.parse::<mime::Mime>() {
        Ok(m) => m.type_() == mime::IMAGE,
        Err(_) => false,
    }
}

/// Relies on select's HTML parser: the `charset` attribute of each `<meta>`
/// tag, in document order.
#[verifier::external_body]
pub(crate) fn meta_charsets(html: &str) -> (r: Vec<String>)
    ensures
        r.deep_view() == meta_charsets_of(html@),
{
    let mut out = Vec::new();
    for node in select::document::Document::from(html).find(select::predicate::Name("meta")) {
        if let Some(c) = node.attr("charset") {
            out.push(c.to_owned());
        }
    }
    out
}

/// Relies on select's HTML parser: the (`http-equiv`, `content`) attribute
/// pairs of the `<meta>` tags that carry both, in document order.
#[verifier::external_body]
pub(crate) fn meta_refresh_pairs(html: &str) -> (r: Vec<(String, String)>)
    ensures
        r.deep_view() == meta_refresh_of(html@),
{
    let mut out = Vec::new();
    for node in select::document::Document::from(html).find(select::predicate::Name("meta")) {
        if let (Some(e), Some(c)) = (node.attr("http-equiv"), node.attr("content")) {
            out.push((e.to_owned(), c.to_owned()));
        }
    }
    out
}

/// Relies on select's HTML parser: the (`rel`, `href`) attribute pairs of the
/// `<link>` tags that carry both, in document order.
#[verifier::external_body]
pub(crate) fn link_rel_hrefs(html: &str) -> (r: Vec<(String, String)>)
    ensures
        r.deep_view() == link_rel_href_of(html@),
{
    let mut out = Vec::new();
    for node in select::document::Document::from(html).find(select::predicate::Name("link")) {
        if let (Some(rel), Some(href)) = (node.attr("rel"), node.attr("href")) {
            out.push((rel.to_owned(), href.to_owned()));
        }
    }
    out
}

/// Relies on select's HTML parser: for each `<title>` tag in order, its text
/// and its `_html` attribute.
#[verifier::external_body]
pub(crate) fn title_nodes(html: &str) -> (r: Vec<(String, Option<String>)>)
    ensures
        r.deep_view() == title_nodes_of(html@),
{
    let mut out = Vec::new();
    for node in select::document::Document::from(html).find(select::predicate::Name("title")) {
        out.push((node.text(), node.attr("_html").map(|s| s.to_owned())));
    }
    out
}

/// Relies on select's HTML parser: the (`property`, `content`) attribute
/// pairs of the `<meta>` tags that carry a `property` attribute; a missing
/// `content` stands as empty.
#[verifier::external_body]
pub(crate) fn meta_property_pairs(html: &str) -> (r: Vec<(String, String)>)
    ensures
        r.deep_view() == meta_property_of(html@),
{
    let mut out = Vec::new();
    for node in select::document::Document::from(html).find(select::predicate::Name("meta")) {
        if let Some(p) = node.attr("property") {
            out.push((p.to_owned(), node.attr("content").unwrap_or_default().to_owned()));
        }
    }
    out
}

/// Relies on regex: the `name` capture of the first JavaScript-style
/// `.location = '...'` assignment found in the text.
#[verifier::external_body]
pub(crate) fn js_assign_capture(text: &str) -> (r: Option<String>)
    ensures
        r.deep_view() == js_assign_of(text@),
{
    let re = match regex::Regex::new(r#"(?im)\.location.*?=\s*?['"](?P<name>.*?)['"]"#) {
        Ok(re) => re,
        Err(_) => return None,
    };
    re.captures(text).and_then(|c| c.name("name")).map(|m| m.as_str().to_owned())
}

/// Relies on regex: the `name` capture of the first JavaScript-style
/// `.location.open(...)` or `.location.replace(...)` call found in the text.
#[verifier::external_body]
pub(crate) fn js_call_capture(text: &str) -> (r: Option<String>)
    ensures
        r.deep_view() == js_call_of(text@),
{
    let re = match regex::Regex::new(r#"(?im)\.location\.(open|replace)\((?P<name>.*?)\)"#) {
        Ok(re) => re,
        Err(_) => return None,
    };
    re.captures(text).and_then(|c| c.name("name")).map(|m| m.as_str().to_owned())
}

} // verus!
