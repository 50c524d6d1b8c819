//! Request-side logic: charset negotiation and body decoding, next-hop
//! resolution, favicon discovery and hashing, request preparation, and the
//! scheme/redirect decisions of the fetch orchestrator.

use crate::deps::base64_decode_of;
use crate::deps::decode_base64;
use crate::deps::decode_of;
use crate::deps::decode_with_label;
use crate::deps::join_url;
use crate::deps::js_assign_capture;
use crate::deps::js_assign_of;
use crate::deps::js_call_capture;
use crate::deps::js_call_of;
use crate::deps::link_rel_href_of;
use crate::deps::link_rel_hrefs;
use crate::deps::lower_of;
use crate::deps::lowercase;
use crate::deps::md5_digest;
use crate::deps::md5_of;
use crate::deps::meta_charsets;
use crate::deps::meta_charsets_of;
use crate::deps::meta_property_of;
use crate::deps::meta_property_pairs;
use crate::deps::meta_refresh_of;
use crate::deps::meta_refresh_pairs;
use crate::deps::mime_charset;
use crate::deps::mime_charset_of;
use crate::deps::mime_is_image;
use crate::deps::mime_is_image_of;
use crate::deps::parse_absolute_url;
use crate::deps::push_char;
use crate::deps::title_nodes;
use crate::deps::title_nodes_of;
use crate::deps::trim_of;
use crate::deps::trim_str;
use crate::deps::url_join_of;
use crate::deps::url_parse_of;
use crate::deps::url_with_path;
use crate::deps::url_with_path_of;
use crate::deps::utf8_lossy;
use crate::deps::utf8_lossy_of;
use crate::strutil::ascii_lower;
use crate::strutil::find_char;
use crate::strutil::has_prefix;
use crate::strutil::str_eq;
use crate::strutil::str_eq_ignore_case;
use crate::strutil::str_has_prefix;
use crate::strutil::str_has_prefix_ignore_case;
use crate::ward::RawData;
use vstd::prelude::*;
use vstd::utf8::encode_utf8;

verus! {

/// The value of the first header that carries exactly this name.
pub open spec fn header_first(hs: Seq<(Seq<char>, Seq<char>)>, k: Seq<char>) -> Option<Seq<char>>
    decreases hs.len(),
{
    if hs.len() == 0 {
        None
    } else if hs.first().0 == k {
        Some(hs.first().1)
    } else {
        header_first(hs.drop_first(), k)
    }
}

/// Looks a header up by its exact name; the first match wins.
pub fn header_value(headers: &Vec<(String, String)>, k: &str) -> (r: Option<String>)
    ensures
        r.deep_view() == header_first(headers.deep_view(), k@),
{
    let ghost hv = headers.deep_view();
    proof {
        assert(hv.subrange(0, hv.len() as int) =~= hv);
    }
    let mut i: usize = 0;
    while i < headers.len()
        invariant
            i <= headers.len(),
            hv == headers.deep_view(),
            header_first(hv, k@) == header_first(hv.subrange(i as int, hv.len() as int), k@),
        decreases headers.len() - i,
    {
        if str_eq(headers[i].0.as_str(), k) {
            let v = headers[i].1.clone();
            proof {
                let suf = hv.subrange(i as int, hv.len() as int);
                assert(suf.first() == hv[i as int]);
            }
            return Some(v);
        }
        i += 1;
        proof {
            let pre = hv.subrange(i - 1, hv.len() as int);
            assert(pre.first() == hv[i - 1]);
            assert(pre.drop_first() =~= hv.subrange(i as int, hv.len() as int));
        }
    }
    None
}

/// The charset label the body's own `<meta charset>` declares; when several
/// do, the last one wins.
pub open spec fn meta_charset_spec(text: Seq<char>) -> Option<Seq<char>> {
    if meta_charsets_of(text).len() > 0 {
        Some(meta_charsets_of(text).last())
    } else {
        None
    }
}

/// The charset parameter of the response's Content-Type header.
pub open spec fn content_type_charset_spec(hs: Seq<(Seq<char>, Seq<char>)>) -> Option<Seq<char>> {
    match header_first(hs, "content-type"@) {
        Some(v) => mime_charset_of(v),
        None => None,
    }
}

/// The label the decoder resolves: the body's own meta charset first, then
/// the Content-Type charset parameter, then utf-8.
pub open spec fn charset_label_spec(bytes: Seq<u8>, hs: Seq<(Seq<char>, Seq<char>)>) -> Seq<char> {
    match meta_charset_spec(utf8_lossy_of(bytes)) {
        Some(l) => l,
        None => match content_type_charset_spec(hs) {
            Some(l) => l,
            None => "utf-8"@,
        },
    }
}

/// The charset declared by the page's own `<meta charset>` tags, if any.
pub fn get_charset_from_html(text: &str) -> (r: Option<String>)
    ensures
        r.deep_view() == meta_charset_spec(text@),
{
    let cs = meta_charsets(text);
    if cs.len() > 0 {
        let x = cs[cs.len() - 1].clone();
        proof {
            assert(cs.deep_view()[cs.len() - 1] == meta_charsets_of(text@).last());
        }
        Some(x)
    } else {
        None
    }
}

/// Decodes the body bytes: a tolerant UTF-8 pass locates the page's own
/// charset declaration, that label (or the Content-Type parameter, or utf-8)
/// picks the table, and the original bytes are decoded with it.
pub fn get_default_encoding(byte: &[u8], headers: &Vec<(String, String)>) -> (r: String)
    ensures
        r@ == decode_of(charset_label_spec(byte@, headers.deep_view()), byte@),
{
    let html = utf8_lossy(byte);
    let meta = get_charset_from_html(html.as_str());
    let label: String = match meta {
        Some(l) => l,
        None => match header_value(headers, "content-type") {
            Some(ct) => match mime_charset(ct.as_str()) {
                Some(l) => l,
                None => String::from_str("utf-8"),
            },
            None => String::from_str("utf-8"),
        },
    };
    proof {
        assert(label@ == charset_label_spec(byte@, headers.deep_view()));
    }
    decode_with_label(label.as_str(), byte)
}

/// A body that declares its own charset decides the decoding label: the
/// Content-Type parameter and the utf-8 default only stand in when the page
/// declares none.
pub proof fn lemma_meta_charset_wins(
    bytes: Seq<u8>,
    hs: Seq<(Seq<char>, Seq<char>)>,
    l: Seq<char>,
)
    requires
        meta_charset_spec(utf8_lossy_of(bytes)) == Some(l),
    ensures
        charset_label_spec(bytes, hs) == l,
{
}

/// The response declares an image Content-Type.
pub open spec fn is_image_spec(hs: Seq<(Seq<char>, Seq<char>)>) -> bool {
    match header_first(hs, "content-type"@) {
        Some(v) => mime_is_image_of(v),
        None => false,
    }
}

/// Whether the response's Content-Type names an image type.
pub fn is_image(headers: &Vec<(String, String)>) -> (r: bool)
    ensures
        r == is_image_spec(headers.deep_view()),
{
    match header_value(headers, "content-type") {
        Some(v) => mime_is_image(v.as_str()),
        None => false,
    }
}

/// One hexadecimal digit.
pub open spec fn hex_digit(n: u8) -> char {
    if n < 10 {
        (('0' as u8) + n) as char
    } else {
        (('a' as u8) + (n - 10)) as char
    }
}

/// Lower-case hexadecimal rendering, two digits per byte.
pub open spec fn hex_of(bytes: Seq<u8>) -> Seq<char>
    decreases bytes.len(),
{
    if bytes.len() == 0 {
        Seq::empty()
    } else {
        hex_of(bytes.drop_last()) + seq![
            hex_digit(bytes.last() / 16),
            hex_digit(bytes.last() % 16),
        ]
    }
}

fn to_hex(bytes: &Vec<u8>) -> (r: String)
    ensures
        r@ == hex_of(bytes@),
{
    let mut s = String::new();
    let mut i: usize = 0;
    while i < bytes.len()
        invariant
            i <= bytes.len(),
            s@ == hex_of(bytes@.subrange(0, i as int)),
        decreases bytes.len() - i,
    {
        let b = bytes[i];
        let hi = b / 16;
        let lo = b % 16;
        let hc = if hi < 10 {
            (('0' as u8) + hi) as char
        } else {
            (('a' as u8) + (hi - 10)) as char
        };
        let lc = if lo < 10 {
            (('0' as u8) + lo) as char
        } else {
            (('a' as u8) + (lo - 10)) as char
        };
        push_char(&mut s, hc);
        push_char(&mut s, lc);
        i += 1;
        proof {
            assert(bytes@.subrange(0, i as int).drop_last() =~= bytes@.subrange(0, i - 1));
            assert(bytes@.subrange(0, i as int).last() == bytes@[i - 1]);
            assert(s@ =~= hex_of(bytes@.subrange(0, i as int)));
        }
    }
    proof {
        assert(bytes@.subrange(0, bytes@.len() as int) =~= bytes@);
    }
    s
}

/// The content hash a favicon is identified by: the hex-rendered MD5 digest
/// of the raw bytes.
pub fn favicon_hash(content: &[u8]) -> (r: String)
    ensures
        r@ == hex_of(md5_of(content@)),
        r@.len() == 32,
{
    let d = md5_digest(content);
    let r = to_hex(&d);
    proof {
        lemma_hex_len(d@);
    }
    r
}

proof fn lemma_hex_len(bytes: Seq<u8>)
    ensures
        hex_of(bytes).len() == 2 * bytes.len(),
    decreases bytes.len(),
{
    if bytes.len() > 0 {
        lemma_hex_len(bytes.drop_last());
    }
}

/// What stands after the first occurrence of `c`, when there is one.
pub open spec fn after_char(s: Seq<char>, c: char) -> Option<Seq<char>>
    decreases s.len(),
{
    if s.len() == 0 {
        None
    } else if s.first() == c {
        Some(s.drop_first())
    } else {
        after_char(s.drop_first(), c)
    }
}

proof fn lemma_after_char_found(s: Seq<char>, c: char, i: int)
    requires
        0 <= i < s.len(),
        s[i] == c,
        forall|k: int| 0 <= k < i ==> s[k] != c,
    ensures
        after_char(s, c) == Some(s.subrange(i + 1, s.len() as int)),
    decreases i,
{
    if i == 0 {
        assert(s.drop_first() =~= s.subrange(1, s.len() as int));
    } else {
        assert(forall|k: int| 0 <= k < i - 1 ==> s.drop_first()[k] != c);
        lemma_after_char_found(s.drop_first(), c, i - 1);
        assert(s.drop_first().subrange(i, s.drop_first().len() as int) =~= s.subrange(
            i + 1,
            s.len() as int,
        ));
    }
}

proof fn lemma_after_char_none(s: Seq<char>, c: char)
    requires
        forall|k: int| 0 <= k < s.len() ==> s[k] != c,
    ensures
        after_char(s, c) is None,
    decreases s.len(),
{
    if s.len() > 0 {
        assert(forall|k: int| 0 <= k < s.drop_first().len() ==> s.drop_first()[k] != c);
        lemma_after_char_none(s.drop_first(), c);
    }
}

/// The substring after the first occurrence of `c`.
pub fn after_first_char(s: &str, c: char) -> (r: Option<String>)
    ensures
        r.deep_view() == after_char(s@, c),
{
    let len = s.unicode_len();
    match find_char(s, c) {
        Some(i) => {
            let sub = s.substring_char(i + 1, len);
            proof {
                lemma_after_char_found(s@, c, i as int);
            }
            Some(String::from_str(sub))
        },
        None => {
            proof {
                lemma_after_char_none(s@, c);
            }
            None
        },
    }
}

/// The input with every single and double quote removed.
pub open spec fn strip_quotes(s: Seq<char>) -> Seq<char>
    decreases s.len(),
{
    if s.len() == 0 {
        Seq::empty()
    } else {
        let rest = strip_quotes(s.drop_last());
        if s.last() == '\'' || s.last() == '"' {
            rest
        } else {
            rest.push(s.last())
        }
    }
}

/// Removes single and double quotes.
pub fn remove_quotes(s: &str) -> (r: String)
    ensures
        r@ == strip_quotes(s@),
{
    let len = s.unicode_len();
    let mut out = String::new();
    let mut i: usize = 0;
    while i < len
        invariant
            len == s@.len(),
            i <= len,
            out@ == strip_quotes(s@.subrange(0, i as int)),
        decreases len - i,
    {
        let c = s.get_char(i);
        if c != '\'' && c != '"' {
            push_char(&mut out, c);
        }
        i += 1;
        proof {
            assert(s@.subrange(0, i as int).drop_last() =~= s@.subrange(0, i - 1));
            assert(s@.subrange(0, i as int).last() == s@[i - 1]);
        }
    }
    proof {
        assert(s@.subrange(0, s@.len() as int) =~= s@);
    }
    out
}

/// The target of the first meta-refresh tag that carries one: the first
/// `<meta http-equiv="refresh">` (case-insensitively) whose `content` holds
/// an `=`, taken after that first `=`.
pub open spec fn refresh_target(pairs: Seq<(Seq<char>, Seq<char>)>) -> Option<Seq<char>>
    decreases pairs.len(),
{
    if pairs.len() == 0 {
        None
    } else if ascii_lower(pairs.first().0) == ascii_lower("refresh"@) && after_char(
        pairs.first().1,
        '=',
    ) is Some {
        after_char(pairs.first().1, '=')
    } else {
        refresh_target(pairs.drop_first())
    }
}

fn find_refresh_target(text: &str) -> (r: Option<String>)
    ensures
        r.deep_view() == refresh_target(meta_refresh_of(text@)),
{
    let pairs = meta_refresh_pairs(text);
    let ghost pv = pairs.deep_view();
    proof {
        assert(pv.subrange(0, pv.len() as int) =~= pv);
    }
    let mut i: usize = 0;
    while i < pairs.len()
        invariant
            i <= pairs.len(),
            pv == pairs.deep_view(),
            pv == meta_refresh_of(text@),
            refresh_target(meta_refresh_of(text@)) == refresh_target(
                pv.subrange(i as int, pv.len() as int),
            ),
        decreases pairs.len() - i,
    {
        proof {
            let suf = pv.subrange(i as int, pv.len() as int);
            assert(suf.first() == pv[i as int]);
            assert(suf.drop_first() =~= pv.subrange(i + 1, pv.len() as int));
        }
        if str_eq_ignore_case(pairs[i].0.as_str(), "refresh") {
            match after_first_char(pairs[i].1.as_str(), '=') {
                Some(u) => {
                    return Some(u);
                },
                None => {},
            }
        }
        i += 1;
    }
    None
}

/// The stripped capture of the first matching JavaScript redirect pattern:
/// assignments to `.location` first, then `.location.open` /
/// `.location.replace` calls.
pub open spec fn js_candidate(text: Seq<char>) -> Option<Seq<char>> {
    match js_assign_of(text) {
        Some(u) => Some(strip_quotes(u)),
        None => match js_call_of(text) {
            Some(u) => Some(strip_quotes(u)),
            None => None,
        },
    }
}

/// The redirect candidate of a response, in strict priority order: the
/// Location header, then a meta-refresh target, then — only when the body is
/// at most 1024 bytes — a JavaScript-style redirect.
pub open spec fn next_candidate(
    hs: Seq<(Seq<char>, Seq<char>)>,
    text: Seq<char>,
) -> Option<Seq<char>> {
    match header_first(hs, "location"@) {
        Some(l) => Some(l),
        None => match refresh_target(meta_refresh_of(text)) {
            Some(u) => Some(u),
            None => if encode_utf8(text).len() as usize <= 1024 {
                js_candidate(text)
            } else {
                None
            },
        },
    }
}

/// How a candidate becomes a URL: absolute candidates are parsed on their
/// own, any other is resolved against the current URL; failure means no hop.
pub open spec fn resolve_candidate(cand: Seq<char>, base: Seq<char>) -> Option<Seq<char>> {
    if has_prefix(cand, "http://"@) || has_prefix(cand, "https://"@) {
        url_parse_of(cand)
    } else {
        url_join_of(base, cand)
    }
}

/// The next-hop URL of a response, when it has one.
pub open spec fn next_hop_spec(
    hs: Seq<(Seq<char>, Seq<char>)>,
    url: Seq<char>,
    text: Seq<char>,
) -> Option<Seq<char>> {
    match next_candidate(hs, text) {
        Some(c) => resolve_candidate(c, url),
        None => None,
    }
}

/// Decides whether the response redirects, and where to.
pub fn get_next_jump(headers: &Vec<(String, String)>, url: &str, text: &str) -> (r: Option<
    String,
>)
    ensures
        r.deep_view() == next_hop_spec(headers.deep_view(), url@, text@),
{
    let cand: Option<String> = match header_value(headers, "location") {
        Some(l) => Some(l),
        None => match find_refresh_target(text) {
            Some(m) => Some(m),
            None => {
                if text.len() <= 1024 {
                    match js_assign_capture(text) {
                        Some(u) => Some(remove_quotes(u.as_str())),
                        None => match js_call_capture(text) {
                            Some(u) => Some(remove_quotes(u.as_str())),
                            None => None,
                        },
                    }
                } else {
                    None
                }
            },
        },
    };
    match cand {
        Some(c) => {
            if str_has_prefix(c.as_str(), "http://") || str_has_prefix(c.as_str(), "https://") {
                parse_absolute_url(c.as_str())
            } else {
                join_url(url, c.as_str())
            }
        },
        None => None,
    }
}

/// A response carrying a Location header resolves its next hop from that
/// header, whatever the body declares.
pub proof fn lemma_location_takes_priority(
    hs: Seq<(Seq<char>, Seq<char>)>,
    url: Seq<char>,
    text: Seq<char>,
    l: Seq<char>,
)
    requires
        header_first(hs, "location"@) == Some(l),
    ensures
        next_hop_spec(hs, url, text) == resolve_candidate(l, url),
{
}

/// A `rel` attribute that marks a favicon link.
pub open spec fn is_icon_rel(rel: Seq<char>) -> bool {
    rel == "icon"@ || rel == "shortcut icon"@
}

/// How an icon `href` becomes a candidate URL: absolute hrefs are parsed on
/// their own, any other is resolved against the base URL; a failure falls
/// back to the base URL itself.
pub open spec fn resolve_icon_href(href: Seq<char>, base: Seq<char>) -> Seq<char> {
    if has_prefix(href, "http://"@) || has_prefix(href, "https://"@) {
        match url_parse_of(href) {
            Some(u) => u,
            None => base,
        }
    } else {
        match url_join_of(base, href) {
            Some(u) => u,
            None => base,
        }
    }
}

/// The candidate URLs the page's icon links contribute.
pub open spec fn icon_link_set(links: Seq<(Seq<char>, Seq<char>)>, base: Seq<char>) -> Set<
    Seq<char>,
>
    decreases links.len(),
{
    if links.len() == 0 {
        Set::empty()
    } else {
        let s = icon_link_set(links.drop_last(), base);
        if is_icon_rel(links.last().0) {
            s.insert(resolve_icon_href(links.last().1, base))
        } else {
            s
        }
    }
}

/// Every favicon candidate of a page: the icon links plus the conventional
/// `/favicon.ico` at the site root.
pub open spec fn favicon_links_spec(text: Seq<char>, base: Seq<char>) -> Set<Seq<char>> {
    let s = icon_link_set(link_rel_href_of(text), base);
    match url_join_of(base, "/favicon.ico"@) {
        Some(u) => s.insert(u),
        None => s,
    }
}

/// Appends `u` unless an equal entry already stands in `out`.
fn push_unique(out: &mut Vec<String>, u: String)
    requires
        forall|a: int, b: int|
            0 <= a < b < old(out).deep_view().len() ==> old(out).deep_view()[a]
                != old(out).deep_view()[b],
    ensures
        forall|a: int, b: int|
            0 <= a < b < final(out).deep_view().len() ==> final(out).deep_view()[a]
                != final(out).deep_view()[b],
        forall|w: Seq<char>|
            #[trigger] final(out).deep_view().contains(w) <==> (old(out).deep_view().contains(w)
                || w == u@),
{
    let ghost ps0 = out.deep_view();
    let mut i: usize = 0;
    while i < out.len()
        invariant
            i <= out.len(),
            ps0 == out.deep_view(),
            ps0 == old(out).deep_view(),
            forall|a: int, b: int| 0 <= a < b < ps0.len() ==> ps0[a] != ps0[b],
            forall|t: int| 0 <= t < i ==> ps0[t] != u@,
        decreases out.len() - i,
    {
        if str_eq(out[i].as_str(), u.as_str()) {
            proof {
                assert(ps0[i as int] == u@);
                assert(ps0.contains(u@));
            }
            return ;
        }
        i += 1;
    }
    out.push(u);
    proof {
        let ps2 = out.deep_view();
        assert(ps2 =~= ps0.push(u@));
        assert forall|w: Seq<char>| #[trigger] ps2.contains(w) implies (ps0.contains(w) || w
            == u@) by {
            let idx = choose|idx: int| 0 <= idx < ps2.len() && ps2[idx] == w;
            if idx < ps0.len() {
                assert(ps0[idx] == w);
            }
        }
        assert forall|w: Seq<char>| (ps0.contains(w) || w == u@) implies #[trigger] ps2.contains(
            w,
        ) by {
            if ps0.contains(w) {
                let idx = choose|idx: int| 0 <= idx < ps0.len() && ps0[idx] == w;
                assert(ps2[idx] == w);
            } else {
                assert(ps2[ps2.len() - 1] == u@);
            }
        }
        assert forall|a: int, b: int| 0 <= a < b < ps2.len() implies ps2[a] != ps2[b] by {
            if b == ps2.len() - 1 {
                assert(ps2[a] == ps0[a]);
            } else {
                assert(ps2[a] == ps0[a]);
                assert(ps2[b] == ps0[b]);
            }
        }
    }
}

/// Collects the page's favicon candidate URLs: every `<link rel="icon">` or
/// `<link rel="shortcut icon">` href, resolved, plus `/favicon.ico` at the
/// root, without duplicates.
pub fn get_favicon_link(text: &str, base_url: &str) -> (r: Vec<String>)
    ensures
        forall|w: Seq<char>| #[trigger] r.deep_view().contains(w) <==> favicon_links_spec(
            text@,
            base_url@,
        ).contains(w),
        forall|a: int, b: int| 0 <= a < b < r.deep_view().len() ==> r.deep_view()[a]
            != r.deep_view()[b],
{
    let links = link_rel_hrefs(text);
    let ghost lv = links.deep_view();
    let mut out: Vec<String> = Vec::new();
    proof {
        assert(lv.subrange(0, 0) =~= Seq::<(Seq<char>, Seq<char>)>::empty());
        assert(out.deep_view() =~= Seq::<Seq<char>>::empty());
    }
    let mut i: usize = 0;
    while i < links.len()
        invariant
            i <= links.len(),
            lv == links.deep_view(),
            lv == link_rel_href_of(text@),
            forall|a: int, b: int| 0 <= a < b < out.deep_view().len() ==> out.deep_view()[a]
                != out.deep_view()[b],
            forall|w: Seq<char>| #[trigger] out.deep_view().contains(w) <==> icon_link_set(
                lv.subrange(0, i as int),
                base_url@,
            ).contains(w),
        decreases links.len() - i,
    {
        proof {
            assert(lv.subrange(0, i + 1).drop_last() =~= lv.subrange(0, i as int));
            assert(lv.subrange(0, i + 1).last() == lv[i as int]);
        }
        let rel = &links[i].0;
        let href = &links[i].1;
        if str_eq(rel.as_str(), "icon") || str_eq(rel.as_str(), "shortcut icon") {
            let resolved: String = if str_has_prefix(href.as_str(), "http://") || str_has_prefix(
                href.as_str(),
                "https://",
            ) {
                match parse_absolute_url(href.as_str()) {
                    Some(u) => u,
                    None => base_url.to_owned(),
                }
            } else {
                match join_url(base_url, href.as_str()) {
                    Some(u) => u,
                    None => base_url.to_owned(),
                }
            };
            proof {
                assert(resolved@ == resolve_icon_href(lv[i as int].1, base_url@));
            }
            push_unique(&mut out, resolved);
        }
        i += 1;
    }
    proof {
        assert(lv.subrange(0, lv.len() as int) =~= lv);
    }
    match join_url(base_url, "/favicon.ico") {
        Some(u) => {
            push_unique(&mut out, u);
        },
        None => {},
    }
    out
}

/// A favicon fetch is kept only when it answered 200 with an image
/// Content-Type.
pub fn favicon_response_ok(status_code: u16, headers: &Vec<(String, String)>) -> (r: bool)
    ensures
        r == (status_code == 200 && is_image_spec(headers.deep_view())),
{
    status_code == 200 && is_image(headers)
}

/// Favicon discovery runs only on the home-page probe and never on a server
/// error.
pub fn should_collect_favicons(is_index: bool, status_code: u16) -> (r: bool)
    ensures
        r == (is_index && !(500 <= status_code < 600)),
{
    is_index && !(500 <= status_code && status_code < 600)
}

/// A character HTTP method tokens may hold.
pub open spec fn is_method_char(c: char) -> bool {
    ('0' <= c && c <= '9') || ('a' <= c && c <= 'z') || ('A' <= c && c <= 'Z') || c == '!' || c
        == '#' || c == '$' || c == '%' || c == '&' || c == '\'' || c == '*' || c == '+' || c == '-'
        || c == '.' || c == '^' || c == '_' || c == '`' || c == '|' || c == '~'
}

/// The method a template's method name resolves to: the name upper-cased
/// when it is a non-empty method token, else GET.
pub open spec fn method_name_spec(m: Seq<char>) -> Seq<char> {
    let u = crate::strutil::ascii_upper(m);
    if u.len() > 0 && (forall|i: int| 0 <= i < u.len() ==> is_method_char(u[i])) {
        u
    } else {
        "GET"@
    }
}

/// Normalizes a template's method name.
pub fn normalize_method(m: &str) -> (r: String)
    ensures
        r@ == method_name_spec(m@),
{
    let u = crate::strutil::ascii_upper_str(m);
    let len = u.as_str().unicode_len();
    if len == 0 {
        return String::from_str("GET");
    }
    let mut i: usize = 0;
    while i < len
        invariant
            len == u@.len(),
            i <= len,
            u@ == crate::strutil::ascii_upper(m@),
            forall|t: int| 0 <= t < i ==> is_method_char(u@[t]),
        decreases len - i,
    {
        let c = u.as_str().get_char(i);
        if !(('0' <= c && c <= '9') || ('a' <= c && c <= 'z') || ('A' <= c && c <= 'Z') || c == '!'
            || c == '#' || c == '$' || c == '%' || c == '&' || c == '\'' || c == '*' || c == '+'
            || c == '-' || c == '.' || c == '^' || c == '_' || c == '`' || c == '|' || c == '~') {
            return String::from_str("GET");
        }
        i += 1;
    }
    u
}

/// The target names its scheme already (ASCII-case-insensitively).
pub open spec fn has_explicit_scheme(t: Seq<char>) -> bool {
    has_prefix(ascii_lower(t), ascii_lower("http://"@)) || has_prefix(
        ascii_lower(t),
        ascii_lower("https://"@),
    )
}

/// The scheme-qualified URLs a target is probed under, in order.
pub open spec fn scheme_urls_spec(t: Seq<char>) -> Seq<Seq<char>> {
    if has_explicit_scheme(t) {
        seq![t]
    } else {
        seq!["https://"@ + t, "http://"@ + t]
    }
}

/// The probe attempts for a target: itself when it already names a scheme,
/// else its https:// form followed by its http:// form.
pub fn scheme_urls(target: &str) -> (r: Vec<String>)
    ensures
        r.deep_view() == scheme_urls_spec(target@),
{
    if str_has_prefix_ignore_case(target, "http://") || str_has_prefix_ignore_case(
        target,
        "https://",
    ) {
        let mut v: Vec<String> = Vec::new();
        v.push(target.to_owned());
        proof {
            assert(v.deep_view() =~= seq![target@]);
        }
        v
    } else {
        let mut a = String::from_str("https://");
        a.append(target);
        let mut b = String::from_str("http://");
        b.append(target);
        let mut v: Vec<String> = Vec::new();
        v.push(a);
        v.push(b);
        proof {
            assert(v.deep_view() =~= seq!["https://"@ + target@, "http://"@ + target@]);
        }
        v
    }
}

/// A bare target needs a second, http:// attempt exactly when the first
/// scheme produced no snapshot.
pub fn try_next_scheme(explicit_scheme: bool, snapshots_so_far: usize) -> (r: bool)
    ensures
        r == (!explicit_scheme && snapshots_so_far == 0),
{
    !explicit_scheme && snapshots_so_far == 0
}

/// A bare target is probed under https:// first and http:// second, while a
/// scheme-qualified target is probed once, as given; `try_next_scheme` then
/// grants the second attempt exactly when the first produced no snapshot.
pub proof fn lemma_scheme_fallback(t: Seq<char>)
    ensures
        !has_explicit_scheme(t) ==> scheme_urls_spec(t) == seq!["https://"@ + t, "http://"@ + t],
        has_explicit_scheme(t) ==> scheme_urls_spec(t) == seq![t],
{
}

/// Where one scheme's redirect loop stands: the URL to probe next and how
/// many redirects were already followed.
pub struct FetchState {
    pub url: String,
    pub hops: u8,
}

/// The loop's first state for one scheme attempt.
pub fn start_state(url: &str) -> (r: FetchState)
    ensures
        r.url@ == url@,
        r.hops == 0,
{
    FetchState { url: url.to_owned(), hops: 0 }
}

/// The follow decision: a home-page probe follows a present next hop while
/// fewer than five redirects were taken; anything else stops the loop.
pub open spec fn next_state_spec(hops: u8, is_index: bool, next: Option<Seq<char>>) -> Option<
    (Seq<char>, u8),
> {
    match next {
        Some(u) => if is_index && hops < 5 {
            Some((u, (hops + 1) as u8))
        } else {
            None
        },
        None => None,
    }
}

/// Decides whether the redirect loop continues, and with what state.
pub fn next_fetch_state(st: &FetchState, is_index: bool, next_url: &Option<String>) -> (r: Option<
    FetchState,
>)
    ensures
        (match r {
            Some(s2) => next_state_spec(st.hops, is_index, next_url.deep_view()) == Some(
                (s2.url@, s2.hops),
            ),
            None => next_state_spec(st.hops, is_index, next_url.deep_view()) is None,
        }),
{
    match next_url {
        Some(u) => {
            if is_index && st.hops < 5 {
                Some(FetchState { url: u.clone(), hops: st.hops + 1 })
            } else {
                None
            }
        },
        None => None,
    }
}

/// One follow step only happens below the redirect bound, and increments the
/// hop count by one.
pub proof fn lemma_follow_step(
    hops: u8,
    is_index: bool,
    next: Option<Seq<char>>,
    u: Seq<char>,
    h2: u8,
)
    requires
        next_state_spec(hops, is_index, next) == Some((u, h2)),
    ensures
        is_index,
        hops < 5,
        h2 == hops + 1,
{
}

proof fn lemma_hops_value(hs: Seq<u8>, i: int)
    requires
        hs.len() > 0,
        hs[0] == 0,
        forall|t: int| 0 <= t < hs.len() - 1 ==> ((#[trigger] hs[t]) < 5 && hs[t + 1] == hs[t]
            + 1),
        0 <= i < hs.len(),
    ensures
        hs[i] == i,
    decreases i,
{
    if i > 0 {
        lemma_hops_value(hs, i - 1);
    }
}

/// A chain of follow steps starting at hop zero holds at most six states:
/// the initial response plus at most five followed redirects, however far
/// the chain of next hops points onward.
pub proof fn lemma_redirect_chain_bounded(hs: Seq<u8>)
    requires
        hs.len() > 0,
        hs[0] == 0,
        forall|t: int| 0 <= t < hs.len() - 1 ==> ((#[trigger] hs[t]) < 5 && hs[t + 1] == hs[t]
            + 1),
    ensures
        hs.len() <= 6,
{
    if hs.len() > 6 {
        lemma_hops_value(hs, 5);
        assert(hs[5] < 5);
    }
}

/// Writing one header: the first pair with this name takes the new value,
/// or the pair is appended.
pub open spec fn set_header_spec(
    hs: Seq<(Seq<char>, Seq<char>)>,
    k: Seq<char>,
    v: Seq<char>,
) -> Seq<(Seq<char>, Seq<char>)>
    decreases hs.len(),
{
    if hs.len() == 0 {
        seq![(k, v)]
    } else if hs.first().0 == k {
        seq![(k, v)] + hs.drop_first()
    } else {
        seq![hs.first()] + set_header_spec(hs.drop_first(), k, v)
    }
}

proof fn lemma_set_header_found(hs: Seq<(Seq<char>, Seq<char>)>, k: Seq<char>, v: Seq<char>, idx: int)
    requires
        0 <= idx < hs.len(),
        hs[idx].0 == k,
        forall|t: int| 0 <= t < idx ==> (#[trigger] hs[t]).0 != k,
    ensures
        set_header_spec(hs, k, v) == hs.update(idx, (k, v)),
    decreases idx,
{
    if idx == 0 {
        assert(set_header_spec(hs, k, v) =~= hs.update(0, (k, v)));
    } else {
        assert(forall|t: int| 0 <= t < idx - 1 ==> (#[trigger] hs.drop_first()[t]).0 != k);
        assert(hs.drop_first()[idx - 1].0 == k);
        lemma_set_header_found(hs.drop_first(), k, v, idx - 1);
        assert(seq![hs.first()] + hs.drop_first().update(idx - 1, (k, v)) =~= hs.update(
            idx,
            (k, v),
        ));
    }
}

proof fn lemma_set_header_missing(hs: Seq<(Seq<char>, Seq<char>)>, k: Seq<char>, v: Seq<char>)
    requires
        forall|t: int| 0 <= t < hs.len() ==> (#[trigger] hs[t]).0 != k,
    ensures
        set_header_spec(hs, k, v) == hs.push((k, v)),
    decreases hs.len(),
{
    if hs.len() == 0 {
        assert(set_header_spec(hs, k, v) =~= hs.push((k, v)));
    } else {
        assert(forall|t: int| 0 <= t < hs.drop_first().len() ==> (#[trigger] hs.drop_first()[t]).0
            != k);
        lemma_set_header_missing(hs.drop_first(), k, v);
        assert(seq![hs.first()] + hs.drop_first().push((k, v)) =~= hs.push((k, v)));
    }
}

/// Writes one header into the list, replacing the first pair of that name.
fn set_header(hs: &mut Vec<(String, String)>, k: String, v: String)
    ensures
        final(hs).deep_view() == set_header_spec(old(hs).deep_view(), k@, v@),
{
    let ghost hv0 = hs.deep_view();
    let mut i: usize = 0;
    while i < hs.len()
        invariant
            i <= hs.len(),
            hv0 == hs.deep_view(),
            hv0 == old(hs).deep_view(),
            forall|t: int| 0 <= t < i ==> (#[trigger] hv0[t]).0 != k@,
        decreases hs.len() - i,
    {
        if str_eq(hs[i].0.as_str(), k.as_str()) {
            proof {
                assert(hv0[i as int].0 == k@);
                lemma_set_header_found(hv0, k@, v@, i as int);
            }
            hs.remove(i);
            hs.insert(i, (k, v));
            proof {
                assert(hs.deep_view() =~= hv0.update(i as int, (k@, v@)));
            }
            return ;
        }
        i += 1;
    }
    proof {
        lemma_set_header_missing(hv0, k@, v@);
    }
    hs.push((k, v));
    proof {
        assert(hs.deep_view() =~= hv0.push((k@, v@)));
    }
}

/// The fixed headers every probe carries before the template's own.
pub open spec fn default_headers() -> Seq<(Seq<char>, Seq<char>)> {
    seq![
        ("user-agent"@, "Mozilla/5.0 (X11; Linux x86_64; rv:94.0) Gecko/20100101 Firefox/94.0"@),
        ("cookie"@, "rememberMe=admin;rememberMe-K=admin"@),
    ]
}

/// The template's headers written over the fixed ones, in template order,
/// names lower-cased as the transport layer normalizes them.
pub open spec fn overlay_headers(
    base: Seq<(Seq<char>, Seq<char>)>,
    tpl: Seq<(Seq<char>, Seq<char>)>,
) -> Seq<(Seq<char>, Seq<char>)>
    decreases tpl.len(),
{
    if tpl.len() == 0 {
        base
    } else {
        set_header_spec(
            overlay_headers(base, tpl.drop_last()),
            ascii_lower(tpl.last().0),
            tpl.last().1,
        )
    }
}

/// Everything the transport layer needs to send one probe: the final URL,
/// the method, the full header list, and the decoded body.
pub struct PreparedRequest {
    pub url: String,
    pub method: String,
    pub headers: Vec<(String, String)>,
    pub body: Vec<u8>,
}

/// Prepares one probe from a URL and a fingerprint's request template: the
/// template path (unless `/`) replaces the URL's path, the method name is
/// normalized, the body is decoded from its base64 transport encoding (an
/// undecodable body stands as empty), and the template's headers overlay the
/// fixed ones. `None` only when the URL cannot take the template's path.
pub fn prepare_request(
    url: &str,
    fingerprint: &crate::fingerprint::WebFingerPrintRequest,
) -> (r: Option<PreparedRequest>)
    ensures
        (match r {
            Some(p) => {
                &&& (if fingerprint.path@ == "/"@ {
                    p.url@ == url@
                } else {
                    url_with_path_of(url@, fingerprint.path@) == Some(p.url@)
                })
                &&& p.method@ == method_name_spec(fingerprint.request_method@)
                &&& p.headers.deep_view() == overlay_headers(
                    default_headers(),
                    fingerprint.request_headers.deep_view(),
                )
                &&& p.body@ == (match base64_decode_of(fingerprint.request_data@) {
                    Some(b) => b,
                    None => Seq::<u8>::empty(),
                })
            },
            None => fingerprint.path@ != "/"@ && url_with_path_of(url@, fingerprint.path@) is None,
        }),
{
    let target_url: String = if str_eq(fingerprint.path.as_str(), "/") {
        url.to_owned()
    } else {
        match url_with_path(url, fingerprint.path.as_str()) {
            Some(u) => u,
            None => {
                return None;
            },
        }
    };
    let method = normalize_method(fingerprint.request_method.as_str());
    let body: Vec<u8> = match decode_base64(fingerprint.request_data.as_str()) {
        Some(b) => b,
        None => Vec::new(),
    };
    let mut headers: Vec<(String, String)> = Vec::new();
    headers.push(
        (
            String::from_str("user-agent"),
            String::from_str("Mozilla/5.0 (X11; Linux x86_64; rv:94.0) Gecko/20100101 Firefox/94.0"),
        ),
    );
    headers.push((String::from_str("cookie"), String::from_str("rememberMe=admin;rememberMe-K=admin")));
    proof {
        assert(headers.deep_view() =~= default_headers());
    }
    let ghost tv = fingerprint.request_headers.deep_view();
    let mut i: usize = 0;
    while i < fingerprint.request_headers.len()
        invariant
            i <= fingerprint.request_headers.len(),
            tv == fingerprint.request_headers.deep_view(),
            headers.deep_view() == overlay_headers(default_headers(), tv.subrange(0, i as int)),
        decreases fingerprint.request_headers.len() - i,
    {
        let k = crate::strutil::ascii_lower_str(fingerprint.request_headers[i].0.as_str());
        let v = fingerprint.request_headers[i].1.clone();
        set_header(&mut headers, k, v);
        i += 1;
        proof {
            assert(tv.subrange(0, i as int).drop_last() =~= tv.subrange(0, i - 1));
            assert(tv.subrange(0, i as int).last() == tv[i - 1]);
        }
    }
    proof {
        assert(tv.subrange(0, tv.len() as int) =~= tv);
    }
    Some(PreparedRequest { url: target_url, method, headers, body })
}

/// The body text and the self-favicon entry of one response: a response that
/// itself serves an image is hashed as a favicon and contributes no text;
/// any other response contributes its decoded body.
pub fn snapshot_text(url: &str, headers: &Vec<(String, String)>, body: &[u8]) -> (r: (
    String,
    Vec<(String, String)>,
))
    ensures
        is_image_spec(headers.deep_view()) ==> r.0@ == Seq::<char>::empty()
            && r.1.deep_view() == seq![(url@, hex_of(md5_of(body@)))],
        !is_image_spec(headers.deep_view()) ==> r.0@ == decode_of(
            charset_label_spec(body@, headers.deep_view()),
            body@,
        ) && r.1.deep_view() == Seq::<(Seq<char>, Seq<char>)>::empty(),
{
    let text = get_default_encoding(body, headers);
    if is_image(headers) {
        let h = favicon_hash(body);
        let mut fav: Vec<(String, String)> = Vec::new();
        fav.push((url.to_owned(), h));
        proof {
            assert(fav.deep_view() =~= seq![(url@, hex_of(md5_of(body@)))]);
        }
        (String::new(), fav)
    } else {
        let fav: Vec<(String, String)> = Vec::new();
        proof {
            assert(fav.deep_view() =~= Seq::<(Seq<char>, Seq<char>)>::empty());
        }
        (text, fav)
    }
}

/// Assembles one response snapshot: the body text is lower-cased for
/// matching, and the next-hop URL is resolved from the headers and the text
/// as they stand.
pub fn fetch_raw_data(
    url: String,
    path: String,
    headers: Vec<(String, String)>,
    status_code: u16,
    text: String,
    favicon: Vec<(String, String)>,
) -> (r: RawData)
    ensures
        r.url == url,
        r.path == path,
        r.headers == headers,
        r.status_code == status_code,
        r.text@ == lower_of(text@),
        r.favicon == favicon,
        r.next_url.deep_view() == next_hop_spec(headers.deep_view(), url@, text@),
{
    let next_url = get_next_jump(&headers, url.as_str(), text.as_str());
    let lower = lowercase(text.as_str());
    RawData { url, path, headers, status_code, text: lower, favicon, next_url }
}

/// The first title a page's `<title>` tags yield: a tag with text yields its
/// trimmed text, one with only an `_html` attribute yields that attribute.
pub open spec fn title_from_nodes(ns: Seq<(Seq<char>, Option<Seq<char>>)>) -> Option<Seq<char>>
    decreases ns.len(),
{
    if ns.len() == 0 {
        None
    } else if ns.first().0.len() > 0 {
        Some(trim_of(ns.first().0))
    } else {
        match ns.first().1 {
            Some(a) => Some(trim_of(a)),
            None => title_from_nodes(ns.drop_first()),
        }
    }
}

/// The content of the first `<meta property="title">` tag.
pub open spec fn title_from_meta(ms: Seq<(Seq<char>, Seq<char>)>) -> Option<Seq<char>>
    decreases ms.len(),
{
    if ms.len() == 0 {
        None
    } else if ms.first().0 == "title"@ {
        Some(trim_of(ms.first().1))
    } else {
        title_from_meta(ms.drop_first())
    }
}

/// What `get_title` returns.
pub open spec fn title_spec(text: Seq<char>) -> Seq<char> {
    match title_from_nodes(title_nodes_of(text)) {
        Some(t) => t,
        None => match title_from_meta(meta_property_of(text)) {
            Some(t) => t,
            None => Seq::empty(),
        },
    }
}

/// The page's title: the first non-empty `<title>` text, else a `<title>`
/// tag's `_html` attribute, else the content of `<meta property="title">`,
/// else empty; the result is trimmed.
pub fn get_title(text: &str) -> (r: String)
    ensures
        r@ == title_spec(text@),
{
    let nodes = title_nodes(text);
    let ghost nv = nodes.deep_view();
    proof {
        assert(nv.subrange(0, nv.len() as int) =~= nv);
    }
    let mut i: usize = 0;
    while i < nodes.len()
        invariant
            i <= nodes.len(),
            nv == nodes.deep_view(),
            nv == title_nodes_of(text@),
            title_from_nodes(title_nodes_of(text@)) == title_from_nodes(
                nv.subrange(i as int, nv.len() as int),
            ),
        decreases nodes.len() - i,
    {
        proof {
            let suf = nv.subrange(i as int, nv.len() as int);
            assert(suf.first() == nv[i as int]);
            assert(suf.drop_first() =~= nv.subrange(i + 1, nv.len() as int));
        }
        if !nodes[i].0.as_str().is_empty() {
            return trim_str(nodes[i].0.as_str());
        }
        match &nodes[i].1 {
            Some(a) => {
                return trim_str(a.as_str());
            },
            None => {},
        }
        i += 1;
    }
    let metas = meta_property_pairs(text);
    let ghost mv = metas.deep_view();
    proof {
        assert(mv.subrange(0, mv.len() as int) =~= mv);
    }
    let mut j: usize = 0;
    while j < metas.len()
        invariant
            j <= metas.len(),
            mv == metas.deep_view(),
            mv == meta_property_of(text@),
            title_from_nodes(title_nodes_of(text@)) is None,
            title_from_meta(meta_property_of(text@)) == title_from_meta(
                mv.subrange(j as int, mv.len() as int),
            ),
        decreases metas.len() - j,
    {
        proof {
            let suf = mv.subrange(j as int, mv.len() as int);
            assert(suf.first() == mv[j as int]);
            assert(suf.drop_first() =~= mv.subrange(j + 1, mv.len() as int));
        }
        if str_eq(metas[j].0.as_str(), "title") {
            return trim_str(metas[j].1.as_str());
        }
        j += 1;
    }
    String::new()
}

} // verus!
