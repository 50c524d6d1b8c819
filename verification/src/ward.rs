//! The fingerprint matching engine: evaluates one response snapshot against
//! one rule (`what_web`) and aggregates a whole library over one snapshot
//! (`check`).

use crate::deps::lower_of;
use crate::deps::lowercase;
use crate::fingerprint::V3WebFingerPrint;
use crate::fingerprint::WebFingerPrintLib;
use crate::strutil::contains_seq;
use crate::strutil::contains_substr;
use crate::strutil::str_eq;
use vstd::prelude::*;

verus! {

/// One fully resolved HTTP response: the probed URL, its path, the response
/// headers as the transport layer normalized them (names lower-cased), the
/// status code, the decoded and lower-cased body text, the favicon URL to
/// content-hash mapping, and the next-hop URL when the response redirects.
pub struct RawData {
    pub url: String,
    pub path: String,
    pub headers: Vec<(String, String)>,
    pub status_code: u16,
    pub text: String,
    pub favicon: Vec<(String, String)>,
    pub next_url: Option<String>,
}

/// The flattened header block: one `name: value` line per header, each line
/// ended by `\r\n`.
pub open spec fn headers_block(hs: Seq<(Seq<char>, Seq<char>)>) -> Seq<char>
    decreases hs.len(),
{
    if hs.len() == 0 {
        Seq::empty()
    } else {
        headers_block(hs.drop_last()) + hs.last().0 + ": "@ + hs.last().1 + "\r\n"@
    }
}

/// Some header carries exactly this name.
pub open spec fn has_header_key(hs: Seq<(Seq<char>, Seq<char>)>, k: Seq<char>) -> bool {
    exists|i: int| 0 <= i < hs.len() && hs[i].0 == k
}

/// The favicon condition: a rule that declares hashes needs a snapshot that
/// collected at least one, and the two hash sets must intersect.
pub open spec fn favicon_rule_ok(
    raw_fav: Seq<(Seq<char>, Seq<char>)>,
    hashes: Seq<Seq<char>>,
) -> bool {
    hashes.len() == 0 || (raw_fav.len() > 0 && exists|i: int, j: int|
        0 <= i < raw_fav.len() && 0 <= j < hashes.len() && raw_fav[i].1 == hashes[j])
}

/// The status condition: an expected code of zero accepts anything.
pub open spec fn status_rule_ok(status: u16, expected: u16) -> bool {
    expected == 0 || status == expected
}

/// One header expectation. For `set-cookie` the expected value must stand
/// verbatim in the flattened block (covers several Set-Cookie lines); for any
/// other name the header must be present, and the expected value is either
/// the wildcard `*` or a case-insensitive substring of the block.
pub open spec fn header_rule_ok(
    hs: Seq<(Seq<char>, Seq<char>)>,
    k: Seq<char>,
    v: Seq<char>,
) -> bool {
    if k == "set-cookie"@ {
        contains_seq(headers_block(hs), v)
    } else {
        has_header_key(hs, k) && (v == "*"@ || contains_seq(
            lower_of(headers_block(hs)),
            lower_of(v),
        ))
    }
}

/// Every declared header expectation holds.
pub open spec fn headers_ok(
    hs: Seq<(Seq<char>, Seq<char>)>,
    expectations: Seq<(Seq<char>, Seq<char>)>,
) -> bool {
    forall|i: int| 0 <= i < expectations.len() ==> #[trigger] header_rule_ok(
        hs,
        expectations[i].0,
        expectations[i].1,
    )
}

/// Every declared keyword stands, lower-cased, in the body text.
pub open spec fn keywords_ok(text: Seq<char>, kws: Seq<Seq<char>>) -> bool {
    forall|i: int| 0 <= i < kws.len() ==> contains_seq(text, lower_of(#[trigger] kws[i]))
}

/// The whole per-rule condition, in the engine's evaluation order.
pub open spec fn rule_matches(raw: RawData, rule: V3WebFingerPrint) -> bool {
    &&& favicon_rule_ok(raw.favicon.deep_view(), rule.match_rules.favicon_hash.deep_view())
    &&& status_rule_ok(raw.status_code, rule.match_rules.status_code)
    &&& headers_ok(raw.headers.deep_view(), rule.match_rules.headers.deep_view())
    &&& keywords_ok(raw.text@, rule.match_rules.keyword.deep_view())
}

/// Flattens the snapshot's headers to one `name: value\r\n` line per header.
pub fn header_to_string(headers: &Vec<(String, String)>) -> (r: String)
    ensures
        r@ == headers_block(headers.deep_view()),
{
    let mut header_string = String::new();
    let mut i: usize = 0;
    while i < headers.len()
        invariant
            i <= headers.len(),
            header_string@ == headers_block(headers.deep_view().subrange(0, i as int)),
        decreases headers.len() - i,
    {
        header_string.append(headers[i].0.as_str());
        header_string.append(": ");
        header_string.append(headers[i].1.as_str());
        header_string.append("\r\n");
        i += 1;
        proof {
            let hv = headers.deep_view();
            assert(hv.subrange(0, i as int).drop_last() =~= hv.subrange(0, i - 1));
            assert(hv.subrange(0, i as int).last() == hv[i - 1]);
        }
    }
    proof {
        assert(headers.deep_view().subrange(0, headers.deep_view().len() as int) =~= headers
            .deep_view());
    }
    header_string
}

/// Exact presence test for a header name.
fn header_has_key(headers: &Vec<(String, String)>, k: &String) -> (r: bool)
    ensures
        r == has_header_key(headers.deep_view(), k@),
{
    let mut i: usize = 0;
    while i < headers.len()
        invariant
            i <= headers.len(),
            forall|t: int| 0 <= t < i ==> headers.deep_view()[t].0 != k@,
        decreases headers.len() - i,
    {
        if str_eq(headers[i].0.as_str(), k.as_str()) {
            proof {
                assert(headers.deep_view()[i as int].0 == k@);
            }
            return true;
        }
        i += 1;
    }
    false
}

/// Does any collected favicon hash stand in the rule's hash list?
fn favicon_intersects(fav: &Vec<(String, String)>, hashes: &Vec<String>) -> (r: bool)
    ensures
        r == exists|i: int, j: int|
            0 <= i < fav.deep_view().len() && 0 <= j < hashes.deep_view().len()
                && fav.deep_view()[i].1 == hashes.deep_view()[j],
{
    let mut i: usize = 0;
    while i < fav.len()
        invariant
            i <= fav.len(),
            forall|t: int, j: int|
                0 <= t < i && 0 <= j < hashes.deep_view().len() ==> fav.deep_view()[t].1
                    != hashes.deep_view()[j],
        decreases fav.len() - i,
    {
        let mut j: usize = 0;
        while j < hashes.len()
            invariant
                i < fav.len(),
                j <= hashes.len(),
                forall|t: int| 0 <= t < j ==> fav.deep_view()[i as int].1
                    != hashes.deep_view()[t],
            decreases hashes.len() - j,
        {
            if str_eq(fav[i].1.as_str(), hashes[j].as_str()) {
                proof {
                    assert(fav.deep_view()[i as int].1 == hashes.deep_view()[j as int]);
                }
                return true;
            }
            j += 1;
        }
        i += 1;
    }
    false
}

/// Evaluates one rule against one snapshot; `true` exactly when every
/// declared condition holds.
pub fn what_web(raw_data: &RawData, fingerprint: &V3WebFingerPrint) -> (r: bool)
    ensures
        r == rule_matches(*raw_data, *fingerprint),
{
    let ghost fav_v = raw_data.favicon.deep_view();
    let ghost hash_v = fingerprint.match_rules.favicon_hash.deep_view();
    proof {
        assert(fav_v.len() == raw_data.favicon@.len());
        assert(hash_v.len() == fingerprint.match_rules.favicon_hash@.len());
    }
    // Favicon hashes.
    if fingerprint.match_rules.favicon_hash.len() > 0 {
        if raw_data.favicon.len() == 0 {
            proof {
                assert(!favicon_rule_ok(fav_v, hash_v));
            }
            return false;
        }
        if !favicon_intersects(&raw_data.favicon, &fingerprint.match_rules.favicon_hash) {
            proof {
                assert(!favicon_rule_ok(fav_v, hash_v));
            }
            return false;
        }
    }
    proof {
        assert(favicon_rule_ok(fav_v, hash_v));
    }
    // Status code.
    if fingerprint.match_rules.status_code != 0 && raw_data.status_code
        != fingerprint.match_rules.status_code {
        return false;
    }
    // Headers.
    let matcher_part = header_to_string(&raw_data.headers);
    let matcher_lower = lowercase(matcher_part.as_str());
    let mut i: usize = 0;
    while i < fingerprint.match_rules.headers.len()
        invariant
            i <= fingerprint.match_rules.headers.len(),
            matcher_part@ == headers_block(raw_data.headers.deep_view()),
            matcher_lower@ == lower_of(headers_block(raw_data.headers.deep_view())),
            forall|t: int| 0 <= t < i ==> #[trigger] header_rule_ok(
                raw_data.headers.deep_view(),
                fingerprint.match_rules.headers.deep_view()[t].0,
                fingerprint.match_rules.headers.deep_view()[t].1,
            ),
        decreases fingerprint.match_rules.headers.len() - i,
    {
        let k = &fingerprint.match_rules.headers[i].0;
        let v = &fingerprint.match_rules.headers[i].1;
        let ghost hv = raw_data.headers.deep_view();
        let ghost ev = fingerprint.match_rules.headers.deep_view();
        proof {
            assert(ev[i as int].0 == k@ && ev[i as int].1 == v@);
        }
        if str_eq(k.as_str(), "set-cookie") {
            if !contains_substr(matcher_part.as_str(), v.as_str()) {
                proof {
                    assert(!header_rule_ok(hv, ev[i as int].0, ev[i as int].1));
                }
                return false;
            }
        } else {
            if !header_has_key(&raw_data.headers, k) {
                proof {
                    assert(!header_rule_ok(hv, ev[i as int].0, ev[i as int].1));
                }
                return false;
            }
            if !str_eq(v.as_str(), "*") {
                let v_lower = lowercase(v.as_str());
                if !contains_substr(matcher_lower.as_str(), v_lower.as_str()) {
                    proof {
                        assert(!header_rule_ok(hv, ev[i as int].0, ev[i as int].1));
                    }
                    return false;
                }
            }
        }
        proof {
            assert(header_rule_ok(hv, ev[i as int].0, ev[i as int].1));
        }
        i += 1;
    }
    // Keywords.
    let mut j: usize = 0;
    while j < fingerprint.match_rules.keyword.len()
        invariant
            j <= fingerprint.match_rules.keyword.len(),
            headers_ok(raw_data.headers.deep_view(), fingerprint.match_rules.headers.deep_view()),
            forall|t: int| 0 <= t < j ==> contains_seq(
                raw_data.text@,
                lower_of(#[trigger] fingerprint.match_rules.keyword.deep_view()[t]),
            ),
        decreases fingerprint.match_rules.keyword.len() - j,
    {
        let kw_lower = lowercase(fingerprint.match_rules.keyword[j].as_str());
        if !contains_substr(raw_data.text.as_str(), kw_lower.as_str()) {
            proof {
                let kv = fingerprint.match_rules.keyword.deep_view();
                assert(kv[j as int] == fingerprint.match_rules.keyword@[j as int]@);
                assert(!keywords_ok(raw_data.text@, kv));
            }
            return false;
        }
        j += 1;
    }
    true
}

/// Keys occur at most once.
pub open spec fn unique_keys(ps: Seq<(Seq<char>, u32)>) -> bool {
    forall|i: int, j: int| 0 <= i < j < ps.len() ==> ps[i].0 != ps[j].0
}

/// The name-to-priority mapping a pair list denotes (later pairs win).
pub open spec fn pairs_to_map(ps: Seq<(Seq<char>, u32)>) -> Map<Seq<char>, u32>
    decreases ps.len(),
{
    if ps.len() == 0 {
        Map::empty()
    } else {
        pairs_to_map(ps.drop_last()).insert(ps.last().0, ps.last().1)
    }
}

/// Folds one rule group over the snapshot: each matched rule writes its name
/// and priority, a later writer overriding an earlier one.
pub open spec fn merge_onto(
    m: Map<Seq<char>, u32>,
    raw: RawData,
    rules: Seq<V3WebFingerPrint>,
) -> Map<Seq<char>, u32>
    decreases rules.len(),
{
    if rules.len() == 0 {
        m
    } else {
        let prev = merge_onto(m, raw, rules.drop_last());
        if rule_matches(raw, rules.last()) {
            prev.insert(rules.last().name@, rules.last().priority)
        } else {
            prev
        }
    }
}

/// What `check` returns: the special rules, then the index rules, then — only
/// when a favicon hash was collected — the favicon rules, folded in order.
pub open spec fn check_spec(raw: RawData, lib: WebFingerPrintLib) -> Map<Seq<char>, u32> {
    let m1 = merge_onto(Map::empty(), raw, lib.special@);
    let m2 = merge_onto(m1, raw, lib.index@);
    if raw.favicon@.len() > 0 {
        merge_onto(m2, raw, lib.favicon@)
    } else {
        m2
    }
}

/// Some pair carries exactly this key.
pub open spec fn ps_has_key(ps: Seq<(Seq<char>, u32)>, k: Seq<char>) -> bool {
    exists|i: int| 0 <= i < ps.len() && (#[trigger] ps[i]).0 == k
}

proof fn lemma_pairs_domain(ps: Seq<(Seq<char>, u32)>)
    ensures
        forall|k: Seq<char>|
            #[trigger] pairs_to_map(ps).contains_key(k) <==> ps_has_key(ps, k),
    decreases ps.len(),
{
    if ps.len() > 0 {
        lemma_pairs_domain(ps.drop_last());
        assert forall|k: Seq<char>| #[trigger] pairs_to_map(ps).contains_key(k) implies ps_has_key(
            ps,
            k,
        ) by {
            if k == ps.last().0 {
                assert((ps[ps.len() - 1]).0 == k);
            } else {
                assert(pairs_to_map(ps.drop_last()).contains_key(k));
                assert(ps_has_key(ps.drop_last(), k));
                let i = choose|i: int|
                    0 <= i < ps.drop_last().len() && (#[trigger] ps.drop_last()[i]).0 == k;
                assert(ps.drop_last()[i] == ps[i]);
                assert((ps[i]).0 == k);
            }
        }
        assert forall|k: Seq<char>| ps_has_key(ps, k) implies #[trigger] pairs_to_map(
            ps,
        ).contains_key(k) by {
            let i = choose|i: int| 0 <= i < ps.len() && (#[trigger] ps[i]).0 == k;
            if i < ps.len() - 1 {
                assert(ps.drop_last()[i] == ps[i]);
                assert(ps_has_key(ps.drop_last(), k));
                assert(pairs_to_map(ps.drop_last()).contains_key(k));
                assert(pairs_to_map(ps).contains_key(k));
            } else {
                assert(k == ps.last().0);
                assert(pairs_to_map(ps).contains_key(k));
            }
        }
    }
}

proof fn lemma_pairs_remove(ps: Seq<(Seq<char>, u32)>, idx: int)
    requires
        unique_keys(ps),
        0 <= idx < ps.len(),
    ensures
        pairs_to_map(ps.remove(idx)) == pairs_to_map(ps).remove(ps[idx].0),
        unique_keys(ps.remove(idx)),
        forall|t: int|
            0 <= t < ps.remove(idx).len() ==> (#[trigger] ps.remove(idx)[t]).0 != ps[idx].0,
    decreases ps.len(),
{
    let k = ps[idx].0;
    assert forall|t: int|
        0 <= t < ps.remove(idx).len() implies (#[trigger] ps.remove(idx)[t]).0 != k by {
        if t < idx {
            assert(ps.remove(idx)[t] == ps[t]);
        } else {
            assert(ps.remove(idx)[t] == ps[t + 1]);
        }
    }
    assert forall|a: int, b: int|
        0 <= a < b < ps.remove(idx).len() implies (ps.remove(idx)[a]).0
        != (ps.remove(idx)[b]).0 by {
        let a0: int = if a < idx { a } else { a + 1 };
        let b0: int = if b < idx { b } else { b + 1 };
        assert(ps.remove(idx)[a] == ps[a0]);
        assert(ps.remove(idx)[b] == ps[b0]);
    }
    if idx == ps.len() - 1 {
        assert(ps.remove(idx) =~= ps.drop_last());
        lemma_pairs_domain(ps.drop_last());
        assert(!ps_has_key(ps.drop_last(), k));
        assert(!pairs_to_map(ps.drop_last()).contains_key(k));
        assert(pairs_to_map(ps.drop_last()).insert(k, ps.last().1).remove(k) =~= pairs_to_map(
            ps.drop_last(),
        ));
    } else {
        assert(unique_keys(ps.drop_last()));
        lemma_pairs_remove(ps.drop_last(), idx);
        assert(ps.remove(idx).drop_last() =~= ps.drop_last().remove(idx));
        assert(ps.remove(idx).last() == ps.last());
        assert(ps.last().0 != k);
        assert(pairs_to_map(ps.drop_last()).remove(k).insert(ps.last().0, ps.last().1)
            =~= pairs_to_map(ps.drop_last()).insert(ps.last().0, ps.last().1).remove(k));
    }
}

/// Writes `name -> priority`, replacing an earlier entry of the same name.
fn upsert(out: &mut Vec<(String, u32)>, name: String, priority: u32)
    requires
        unique_keys(old(out).deep_view()),
    ensures
        unique_keys(final(out).deep_view()),
        pairs_to_map(final(out).deep_view()) == pairs_to_map(old(out).deep_view()).insert(
            name@,
            priority,
        ),
{
    let ghost ps0 = out.deep_view();
    let found = find_key(out, &name);
    match found {
        Some(idx) => {
            proof {
                lemma_pairs_remove(ps0, idx as int);
            }
            out.remove(idx);
            proof {
                assert(out.deep_view() =~= ps0.remove(idx as int));
            }
            out.push((name, priority));
            proof {
                let ps2 = out.deep_view();
                assert(ps2.drop_last() =~= ps0.remove(idx as int));
                assert(ps2.last().0 == name@ && ps2.last().1 == priority);
                assert(pairs_to_map(ps2) =~= pairs_to_map(ps0).insert(name@, priority));
                assert forall|a: int, b: int| 0 <= a < b < ps2.len() implies (ps2[a]).0
                    != (ps2[b]).0 by {
                    if b == ps2.len() - 1 {
                        assert(ps2[a] == ps0.remove(idx as int)[a]);
                        assert((ps0.remove(idx as int)[a]).0 != name@);
                    } else {
                        assert(ps2[a] == ps0.remove(idx as int)[a]);
                        assert(ps2[b] == ps0.remove(idx as int)[b]);
                    }
                }
            }
        },
        None => {
            out.push((name, priority));
            proof {
                let ps2 = out.deep_view();
                assert(ps2.drop_last() =~= ps0);
                assert(ps2.last().0 == name@ && ps2.last().1 == priority);
                assert forall|a: int, b: int| 0 <= a < b < ps2.len() implies (ps2[a]).0
                    != (ps2[b]).0 by {
                    if b == ps2.len() - 1 {
                        assert(ps2[a] == ps0[a]);
                        assert((ps0[a]).0 != name@);
                    } else {
                        assert(ps2[a] == ps0[a]);
                        assert(ps2[b] == ps0[b]);
                    }
                }
            }
        },
    }
}

/// Index of the entry that carries this name, when one does.
fn find_key(out: &Vec<(String, u32)>, name: &String) -> (r: Option<usize>)
    ensures
        match r {
            Some(i) => i < out.deep_view().len() && out.deep_view()[i as int].0 == name@,
            None => forall|t: int| 0 <= t < out.deep_view().len() ==> (#[trigger] out.deep_view()[t]).0
                != name@,
        },
{
    let mut i: usize = 0;
    while i < out.len()
        invariant
            i <= out.len(),
            forall|t: int| 0 <= t < i ==> (#[trigger] out.deep_view()[t]).0 != name@,
        decreases out.len() - i,
    {
        if str_eq(out[i].0.as_str(), name.as_str()) {
            proof {
                assert(out.deep_view()[i as int].0 == name@);
            }
            return Some(i);
        }
        i += 1;
    }
    None
}

/// Evaluates one rule group in order, writing each match into `out`.
fn scan_group(out: &mut Vec<(String, u32)>, raw_data: &RawData, rules: &Vec<V3WebFingerPrint>)
    requires
        unique_keys(old(out).deep_view()),
    ensures
        unique_keys(final(out).deep_view()),
        pairs_to_map(final(out).deep_view()) == merge_onto(
            pairs_to_map(old(out).deep_view()),
            *raw_data,
            rules@,
        ),
{
    let ghost m0 = pairs_to_map(old(out).deep_view());
    let mut i: usize = 0;
    while i < rules.len()
        invariant
            i <= rules.len(),
            unique_keys(out.deep_view()),
            pairs_to_map(out.deep_view()) == merge_onto(
                m0,
                *raw_data,
                rules@.subrange(0, i as int),
            ),
        decreases rules.len() - i,
    {
        if what_web(raw_data, &rules[i]) {
            let name = rules[i].name.clone();
            upsert(out, name, rules[i].priority);
        }
        i += 1;
        proof {
            assert(rules@.subrange(0, i as int).drop_last() =~= rules@.subrange(0, i - 1));
            assert(rules@.subrange(0, i as int).last() == rules@[i - 1]);
        }
    }
    proof {
        assert(rules@.subrange(0, rules@.len() as int) =~= rules@);
    }
}

/// Evaluates the whole library over one snapshot and aggregates the matches:
/// special rules, then index rules, then — only when the snapshot collected a
/// favicon hash — favicon rules; a matched rule writes `name -> priority`,
/// the last writer winning.
pub fn check(raw_data: &RawData, fingerprint_lib: &WebFingerPrintLib) -> (r: Vec<(String, u32)>)
    ensures
        unique_keys(r.deep_view()),
        pairs_to_map(r.deep_view()) == check_spec(*raw_data, *fingerprint_lib),
{
    let mut web_name_set: Vec<(String, u32)> = Vec::new();
    proof {
        assert(web_name_set.deep_view() =~= Seq::<(Seq<char>, u32)>::empty());
        assert(pairs_to_map(web_name_set.deep_view()) =~= Map::<Seq<char>, u32>::empty());
    }
    scan_group(&mut web_name_set, raw_data, &fingerprint_lib.special);
    scan_group(&mut web_name_set, raw_data, &fingerprint_lib.index);
    if raw_data.favicon.len() > 0 {
        scan_group(&mut web_name_set, raw_data, &fingerprint_lib.favicon);
    }
    web_name_set
}

/// One decimal digit.
pub open spec fn digit_char(n: nat) -> char
    recommends
        n < 10,
{
    (('0' as u8) + n as u8) as char
}

/// Decimal rendering of a number, most significant digit first.
pub open spec fn dec_of(n: nat) -> Seq<char>
    decreases n,
{
    if n < 10 {
        seq![digit_char(n)]
    } else {
        dec_of(n / 10).push(digit_char(n % 10))
    }
}

/// Renders a number in decimal.
pub fn u16_to_dec(n: u16) -> (r: String)
    ensures
        r@ == dec_of(n as nat),
    decreases n,
{
    if n < 10 {
        let mut s = String::new();
        crate::deps::push_char(&mut s, (('0' as u8) + (n as u8)) as char);
        proof {
            assert(s@ =~= seq![digit_char(n as nat)]);
        }
        s
    } else {
        let mut s = u16_to_dec(n / 10);
        crate::deps::push_char(&mut s, (('0' as u8) + ((n % 10) as u8)) as char);
        s
    }
}

/// The report a snapshot renders to: the joined URL line, the labelled
/// header block, the status code, the body text, a favicon block only when
/// one was collected, and a next-hop line only when one was found.
pub open spec fn render_spec(raw: RawData) -> Seq<char> {
    let url_line = match crate::deps::url_join_of(raw.url@, raw.path@) {
        Some(u) => "Url: "@ + u + "\r\n"@,
        None => Seq::<char>::empty(),
    };
    let headers_part = "Headers:\r\n"@ + headers_block(raw.headers.deep_view());
    let status_part = "StatusCode: "@ + dec_of(raw.status_code as nat) + "\r\n"@;
    let text_part = "Text:\r\n"@ + raw.text@ + "\r\n"@;
    let fav_part = if raw.favicon@.len() > 0 {
        "Favicon:\r\n"@ + headers_block(raw.favicon.deep_view())
    } else {
        Seq::<char>::empty()
    };
    let next_part = match raw.next_url {
        Some(u) => "NextUrl: "@ + u@ + "\r\n"@,
        None => Seq::<char>::empty(),
    };
    url_line + headers_part + status_part + text_part + fav_part + next_part
}

impl RawData {
    /// Renders the snapshot as its human-readable report.
    pub fn display_string(&self) -> (r: String)
        ensures
            r@ == render_spec(*self),
    {
        let mut s = String::new();
        match crate::deps::join_url(self.url.as_str(), self.path.as_str()) {
            Some(u) => {
                s.append("Url: ");
                s.append(u.as_str());
                s.append("\r\n");
            },
            None => {},
        }
        s.append("Headers:\r\n");
        let hb = header_to_string(&self.headers);
        s.append(hb.as_str());
        s.append("StatusCode: ");
        let sc = u16_to_dec(self.status_code);
        s.append(sc.as_str());
        s.append("\r\n");
        s.append("Text:\r\n");
        s.append(self.text.as_str());
        s.append("\r\n");
        if self.favicon.len() > 0 {
            s.append("Favicon:\r\n");
            let fb = header_to_string(&self.favicon);
            s.append(fb.as_str());
        }
        match &self.next_url {
            Some(u) => {
                s.append("NextUrl: ");
                s.append(u.as_str());
                s.append("\r\n");
            },
            None => {},
        }
        proof {
            assert(s@ =~= render_spec(*self));
        }
        s
    }
}

/// A rule that declares favicon hashes never matches a snapshot whose
/// favicon-hash set is empty.
pub proof fn lemma_favicon_rule_needs_hashes(raw: RawData, rule: V3WebFingerPrint)
    requires
        raw.favicon@.len() == 0,
        rule.match_rules.favicon_hash@.len() > 0,
    ensures
        !rule_matches(raw, rule),
{
    assert(raw.favicon.deep_view().len() == 0);
    assert(rule.match_rules.favicon_hash.deep_view().len() > 0);
}

/// A rule whose expected status code is zero is never rejected by the
/// status-code check.
pub proof fn lemma_status_zero_never_rejects(status: u16, rule: V3WebFingerPrint)
    requires
        rule.match_rules.status_code == 0,
    ensures
        status_rule_ok(status, rule.match_rules.status_code),
{
}

/// Key presence is exact while the value check is on the (lower-cased)
/// block: an expectation `k: *` on an ordinary header name holds exactly
/// when the key is present, whatever its value, and no expectation on an
/// absent ordinary key can hold.
pub proof fn lemma_header_wildcard(
    hs: Seq<(Seq<char>, Seq<char>)>,
    k: Seq<char>,
    v: Seq<char>,
)
    requires
        k != "set-cookie"@,
    ensures
        header_rule_ok(hs, k, "*"@) <==> has_header_key(hs, k),
        !has_header_key(hs, k) ==> !header_rule_ok(hs, k, v),
{
}

/// Keyword matching is conjunctive: one absent keyword defeats the rule.
pub proof fn lemma_keywords_all_required(raw: RawData, rule: V3WebFingerPrint, i: int)
    requires
        0 <= i < rule.match_rules.keyword@.len(),
        !contains_seq(raw.text@, lower_of(rule.match_rules.keyword.deep_view()[i])),
    ensures
        !rule_matches(raw, rule),
{
}

/// Matching is a pure function of snapshot and library: any two results of
/// `check` over the same snapshot and the same library denote the same
/// name-to-priority mapping.
pub proof fn lemma_check_idempotent(
    r1: Seq<(Seq<char>, u32)>,
    r2: Seq<(Seq<char>, u32)>,
    raw: RawData,
    lib: WebFingerPrintLib,
)
    requires
        pairs_to_map(r1) == check_spec(raw, lib),
        pairs_to_map(r2) == check_spec(raw, lib),
    ensures
        pairs_to_map(r1) == pairs_to_map(r2),
{
}

} // verus!
