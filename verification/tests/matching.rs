use what_web::fingerprint::{MatchRules, V3WebFingerPrint, WebFingerPrintLib, WebFingerPrintRequest};
use what_web::ward::{check, header_to_string, what_web, RawData};

fn template() -> WebFingerPrintRequest {
    WebFingerPrintRequest {
        path: String::from("/"),
        request_method: String::from("get"),
        request_headers: Vec::new(),
        request_data: String::new(),
    }
}

fn rule(name: &str, priority: u32, m: MatchRules) -> V3WebFingerPrint {
    V3WebFingerPrint {
        name: String::from(name),
        priority,
        request: template(),
        match_rules: m,
    }
}

fn kw_rules(word: &str) -> MatchRules {
    let mut m = empty_rules();
    m.keyword.push(String::from(word));
    m
}

fn empty_rules() -> MatchRules {
    MatchRules {
        favicon_hash: Vec::new(),
        status_code: 0,
        headers: Vec::new(),
        keyword: Vec::new(),
    }
}

fn snapshot() -> RawData {
    RawData {
        url: String::from("https://example.com/"),
        path: String::from("/"),
        headers: vec![
            (String::from("x-powered-by"), String::from("PHP/7.4.3")),
            (String::from("set-cookie"), String::from("PHPSESSID=abc; path=/")),
        ],
        status_code: 200,
        text: String::from("<html>powered by wordpress</html>"),
        favicon: Vec::new(),
        next_url: None,
    }
}

#[test]
fn favicon_rule_rejects_snapshot_without_hashes() {
    let mut m = empty_rules();
    m.favicon_hash.push(String::from("d41d8cd98f00b204e9800998ecf8427e"));
    let r = rule("icon-tech", 3, m);
    let raw = snapshot();
    assert!(raw.favicon.is_empty());
    assert!(!what_web(&raw, &r));
}

#[test]
fn favicon_rule_matches_on_intersection() {
    let mut m = empty_rules();
    m.favicon_hash.push(String::from("aaaa"));
    m.favicon_hash.push(String::from("bbbb"));
    let r = rule("icon-tech", 3, m);
    let mut raw = snapshot();
    raw.favicon.push((String::from("https://example.com/favicon.ico"), String::from("bbbb")));
    assert!(what_web(&raw, &r));
}

#[test]
fn status_zero_never_rejects() {
    let mut m = empty_rules();
    m.keyword.push(String::from("wordpress"));
    let r = rule("wp", 1, m);
    for status in [200u16, 301, 404, 500] {
        let mut raw = snapshot();
        raw.status_code = status;
        assert!(what_web(&raw, &r));
    }
}

#[test]
fn status_mismatch_rejects() {
    let mut m = empty_rules();
    m.status_code = 404;
    let r = rule("err-page", 1, m);
    let raw = snapshot();
    assert!(!what_web(&raw, &r));
}

#[test]
fn header_wildcard_needs_presence_only() {
    let mut m = empty_rules();
    m.headers.push((String::from("x-powered-by"), String::from("*")));
    let r = rule("php", 1, m);
    let raw = snapshot();
    assert!(what_web(&raw, &r));

    let mut bare = snapshot();
    bare.headers.clear();
    assert!(!what_web(&bare, &r));
}

#[test]
fn header_value_match_is_case_insensitive() {
    let mut m = empty_rules();
    m.headers.push((String::from("x-powered-by"), String::from("php")));
    let r = rule("php", 1, m);
    let raw = snapshot();
    // the header block holds "PHP/7.4.3"; the expected value is lower case
    assert!(what_web(&raw, &r));
}

#[test]
fn header_absent_rejects() {
    let mut m = empty_rules();
    m.headers.push((String::from("server"), String::from("nginx")));
    let r = rule("nginx", 1, m);
    let raw = snapshot();
    assert!(!what_web(&raw, &r));
}

#[test]
fn set_cookie_substring_is_exact() {
    let mut m = empty_rules();
    m.headers.push((String::from("set-cookie"), String::from("PHPSESSID")));
    let r = rule("php-session", 1, m);
    let raw = snapshot();
    assert!(what_web(&raw, &r));

    let mut m2 = empty_rules();
    // the block holds PHPSESSID in upper case; the set-cookie check is verbatim
    m2.headers.push((String::from("set-cookie"), String::from("phpsessid")));
    let r2 = rule("php-session", 1, m2);
    assert!(!what_web(&raw, &r2));
}

#[test]
fn keywords_are_conjunctive() {
    let mut m = empty_rules();
    m.keyword.push(String::from("powered by"));
    m.keyword.push(String::from("wordpress"));
    let r = rule("wp", 2, m);
    let raw = snapshot();
    assert!(what_web(&raw, &r));

    let mut m2 = empty_rules();
    m2.keyword.push(String::from("wordpress"));
    m2.keyword.push(String::from("drupal"));
    let r2 = rule("both", 2, m2);
    assert!(!what_web(&raw, &r2));
}

#[test]
fn keyword_match_lowers_the_keyword() {
    let mut m = empty_rules();
    m.keyword.push(String::from("WordPress"));
    let r = rule("wp", 2, m);
    let raw = snapshot();
    // the body text is pre-lowered; the keyword is lowered at match time
    assert!(what_web(&raw, &r));
}

#[test]
fn empty_rule_matches_everything() {
    let r = rule("anything", 1, empty_rules());
    let raw = snapshot();
    assert!(what_web(&raw, &r));
}

fn library(special: Vec<V3WebFingerPrint>, index: Vec<V3WebFingerPrint>, favicon: Vec<V3WebFingerPrint>) -> WebFingerPrintLib {
    WebFingerPrintLib { special, index, favicon }
}

#[test]
fn check_aggregates_groups() {
    let lib = library(
        vec![rule("special-wp", 5, kw_rules("wordpress"))],
        vec![rule("index-wp", 2, kw_rules("wordpress")), rule("absent", 2, {
            let mut m = empty_rules();
            m.keyword.push(String::from("drupal"));
            m
        })],
        vec![rule("fav-wp", 9, empty_rules())],
    );
    let raw = snapshot();
    let result = check(&raw, &lib);
    let names: Vec<&str> = result.iter().map(|p| p.0.as_str()).collect();
    assert!(names.contains(&"special-wp"));
    assert!(names.contains(&"index-wp"));
    // no favicon hash was collected: the favicon group is not evaluated
    assert!(!names.contains(&"fav-wp"));
    assert!(!names.contains(&"absent"));
}

#[test]
fn check_runs_favicon_group_only_with_hashes() {
    let lib = library(Vec::new(), Vec::new(), vec![rule("fav", 9, empty_rules())]);
    let mut raw = snapshot();
    raw.favicon.push((String::from("https://example.com/favicon.ico"), String::from("abcd")));
    let result = check(&raw, &lib);
    assert_eq!(result.len(), 1);
    assert_eq!(result[0].0, "fav");
    assert_eq!(result[0].1, 9);
}

#[test]
fn check_same_name_keeps_last_priority() {
    let lib = library(
        vec![rule("wp", 1, kw_rules("wordpress"))],
        vec![rule("wp", 7, kw_rules("wordpress"))],
        Vec::new(),
    );
    let raw = snapshot();
    let result = check(&raw, &lib);
    assert_eq!(result.len(), 1);
    assert_eq!(result[0].0, "wp");
    // the index group runs after the special group: the later writer wins
    assert_eq!(result[0].1, 7);
}

#[test]
fn check_is_idempotent() {
    let lib = library(
        vec![rule("wp", 1, kw_rules("wordpress")), rule("php", 2, {
            let mut m = empty_rules();
            m.headers.push((String::from("x-powered-by"), String::from("*")));
            m
        })],
        vec![rule("wp", 7, kw_rules("wordpress"))],
        Vec::new(),
    );
    let raw = snapshot();
    let first = check(&raw, &lib);
    let second = check(&raw, &lib);
    assert_eq!(first, second);
}

#[test]
fn header_block_renders_lines() {
    let headers = vec![
        (String::from("server"), String::from("nginx")),
        (String::from("x-a"), String::from("1")),
    ];
    assert_eq!(header_to_string(&headers), "server: nginx\r\nx-a: 1\r\n");
}

#[test]
fn display_string_layout() {
    let raw = RawData {
        url: String::from("https://example.com"),
        path: String::from("/"),
        headers: vec![(String::from("server"), String::from("nginx"))],
        status_code: 301,
        text: String::from("moved"),
        favicon: Vec::new(),
        next_url: Some(String::from("https://example.com/home")),
    };
    let s = raw.display_string();
    assert_eq!(
        s,
        "Url: https://example.com/\r\nHeaders:\r\nserver: nginx\r\nStatusCode: 301\r\nText:\r\nmoved\r\nNextUrl: https://example.com/home\r\n"
    );
}

