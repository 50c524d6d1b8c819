use url::Url;
use what_web::cache::SizedCache;
use what_web::fingerprint::WebFingerPrintRequest;
use what_web::request::{
    favicon_hash, favicon_response_ok, fetch_raw_data, get_charset_from_html,
    get_default_encoding, get_favicon_link, get_next_jump, get_title, next_fetch_state,
    normalize_method, prepare_request, scheme_urls, should_collect_favicons, snapshot_text,
    start_state, try_next_scheme,
};

#[test]
fn test_regex_icon() {
    let test_text_list = vec![
        (
            r#"<link rel="icon" href=/uistyle/themes/default/images/favicon.ico type="image/x-icon" />"#,
            "/uistyle/themes/default/images/favicon.ico",
        ),
        (r#"<link rel=icon href=/logo.png>"#, "/logo.png"),
    ];
    let base_url = "https://kali-team.cn";
    for (text, verify) in test_text_list {
        let mut flag = false;
        for link in get_favicon_link(text, base_url) {
            if Url::parse(&link).unwrap().path() == verify {
                flag = true;
            }
        }
        assert!(flag);
    }
}

#[test]
fn test_js_jump() {
    let test_text_list = vec![
        (
            r#"<script> window.location.replace("login.jsp?up=1");</script>"#,
            "login.jsp?up=1",
        ),
        (
            r#"<html><meta charset='utf-8'/><style>body{background:white}</style><script>self.location='/index.php?m=user&f=login&referer=lw==';</script>"#,
            "/index.php?m=user&f=login&referer=lw==",
        ),
        (
            r#"window.location.href = "../cgi-bin/login.cgi?requestname=2&cmd=0";"#,
            "/cgi-bin/login.cgi?requestname=2&cmd=0",
        ),
    ];
    let base_url = Url::parse("https://kali-team.cn").unwrap();
    let headers: Vec<(String, String)> = Vec::new();
    for (text, verify) in test_text_list {
        if let Some(next_url) = get_next_jump(&headers, base_url.as_str(), text) {
            let verify_url = base_url.join(verify).unwrap();
            assert_eq!(next_url, String::from(verify_url));
        } else {
            assert_eq!(verify, "");
        }
    }
}

#[test]
fn js_redirect_resolves_against_base() {
    let headers: Vec<(String, String)> = Vec::new();
    let next = get_next_jump(
        &headers,
        "https://example.com",
        r#"<script>window.location.replace("login.jsp?up=1");</script>"#,
    );
    assert_eq!(next.unwrap(), "https://example.com/login.jsp?up=1");
}

#[test]
fn location_header_beats_meta_refresh() {
    let headers = vec![(String::from("location"), String::from("https://a.example/next"))];
    let text = r#"<meta http-equiv="refresh" content="0;url=https://b.example/other">"#;
    let next = get_next_jump(&headers, "https://a.example", text);
    assert_eq!(next.unwrap(), "https://a.example/next");
}

#[test]
fn meta_refresh_is_case_insensitive() {
    let headers: Vec<(String, String)> = Vec::new();
    let text = r#"<meta HTTP-EQUIV="Refresh" content="0;url=/next.html">"#;
    let next = get_next_jump(&headers, "https://a.example", text);
    assert_eq!(next.unwrap(), "https://a.example/next.html");
}

#[test]
fn long_body_suppresses_js_heuristic() {
    let headers: Vec<(String, String)> = Vec::new();
    let mut text = String::from(r#"<script>window.location.replace("login.jsp");</script>"#);
    while text.len() <= 1024 {
        text.push_str("<!-- padding padding padding -->");
    }
    assert_eq!(get_next_jump(&headers, "https://a.example", &text), None);
}

#[test]
fn charset_cascade_prefers_meta_tag() {
    // GBK-encoded body declaring its own charset; no Content-Type parameter.
    let mut body: Vec<u8> = Vec::new();
    body.extend_from_slice(b"<html><meta charset=\"gbk\"><body>");
    body.extend_from_slice(&[0xD6, 0xD0]); // GBK for a CJK character
    body.extend_from_slice(b"</body></html>");
    let headers = vec![(String::from("content-type"), String::from("text/html"))];
    let text = get_default_encoding(&body, &headers);
    assert!(text.contains('\u{4e2d}'));
}

#[test]
fn charset_falls_back_to_content_type_parameter() {
    let mut body: Vec<u8> = Vec::new();
    body.extend_from_slice(b"<html><body>");
    body.extend_from_slice(&[0xD6, 0xD0]);
    body.extend_from_slice(b"</body></html>");
    let headers = vec![(
        String::from("content-type"),
        String::from("text/html; charset=gbk"),
    )];
    let text = get_default_encoding(&body, &headers);
    assert!(text.contains('\u{4e2d}'));
}

#[test]
fn charset_from_html_takes_last_declaration() {
    let text = r#"<meta charset="utf-8"><meta charset="gbk">"#;
    assert_eq!(get_charset_from_html(text).unwrap(), "gbk");
    assert_eq!(get_charset_from_html("<p>nothing</p>"), None);
}

#[test]
fn scheme_fallback_for_bare_target() {
    let urls = scheme_urls("example.com");
    assert_eq!(urls, vec!["https://example.com", "http://example.com"]);
    // the second scheme runs exactly when the first produced no snapshot
    assert!(try_next_scheme(false, 0));
    assert!(!try_next_scheme(false, 1));
    assert!(!try_next_scheme(true, 0));
}

#[test]
fn explicit_scheme_is_probed_once() {
    let urls = scheme_urls("HTTPS://example.com");
    assert_eq!(urls, vec!["HTTPS://example.com"]);
    let urls = scheme_urls("http://example.com");
    assert_eq!(urls, vec!["http://example.com"]);
}

#[test]
fn redirect_chain_stops_after_five_hops() {
    // a chain of six onward redirects: the initial snapshot plus five hops
    let mut st = start_state("https://a.example/0");
    let mut snapshots: usize = 1;
    loop {
        let next = Some(format!("https://a.example/{}", snapshots));
        match next_fetch_state(&st, true, &next) {
            Some(n) => {
                st = n;
                snapshots += 1;
            }
            None => break,
        }
    }
    assert_eq!(snapshots, 6);
}

#[test]
fn non_index_probe_never_follows() {
    let st = start_state("https://a.example/");
    let next = Some(String::from("https://a.example/next"));
    assert!(next_fetch_state(&st, false, &next).is_none());
    assert!(next_fetch_state(&st, true, &None).is_none());
}

#[test]
fn prepare_request_shapes_the_probe() {
    let tpl = WebFingerPrintRequest {
        path: String::from("/admin/login"),
        request_method: String::from("post"),
        request_headers: vec![(String::from("X-Custom"), String::from("1"))],
        request_data: String::from("aGVsbG8="),
    };
    let p = prepare_request("https://example.com/", &tpl).unwrap();
    assert_eq!(p.url, "https://example.com/admin/login");
    assert_eq!(p.method, "POST");
    assert_eq!(p.body, b"hello");
    let ua = p.headers.iter().find(|h| h.0 == "user-agent").unwrap();
    assert!(ua.1.contains("Mozilla/5.0"));
    let cookie = p.headers.iter().find(|h| h.0 == "cookie").unwrap();
    assert_eq!(cookie.1, "rememberMe=admin;rememberMe-K=admin");
    let custom = p.headers.iter().find(|h| h.0 == "x-custom").unwrap();
    assert_eq!(custom.1, "1");
}

#[test]
fn prepare_request_root_path_keeps_url() {
    let tpl = WebFingerPrintRequest {
        path: String::from("/"),
        request_method: String::from("GET"),
        request_headers: Vec::new(),
        request_data: String::new(),
    };
    let p = prepare_request("https://example.com/deep/page", &tpl).unwrap();
    assert_eq!(p.url, "https://example.com/deep/page");
    assert!(p.body.is_empty());
}

#[test]
fn prepare_request_rejects_unparseable_url() {
    let tpl = WebFingerPrintRequest {
        path: String::from("/x"),
        request_method: String::from("GET"),
        request_headers: Vec::new(),
        request_data: String::new(),
    };
    assert!(prepare_request("not a url", &tpl).is_none());
}

#[test]
fn bad_base64_body_becomes_empty() {
    let tpl = WebFingerPrintRequest {
        path: String::from("/"),
        request_method: String::from("GET"),
        request_headers: Vec::new(),
        request_data: String::from("!!not-base64!!"),
    };
    let p = prepare_request("https://example.com/", &tpl).unwrap();
    assert!(p.body.is_empty());
}

#[test]
fn unrecognized_method_falls_back_to_get() {
    assert_eq!(normalize_method("delete"), "DELETE");
    assert_eq!(normalize_method("p@st"), "GET");
    assert_eq!(normalize_method(""), "GET");
}

#[test]
fn favicon_hash_is_md5_hex() {
    assert_eq!(favicon_hash(b""), "d41d8cd98f00b204e9800998ecf8427e");
    assert_eq!(favicon_hash(b"abc"), "900150983cd24fb0d6963f7d28e17f72");
}

#[test]
fn favicon_keep_needs_ok_image() {
    let image = vec![(String::from("content-type"), String::from("image/png"))];
    let html = vec![(String::from("content-type"), String::from("text/html"))];
    assert!(favicon_response_ok(200, &image));
    assert!(!favicon_response_ok(404, &image));
    assert!(!favicon_response_ok(200, &html));
}

#[test]
fn favicon_discovery_only_on_index_without_server_error() {
    assert!(should_collect_favicons(true, 200));
    assert!(should_collect_favicons(true, 404));
    assert!(!should_collect_favicons(true, 500));
    assert!(!should_collect_favicons(true, 503));
    assert!(!should_collect_favicons(false, 200));
}

#[test]
fn favicon_link_adds_default_and_dedupes() {
    let links = get_favicon_link(
        r#"<link rel="icon" href="/favicon.ico"><link rel="shortcut icon" href="/favicon.ico">"#,
        "https://example.com",
    );
    assert_eq!(links, vec![String::from("https://example.com/favicon.ico")]);
}

#[test]
fn image_response_becomes_favicon_snapshot() {
    let headers = vec![(String::from("content-type"), String::from("image/x-icon"))];
    let (text, favicon) = snapshot_text("https://example.com/favicon.ico", &headers, b"abc");
    assert_eq!(text, "");
    assert_eq!(
        favicon,
        vec![(
            String::from("https://example.com/favicon.ico"),
            String::from("900150983cd24fb0d6963f7d28e17f72")
        )]
    );
}

#[test]
fn fetch_raw_data_lowers_text_and_resolves_next() {
    let headers = vec![(String::from("location"), String::from("/next"))];
    let raw = fetch_raw_data(
        String::from("https://example.com/"),
        String::from("/"),
        headers,
        302,
        String::from("Moved To NEXT"),
        Vec::new(),
    );
    assert_eq!(raw.text, "moved to next");
    assert_eq!(raw.next_url.as_deref(), Some("https://example.com/next"));
    assert_eq!(raw.status_code, 302);
}

#[test]
fn title_cascade() {
    assert_eq!(get_title("<title>  Hello World </title>"), "Hello World");
    assert_eq!(get_title(r#"<title _html="Attr Title"></title>"#), "Attr Title");
    assert_eq!(
        get_title(r#"<meta property="title" content=" Meta Title "/>"#),
        "Meta Title"
    );
    assert_eq!(get_title("<p>no title</p>"), "");
}

#[test]
fn sized_cache_evicts_least_recently_used() {
    let mut cache: SizedCache<u32> = SizedCache::with_size(2);
    cache.insert(String::from("a"), 1);
    cache.insert(String::from("b"), 2);
    // touching "a" makes "b" the eviction candidate
    let ia = cache.get_index("a").unwrap();
    cache.touch(ia);
    cache.insert(String::from("c"), 3);
    assert!(cache.get_index("b").is_none());
    let ia = cache.get_index("a").unwrap();
    assert_eq!(*cache.value(ia), 1);
    let ic = cache.get_index("c").unwrap();
    assert_eq!(*cache.value(ic), 3);
}

#[test]
fn sized_cache_replaces_same_key() {
    let mut cache: SizedCache<u32> = SizedCache::with_size(2);
    cache.insert(String::from("a"), 1);
    cache.insert(String::from("a"), 9);
    let ia = cache.get_index("a").unwrap();
    assert_eq!(*cache.value(ia), 9);
}

#[test]
fn template_header_overrides_default() {
    let tpl = WebFingerPrintRequest {
        path: String::from("/"),
        request_method: String::from("GET"),
        request_headers: vec![(String::from("User-Agent"), String::from("curl/8"))],
        request_data: String::new(),
    };
    let p = prepare_request("https://example.com/", &tpl).unwrap();
    let ua: Vec<&(String, String)> =
        p.headers.iter().filter(|h| h.0 == "user-agent").collect();
    assert_eq!(ua.len(), 1);
    assert_eq!(ua[0].1, "curl/8");
}

#[test]
fn favicon_link_keeps_absolute_href() {
    let links = get_favicon_link(
        r#"<link rel="icon" href="https://cdn.example.com/icon.png">"#,
        "https://example.com",
    );
    assert!(links.contains(&String::from("https://cdn.example.com/icon.png")));
    assert!(links.contains(&String::from("https://example.com/favicon.ico")));
    assert_eq!(links.len(), 2);
}

#[test]
fn meta_refresh_without_equals_is_skipped() {
    let headers: Vec<(String, String)> = Vec::new();
    let text = r#"<meta http-equiv="refresh" content="5"><meta http-equiv="refresh" content="0;url=/go">"#;
    let next = get_next_jump(&headers, "https://a.example", text);
    assert_eq!(next.unwrap(), "https://a.example/go");
}
