//! The fingerprint data model: request templates, match conditions, rules and
//! the rule library the matching engine consumes.

use vstd::prelude::*;

verus! {

/// How a target is probed: the per-exchange timeout in seconds and a proxy
/// address (empty = no proxy).
pub struct RequestOption {
    pub timeout: u64,
    pub proxy: String,
}

impl RequestOption {
    pub fn new(timeout: &u64, proxy: &str) -> (r: RequestOption)
        ensures
            r.timeout == *timeout,
            r.proxy@ == proxy@,
    {
        RequestOption { timeout: *timeout, proxy: proxy.to_owned() }
    }
}

/// The request template of one fingerprint rule: how to probe a target.
/// `request_data` is the request body in its base64 transport encoding.
pub struct WebFingerPrintRequest {
    pub path: String,
    pub request_method: String,
    pub request_headers: Vec<(String, String)>,
    pub request_data: String,
}

/// The match conditions of one rule. A `status_code` of zero means "any";
/// `keyword` entries are already lower-cased at rule-construction time.
pub struct MatchRules {
    pub favicon_hash: Vec<String>,
    pub status_code: u16,
    pub headers: Vec<(String, String)>,
    pub keyword: Vec<String>,
}

/// One named fingerprint rule: its priority (higher = more specific), its
/// match conditions, and the request used to elicit the probed response.
pub struct V3WebFingerPrint {
    pub name: String,
    pub priority: u32,
    pub request: WebFingerPrintRequest,
    pub match_rules: MatchRules,
}

/// The rule library: "special" rules always probed with their own request,
/// "index" rules evaluated on the home-page snapshot, and "favicon" rules
/// evaluated only when a favicon hash was collected.
pub struct WebFingerPrintLib {
    pub special: Vec<V3WebFingerPrint>,
    pub index: Vec<V3WebFingerPrint>,
    pub favicon: Vec<V3WebFingerPrint>,
}

} // verus!
