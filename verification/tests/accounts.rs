use calrs::basecamp::{
    account_from_parts, account_url, calendar_id, split_account_url, split_calendar_id,
    validate_url, BasecampProvider, DEFAULT_PAGE_BUDGET,
};
use calrs::web::{first_path_segment, UrlParts};

#[test]
fn splits_account_url() {
    let (base, account) = split_account_url("https://3.basecampapi.com/1234567").unwrap();
    assert_eq!(base, "https://3.basecampapi.com");
    assert_eq!(account, "1234567");
}

#[test]
fn splits_account_url_with_trailing_slash_and_json() {
    let (_, account) = split_account_url("https://3.basecampapi.com/1234567/").unwrap();
    assert_eq!(account, "1234567");
    let (_, account) = split_account_url("https://3.basecampapi.com/1234567.json").unwrap();
    assert_eq!(account, "1234567");
}

#[test]
fn rejects_account_url_without_account_id() {
    assert!(split_account_url("https://3.basecampapi.com/").is_err());
    assert!(split_account_url("https://3.basecampapi.com").is_err());
}

#[test]
fn rejects_non_numeric_account_id() {
    // A pasted app URL (`/projects/...`) would otherwise be accepted and
    // every request would 404 with no hint as to why.
    assert!(split_account_url("https://3.basecampapi.com/my-account").is_err());
}

#[test]
fn account_url_round_trips() {
    let url = account_url("999");
    let (_, id) = split_account_url(&url).unwrap();
    assert_eq!(id, "999");
}

#[test]
fn account_urls_keep_scheme_host_and_port() {
    let (base, account) = split_account_url("  http://LOCALHOST:8080/42/x  ").unwrap();
    assert_eq!(base, "http://localhost:8080");
    assert_eq!(account, "42");
    let (base, _) = split_account_url("https://proxy.test:443/42.json.json").unwrap();
    assert_eq!(base, "https://proxy.test");
    let long = "7".repeat(40);
    assert_eq!(
        split_account_url(&account_url(&long)).unwrap(),
        ("https://3.basecampapi.com".to_string(), long)
    );
}

#[test]
fn account_url_failures_name_what_is_wrong() {
    let message = |url: &str| split_account_url(url).unwrap_err().message();
    assert_eq!(message(" nonsense"), "Invalid URL:  nonsense");
    assert_eq!(
        message("https://3.basecampapi.com/.json"),
        "Basecamp URL must include the account id, e.g. https://3.basecampapi.com/1234567"
    );
    assert_eq!(
        message("https://3.basecampapi.com/my-account"),
        "Basecamp account id must be numeric, got 'my-account' (expected https://3.basecampapi.com/1234567)"
    );
    assert_eq!(message("basecamp:/7"), "Basecamp URL has no host");
    assert_eq!(
        message("mailto:7"),
        "Basecamp URL must include the account id, e.g. https://3.basecampapi.com/1234567"
    );
}

#[test]
fn accounts_are_read_from_parts() {
    let parts = |host: Option<&str>, port: Option<u16>, path: &str| UrlParts {
        scheme: "https".to_string(),
        host: host.map(|h| h.to_string()),
        port,
        path: path.to_string(),
    };
    assert_eq!(
        account_from_parts(&parts(Some("h"), Some(81), "/5.json")).unwrap(),
        ("https://h:81".to_string(), "5".to_string())
    );
    assert!(account_from_parts(&parts(None, None, "/5")).is_err());
    assert!(account_from_parts(&parts(Some("h"), None, "5")).is_err());
    assert!(account_from_parts(&parts(Some("h"), None, "/5a")).is_err());
}

#[test]
fn first_segments_end_at_the_next_slash() {
    assert_eq!(first_path_segment("/42/x/y"), Some("42".to_string()));
    assert_eq!(first_path_segment("/42"), Some("42".to_string()));
    assert_eq!(first_path_segment("//42"), Some(String::new()));
    assert_eq!(first_path_segment("/"), Some(String::new()));
    assert_eq!(first_path_segment("42/x"), None);
    assert_eq!(first_path_segment(""), None);
}

#[test]
fn validation_takes_the_general_check_first() {
    assert!(validate_url("https://3.basecampapi.com/7", Ok(())).is_ok());
    assert_eq!(
        validate_url("nonsense", Err("not reachable".to_string())).unwrap_err().message(),
        "not reachable"
    );
    assert!(validate_url("https://3.basecampapi.com/x", Ok(())).is_err());
}

#[test]
fn calendar_id_round_trips() {
    let id = calendar_id(2085958499, 1069479342);
    assert_eq!(id, "2085958499/1069479342");
    assert_eq!(split_calendar_id(&id).unwrap(), (2085958499, 1069479342));
}

#[test]
fn calendar_ids_cover_every_number() {
    for (a, b) in [(0, 0), (-1, 1), (i64::MIN, i64::MAX)] {
        assert_eq!(split_calendar_id(&calendar_id(a, b)).unwrap(), (a, b));
    }
    assert_eq!(split_calendar_id("  7 /\t8 ").unwrap(), (7, 8));
}

#[test]
fn rejects_malformed_calendar_id() {
    assert!(split_calendar_id("2085958499").is_err());
    assert!(split_calendar_id("abc/def").is_err());
}

#[test]
fn calendar_id_failures_name_what_is_wrong() {
    let message = |id: &str| split_calendar_id(id).unwrap_err().message();
    assert_eq!(message("7"), "Malformed Basecamp calendar id '7'");
    assert_eq!(message("x/7"), "Malformed Basecamp project id in 'x/7'");
    assert_eq!(message("7/8/9"), "Malformed Basecamp schedule id in '7/8/9'");
    assert_eq!(
        message("9223372036854775808/1"),
        "Malformed Basecamp project id in '9223372036854775808/1'"
    );
}

#[test]
fn page_budget_is_consumed_then_exhausted() {
    let mut p = BasecampProvider::new("https://3.basecampapi.com/1234567", "tok").unwrap();
    for _ in 0..DEFAULT_PAGE_BUDGET {
        assert!(p.take_page());
    }
    // The budget bounds one request's cost; past it the caller must report
    // incomplete results rather than keep walking.
    assert!(!p.take_page());
    assert!(!p.take_page(), "exhausted budget must not wrap around");
}

#[test]
fn each_provider_gets_a_fresh_budget() {
    // A write-back provider is built per operation, so a sync that spent
    // its budget must not starve the next booking's put/delete.
    let mut a = BasecampProvider::new("https://3.basecampapi.com/1", "tok").unwrap();
    for _ in 0..DEFAULT_PAGE_BUDGET {
        assert!(a.take_page());
    }
    let mut b = BasecampProvider::new("https://3.basecampapi.com/1", "tok").unwrap();
    assert!(b.take_page());
}

#[test]
fn providers_know_their_account() {
    let p = BasecampProvider::new("https://3.basecampapi.com/1234567", "tok").unwrap();
    assert_eq!(p.account_id(), "1234567");
    assert_eq!(p.client().access_token(), "tok");
    assert_eq!(p.client().url("x"), "https://3.basecampapi.com/1234567/x");
    assert!(BasecampProvider::new("https://3.basecampapi.com/", "tok").is_err());
}
