use calrs::basecamp::oauth::{
    build_auth_url, check_identity_answer, check_token_answer, configured_credentials,
    decrypted_credentials, decrypted_step, exchange_form, exchanged, expiry, expiry_text,
    identity_url, is_expiry_representable, needs_refresh, needs_refresh_at, parse_identity,
    refresh_due, refresh_form, schedulable_accounts, siblings_and_self, stored_refresh_token,
    token_step, token_url, token_writes, TokenResponse, TokenStep, TokenWrite,
};
use calrs::json::Json;
use calrs::time::{CivilDate, UtcDateTime};

fn json_of(v: &serde_json::Value) -> Json {
    match v {
        serde_json::Value::Null => Json::Null,
        serde_json::Value::Bool(b) => Json::Bool(*b),
        serde_json::Value::Number(n) => Json::Number(n.to_string()),
        serde_json::Value::String(s) => Json::Text(s.clone()),
        serde_json::Value::Array(a) => Json::Array(a.iter().map(json_of).collect()),
        serde_json::Value::Object(m) => {
            Json::Object(m.iter().map(|(k, v)| (k.clone(), json_of(v))).collect())
        }
    }
}

fn json(text: &str) -> Json {
    json_of(&serde_json::from_str(text).unwrap())
}

fn stamp(year: i32, month: u32, day: u32, hour: u32, minute: u32, second: u32) -> UtcDateTime {
    UtcDateTime { date: CivilDate { year, month, day }, hour, minute, second, nanos: 0 }
}

#[test]
fn auth_url_uses_launchpad_legacy_grant_selector() {
    let url = build_auth_url(
        "client+id",
        "https://cal.example.com/dashboard/sources/basecamp/callback",
        "state token",
    );
    assert!(url.starts_with("https://launchpad.37signals.com/authorization/new?"));
    // Launchpad selects the grant with `type`, not `grant_type`.
    assert!(url.contains("type=web_server"), "{}", url);
    assert!(url.contains("client_id=client%2Bid"), "{}", url);
    assert!(
        url.contains(
            "redirect_uri=https%3A%2F%2Fcal.example.com%2Fdashboard%2Fsources%2Fbasecamp%2Fcallback"
        ),
        "{}",
        url
    );
    assert!(url.contains("state=state%20token"), "{}", url);
}

#[test]
fn auth_url_is_exact_and_encodes_every_separator() {
    assert_eq!(
        build_auth_url("a&b=c", "é", "~-_.z/"),
        "https://launchpad.37signals.com/authorization/new?type=web_server&client_id=a%26b%3Dc\
         &redirect_uri=%C3%A9&response_type=code&state=~-_.z%2F"
    );
}

fn identity_json() -> Json {
    json(
        r#"{
        "expires_at": "2026-04-01T00:00:00.000Z",
        "identity": {
            "id": 9141087,
            "first_name": "Victor",
            "last_name": "Cooper",
            "email_address": "victor@honchodesign.com"
        },
        "accounts": [
            {"product": "bc3", "id": 99999999, "name": "Honcho Design", "href": "https://3.basecampapi.com/99999999", "app_href": "https://3.basecamp.com/99999999"},
            {"product": "bcx", "id": 88888888, "name": "Old Basecamp", "href": "https://basecamp.com/88888888/api/v1"}
        ]
    }"#,
    )
}

#[test]
fn parses_identity_and_accounts() {
    let identity = parse_identity(&identity_json()).unwrap();
    assert_eq!(identity.email, "victor@honchodesign.com");
    assert_eq!(identity.name, "Victor Cooper");
    assert_eq!(identity.accounts.len(), 2);
    // Numeric ids must survive as digits — they become the API path segment.
    assert_eq!(identity.accounts[0].id, "99999999");
}

#[test]
fn filters_out_legacy_products() {
    // Only bc3 has the schedule API; offering a bcx account would produce a
    // source that 404s on every request.
    let identity = parse_identity(&identity_json()).unwrap();
    let usable = schedulable_accounts(&identity);
    assert_eq!(usable.len(), 1);
    assert_eq!(usable[0].name, "Honcho Design");
}

#[test]
fn identity_without_accounts_is_not_an_error() {
    let identity = parse_identity(&json(r#"{"identity": {"email_address": "a@b.c"}}"#)).unwrap();
    assert!(identity.accounts.is_empty());
    assert_eq!(identity.name, "a@b.c");
}

#[test]
fn identity_requires_the_identity_object() {
    assert!(parse_identity(&json(r#"{"accounts": []}"#)).is_err());
}

#[test]
fn identity_fills_in_what_is_missing() {
    let identity = parse_identity(&json(
        r#"{"identity": {"first_name": " Ada ", "last_name": ""},
            "accounts": [{"id": "x7"}, {"name": "no id"}, {"id": null}, {"id": 7, "name": 8}, 9]}"#,
    ))
    .unwrap();
    assert_eq!(identity.email, "");
    assert_eq!(identity.name, "Ada");
    assert_eq!(identity.accounts.len(), 2);
    assert_eq!(identity.accounts[0].id, "x7");
    assert_eq!(identity.accounts[0].name, "Basecamp");
    assert_eq!(identity.accounts[0].product, "");
    assert_eq!(identity.accounts[1].id, "7");
    assert_eq!(identity.accounts[1].name, "Basecamp");
    let first_only = parse_identity(&json(r#"{"identity": {"first_name": " Ada "}}"#)).unwrap();
    assert_eq!(first_only.name, " Ada ");
    let last_only =
        parse_identity(&json(r#"{"identity": {"last_name": "L", "email_address": "e"}}"#)).unwrap();
    assert_eq!(last_only.name, "e");
    assert_eq!(
        parse_identity(&Json::Array(Vec::new())).unwrap_err().message(),
        "Basecamp authorization response has no identity"
    );
    assert!(parse_identity(&json(r#"{"identity": 5}"#)).is_ok());
}

#[test]
fn forms_select_the_grant_by_type() {
    let shown = |form: Vec<(&'static str, String)>| {
        form.iter().map(|(k, v)| format!("{}={}", k, v)).collect::<Vec<_>>().join("&")
    };
    assert_eq!(
        shown(exchange_form("id", "secret", "code", "uri")),
        "type=web_server&client_id=id&client_secret=secret&redirect_uri=uri&code=code"
    );
    assert_eq!(
        shown(refresh_form("id", "secret", "old")),
        "type=refresh&client_id=id&client_secret=secret&refresh_token=old"
    );
    assert_eq!(token_url(), "https://launchpad.37signals.com/authorization/token");
    assert_eq!(identity_url(), "https://launchpad.37signals.com/authorization.json");
}

#[test]
fn token_answers_are_checked() {
    assert!(check_token_answer("refresh", 200, "200 OK", "").is_ok());
    assert_eq!(
        check_token_answer("refresh", 401, "401 Unauthorized", "bad").unwrap_err().message(),
        "Basecamp token refresh failed: HTTP 401 Unauthorized bad"
    );
    assert!(check_identity_answer(200, "200 OK").is_ok());
    assert_eq!(
        check_identity_answer(500, "500 Internal Server Error").unwrap_err().message(),
        "Failed to read Basecamp authorization: HTTP 500 Internal Server Error"
    );
}

#[test]
fn exchange_needs_a_refresh_token() {
    let token = |refresh: Option<&str>, expires_in: Option<i64>| TokenResponse {
        access_token: "a".to_string(),
        refresh_token: refresh.map(|s| s.to_string()),
        expires_in,
    };
    assert_eq!(
        exchanged(token(Some("r"), Some(60))).unwrap(),
        ("a".to_string(), "r".to_string(), 60)
    );
    assert_eq!(exchanged(token(Some("r"), None)).unwrap().2, 1_209_600);
    assert_eq!(
        exchanged(token(None, Some(60))).unwrap_err().message(),
        "Basecamp returned no refresh token"
    );
}

#[test]
fn credentials_must_be_configured() {
    let s = |t: &str| Some(t.to_string());
    assert_eq!(
        configured_credentials(Some((s("id"), s("enc")))).unwrap(),
        ("id".to_string(), "enc".to_string())
    );
    for row in [None, Some((None, s("enc"))), Some((s("id"), None)), Some((s(""), s("enc"))), Some((s("id"), s("")))] {
        assert_eq!(
            configured_credentials(row).unwrap_err().message(),
            "Basecamp integration is not configured (missing app credentials)"
        );
    }
    assert_eq!(
        decrypted_credentials("id".to_string(), Ok("secret".to_string())).unwrap(),
        ("id".to_string(), "secret".to_string())
    );
    assert_eq!(
        decrypted_credentials("id".to_string(), Err("bad key".to_string())).unwrap_err().message(),
        "Basecamp client secret decryption failed: bad key"
    );
}

#[test]
fn siblings_fall_back_to_the_source_itself() {
    assert_eq!(
        siblings_and_self(Vec::new(), "no-such-source"),
        vec!["no-such-source".to_string()]
    );
    assert_eq!(
        siblings_and_self(vec!["a".to_string(), "b".to_string()], "a"),
        vec!["a".to_string(), "b".to_string()]
    );
    assert_eq!(
        siblings_and_self(vec!["a".to_string()], "z"),
        vec!["a".to_string(), "z".to_string()]
    );
}

#[test]
fn refresh_decision_covers_missing_expired_and_fresh() {
    assert!(needs_refresh(None));
    assert!(needs_refresh(Some("garbage")));
    let past = (chrono::Utc::now() - chrono::Duration::hours(1)).to_rfc3339();
    assert!(needs_refresh(Some(&past)));
    // Inside the buffer: still refresh.
    let soon = (chrono::Utc::now() + chrono::Duration::seconds(60)).to_rfc3339();
    assert!(needs_refresh(Some(&soon)));
    let future = (chrono::Utc::now() + chrono::Duration::days(3)).to_rfc3339();
    assert!(!needs_refresh(Some(&future)));
}

#[test]
fn refresh_buffer_is_five_minutes() {
    let now = stamp(2026, 12, 31, 23, 58, 0);
    assert!(!needs_refresh_at(Some("2027-01-01T00:03:00+00:00"), now));
    assert!(needs_refresh_at(Some("2027-01-01T00:02:59.999+00:00"), now));
    assert!(needs_refresh_at(Some("2027-01-01T00:02:59+00:00"), now));
    assert!(needs_refresh_at(Some("1990-01-01T00:00:00Z"), now));
    assert!(refresh_due(None, now));
    assert!(refresh_due(Some(now), now));
    assert!(!refresh_due(Some(stamp(2027, 1, 1, 0, 3, 0)), now));
    let leap = UtcDateTime { nanos: 1_500_000_000, ..stamp(2016, 12, 31, 23, 59, 59) };
    assert!(!refresh_due(Some(stamp(2017, 1, 1, 0, 5, 1)), leap));
    assert!(refresh_due(Some(stamp(2016, 12, 31, 23, 59, 58)), leap));
}

#[test]
fn stored_expiry_reads_back_as_fresh() {
    let now = UtcDateTime { nanos: 25_000_000, ..stamp(2026, 12, 31, 23, 59, 50) };
    assert_eq!(
        expiry_text(now, Some(15)).as_deref(),
        Some("2027-01-01T00:00:05.025+00:00")
    );
    assert_eq!(
        expiry_text(stamp(2024, 2, 28, 0, 0, 0), None).as_deref(),
        Some("2024-03-13T00:00:00+00:00")
    );
    let fresh = expiry_text(now, None).unwrap();
    assert!(!needs_refresh_at(Some(&fresh), now));
    let edge = expiry_text(now, Some(300)).unwrap();
    assert!(!needs_refresh_at(Some(&edge), now));
    let short = expiry_text(now, Some(299)).unwrap();
    assert!(needs_refresh_at(Some(&short), now));
    assert!(expiry_text(now, Some(i64::MAX)).is_none());
    assert!(expiry_text(now, Some(i64::MIN)).is_none());
}

#[test]
fn expiry_counts_seconds_across_days() {
    let now = stamp(2024, 2, 28, 23, 59, 50);
    assert_eq!(expiry(now, Some(15)), stamp(2024, 2, 29, 0, 0, 5));
    assert_eq!(expiry(now, None), stamp(2024, 3, 13, 23, 59, 50));
    assert!(is_expiry_representable(now, None));
    let last = stamp(262142, 12, 31, 23, 59, 59);
    assert!(is_expiry_representable(last, Some(0)));
    assert!(!is_expiry_representable(last, Some(1)));
    let first = stamp(-262143, 1, 1, 0, 0, 0);
    assert!(is_expiry_representable(first, Some(0)));
    assert!(!is_expiry_representable(first, Some(-1)));
    assert_eq!(expiry(stamp(262142, 12, 31, 23, 59, 58), Some(1)), last);
}

#[test]
fn token_decision_goes_through_its_steps() {
    assert!(matches!(token_step(true, Some("enc")), TokenStep::Refresh));
    match token_step(false, Some("enc")) {
        TokenStep::Decrypt(enc) => assert_eq!(enc, "enc"),
        other => panic!("{:?}", other),
    }
    match token_step(false, None) {
        TokenStep::Fail(e) => assert_eq!(
            e.message(),
            "Basecamp source has no stored access token; reconnect it"
        ),
        other => panic!("{:?}", other),
    }
    match decrypted_step(Ok("token".to_string())) {
        TokenStep::Use(t) => assert_eq!(t, "token"),
        other => panic!("{:?}", other),
    }
    assert!(matches!(decrypted_step(Err("bad".to_string())), TokenStep::Refresh));
}

#[test]
fn refreshing_needs_a_stored_refresh_token() {
    assert_eq!(stored_refresh_token(Some(Some("enc".to_string()))).unwrap(), "enc");
    for row in [None, Some(None)] {
        assert_eq!(
            stored_refresh_token(row).unwrap_err().message(),
            "Basecamp source has no stored refresh token; reconnect it"
        );
    }
}

#[test]
fn renewed_tokens_reach_every_sibling() {
    let ids = vec!["a".to_string(), "b".to_string()];
    let shown = |writes: Vec<TokenWrite>| {
        writes
            .iter()
            .map(|w| match w {
                TokenWrite::Access { source_id, access_token_enc, expires_at } => {
                    format!("{}:{}@{}", source_id, access_token_enc, expires_at)
                }
                TokenWrite::Refresh { source_id, refresh_token_enc } => {
                    format!("{}!{}", source_id, refresh_token_enc)
                }
            })
            .collect::<Vec<_>>()
    };
    assert_eq!(shown(token_writes(&ids, "x", "t", Some("r"))), ["a:x@t", "a!r", "b:x@t", "b!r"]);
    assert_eq!(shown(token_writes(&ids, "x", "t", None)), ["a:x@t", "b:x@t"]);
    assert!(token_writes(&Vec::new(), "x", "t", Some("r")).is_empty());
}
