use calrs::basecamp::oauth::{TokenResponse, TokenWrite};
use calrs::basecamp::renewal::{Renewal, RenewalAction, RenewalEvent};
use calrs::time::{CivilDate, UtcDateTime};

fn text(s: &str) -> String {
    s.to_string()
}

fn ready_to_post() -> (Renewal, RenewalAction) {
    let (renewal, action) = Renewal::begin("src-1");
    assert!(matches!(action, RenewalAction::ReadRefreshToken));
    let (renewal, action) = renewal.next(RenewalEvent::RefreshTokenRow(Some(Some(text("r-enc")))));
    match action {
        RenewalAction::DecryptRefreshToken(enc) => assert_eq!(enc, "r-enc"),
        other => panic!("{:?}", other),
    }
    let (renewal, action) = renewal.next(RenewalEvent::RefreshToken(text("r")));
    assert!(matches!(action, RenewalAction::ReadCredentials));
    let (renewal, action) =
        renewal.next(RenewalEvent::CredentialsRow(Some((Some(text("id")), Some(text("s-enc"))))));
    match action {
        RenewalAction::DecryptSecret(enc) => assert_eq!(enc, "s-enc"),
        other => panic!("{:?}", other),
    }
    renewal.next(RenewalEvent::Secret(Ok(text("s"))))
}

fn token(refresh_token: Option<&str>, expires_in: Option<i64>) -> TokenResponse {
    TokenResponse {
        access_token: text("a"),
        refresh_token: refresh_token.map(text),
        expires_in,
    }
}

fn noon() -> UtcDateTime {
    UtcDateTime {
        date: CivilDate { year: 2026, month: 2, day: 28 },
        hour: 12,
        minute: 0,
        second: 0,
        nanos: 0,
    }
}

fn granted(refresh_token: Option<&str>) -> RenewalEvent {
    RenewalEvent::granted_at(token(refresh_token, Some(86_400)), noon()).unwrap()
}

const THEN: &str = "2026-03-01T12:00:00+00:00";

fn shown(writes: &[TokenWrite]) -> Vec<String> {
    writes
        .iter()
        .map(|w| match w {
            TokenWrite::Access { source_id, access_token_enc, expires_at } => {
                format!("{}:{}@{}", source_id, access_token_enc, expires_at)
            }
            TokenWrite::Refresh { source_id, refresh_token_enc } => {
                format!("{}!{}", source_id, refresh_token_enc)
            }
        })
        .collect()
}

#[test]
fn basecamp_without_tokens_fails_before_any_request() {
    for row in [None, Some(None)] {
        let (renewal, _) = Renewal::begin("src-2");
        let (_, action) = renewal.next(RenewalEvent::RefreshTokenRow(row));
        match action {
            RenewalAction::Fail(err) => {
                assert!(err.message().contains("refresh token"), "unexpected error: {}", err.message())
            }
            other => panic!("{:?}", other),
        }
    }
}

#[test]
fn renewal_needs_the_app_credentials() {
    let start = || {
        let (renewal, _) = Renewal::begin("src-1");
        let (renewal, _) = renewal.next(RenewalEvent::RefreshTokenRow(Some(Some(text("e")))));
        renewal.next(RenewalEvent::RefreshToken(text("r"))).0
    };
    match start().next(RenewalEvent::CredentialsRow(None)).1 {
        RenewalAction::Fail(e) => assert_eq!(
            e.message(),
            "Basecamp integration is not configured (missing app credentials)"
        ),
        other => panic!("{:?}", other),
    }
    let (locked, _) =
        start().next(RenewalEvent::CredentialsRow(Some((Some(text("id")), Some(text("s"))))));
    match locked.next(RenewalEvent::Secret(Err(text("bad key")))).1 {
        RenewalAction::Fail(e) => {
            assert_eq!(e.message(), "Basecamp client secret decryption failed: bad key")
        }
        other => panic!("{:?}", other),
    }
}

#[test]
fn renewal_posts_exactly_what_it_was_told() {
    match ready_to_post().1 {
        RenewalAction::Post(form) => {
            let fields: Vec<(&str, &str)> = form.iter().map(|(k, v)| (*k, v.as_str())).collect();
            assert_eq!(
                fields,
                [("type", "refresh"), ("client_id", "id"), ("client_secret", "s"), ("refresh_token", "r")]
            );
        }
        other => panic!("{:?}", other),
    }
}

#[test]
fn a_rotated_token_reaches_every_sibling() {
    let (renewal, _) = ready_to_post();
    let (renewal, action) = renewal.next(granted(Some("new")));
    match action {
        RenewalAction::EncryptAccessToken(token) => assert_eq!(token, "a"),
        other => panic!("{:?}", other),
    }
    let (renewal, action) = renewal.next(RenewalEvent::AccessTokenEncrypted(text("a-enc")));
    assert!(matches!(action, RenewalAction::FindSiblings));
    let (renewal, action) =
        renewal.next(RenewalEvent::SiblingsFound(vec![text("src-1"), text("src-2")]));
    match action {
        RenewalAction::EncryptRefreshToken(token) => assert_eq!(token, "new"),
        other => panic!("{:?}", other),
    }
    match renewal.next(RenewalEvent::RefreshTokenEncrypted(Some(text("new-enc")))).1 {
        RenewalAction::Finish { writes, access_token } => {
            assert_eq!(access_token, "a");
            assert_eq!(
                shown(&writes),
                [
                    format!("src-1:a-enc@{}", THEN),
                    text("src-1!new-enc"),
                    format!("src-2:a-enc@{}", THEN),
                    text("src-2!new-enc"),
                ]
            );
        }
        other => panic!("{:?}", other),
    }
}

#[test]
fn a_kept_refresh_token_is_not_written() {
    let (renewal, _) = ready_to_post();
    let (renewal, _) = renewal.next(granted(None));
    let (renewal, _) = renewal.next(RenewalEvent::AccessTokenEncrypted(text("a-enc")));
    match renewal.next(RenewalEvent::SiblingsFound(Vec::new())).1 {
        RenewalAction::Finish { writes, access_token } => {
            assert_eq!(access_token, "a");
            assert_eq!(shown(&writes), [format!("src-1:a-enc@{}", THEN)]);
        }
        other => panic!("{:?}", other),
    }

    let (renewal, _) = ready_to_post();
    let (renewal, _) = renewal.next(granted(Some("new")));
    let (renewal, _) = renewal.next(RenewalEvent::AccessTokenEncrypted(text("a-enc")));
    let (renewal, _) = renewal.next(RenewalEvent::SiblingsFound(Vec::new()));
    match renewal.next(RenewalEvent::RefreshTokenEncrypted(None)).1 {
        RenewalAction::Finish { writes, .. } => assert_eq!(shown(&writes), [format!("src-1:a-enc@{}", THEN)]),
        other => panic!("{:?}", other),
    }
}

#[test]
fn the_stored_expiry_is_that_of_the_grant() {
    let (renewal, _) = ready_to_post();
    let event = RenewalEvent::granted_at(token(None, None), noon()).unwrap();
    let (renewal, _) = renewal.next(event);
    let (renewal, _) = renewal.next(RenewalEvent::AccessTokenEncrypted(text("a-enc")));
    match renewal.next(RenewalEvent::SiblingsFound(Vec::new())).1 {
        RenewalAction::Finish { writes, .. } => {
            assert_eq!(shown(&writes), ["src-1:a-enc@2026-03-14T12:00:00+00:00"])
        }
        other => panic!("{:?}", other),
    }
}

#[test]
fn grants_take_the_time_of_now() {
    let before = chrono::Utc::now();
    match RenewalEvent::granted(token(None, None)) {
        Some(RenewalEvent::Granted(kept, now)) => {
            assert_eq!(kept.access_token, "a");
            let told = chrono::NaiveDate::from_ymd_opt(now.date.year, now.date.month, now.date.day)
                .unwrap()
                .and_hms_nano_opt(now.hour, now.minute, now.second, now.nanos)
                .unwrap()
                .and_utc();
            assert!(before <= told && told <= chrono::Utc::now());
        }
        other => panic!("{:?}", other),
    }
    assert!(RenewalEvent::granted(token(None, Some(-60))).is_some());
    assert!(RenewalEvent::granted(token(None, Some(i64::MAX))).is_none());
    assert!(RenewalEvent::granted_at(token(None, Some(i64::MIN)), noon()).is_none());
}
