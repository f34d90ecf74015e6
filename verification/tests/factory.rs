use calrs::providers::factory::{
    build_provider, is_oauth2_only, kinds, label, uses_generic_provider, validate_url, Provider,
};
use calrs::providers::source::{build_with_secret, source_step, SourceCredentials, SourceStep};

#[test]
fn caldav_keeps_its_own_path() {
    assert!(!uses_generic_provider(kinds::CALDAV));
    assert!(uses_generic_provider(kinds::EWS));
    assert!(uses_generic_provider(kinds::BASECAMP));
}

#[test]
fn only_basecamp_is_oauth2_only() {
    assert!(is_oauth2_only(kinds::BASECAMP));
    assert!(!is_oauth2_only(kinds::CALDAV));
    assert!(!is_oauth2_only(kinds::EWS));
}

#[test]
fn labels_every_known_kind() {
    assert_eq!(label(kinds::CALDAV), "CalDAV");
    assert_eq!(label(kinds::BASECAMP), "Basecamp");
    assert_eq!(label("nope"), "Unknown");
    assert_eq!(label(kinds::EWS), "Microsoft Exchange (EWS)");
}

#[test]
fn builds_basecamp_provider_from_account_url() {
    let p = build_provider(
        kinds::BASECAMP,
        "https://3.basecampapi.com/1234567",
        "",
        "token",
    );
    assert!(p.is_ok());
}

#[test]
fn rejects_basecamp_url_without_account_id() {
    // The account id is the API path prefix; without it every call 404s,
    // so this must fail at build time rather than at sync time.
    assert!(
        build_provider(kinds::BASECAMP, "https://3.basecampapi.com/", "", "token").is_err()
    );
}

#[test]
fn rejects_unknown_provider_type() {
    assert!(build_provider("carrier-pigeon", "https://x.test/", "u", "p").is_err());
    assert!(validate_url("carrier-pigeon", "https://x.test/", Ok(())).is_err());
    assert_eq!(
        build_provider("carrier-pigeon", "https://x.test/", "u", "p").unwrap_err().message(),
        "Unknown calendar provider type: 'carrier-pigeon'"
    );
}

#[test]
fn providers_keep_what_they_are_reached_by() {
    match build_provider(kinds::CALDAV, "https://dav.test/", "u", "p").unwrap() {
        Provider::Caldav { url, username, password } => {
            assert_eq!((url.as_str(), username.as_str(), password.as_str()), ("https://dav.test/", "u", "p"))
        }
        other => panic!("{:?}", other),
    }
    match build_provider(kinds::EWS, "https://ews.test/", "u", "p").unwrap() {
        Provider::Ews { url, username, password } => {
            assert_eq!((url.as_str(), username.as_str(), password.as_str()), ("https://ews.test/", "u", "p"))
        }
        other => panic!("{:?}", other),
    }
    match build_provider(kinds::BASECAMP, "https://3.basecampapi.com/7", "u", "token").unwrap() {
        Provider::Basecamp(p) => {
            assert_eq!(p.account_id(), "7");
            assert_eq!(p.client().access_token(), "token");
        }
        other => panic!("{:?}", other),
    }
}

#[test]
fn urls_are_validated_by_kind() {
    assert!(validate_url(kinds::CALDAV, "https://dav.test/", Ok(())).is_ok());
    assert!(validate_url(kinds::EWS, "anything", Ok(())).is_ok());
    assert_eq!(
        validate_url(kinds::EWS, "x", Err("refused".to_string())).unwrap_err().message(),
        "refused"
    );
    assert!(validate_url(kinds::BASECAMP, "https://3.basecampapi.com/7", Ok(())).is_ok());
    assert!(validate_url(kinds::BASECAMP, "https://3.basecampapi.com/", Ok(())).is_err());
    assert!(validate_url(kinds::BASECAMP, "https://3.basecampapi.com/7", Err("no".to_string())).is_err());
}

#[test]
fn password_provider_needs_a_stored_password() {
    let step = source_step(&SourceCredentials {
        provider_type: kinds::EWS,
        url: "https://mail.example.com/EWS/Exchange.asmx",
        username: "alice",
        auth_type: "basic",
        ..Default::default()
    });
    match step {
        SourceStep::Fail(err) => {
            assert!(err.message().contains("no stored password"), "{}", err.message())
        }
        other => panic!("{:?}", other),
    }
}

#[test]
fn sources_say_what_they_need() {
    let basecamp = SourceCredentials {
        provider_type: kinds::BASECAMP,
        url: "https://3.basecampapi.com/1234567",
        username: "alice@example.com",
        auth_type: "oauth2",
        ..Default::default()
    };
    assert!(matches!(source_step(&basecamp), SourceStep::AccessToken));
    assert!(build_with_secret(&basecamp, "live-token").is_ok());
    let caldav = SourceCredentials { provider_type: kinds::CALDAV, ..Default::default() };
    assert!(matches!(source_step(&caldav), SourceStep::CaldavClient));
    let ews = SourceCredentials {
        provider_type: kinds::EWS,
        password_enc: Some("enc"),
        ..Default::default()
    };
    match source_step(&ews) {
        SourceStep::Password(enc) => assert_eq!(enc, "enc"),
        other => panic!("{:?}", other),
    }
    let unknown = SourceCredentials {
        provider_type: "carrier-pigeon",
        password_enc: Some("enc"),
        ..Default::default()
    };
    assert!(matches!(source_step(&unknown), SourceStep::Password(_)));
    assert!(build_with_secret(&unknown, "p").is_err());
}
