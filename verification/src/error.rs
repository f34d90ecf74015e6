//! What can go wrong, as values.

use vstd::prelude::*;
use crate::decimal;
use crate::decimal::append_u64;
use crate::text;

verus! {

/// A failure, over the texts it quotes: `String` in running code, `Seq<char>` in contracts.
#[derive(Debug)]
pub enum Failure<T> {
    /// The text is no URL.
    InvalidUrl(T),
    /// The URL names no account.
    MissingAccountId,
    /// The account id is no number.
    NonNumericAccountId(T),
    /// The URL has no host.
    MissingHost,
    /// The general check of source URLs refused the URL, with this message.
    RejectedUrl(T),
    /// The calendar id has no slash.
    MalformedCalendarId(T),
    /// The part of the calendar id before the slash is no number.
    MalformedProjectId(T),
    /// The part of the calendar id after the slash is no number.
    MalformedScheduleId(T),
    /// The calendar text holds no event.
    NoVevent,
    /// The event has no start.
    NoStart,
    /// The event has no end.
    NoEnd,
    /// The value is no iCalendar date or date-time.
    BadDatetime(T),
    /// The value is no iCalendar date.
    BadDate(T),
    /// The server asks for a longer wait, in seconds, than is slept through inline.
    RateLimited(u64),
    /// The request could not be sent, with the transport's message.
    RequestFailed(T),
    /// The API answered with an error status; the status and the shortened body.
    ApiStatus(T, T),
    /// The API's answer could not be decoded; the decoder's message and the shortened body.
    UnreadableBody(T, T),
    /// The API refused to trash an entry; the status and the shortened body.
    TrashFailed(T, T),
    /// Launchpad refused a token operation; the operation, the status and the body.
    TokenFailed(T, T, T),
    /// Launchpad granted an access token without a refresh token.
    NoRefreshTokenReturned,
    /// Launchpad refused to tell the identity, with this status.
    IdentityStatus(T),
    /// The authorization document names no identity.
    NoIdentity,
    /// The instance has no Basecamp app credentials.
    NotConfigured,
    /// The stored client secret could not be decrypted, with this message.
    SecretUnreadable(T),
    /// The source has no refresh token to renew its access with.
    NoStoredRefreshToken,
    /// The source has no access token.
    NoStoredAccessToken,
    /// No back-end has this provider type.
    UnknownProvider(T),
    /// The source has no password to sign in with.
    NoStoredPassword,
}

/// A failure as running code holds it.
pub type Error = Failure<String>;

impl View for Failure<String> {
    type V = Failure<Seq<char>>;

    open spec fn view(&self) -> Failure<Seq<char>> {
        match self {
            Failure::InvalidUrl(a) => Failure::InvalidUrl(a@),
            Failure::MissingAccountId => Failure::MissingAccountId,
            Failure::NonNumericAccountId(a) => Failure::NonNumericAccountId(a@),
            Failure::MissingHost => Failure::MissingHost,
            Failure::RejectedUrl(a) => Failure::RejectedUrl(a@),
            Failure::MalformedCalendarId(a) => Failure::MalformedCalendarId(a@),
            Failure::MalformedProjectId(a) => Failure::MalformedProjectId(a@),
            Failure::MalformedScheduleId(a) => Failure::MalformedScheduleId(a@),
            Failure::NoVevent => Failure::NoVevent,
            Failure::NoStart => Failure::NoStart,
            Failure::NoEnd => Failure::NoEnd,
            Failure::BadDatetime(a) => Failure::BadDatetime(a@),
            Failure::BadDate(a) => Failure::BadDate(a@),
            Failure::RateLimited(a) => Failure::RateLimited(*a),
            Failure::RequestFailed(a) => Failure::RequestFailed(a@),
            Failure::ApiStatus(a, b) => Failure::ApiStatus(a@, b@),
            Failure::UnreadableBody(a, b) => Failure::UnreadableBody(a@, b@),
            Failure::TrashFailed(a, b) => Failure::TrashFailed(a@, b@),
            Failure::TokenFailed(a, b, c) => Failure::TokenFailed(a@, b@, c@),
            Failure::NoRefreshTokenReturned => Failure::NoRefreshTokenReturned,
            Failure::IdentityStatus(a) => Failure::IdentityStatus(a@),
            Failure::NoIdentity => Failure::NoIdentity,
            Failure::NotConfigured => Failure::NotConfigured,
            Failure::SecretUnreadable(a) => Failure::SecretUnreadable(a@),
            Failure::NoStoredRefreshToken => Failure::NoStoredRefreshToken,
            Failure::NoStoredAccessToken => Failure::NoStoredAccessToken,
            Failure::UnknownProvider(a) => Failure::UnknownProvider(a@),
            Failure::NoStoredPassword => Failure::NoStoredPassword,
        }
    }
}

/// The sentence that tells a failure.
pub open spec fn message_text(f: Failure<Seq<char>>) -> Seq<char> {
    match f {
        Failure::InvalidUrl(a) => "Invalid URL: "@ + a,
        Failure::MissingAccountId =>
            "Basecamp URL must include the account id, e.g. https://3.basecampapi.com/1234567"@,
        Failure::NonNumericAccountId(a) => "Basecamp account id must be numeric, got '"@ + a
            + "' (expected https://3.basecampapi.com/1234567)"@,
        Failure::MissingHost => "Basecamp URL has no host"@,
        Failure::RejectedUrl(a) => a,
        Failure::MalformedCalendarId(a) => "Malformed Basecamp calendar id '"@ + a + "'"@,
        Failure::MalformedProjectId(a) => "Malformed Basecamp project id in '"@ + a + "'"@,
        Failure::MalformedScheduleId(a) => "Malformed Basecamp schedule id in '"@ + a + "'"@,
        Failure::NoVevent => "No VEVENT in the ICS handed to the Basecamp provider"@,
        Failure::NoStart => "ICS has no DTSTART"@,
        Failure::NoEnd => "ICS has no DTEND"@,
        Failure::BadDatetime(a) => "Unparseable iCal datetime '"@ + a + "'"@,
        Failure::BadDate(a) => "Unparseable iCal date '"@ + a + "'"@,
        Failure::RateLimited(a) => "Basecamp rate limit hit; retry after "@ + decimal::int_text(
            a as int,
        ) + "s (too long to wait inline)"@,
        Failure::RequestFailed(a) => "Basecamp request failed: "@ + a,
        Failure::ApiStatus(a, b) => "Basecamp API returned HTTP "@ + a + ": "@ + b,
        Failure::UnreadableBody(a, b) => "Could not parse Basecamp response: "@ + a + " (body: "@ + b
            + ")"@,
        Failure::TrashFailed(a, b) => "Basecamp trash failed: HTTP "@ + a + " "@ + b,
        Failure::TokenFailed(a, b, c) => "Basecamp token "@ + a + " failed: HTTP "@ + b + " "@ + c,
        Failure::NoRefreshTokenReturned => "Basecamp returned no refresh token"@,
        Failure::IdentityStatus(a) => "Failed to read Basecamp authorization: HTTP "@ + a,
        Failure::NoIdentity => "Basecamp authorization response has no identity"@,
        Failure::NotConfigured => "Basecamp integration is not configured (missing app credentials)"@,
        Failure::SecretUnreadable(a) => "Basecamp client secret decryption failed: "@ + a,
        Failure::NoStoredRefreshToken => "Basecamp source has no stored refresh token; reconnect it"@,
        Failure::NoStoredAccessToken => "Basecamp source has no stored access token; reconnect it"@,
        Failure::UnknownProvider(a) => "Unknown calendar provider type: '"@ + a + "'"@,
        Failure::NoStoredPassword => "Source has no stored password"@,
    }
}

impl Failure<String> {
    /// The sentence that tells this failure.
    pub fn message(&self) -> (r: String)
        ensures
            r@ == message_text(self@),
    {
        let mut out = String::new();
        match self {
            Failure::InvalidUrl(a) => {
                out.append("Invalid URL: ");
                out.append(a.as_str());
            },
            Failure::MissingAccountId => {
                out.append(
                    "Basecamp URL must include the account id, e.g. https://3.basecampapi.com/1234567",
                );
            },
            Failure::NonNumericAccountId(a) => {
                out.append("Basecamp account id must be numeric, got '");
                out.append(a.as_str());
                out.append("' (expected https://3.basecampapi.com/1234567)");
            },
            Failure::MissingHost => {
                out.append("Basecamp URL has no host");
            },
            Failure::RejectedUrl(a) => {
                out.append(a.as_str());
            },
            Failure::MalformedCalendarId(a) => {
                out.append("Malformed Basecamp calendar id '");
                out.append(a.as_str());
                out.append("'");
            },
            Failure::MalformedProjectId(a) => {
                out.append("Malformed Basecamp project id in '");
                out.append(a.as_str());
                out.append("'");
            },
            Failure::MalformedScheduleId(a) => {
                out.append("Malformed Basecamp schedule id in '");
                out.append(a.as_str());
                out.append("'");
            },
            Failure::NoVevent => {
                out.append("No VEVENT in the ICS handed to the Basecamp provider");
            },
            Failure::NoStart => {
                out.append("ICS has no DTSTART");
            },
            Failure::NoEnd => {
                out.append("ICS has no DTEND");
            },
            Failure::BadDatetime(a) => {
                out.append("Unparseable iCal datetime '");
                out.append(a.as_str());
                out.append("'");
            },
            Failure::BadDate(a) => {
                out.append("Unparseable iCal date '");
                out.append(a.as_str());
                out.append("'");
            },
            Failure::RateLimited(a) => {
                out.append("Basecamp rate limit hit; retry after ");
                append_u64(&mut out, *a);
                out.append("s (too long to wait inline)");
            },
            Failure::RequestFailed(a) => {
                out.append("Basecamp request failed: ");
                out.append(a.as_str());
            },
            Failure::ApiStatus(a, b) => {
                out.append("Basecamp API returned HTTP ");
                out.append(a.as_str());
                out.append(": ");
                out.append(b.as_str());
            },
            Failure::UnreadableBody(a, b) => {
                out.append("Could not parse Basecamp response: ");
                out.append(a.as_str());
                out.append(" (body: ");
                out.append(b.as_str());
                out.append(")");
            },
            Failure::TrashFailed(a, b) => {
                out.append("Basecamp trash failed: HTTP ");
                out.append(a.as_str());
                out.append(" ");
                out.append(b.as_str());
            },
            Failure::TokenFailed(a, b, c) => {
                out.append("Basecamp token ");
                out.append(a.as_str());
                out.append(" failed: HTTP ");
                out.append(b.as_str());
                out.append(" ");
                out.append(c.as_str());
            },
            Failure::NoRefreshTokenReturned => {
                out.append("Basecamp returned no refresh token");
            },
            Failure::IdentityStatus(a) => {
                out.append("Failed to read Basecamp authorization: HTTP ");
                out.append(a.as_str());
            },
            Failure::NoIdentity => {
                out.append("Basecamp authorization response has no identity");
            },
            Failure::NotConfigured => {
                out.append("Basecamp integration is not configured (missing app credentials)");
            },
            Failure::SecretUnreadable(a) => {
                out.append("Basecamp client secret decryption failed: ");
                out.append(a.as_str());
            },
            Failure::NoStoredRefreshToken => {
                out.append("Basecamp source has no stored refresh token; reconnect it");
            },
            Failure::NoStoredAccessToken => {
                out.append("Basecamp source has no stored access token; reconnect it");
            },
            Failure::UnknownProvider(a) => {
                out.append("Unknown calendar provider type: '");
                out.append(a.as_str());
                out.append("'");
            },
            Failure::NoStoredPassword => {
                out.append("Source has no stored password");
            },
        }
        assert(out@ =~= message_text(self@));
        out
    }
}

/// The view of a fallible result whose value is compared as it is.
pub open spec fn result_view<A>(r: Result<A, Error>) -> Result<A, Failure<Seq<char>>> {
    match r {
        Ok(a) => Ok(a),
        Err(e) => Err(e@),
    }
}

/// The view of a fallible text.
pub open spec fn text_result_view(r: Result<String, Error>) -> Result<
    Seq<char>,
    Failure<Seq<char>>,
> {
    match r {
        Ok(s) => Ok(s@),
        Err(e) => Err(e@),
    }
}

// ---------------------------------------------------------------------------
// Laws
// ---------------------------------------------------------------------------

/// A failure is viewed as itself, with the texts that it quotes.
pub proof fn law_failures_are_viewed_as_themselves(e: Error)
    ensures
        match (e, e@) {
            (Failure::InvalidUrl(a), Failure::InvalidUrl(a1)) => a1 == a@,
            (Failure::MissingAccountId, Failure::MissingAccountId) => true,
            (Failure::NonNumericAccountId(a), Failure::NonNumericAccountId(a1)) => a1 == a@,
            (Failure::MissingHost, Failure::MissingHost) => true,
            (Failure::RejectedUrl(a), Failure::RejectedUrl(a1)) => a1 == a@,
            (Failure::MalformedCalendarId(a), Failure::MalformedCalendarId(a1)) => a1 == a@,
            (Failure::MalformedProjectId(a), Failure::MalformedProjectId(a1)) => a1 == a@,
            (Failure::MalformedScheduleId(a), Failure::MalformedScheduleId(a1)) => a1 == a@,
            (Failure::NoVevent, Failure::NoVevent) => true,
            (Failure::NoStart, Failure::NoStart) => true,
            (Failure::NoEnd, Failure::NoEnd) => true,
            (Failure::BadDatetime(a), Failure::BadDatetime(a1)) => a1 == a@,
            (Failure::BadDate(a), Failure::BadDate(a1)) => a1 == a@,
            (Failure::RateLimited(a), Failure::RateLimited(a1)) => a1 == a,
            (Failure::RequestFailed(a), Failure::RequestFailed(a1)) => a1 == a@,
            (Failure::ApiStatus(a, b), Failure::ApiStatus(a1, b1)) => a1 == a@ && b1 == b@,
            (Failure::UnreadableBody(a, b), Failure::UnreadableBody(a1, b1)) => a1 == a@ && b1 == b@,
            (Failure::TrashFailed(a, b), Failure::TrashFailed(a1, b1)) => a1 == a@ && b1 == b@,
            (Failure::TokenFailed(a, b, c), Failure::TokenFailed(a1, b1, c1)) => a1 == a@ && b1 == b@ && c1 == c@,
            (Failure::NoRefreshTokenReturned, Failure::NoRefreshTokenReturned) => true,
            (Failure::IdentityStatus(a), Failure::IdentityStatus(a1)) => a1 == a@,
            (Failure::NoIdentity, Failure::NoIdentity) => true,
            (Failure::NotConfigured, Failure::NotConfigured) => true,
            (Failure::SecretUnreadable(a), Failure::SecretUnreadable(a1)) => a1 == a@,
            (Failure::NoStoredRefreshToken, Failure::NoStoredRefreshToken) => true,
            (Failure::NoStoredAccessToken, Failure::NoStoredAccessToken) => true,
            (Failure::UnknownProvider(a), Failure::UnknownProvider(a1)) => a1 == a@,
            (Failure::NoStoredPassword, Failure::NoStoredPassword) => true,
            _ => false,
        },
{
}

/// The sentence that tells a failure quotes every text that the failure holds, and a wait in
/// seconds.
pub proof fn law_messages_quote_what_they_are_about(f: Failure<Seq<char>>)
    ensures
        match f {
            Failure::InvalidUrl(a) => text::contains_text(message_text(f), a),
            Failure::NonNumericAccountId(a) => text::contains_text(message_text(f), a),
            Failure::RejectedUrl(a) => text::contains_text(message_text(f), a),
            Failure::MalformedCalendarId(a) => text::contains_text(message_text(f), a),
            Failure::MalformedProjectId(a) => text::contains_text(message_text(f), a),
            Failure::MalformedScheduleId(a) => text::contains_text(message_text(f), a),
            Failure::BadDatetime(a) => text::contains_text(message_text(f), a),
            Failure::BadDate(a) => text::contains_text(message_text(f), a),
            Failure::RateLimited(a) => text::contains_text(message_text(f), decimal::int_text(a as int)),
            Failure::RequestFailed(a) => text::contains_text(message_text(f), a),
            Failure::ApiStatus(a, b) => text::contains_text(message_text(f), a) && text::contains_text(message_text(f), b),
            Failure::UnreadableBody(a, b) => text::contains_text(message_text(f), a) && text::contains_text(message_text(f), b),
            Failure::TrashFailed(a, b) => text::contains_text(message_text(f), a) && text::contains_text(message_text(f), b),
            Failure::TokenFailed(a, b, c) => text::contains_text(message_text(f), a) && text::contains_text(message_text(f), b) && text::contains_text(message_text(f), c),
            Failure::IdentityStatus(a) => text::contains_text(message_text(f), a),
            Failure::SecretUnreadable(a) => text::contains_text(message_text(f), a),
            Failure::UnknownProvider(a) => text::contains_text(message_text(f), a),
            _ => true,
        },
{
    let m = message_text(f);
    let none = Seq::<char>::empty();
    match f {
        Failure::InvalidUrl(a) => {
            lemma_quotes(m, "Invalid URL: "@, a, none);
        },
        Failure::NonNumericAccountId(a) => {
            lemma_quotes(m, "Basecamp account id must be numeric, got '"@, a, "' (expected https://3.basecampapi.com/1234567)"@);
        },
        Failure::RejectedUrl(a) => {
            lemma_quotes(m, none, a, none);
        },
        Failure::MalformedCalendarId(a) => {
            lemma_quotes(m, "Malformed Basecamp calendar id '"@, a, "'"@);
        },
        Failure::MalformedProjectId(a) => {
            lemma_quotes(m, "Malformed Basecamp project id in '"@, a, "'"@);
        },
        Failure::MalformedScheduleId(a) => {
            lemma_quotes(m, "Malformed Basecamp schedule id in '"@, a, "'"@);
        },
        Failure::BadDatetime(a) => {
            lemma_quotes(m, "Unparseable iCal datetime '"@, a, "'"@);
        },
        Failure::BadDate(a) => {
            lemma_quotes(m, "Unparseable iCal date '"@, a, "'"@);
        },
        Failure::RateLimited(a) => {
            lemma_quotes(m, "Basecamp rate limit hit; retry after "@, decimal::int_text(a as int), "s (too long to wait inline)"@);
        },
        Failure::RequestFailed(a) => {
            lemma_quotes(m, "Basecamp request failed: "@, a, none);
        },
        Failure::ApiStatus(a, b) => {
            lemma_quotes(m, "Basecamp API returned HTTP "@, a, ": "@ + b);
            lemma_quotes(m, "Basecamp API returned HTTP "@ + a + ": "@, b, none);
        },
        Failure::UnreadableBody(a, b) => {
            lemma_quotes(m, "Could not parse Basecamp response: "@, a, " (body: "@ + b + ")"@);
            lemma_quotes(m, "Could not parse Basecamp response: "@ + a + " (body: "@, b, ")"@);
        },
        Failure::TrashFailed(a, b) => {
            lemma_quotes(m, "Basecamp trash failed: HTTP "@, a, " "@ + b);
            lemma_quotes(m, "Basecamp trash failed: HTTP "@ + a + " "@, b, none);
        },
        Failure::TokenFailed(a, b, c) => {
            lemma_quotes(m, "Basecamp token "@, a, " failed: HTTP "@ + b + " "@ + c);
            lemma_quotes(m, "Basecamp token "@ + a + " failed: HTTP "@, b, " "@ + c);
            lemma_quotes(m, "Basecamp token "@ + a + " failed: HTTP "@ + b + " "@, c, none);
        },
        Failure::IdentityStatus(a) => {
            lemma_quotes(m, "Failed to read Basecamp authorization: HTTP "@, a, none);
        },
        Failure::SecretUnreadable(a) => {
            lemma_quotes(m, "Basecamp client secret decryption failed: "@, a, none);
        },
        Failure::UnknownProvider(a) => {
            lemma_quotes(m, "Unknown calendar provider type: '"@, a, "'"@);
        },
        _ => {},
    }
}

proof fn lemma_quotes(m: Seq<char>, before: Seq<char>, quoted: Seq<char>, after: Seq<char>)
    requires
        m =~= before + quoted + after,
    ensures
        text::contains_text(m, quoted),
{
    text::law_containing_is_standing_between(m, quoted);
}

} // verus!
