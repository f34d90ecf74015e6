//! Build a provider from a stored source row.
//!
//! A provider is built with a plaintext secret, so credentials have to be decrypted and, for
//! OAuth 2 back-ends, tokens renewed first. This module says which of these a source needs, and
//! builds the provider with what came of it.

use vstd::prelude::*;
use super::factory;
use super::factory::{build_provider, kinds, Provider};
use crate::error::{Error, Failure};
use crate::text;
use crate::text::same;

verus! {

/// The credential columns of a stored source row.
#[derive(Debug, Clone, Default)]
pub struct SourceCredentials<'a> {
    pub provider_type: &'a str,
    pub url: &'a str,
    pub username: &'a str,
    pub auth_type: &'a str,
    pub password_enc: Option<&'a str>,
    pub access_token_enc: Option<&'a str>,
    pub token_expires_at: Option<&'a str>,
}

/// What a source needs before its provider can be built.
#[derive(Debug)]
pub enum SourceStep {
    /// A valid Basecamp access token, renewed where it is due.
    AccessToken,
    /// A CalDAV client, which has both password and OAuth 2 sign-in of its own.
    CaldavClient,
    /// This stored password, decrypted.
    Password(String),
    /// Nothing will do.
    Fail(Error),
}

/// What a source needs before its provider can be built, as contracts speak of it.
pub enum SourceStepView {
    AccessToken,
    CaldavClient,
    Password(Seq<char>),
    Fail(Failure<Seq<char>>),
}

impl View for SourceStep {
    type V = SourceStepView;

    open spec fn view(&self) -> SourceStepView {
        match self {
            SourceStep::AccessToken => SourceStepView::AccessToken,
            SourceStep::CaldavClient => SourceStepView::CaldavClient,
            SourceStep::Password(enc) => SourceStepView::Password(enc@),
            SourceStep::Fail(e) => SourceStepView::Fail(e@),
        }
    }
}

/// What a source of that type with that stored password needs.
pub open spec fn needed(
    provider_type: Seq<char>,
    password_enc: Option<Seq<char>>,
) -> SourceStepView {
    if provider_type == kinds::BASECAMP@ {
        SourceStepView::AccessToken
    } else if provider_type == kinds::CALDAV@ {
        SourceStepView::CaldavClient
    } else {
        match password_enc {
            Some(enc) => SourceStepView::Password(enc),
            None => SourceStepView::Fail(Failure::NoStoredPassword),
        }
    }
}

/// Decide what a source needs before its provider can be built.
pub fn source_step(creds: &SourceCredentials<'_>) -> (r: SourceStep)
    ensures
        r@ == needed(creds.provider_type@, text::opt_view(creds.password_enc)),
{
    if same(creds.provider_type, kinds::BASECAMP) {
        SourceStep::AccessToken
    } else if same(creds.provider_type, kinds::CALDAV) {
        SourceStep::CaldavClient
    } else {
        match creds.password_enc {
            Some(enc) => SourceStep::Password(enc.to_owned()),
            None => SourceStep::Fail(Failure::NoStoredPassword),
        }
    }
}

/// Build the provider of a source with its plaintext secret: an access token or a password.
pub fn build_with_secret(creds: &SourceCredentials<'_>, secret: &str) -> (r: Result<
    Provider,
    Error,
>)
    ensures
        factory::provider_result_view(r) == factory::provider_for(
            creds.provider_type@,
            creds.url@,
            creds.username@,
            secret@,
        ),
{
    build_provider(creds.provider_type, creds.url, creds.username, secret)
}

// ---------------------------------------------------------------------------
// Laws
// ---------------------------------------------------------------------------

/// A Basecamp source needs an access token and a CalDAV source its own client, whatever password
/// is stored; any other source needs its stored password, and fails without one.
pub proof fn law_sources_need_their_own_secret(
    provider_type: Seq<char>,
    stored: Option<Seq<char>>,
)
    ensures
        needed("basecamp"@, stored) == SourceStepView::AccessToken,
        needed("caldav"@, stored) == SourceStepView::CaldavClient,
        provider_type != "basecamp"@ && provider_type != "caldav"@ ==> match stored {
            Some(enc) => needed(provider_type, stored) == SourceStepView::Password(enc),
            None => needed(provider_type, stored) == SourceStepView::Fail(
                Failure::NoStoredPassword,
            ),
        },
{
    reveal_strlit("caldav");
    reveal_strlit("basecamp");
    assert("caldav"@.len() == 6 && "basecamp"@.len() == 8);
}

} // verus!
