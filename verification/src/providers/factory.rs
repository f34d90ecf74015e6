//! Which back-end a stored source has.
//!
//! The dispatch stands in one place, so that nothing else needs to know which protocol a source
//! uses. A new back-end is added to the functions of this module.

use vstd::prelude::*;
use crate::basecamp;
use crate::basecamp::BasecampProvider;
use crate::error;
use crate::error::{Error, Failure};
use crate::text;
use crate::text::same;

pub mod kinds;

verus! {

/// A provider for one source, with what it is reached by.
#[derive(Debug)]
pub enum Provider {
    Caldav { url: String, username: String, password: String },
    Ews { url: String, username: String, password: String },
    Basecamp(BasecampProvider),
}

/// A provider, as contracts speak of it.
pub enum ProviderView {
    Caldav { url: Seq<char>, username: Seq<char>, password: Seq<char> },
    Ews { url: Seq<char>, username: Seq<char>, password: Seq<char> },
    Basecamp { api_base: Seq<char>, account_id: Seq<char>, access_token: Seq<char>, budget: nat },
}

impl View for Provider {
    type V = ProviderView;

    open spec fn view(&self) -> ProviderView {
        match self {
            Provider::Caldav { url, username, password } => ProviderView::Caldav {
                url: url@,
                username: username@,
                password: password@,
            },
            Provider::Ews { url, username, password } => ProviderView::Ews {
                url: url@,
                username: username@,
                password: password@,
            },
            Provider::Basecamp(p) => ProviderView::Basecamp {
                api_base: p.account_client().base(),
                account_id: p.account_client().account(),
                access_token: p.account_client().token(),
                budget: p.budget(),
            },
        }
    }
}

/// The view of a fallible provider.
pub open spec fn provider_result_view(r: Result<Provider, Error>) -> Result<
    ProviderView,
    Failure<Seq<char>>,
> {
    match r {
        Ok(p) => Ok(p@),
        Err(e) => Err(e@),
    }
}

/// Does this provider go through the generic provider interface?
///
/// CalDAV keeps its own code path, for its protocol-specific optimisations. Everything else is
/// generic, so dispatch sites ask this rather than naming each back-end.
pub fn uses_generic_provider(provider_type: &str) -> (r: bool)
    ensures
        r == is_generic(provider_type@),
        r == (provider_type@ != kinds::CALDAV@),
{
    !same(provider_type, kinds::CALDAV)
}

/// Does this provider authenticate with OAuth 2 instead of a stored password?
pub fn is_oauth2_only(provider_type: &str) -> (r: bool)
    ensures
        r == signs_in_with_oauth2(provider_type@),
        r == (provider_type@ == kinds::BASECAMP@),
{
    same(provider_type, kinds::BASECAMP)
}

/// The provider for a source row.
pub open spec fn provider_for(
    provider_type: Seq<char>,
    url: Seq<char>,
    username: Seq<char>,
    password: Seq<char>,
) -> Result<ProviderView, Failure<Seq<char>>> {
    if provider_type == kinds::CALDAV@ {
        Ok(ProviderView::Caldav { url, username, password })
    } else if provider_type == kinds::EWS@ {
        Ok(ProviderView::Ews { url, username, password })
    } else if provider_type == kinds::BASECAMP@ {
        match basecamp::account_of_url(url) {
            Ok((base, account)) => Ok(
                ProviderView::Basecamp {
                    api_base: text::without_suffixes(base, "/"@),
                    account_id: account,
                    access_token: password,
                    budget: basecamp::DEFAULT_PAGE_BUDGET as nat,
                },
            ),
            Err(e) => Err(e),
        }
    } else {
        Err(Failure::UnknownProvider(provider_type))
    }
}

/// Build a provider for the given source row.
///
/// URL, user name and secret may carry provider-specific meaning: for EWS the URL is the
/// `Exchange.asmx` endpoint, for CalDAV it is the discovery URL, and for Basecamp the URL is the
/// account API base and `password` is a valid OAuth 2 access token.
pub fn build_provider(provider_type: &str, url: &str, username: &str, password: &str) -> (r: Result<
    Provider,
    Error,
>)
    ensures
        provider_result_view(r) == provider_for(provider_type@, url@, username@, password@),
{
    if same(provider_type, kinds::CALDAV) {
        Ok(
            Provider::Caldav {
                url: url.to_owned(),
                username: username.to_owned(),
                password: password.to_owned(),
            },
        )
    } else if same(provider_type, kinds::EWS) {
        Ok(
            Provider::Ews {
                url: url.to_owned(),
                username: username.to_owned(),
                password: password.to_owned(),
            },
        )
    } else if same(provider_type, kinds::BASECAMP) {
        match BasecampProvider::new(url, password) {
            Ok(p) => Ok(Provider::Basecamp(p)),
            Err(e) => Err(e),
        }
    } else {
        Err(Failure::UnknownProvider(provider_type.to_owned()))
    }
}

/// What validating the URL of a source gives, where the general check of source URLs gave
/// `general`.
pub open spec fn url_verdict(
    provider_type: Seq<char>,
    url: Seq<char>,
    general: Result<(), Seq<char>>,
) -> Result<(), Failure<Seq<char>>> {
    if provider_type == kinds::CALDAV@ || provider_type == kinds::EWS@ {
        match general {
            Ok(_) => Ok(()),
            Err(message) => Err(Failure::RejectedUrl(message)),
        }
    } else if provider_type == kinds::BASECAMP@ {
        basecamp::validated(url, general)
    } else {
        Err(Failure::UnknownProvider(provider_type))
    }
}

/// Validate a URL based on the provider type. `general` is the outcome of the general check of
/// source URLs, which refuses what is no http(s) URL and hosts that must not be reached.
pub fn validate_url(provider_type: &str, url: &str, general: Result<(), String>) -> (r: Result<
    (),
    Error,
>)
    ensures
        error::result_view(r) == url_verdict(provider_type@, url@, basecamp::check_view(general)),
{
    if same(provider_type, kinds::CALDAV) || same(provider_type, kinds::EWS) {
        match general {
            Ok(_) => Ok(()),
            Err(message) => Err(Failure::RejectedUrl(message)),
        }
    } else if same(provider_type, kinds::BASECAMP) {
        basecamp::validate_url(url, general)
    } else {
        Err(Failure::UnknownProvider(provider_type.to_owned()))
    }
}

/// Human-readable label for UI listings.
pub fn label(provider_type: &str) -> (r: &'static str)
    ensures
        r@ == label_text(provider_type@),
        r@ == if provider_type@ == kinds::CALDAV@ {
            "CalDAV"@
        } else if provider_type@ == kinds::EWS@ {
            "Microsoft Exchange (EWS)"@
        } else if provider_type@ == kinds::BASECAMP@ {
            "Basecamp"@
        } else {
            "Unknown"@
        },
{
    if same(provider_type, kinds::CALDAV) {
        "CalDAV"
    } else if same(provider_type, kinds::EWS) {
        "Microsoft Exchange (EWS)"
    } else if same(provider_type, kinds::BASECAMP) {
        "Basecamp"
    } else {
        "Unknown"
    }
}

// ---------------------------------------------------------------------------
// Laws
// ---------------------------------------------------------------------------

proof fn lemma_kinds_differ()
    ensures
        kinds::CALDAV@ != kinds::EWS@,
        kinds::CALDAV@ != kinds::BASECAMP@,
        kinds::EWS@ != kinds::BASECAMP@,
{
    reveal_strlit("caldav");
    reveal_strlit("ews");
    reveal_strlit("basecamp");
    assert(kinds::CALDAV@.len() == 6 && kinds::EWS@.len() == 3 && kinds::BASECAMP@.len() == 8);
}

/// A source that signs in with OAuth 2 only goes through the generic interface.
pub proof fn law_oauth2_only_is_generic(provider_type: Seq<char>)
    requires
        provider_type == kinds::BASECAMP@,
    ensures
        provider_type != kinds::CALDAV@,
{
    lemma_kinds_differ();
}

/// A provider type that can be built can be validated, and the other way round: both refuse
/// exactly the types that no back-end has, and with the same failure.
pub proof fn law_unknown_types_are_refused(
    provider_type: Seq<char>,
    url: Seq<char>,
    username: Seq<char>,
    password: Seq<char>,
    general: Result<(), Seq<char>>,
)
    ensures
        ({
            let unknown = provider_type != kinds::CALDAV@ && provider_type != kinds::EWS@
                && provider_type != kinds::BASECAMP@;
            let refusal = Failure::UnknownProvider(provider_type);
            &&& unknown <==> provider_for(provider_type, url, username, password) == Err::<
                ProviderView,
                Failure<Seq<char>>,
            >(refusal)
            &&& unknown <==> url_verdict(provider_type, url, general) == Err::<
                (),
                Failure<Seq<char>>,
            >(refusal)
        }),
{
}

/// A Basecamp URL that was found valid builds a provider, whatever the token is.
pub proof fn law_valid_url_builds(
    url: Seq<char>,
    username: Seq<char>,
    token: Seq<char>,
    general: Result<(), Seq<char>>,
)
    requires
        url_verdict(kinds::BASECAMP@, url, general) is Ok,
    ensures
        provider_for(kinds::BASECAMP@, url, username, token) is Ok,
{
    lemma_kinds_differ();
}

/// A source is built as what its type names, with its own URL, user name and secret: `caldav`,
/// `ews`, or `basecamp`, whose secret is the access token, whose address and account are those of
/// its URL, and which starts with a budget of sixty pages.
pub proof fn law_sources_are_built_by_their_type(
    url: Seq<char>,
    username: Seq<char>,
    password: Seq<char>,
)
    ensures
        provider_for("caldav"@, url, username, password) == Ok::<
            ProviderView,
            Failure<Seq<char>>,
        >(ProviderView::Caldav { url, username, password }),
        provider_for("ews"@, url, username, password) == Ok::<ProviderView, Failure<Seq<char>>>(
            ProviderView::Ews { url, username, password },
        ),
        provider_for("basecamp"@, url, username, password) == match basecamp::account_of_url(url) {
            Ok((base, account)) => Ok(
                ProviderView::Basecamp {
                    api_base: text::without_suffixes(base, "/"@),
                    account_id: account,
                    access_token: password,
                    budget: 60,
                },
            ),
            Err(e) => Err(e),
        },
{
    lemma_kinds_differ();
}

/// A CalDAV or EWS URL is valid exactly where the general check lets it pass, a Basecamp URL
/// exactly where it names an account too; the refusal of the general check comes first.
pub proof fn law_urls_are_checked_by_their_type(url: Seq<char>, general: Result<(), Seq<char>>)
    ensures
        url_verdict("caldav"@, url, general) is Ok <==> general is Ok,
        url_verdict("ews"@, url, general) is Ok <==> general is Ok,
        url_verdict("basecamp"@, url, general) is Ok <==> general is Ok && basecamp::account_of_url(
            url,
        ) is Ok,
        general matches Err(message) ==> {
            let refusal = Err::<(), Failure<Seq<char>>>(Failure::RejectedUrl(message));
            &&& url_verdict("caldav"@, url, general) == refusal
            &&& url_verdict("ews"@, url, general) == refusal
            &&& url_verdict("basecamp"@, url, general) == refusal
        },
        general is Ok ==> (basecamp::account_of_url(url) matches Err(e) ==> url_verdict(
            "basecamp"@,
            url,
            general,
        ) == Err::<(), Failure<Seq<char>>>(e)),
{
    lemma_kinds_differ();
}

/// The label of a provider type.
pub open spec fn label_text(provider_type: Seq<char>) -> Seq<char> {
    if provider_type == kinds::CALDAV@ {
        "CalDAV"@
    } else if provider_type == kinds::EWS@ {
        "Microsoft Exchange (EWS)"@
    } else if provider_type == kinds::BASECAMP@ {
        "Basecamp"@
    } else {
        "Unknown"@
    }
}

/// Each provider type is labelled with the name of its back-end, and a type of none as unknown.
pub proof fn law_types_are_labelled(provider_type: Seq<char>)
    ensures
        label_text("caldav"@) == "CalDAV"@,
        label_text("ews"@) == "Microsoft Exchange (EWS)"@,
        label_text("basecamp"@) == "Basecamp"@,
        provider_type != "caldav"@ && provider_type != "ews"@ && provider_type != "basecamp"@
            ==> label_text(provider_type) == "Unknown"@,
{
    lemma_kinds_differ();
}

/// Does a provider type go through the generic provider interface?
pub open spec fn is_generic(provider_type: Seq<char>) -> bool {
    provider_type != kinds::CALDAV@
}

/// Does a provider type sign in with OAuth 2 instead of a stored password?
pub open spec fn signs_in_with_oauth2(provider_type: Seq<char>) -> bool {
    provider_type == kinds::BASECAMP@
}

/// CalDAV alone has a code path of its own, and Basecamp alone signs in with OAuth 2 only.
pub proof fn law_types_are_dispatched(provider_type: Seq<char>)
    ensures
        is_generic(provider_type) <==> provider_type != "caldav"@,
        signs_in_with_oauth2(provider_type) <==> provider_type == "basecamp"@,
        signs_in_with_oauth2(provider_type) ==> is_generic(provider_type),
{
    lemma_kinds_differ();
}

} // verus!
