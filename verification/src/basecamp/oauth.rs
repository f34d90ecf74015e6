//! OAuth 2 against 37signals' Launchpad, for Basecamp calendar sources.
//!
//! Launchpad predates the usual OAuth 2 parameter names: the grant is selected with a `type`
//! parameter (`web_server` for a code exchange, `refresh` for a refresh) rather than
//! `grant_type`.
//!
//! This module builds what is sent to Launchpad, reads what comes back, and decides when a
//! token has to be renewed and what is then stored. Tokens belong to the authorizing identity,
//! not to one Basecamp account, so a renewed one is stored for every source of that identity.

use vstd::prelude::*;
use super::client;
use crate::error;
use crate::error::{Error, Failure};
use crate::json::Json;
use crate::text;
use crate::text::{same, trim};
use crate::time;
use crate::time::{
    is_representable_after, parse_rfc3339, plus_seconds, seconds_between, to_rfc3339, utc_now,
    UtcDateTime,
};
use crate::utils;
use crate::web;
use crate::web::url_encode;

verus! {

/// Timeout for a Launchpad call, in seconds. These run inline in web handlers, so a stalled
/// endpoint must fail rather than hold the request open.
pub const LAUNCHPAD_TIMEOUT_SECS: u64 = 20;

/// Where Launchpad is reached.
pub const LAUNCHPAD_BASE: &'static str = "https://launchpad.37signals.com";

/// The page that asks the user for an authorization.
pub const AUTHORIZE_PATH: &'static str = "/authorization/new";

/// Where codes and refresh tokens are exchanged for access tokens.
pub const TOKEN_PATH: &'static str = "/authorization/token";

/// Where the authorizing identity is told.
pub const IDENTITY_PATH: &'static str = "/authorization.json";

/// Refresh this long before expiry rather than exactly at it, so that a request that starts just
/// under the wire does not race the deadline. In seconds.
pub const REFRESH_BUFFER_SECS: i64 = 300;

/// How long an access token lasts where the answer does not say: two weeks, in seconds.
pub const DEFAULT_LIFETIME_SECS: i64 = 1_209_600;

/// The product whose accounts have a schedule.
pub const CURRENT_PRODUCT: &'static str = "bc3";

/// The `oauth2_provider` value of a Basecamp source.
pub const PROVIDER: &'static str = "basecamp";

// ---------------------------------------------------------------------------
// Requests
// ---------------------------------------------------------------------------

/// The Launchpad authorization URL.
pub open spec fn auth_url_text(
    client_id: Seq<char>,
    redirect_uri: Seq<char>,
    state: Seq<char>,
) -> Seq<char> {
    LAUNCHPAD_BASE@ + AUTHORIZE_PATH@ + "?type=web_server&client_id="@ + web::url_encoded(client_id)
        + "&redirect_uri="@ + web::url_encoded(redirect_uri) + "&response_type=code&state="@
        + web::url_encoded(state)
}

/// Build the Launchpad authorization URL to send the user to.
pub fn build_auth_url(client_id: &str, redirect_uri: &str, state: &str) -> (r: String)
    ensures
        r@ == auth_url_text(client_id@, redirect_uri@, state@),
{
    let mut out = String::new();
    out.append(LAUNCHPAD_BASE);
    out.append(AUTHORIZE_PATH);
    out.append("?type=web_server&client_id=");
    out.append(url_encode(client_id).as_str());
    out.append("&redirect_uri=");
    out.append(url_encode(redirect_uri).as_str());
    out.append("&response_type=code&state=");
    out.append(url_encode(state).as_str());
    assert(out@ =~= auth_url_text(client_id@, redirect_uri@, state@));
    out
}

/// A form as contracts speak of it: names and values, in order.
pub open spec fn form_view(form: Seq<(&'static str, String)>) -> Seq<(Seq<char>, Seq<char>)> {
    form.map_values(|field: (&'static str, String)| (field.0@, field.1@))
}

/// The form that exchanges an authorization code.
pub open spec fn exchange_fields(
    client_id: Seq<char>,
    client_secret: Seq<char>,
    code: Seq<char>,
    redirect_uri: Seq<char>,
) -> Seq<(Seq<char>, Seq<char>)> {
    seq![
        ("type"@, "web_server"@),
        ("client_id"@, client_id),
        ("client_secret"@, client_secret),
        ("redirect_uri"@, redirect_uri),
        ("code"@, code),
    ]
}

/// The form that renews an access token.
pub open spec fn refresh_fields(
    client_id: Seq<char>,
    client_secret: Seq<char>,
    refresh_token: Seq<char>,
) -> Seq<(Seq<char>, Seq<char>)> {
    seq![
        ("type"@, "refresh"@),
        ("client_id"@, client_id),
        ("client_secret"@, client_secret),
        ("refresh_token"@, refresh_token),
    ]
}

/// The form that exchanges an authorization code for tokens.
pub fn exchange_form(client_id: &str, client_secret: &str, code: &str, redirect_uri: &str) -> (r:
    Vec<(&'static str, String)>)
    ensures
        form_view(r@) == exchange_fields(client_id@, client_secret@, code@, redirect_uri@),
{
    let mut form: Vec<(&'static str, String)> = Vec::new();
    form.push(("type", "web_server".to_owned()));
    form.push(("client_id", client_id.to_owned()));
    form.push(("client_secret", client_secret.to_owned()));
    form.push(("redirect_uri", redirect_uri.to_owned()));
    form.push(("code", code.to_owned()));
    assert(form_view(form@) =~= exchange_fields(
        client_id@,
        client_secret@,
        code@,
        redirect_uri@,
    ));
    form
}

/// The form that renews an access token.
pub fn refresh_form(client_id: &str, client_secret: &str, refresh_token: &str) -> (r: Vec<
    (&'static str, String),
>)
    ensures
        form_view(r@) == refresh_fields(client_id@, client_secret@, refresh_token@),
{
    let mut form: Vec<(&'static str, String)> = Vec::new();
    form.push(("type", "refresh".to_owned()));
    form.push(("client_id", client_id.to_owned()));
    form.push(("client_secret", client_secret.to_owned()));
    form.push(("refresh_token", refresh_token.to_owned()));
    assert(form_view(form@) =~= refresh_fields(client_id@, client_secret@, refresh_token@));
    form
}

fn launchpad_url(path: &str) -> (r: String)
    ensures
        r@ == LAUNCHPAD_BASE@ + path@,
{
    let mut out = String::new();
    out.append(LAUNCHPAD_BASE);
    out.append(path);
    assert(out@ =~= LAUNCHPAD_BASE@ + path@);
    out
}

/// The URL that the token forms are posted to.
pub fn token_url() -> (r: String)
    ensures
        r@ == LAUNCHPAD_BASE@ + TOKEN_PATH@,
{
    launchpad_url(TOKEN_PATH)
}

/// The URL that tells the authorizing identity.
pub fn identity_url() -> (r: String)
    ensures
        r@ == LAUNCHPAD_BASE@ + IDENTITY_PATH@,
{
    launchpad_url(IDENTITY_PATH)
}

// ---------------------------------------------------------------------------
// Answers
// ---------------------------------------------------------------------------

/// What Launchpad grants.
#[derive(Debug)]
pub struct TokenResponse {
    pub access_token: String,
    pub refresh_token: Option<String>,
    /// In seconds.
    pub expires_in: Option<i64>,
}

/// How long a granted access token lasts, in seconds.
pub open spec fn lifetime(expires_in: Option<i64>) -> i64 {
    match expires_in {
        Some(s) => s,
        None => DEFAULT_LIFETIME_SECS,
    }
}

/// Accept the answer to a token call, or tell the operation, the status and the body.
pub fn check_token_answer(op: &str, status: u16, status_text: &str, body: &str) -> (r: Result<
    (),
    Error,
>)
    ensures
        error::result_view(r) == client::verdict(
            status,
            Failure::TokenFailed(op@, status_text@, body@),
        ),
        error::result_view(r) == if client::is_success(status) {
            Ok::<(), Failure<Seq<char>>>(())
        } else {
            Err(Failure::TokenFailed(op@, status_text@, body@))
        },
{
    if 200 <= status && status < 300 {
        Ok(())
    } else {
        Err(Failure::TokenFailed(op.to_owned(), status_text.to_owned(), body.to_owned()))
    }
}

/// What the exchange of an authorization code gives.
pub open spec fn exchange_outcome(
    access_token: Seq<char>,
    refresh_token: Option<Seq<char>>,
    expires_in: Option<i64>,
) -> Result<(Seq<char>, Seq<char>, i64), Failure<Seq<char>>> {
    match refresh_token {
        Some(refresh) => Ok((access_token, refresh, lifetime(expires_in))),
        None => Err(Failure::NoRefreshTokenReturned),
    }
}

/// The view of what an exchange gives.
pub open spec fn exchange_view(r: Result<(String, String, i64), Error>) -> Result<
    (Seq<char>, Seq<char>, i64),
    Failure<Seq<char>>,
> {
    match r {
        Ok((access, refresh, seconds)) => Ok((access@, refresh@, seconds)),
        Err(e) => Err(e@),
    }
}

/// What the exchange of an authorization code gives: access token, refresh token and lifetime in
/// seconds. A grant without a refresh token is a failure.
pub fn exchanged(token: TokenResponse) -> (r: Result<(String, String, i64), Error>)
    ensures
        exchange_view(r) == exchange_outcome(
            token.access_token@,
            text::opt_string_view(token.refresh_token),
            token.expires_in,
        ),
        match token.refresh_token {
            Some(refresh) => r == Ok::<(String, String, i64), Error>(
                (token.access_token, refresh, lifetime(token.expires_in)),
            ),
            None => r matches Err(e) && e@ == Failure::<Seq<char>>::NoRefreshTokenReturned,
        },
{
    let seconds: i64 = match token.expires_in {
        Some(s) => s,
        None => DEFAULT_LIFETIME_SECS,
    };
    match token.refresh_token {
        Some(refresh) => Ok((token.access_token, refresh, seconds)),
        None => Err(Failure::NoRefreshTokenReturned),
    }
}

/// Accept the answer that tells the identity, or tell its status.
pub fn check_identity_answer(status: u16, status_text: &str) -> (r: Result<(), Error>)
    ensures
        error::result_view(r) == client::verdict(status, Failure::IdentityStatus(status_text@)),
        error::result_view(r) == if client::is_success(status) {
            Ok::<(), Failure<Seq<char>>>(())
        } else {
            Err(Failure::IdentityStatus(status_text@))
        },
{
    if 200 <= status && status < 300 {
        Ok(())
    } else {
        Err(Failure::IdentityStatus(status_text.to_owned()))
    }
}

// ---------------------------------------------------------------------------
// Identity
// ---------------------------------------------------------------------------

/// One Basecamp account the authorizing user can reach.
#[derive(Debug, Clone)]
pub struct BasecampAccount {
    pub id: String,
    pub name: String,
    /// `bc3` for current Basecamp; older products have no schedule API and are filtered out
    /// before the user ever sees them.
    pub product: String,
}

/// An account, as contracts speak of it.
pub struct AccountView {
    pub id: Seq<char>,
    pub name: Seq<char>,
    pub product: Seq<char>,
}

impl View for BasecampAccount {
    type V = AccountView;

    open spec fn view(&self) -> AccountView {
        AccountView { id: self.id@, name: self.name@, product: self.product@ }
    }
}

/// The authorizing identity plus the accounts it can act on.
#[derive(Debug, Clone)]
pub struct Identity {
    pub email: String,
    pub name: String,
    pub accounts: Vec<BasecampAccount>,
}

/// An identity, as contracts speak of it.
pub struct IdentityView {
    pub email: Seq<char>,
    pub name: Seq<char>,
    pub accounts: Seq<AccountView>,
}

/// The views of accounts.
pub open spec fn account_views(v: Seq<BasecampAccount>) -> Seq<AccountView> {
    v.map_values(|a: BasecampAccount| a@)
}

impl View for Identity {
    type V = IdentityView;

    open spec fn view(&self) -> IdentityView {
        IdentityView {
            email: self.email@,
            name: self.name@,
            accounts: account_views(self.accounts@),
        }
    }
}

/// A text, or else a fallback.
pub open spec fn text_or(o: Option<Seq<char>>, fallback: Seq<char>) -> Seq<char> {
    match o {
        Some(s) => s,
        None => fallback,
    }
}

/// The name of an identity: first and last name, or the first name alone, or else the email
/// address.
pub open spec fn shown_name(
    first: Option<Seq<char>>,
    last: Option<Seq<char>>,
    email: Seq<char>,
) -> Seq<char> {
    match first {
        Some(f) => match last {
            Some(l) => text::trimmed(f + " "@ + l),
            None => f,
        },
        None => email,
    }
}

/// The account id in an account document: a numeral, or a text.
pub open spec fn told_id(account: Json) -> Option<Seq<char>> {
    match account.member("id"@) {
        Some(Json::Number(n)) => Some(n@),
        Some(Json::Text(s)) => Some(s@),
        _ => None,
    }
}

/// The account in an account document, where that has an id.
pub open spec fn told_account(account: Json) -> Option<AccountView> {
    match told_id(account) {
        Some(id) => Some(
            AccountView {
                id,
                name: text_or(account.member_text("name"@), "Basecamp"@),
                product: text_or(account.member_text("product"@), Seq::empty()),
            },
        ),
        None => None,
    }
}

/// The accounts in account documents, in order; one without an id is left out.
pub open spec fn told_accounts(documents: Seq<Json>) -> Seq<AccountView>
    decreases documents.len(),
{
    if documents.len() == 0 {
        Seq::empty()
    } else {
        let before = told_accounts(documents.drop_last());
        match told_account(documents.last()) {
            Some(account) => before.push(account),
            None => before,
        }
    }
}

/// The accounts of an authorization document; none where it lists none.
pub open spec fn listed_accounts(document: Json) -> Seq<AccountView> {
    match document.member("accounts"@) {
        Some(Json::Array(items)) => told_accounts(items@),
        _ => Seq::empty(),
    }
}

/// The identity in an authorization document.
pub open spec fn told_identity(document: Json) -> Result<IdentityView, Failure<Seq<char>>> {
    match document.member("identity"@) {
        None => Err(Failure::NoIdentity),
        Some(identity) => {
            let email = text_or(identity.member_text("email_address"@), Seq::empty());
            Ok(
                IdentityView {
                    email,
                    name: shown_name(
                        identity.member_text("first_name"@),
                        identity.member_text("last_name"@),
                        email,
                    ),
                    accounts: listed_accounts(document),
                },
            )
        },
    }
}

/// The view of a fallible identity.
pub open spec fn identity_result_view(r: Result<Identity, Error>) -> Result<
    IdentityView,
    Failure<Seq<char>>,
> {
    match r {
        Ok(i) => Ok(i@),
        Err(e) => Err(e@),
    }
}

fn or_text(o: Option<&str>, fallback: &str) -> (r: String)
    ensures
        r@ == text_or(text::opt_view(o), fallback@),
{
    match o {
        Some(s) => s.to_owned(),
        None => fallback.to_owned(),
    }
}

fn read_name(first: Option<&str>, last: Option<&str>, email: &str) -> (r: String)
    ensures
        r@ == shown_name(text::opt_view(first), text::opt_view(last), email@),
{
    match first {
        Some(f) => match last {
            Some(l) => {
                let mut full = String::new();
                full.append(f);
                full.append(" ");
                full.append(l);
                assert(full@ =~= f@ + " "@ + l@);
                trim(full.as_str())
            },
            None => f.to_owned(),
        },
        None => email.to_owned(),
    }
}

fn read_account(document: &Json) -> (r: Option<BasecampAccount>)
    ensures
        match r {
            Some(account) => told_account(*document) == Some(account@),
            None => told_account(*document) is None,
        },
{
    let id = match document.get("id") {
        Some(Json::Number(n)) => n.clone(),
        Some(Json::Text(s)) => s.clone(),
        _ => {
            return None;
        },
    };
    proof {
        reveal_strlit("");
        assert(""@ =~= Seq::<char>::empty());
    }
    Some(
        BasecampAccount {
            id,
            name: or_text(document.get_text("name"), "Basecamp"),
            product: or_text(document.get_text("product"), ""),
        },
    )
}

fn read_accounts(documents: &Vec<Json>) -> (r: Vec<BasecampAccount>)
    ensures
        account_views(r@) == told_accounts(documents@),
{
    let mut out: Vec<BasecampAccount> = Vec::new();
    let mut i: usize = 0;
    assert(account_views(out@) =~= told_accounts(documents@.take(0)));
    while i < documents.len()
        invariant
            i <= documents@.len(),
            account_views(out@) == told_accounts(documents@.take(i as int)),
        decreases documents@.len() - i,
    {
        assert(documents@.take(i + 1).drop_last() =~= documents@.take(i as int));
        let ghost before = account_views(out@);
        match read_account(&documents[i]) {
            Some(account) => {
                let ghost shown = account@;
                out.push(account);
                assert(account_views(out@) =~= before.push(shown));
            },
            None => {},
        }
        i = i + 1;
    }
    assert(documents@.take(documents@.len() as int) =~= documents@);
    out
}

/// Parse the authorization document.
pub fn parse_identity(json: &Json) -> (r: Result<Identity, Error>)
    ensures
        identity_result_view(r) == told_identity(*json),
{
    let identity = match json.get("identity") {
        Some(identity) => identity,
        None => {
            return Err(Failure::NoIdentity);
        },
    };
    proof {
        reveal_strlit("");
        assert(""@ =~= Seq::<char>::empty());
    }
    let email = or_text(identity.get_text("email_address"), "");
    let name = read_name(
        identity.get_text("first_name"),
        identity.get_text("last_name"),
        email.as_str(),
    );
    let accounts = match json.get("accounts") {
        Some(Json::Array(items)) => read_accounts(items),
        _ => Vec::new(),
    };
    assert(account_views(accounts@) =~= listed_accounts(*json));
    Ok(Identity { email, name, accounts })
}

/// The accounts of the current product, in order.
pub open spec fn current_accounts(accounts: Seq<AccountView>) -> Seq<AccountView>
    decreases accounts.len(),
{
    if accounts.len() == 0 {
        Seq::empty()
    } else {
        let before = current_accounts(accounts.drop_last());
        if accounts.last().product == CURRENT_PRODUCT@ {
            before.push(accounts.last())
        } else {
            before
        }
    }
}

/// Accounts that actually have a schedule API: current Basecamp only.
pub fn schedulable_accounts(identity: &Identity) -> (r: Vec<BasecampAccount>)
    ensures
        account_views(r@) == current_accounts(identity@.accounts),
{
    let ghost all = account_views(identity.accounts@);
    let mut out: Vec<BasecampAccount> = Vec::new();
    let mut i: usize = 0;
    assert(account_views(out@) =~= current_accounts(all.take(0)));
    while i < identity.accounts.len()
        invariant
            i <= identity.accounts@.len(),
            all == account_views(identity.accounts@),
            account_views(out@) == current_accounts(all.take(i as int)),
        decreases identity.accounts@.len() - i,
    {
        assert(all.take(i + 1).drop_last() =~= all.take(i as int));
        let ghost before = account_views(out@);
        let account = &identity.accounts[i];
        assert(all.take(i + 1).last() == account@);
        if same(account.product.as_str(), CURRENT_PRODUCT) {
            out.push(
                BasecampAccount {
                    id: account.id.clone(),
                    name: account.name.clone(),
                    product: account.product.clone(),
                },
            );
            assert(account_views(out@) =~= before.push(account@));
        }
        i = i + 1;
    }
    assert(all.take(all.len() as int) =~= all);
    out
}

// ---------------------------------------------------------------------------
// App credentials
// ---------------------------------------------------------------------------

/// The stored app credentials: the client id and the encrypted client secret, both there and not
/// empty.
pub open spec fn stored_credentials(row: Option<(Option<Seq<char>>, Option<Seq<char>>)>) -> Result<
    (Seq<char>, Seq<char>),
    Failure<Seq<char>>,
> {
    match row {
        Some((Some(id), Some(secret))) => if id.len() > 0 && secret.len() > 0 {
            Ok((id, secret))
        } else {
            Err(Failure::NotConfigured)
        },
        _ => Err(Failure::NotConfigured),
    }
}

/// The view of a stored row of two texts.
pub open spec fn row_view(row: Option<(Option<String>, Option<String>)>) -> Option<
    (Option<Seq<char>>, Option<Seq<char>>),
> {
    match row {
        Some((a, b)) => Some((text::opt_string_view(a), text::opt_string_view(b))),
        None => None,
    }
}

/// Read the stored app credentials: the client id and the secret, which is still encrypted.
pub fn configured_credentials(row: Option<(Option<String>, Option<String>)>) -> (r: Result<
    (String, String),
    Error,
>)
    ensures
        super::pair_result_view(r) == stored_credentials(row_view(row)),
{
    match row {
        Some((Some(id), Some(secret))) => if !id.as_str().is_empty()
            && !secret.as_str().is_empty() {
            Ok((id, secret))
        } else {
            Err(Failure::NotConfigured)
        },
        _ => Err(Failure::NotConfigured),
    }
}

/// The app credentials with the decrypted secret, or the failure to decrypt it.
pub fn decrypted_credentials(client_id: String, secret: Result<String, String>) -> (r: Result<
    (String, String),
    Error,
>)
    ensures
        match secret {
            Ok(s) => r == Ok::<(String, String), Error>((client_id, s)),
            Err(message) => r matches Err(e) && e@ == Failure::SecretUnreadable(message@),
        },
{
    match secret {
        Ok(s) => Ok((client_id, s)),
        Err(message) => Err(Failure::SecretUnreadable(message)),
    }
}

// ---------------------------------------------------------------------------
// Renewing tokens
// ---------------------------------------------------------------------------

/// Is a token that expires then due for renewal now? One whose expiry is not known is.
pub open spec fn is_due(expiry: Option<UtcDateTime>, now: UtcDateTime) -> bool {
    match expiry {
        Some(e) => time::whole_seconds(e, now) < REFRESH_BUFFER_SECS,
        None => true,
    }
}

/// The expiry that a stored text tells, where it can be read.
pub open spec fn stored_expiry(token_expires_at: Option<Seq<char>>) -> Option<UtcDateTime> {
    match token_expires_at {
        Some(raw) => time::rfc3339_utc(raw),
        None => None,
    }
}

/// Is a token that expires then due for renewal now? One whose expiry is not known is.
pub fn refresh_due(expiry: Option<UtcDateTime>, now: UtcDateTime) -> (r: bool)
    requires
        expiry matches Some(e) ==> e.valid(),
        now.valid(),
    ensures
        r == is_due(expiry, now),
{
    match expiry {
        Some(e) => seconds_between(e, now) < REFRESH_BUFFER_SECS,
        None => true,
    }
}

/// Is the stored expiry missing, unreadable, past, or within the refresh buffer at `now`? What
/// [`expiry_text`] writes is read as the time that it was written for.
pub fn needs_refresh_at(token_expires_at: Option<&str>, now: UtcDateTime) -> (r: bool)
    requires
        now.valid(),
    ensures
        r == is_due(stored_expiry(text::opt_view(token_expires_at)), now),
        forall|at: UtcDateTime|
            #![trigger time::rfc3339_text(at)]
            at.valid() && at.date.four_digit_year() && text::opt_view(token_expires_at) == Some(
                time::rfc3339_text(at),
            ) ==> r == is_due(Some(at), now),
        token_expires_at matches Some(s) && s@.len() < 19 ==> r,
{
    let expiry = match token_expires_at {
        Some(raw) => parse_rfc3339(raw),
        None => None,
    };
    refresh_due(expiry, now)
}

/// Is the stored expiry missing, past, or within the refresh buffer?
///
/// An unreadable stamp means that the expiry is not known; refreshing is the safe direction.
pub fn needs_refresh(token_expires_at: Option<&str>) -> (r: bool)
    ensures
        exists|now: UtcDateTime|
            now.valid() && now.nanos < 1_000_000_000 && now.date.year >= 1970 && r
                == #[trigger] is_due(stored_expiry(text::opt_view(token_expires_at)), now),
        stored_expiry(text::opt_view(token_expires_at)) is None ==> r,
        token_expires_at matches Some(s) && s@.len() < 19 ==> r,
{
    let now = utc_now();
    needs_refresh_at(token_expires_at, now)
}

/// What to do next for a usable access token.
#[derive(Debug)]
pub enum TokenStep {
    /// Renew the token.
    Refresh,
    /// Decrypt this stored token.
    Decrypt(String),
    /// Use this token.
    Use(String),
    /// Give up.
    Fail(Error),
}

/// What to do next for a usable access token, as contracts speak of it.
pub enum TokenStepView {
    Refresh,
    Decrypt(Seq<char>),
    Use(Seq<char>),
    Fail(Failure<Seq<char>>),
}

impl View for TokenStep {
    type V = TokenStepView;

    open spec fn view(&self) -> TokenStepView {
        match self {
            TokenStep::Refresh => TokenStepView::Refresh,
            TokenStep::Decrypt(s) => TokenStepView::Decrypt(s@),
            TokenStep::Use(s) => TokenStepView::Use(s@),
            TokenStep::Fail(e) => TokenStepView::Fail(e@),
        }
    }
}

/// What a stored access token calls for.
pub open spec fn stored_token_step(due: bool, stored: Option<Seq<char>>) -> TokenStepView {
    match (due, stored) {
        (true, _) => TokenStepView::Refresh,
        (false, Some(enc)) => TokenStepView::Decrypt(enc),
        (false, None) => TokenStepView::Fail(Failure::NoStoredAccessToken),
    }
}

/// What the outcome of decrypting a stored access token calls for.
pub open spec fn opened_token_step(opened: Option<Seq<char>>) -> TokenStepView {
    match opened {
        Some(token) => TokenStepView::Use(token),
        None => TokenStepView::Refresh,
    }
}

/// Decide on a stored access token: a token that is due is renewed, another one is decrypted.
pub fn token_step(due: bool, access_token_enc: Option<&str>) -> (r: TokenStep)
    ensures
        r@ == stored_token_step(due, text::opt_view(access_token_enc)),
        r@ == if due {
            TokenStepView::Refresh
        } else {
            match text::opt_view(access_token_enc) {
                Some(enc) => TokenStepView::Decrypt(enc),
                None => TokenStepView::Fail(Failure::NoStoredAccessToken),
            }
        },
{
    if due {
        return TokenStep::Refresh;
    }
    match access_token_enc {
        Some(enc) => TokenStep::Decrypt(enc.to_owned()),
        None => TokenStep::Fail(Failure::NoStoredAccessToken),
    }
}

/// Decide on the outcome of decrypting a stored access token. One that cannot be decrypted is as
/// good as absent, and renewed.
pub fn decrypted_step(decrypted: Result<String, String>) -> (r: TokenStep)
    ensures
        r@ == opened_token_step(
            match decrypted {
                Ok(token) => Some(token@),
                Err(_) => None,
            },
        ),
        r@ == match decrypted {
            Ok(token) => TokenStepView::Use(token@),
            Err(_) => TokenStepView::Refresh,
        },
{
    match decrypted {
        Ok(token) => TokenStep::Use(token),
        Err(_) => TokenStep::Refresh,
    }
}

/// The encrypted refresh token of a source, from its stored row.
pub fn stored_refresh_token(row: Option<Option<String>>) -> (r: Result<String, Error>)
    ensures
        match row {
            Some(Some(enc)) => r == Ok::<String, Error>(enc),
            _ => r matches Err(e) && e@ == Failure::<Seq<char>>::NoStoredRefreshToken,
        },
{
    match row {
        Some(Some(enc)) => Ok(enc),
        _ => Err(Failure::NoStoredRefreshToken),
    }
}

/// Can the expiry of a token that is granted now be represented?
pub fn is_expiry_representable(now: UtcDateTime, expires_in: Option<i64>) -> (r: bool)
    requires
        now.valid(),
    ensures
        r == time::representable_second(time::epoch_second(now) + lifetime(expires_in)),
{
    let seconds: i64 = match expires_in {
        Some(s) => s,
        None => DEFAULT_LIFETIME_SECS,
    };
    is_representable_after(&now, seconds)
}

/// When a token that is granted now expires.
pub fn expiry(now: UtcDateTime, expires_in: Option<i64>) -> (r: UtcDateTime)
    requires
        now.valid(),
        now.nanos < 1_000_000_000,
        time::representable_second(time::epoch_second(now) + lifetime(expires_in)),
    ensures
        r.valid(),
        r == time::later(now, lifetime(expires_in) as int),
{
    let seconds: i64 = match expires_in {
        Some(s) => s,
        None => DEFAULT_LIFETIME_SECS,
    };
    let at = plus_seconds(now, seconds);
    proof {
        time::law_later_is_unique(at, now, seconds as int);
    }
    at
}

/// When a token that is granted at `now` for that many seconds expires, as text to store; `None`
/// where that time cannot be represented.
pub open spec fn expiry_told(now: UtcDateTime, seconds: i64) -> Option<Seq<char>> {
    if time::representable_second(time::epoch_second(now) + seconds) {
        Some(time::rfc3339_text(time::later(now, seconds as int)))
    } else {
        None
    }
}

/// When a token that is granted at `now` expires, as text to store; `None` where that time cannot
/// be represented.
pub fn expiry_text(now: UtcDateTime, expires_in: Option<i64>) -> (r: Option<String>)
    requires
        now.valid(),
        now.nanos < 1_000_000_000,
    ensures
        text::opt_string_view(r) == expiry_told(now, lifetime(expires_in)),
{
    if is_expiry_representable(now, expires_in) {
        let at = expiry(now, expires_in);
        Some(to_rfc3339(at))
    } else {
        None
    }
}

/// The sources that get a source's renewed tokens: those that were found to share them, and
/// always the source itself.
pub open spec fn receivers(found: Seq<Seq<char>>, source_id: Seq<char>) -> Seq<Seq<char>> {
    if found.contains(source_id) {
        found
    } else {
        found.push(source_id)
    }
}

/// The sources that share a source's tokens, the source itself included: a caller can go through
/// the result unconditionally.
pub fn siblings_and_self(found: Vec<String>, source_id: &str) -> (r: Vec<String>)
    ensures
        utils::texts(r@) == receivers(utils::texts(found@), source_id@),
        utils::texts(r@).contains(source_id@),
{
    let ghost ids = utils::texts(found@);
    let mut i: usize = 0;
    while i < found.len()
        invariant
            i <= found@.len(),
            ids == utils::texts(found@),
            forall|j: int| 0 <= j < i ==> #[trigger] ids[j] != source_id@,
        decreases found@.len() - i,
    {
        if same(found[i].as_str(), source_id) {
            assert(ids[i as int] == source_id@);
            return found;
        }
        assert(ids[i as int] != source_id@);
        i = i + 1;
    }
    let mut all = found;
    all.push(source_id.to_owned());
    proof {
        assert(utils::texts(all@) =~= ids.push(source_id@));
        assert(utils::texts(all@)[ids.len() as int] == source_id@);
    }
    all
}

/// One write of renewed tokens.
#[derive(Debug)]
pub enum TokenWrite {
    /// Store access token and expiry of a source. Where this fails, the renewal fails.
    Access { source_id: String, access_token_enc: String, expires_at: String },
    /// Store the refresh token of a source. Where this fails, the renewal goes on.
    Refresh { source_id: String, refresh_token_enc: String },
}

/// One write of renewed tokens, as contracts speak of it.
pub enum WriteView {
    Access { source_id: Seq<char>, access_token_enc: Seq<char>, expires_at: Seq<char> },
    Refresh { source_id: Seq<char>, refresh_token_enc: Seq<char> },
}

impl View for TokenWrite {
    type V = WriteView;

    open spec fn view(&self) -> WriteView {
        match self {
            TokenWrite::Access { source_id, access_token_enc, expires_at } => WriteView::Access {
                source_id: source_id@,
                access_token_enc: access_token_enc@,
                expires_at: expires_at@,
            },
            TokenWrite::Refresh { source_id, refresh_token_enc } => WriteView::Refresh {
                source_id: source_id@,
                refresh_token_enc: refresh_token_enc@,
            },
        }
    }
}

/// The views of writes.
pub open spec fn write_views(v: Seq<TokenWrite>) -> Seq<WriteView> {
    v.map_values(|w: TokenWrite| w@)
}

/// The writes of renewed tokens: for each source the access token with its expiry, then the
/// refresh token where a new one was granted.
pub open spec fn writes_of(
    sources: Seq<Seq<char>>,
    access: Seq<char>,
    expires_at: Seq<char>,
    refresh: Option<Seq<char>>,
) -> Seq<WriteView>
    decreases sources.len(),
{
    if sources.len() == 0 {
        Seq::empty()
    } else {
        let before = writes_of(sources.drop_last(), access, expires_at, refresh);
        let with_access = before.push(
            WriteView::Access {
                source_id: sources.last(),
                access_token_enc: access,
                expires_at,
            },
        );
        match refresh {
            Some(token) => with_access.push(
                WriteView::Refresh { source_id: sources.last(), refresh_token_enc: token },
            ),
            None => with_access,
        }
    }
}

/// The writes that renewed tokens need.
///
/// Tokens belong to the identity, and a login with several accounts is several sources that share
/// them. So they are written to all of these: otherwise a rotated refresh token would strand
/// every sibling on one that has been retired.
pub fn token_writes(
    siblings: &Vec<String>,
    access_token_enc: &str,
    expires_at: &str,
    refresh_token_enc: Option<&str>,
) -> (r: Vec<TokenWrite>)
    ensures
        write_views(r@) == writes_of(
            utils::texts(siblings@),
            access_token_enc@,
            expires_at@,
            text::opt_view(refresh_token_enc),
        ),
{
    let ghost ids = utils::texts(siblings@);
    let ghost access = access_token_enc@;
    let ghost until = expires_at@;
    let ghost refresh = text::opt_view(refresh_token_enc);
    let mut out: Vec<TokenWrite> = Vec::new();
    let mut i: usize = 0;
    assert(write_views(out@) =~= writes_of(ids.take(0), access, until, refresh));
    while i < siblings.len()
        invariant
            i <= siblings@.len(),
            ids == utils::texts(siblings@),
            access == access_token_enc@,
            until == expires_at@,
            refresh == text::opt_view(refresh_token_enc),
            write_views(out@) == writes_of(ids.take(i as int), access, until, refresh),
        decreases siblings@.len() - i,
    {
        assert(ids.take(i + 1).drop_last() =~= ids.take(i as int));
        assert(ids.take(i + 1).last() == siblings@[i as int]@);
        let ghost before = write_views(out@);
        let write = TokenWrite::Access {
            source_id: siblings[i].clone(),
            access_token_enc: access_token_enc.to_owned(),
            expires_at: expires_at.to_owned(),
        };
        let ghost first = write@;
        out.push(write);
        assert(write_views(out@) =~= before.push(first));
        match refresh_token_enc {
            Some(enc) => {
                let write = TokenWrite::Refresh {
                    source_id: siblings[i].clone(),
                    refresh_token_enc: enc.to_owned(),
                };
                let ghost second = write@;
                out.push(write);
                assert(write_views(out@) =~= before.push(first).push(second));
            },
            None => {},
        }
        i = i + 1;
    }
    assert(ids.take(ids.len() as int) =~= ids);
    out
}

// ---------------------------------------------------------------------------
// Laws
// ---------------------------------------------------------------------------

/// A token is due exactly when less than the refresh buffer is left of it.
pub proof fn law_due_within_the_buffer(expiry: UtcDateTime, now: UtcDateTime)
    ensures
        is_due(Some(expiry), now) <==> time::elapsed_nanos(expiry, now) < REFRESH_BUFFER_SECS
            * 1_000_000_000,
{
}

/// A token that was just granted for at least the refresh buffer is not due.
pub proof fn law_fresh_token_is_kept(at: UtcDateTime, now: UtcDateTime, seconds: i64)
    requires
        now.nanos < 1_000_000_000,
        time::is_later(at, now, seconds as int),
        seconds >= REFRESH_BUFFER_SECS,
    ensures
        !is_due(Some(at), now),
{
}

/// Renewed tokens reach every source that shares them: each gets the access token and, where a
/// new one was granted, the refresh token.
pub proof fn law_tokens_reach_every_sibling(
    sources: Seq<Seq<char>>,
    access: Seq<char>,
    expires_at: Seq<char>,
    refresh: Option<Seq<char>>,
    i: int,
)
    requires
        0 <= i < sources.len(),
    ensures
        writes_of(sources, access, expires_at, refresh).contains(
            WriteView::Access { source_id: sources[i], access_token_enc: access, expires_at },
        ),
        refresh matches Some(token) ==> writes_of(sources, access, expires_at, refresh).contains(
            WriteView::Refresh { source_id: sources[i], refresh_token_enc: token },
        ),
    decreases sources.len(),
{
    let all = writes_of(sources, access, expires_at, refresh);
    let before = writes_of(sources.drop_last(), access, expires_at, refresh);
    let n = before.len() as int;
    assert forall|k: int| 0 <= k < n implies all[k] == before[k] by {}
    if i == sources.len() - 1 {
        assert(all[n] == (WriteView::Access {
            source_id: sources[i],
            access_token_enc: access,
            expires_at,
        }));
        if refresh is Some {
            assert(all[n + 1] == (WriteView::Refresh {
                source_id: sources[i],
                refresh_token_enc: refresh->0,
            }));
        }
    } else {
        law_tokens_reach_every_sibling(sources.drop_last(), access, expires_at, refresh, i);
        let access_write = WriteView::Access {
            source_id: sources[i],
            access_token_enc: access,
            expires_at,
        };
        let k = choose|k: int| 0 <= k < n && before[k] == access_write;
        assert(all[k] == access_write);
        if refresh is Some {
            let refresh_write = WriteView::Refresh {
                source_id: sources[i],
                refresh_token_enc: refresh->0,
            };
            let m = choose|m: int| 0 <= m < n && before[m] == refresh_write;
            assert(all[m] == refresh_write);
        }
    }
}

/// Renewed tokens reach no other source.
pub proof fn law_tokens_stop_at_the_siblings(
    sources: Seq<Seq<char>>,
    access: Seq<char>,
    expires_at: Seq<char>,
    refresh: Option<Seq<char>>,
)
    ensures
        forall|k: int|
            0 <= k < writes_of(sources, access, expires_at, refresh).len() ==> sources.contains(
                written_source(#[trigger] writes_of(sources, access, expires_at, refresh)[k]),
            ),
    decreases sources.len(),
{
    if sources.len() > 0 {
        let all = writes_of(sources, access, expires_at, refresh);
        let shorter = sources.drop_last();
        let before = writes_of(shorter, access, expires_at, refresh);
        law_tokens_stop_at_the_siblings(shorter, access, expires_at, refresh);
        assert forall|k: int| 0 <= k < all.len() implies sources.contains(
            written_source(#[trigger] all[k]),
        ) by {
            if k < before.len() {
                assert(all[k] == before[k]);
                let i = choose|i: int|
                    0 <= i < shorter.len() && shorter[i] == written_source(before[k]);
                assert(sources[i] == shorter[i]);
            } else {
                assert(sources[sources.len() - 1] == written_source(all[k]));
            }
        }
    }
}

/// The source that a write is for.
pub open spec fn written_source(write: WriteView) -> Seq<char> {
    match write {
        WriteView::Access { source_id, access_token_enc, expires_at } => source_id,
        WriteView::Refresh { source_id, refresh_token_enc } => source_id,
    }
}

/// Every account that is offered is one of the current product, and one of the identity's.
pub proof fn law_offered_accounts_are_current(accounts: Seq<AccountView>)
    ensures
        forall|k: int|
            0 <= k < current_accounts(accounts).len() ==> {
                &&& (#[trigger] current_accounts(accounts)[k]).product == CURRENT_PRODUCT@
                &&& accounts.contains(current_accounts(accounts)[k])
            },
    decreases accounts.len(),
{
    if accounts.len() > 0 {
        let shorter = accounts.drop_last();
        law_offered_accounts_are_current(shorter);
        let all = current_accounts(accounts);
        let before = current_accounts(shorter);
        assert forall|k: int| 0 <= k < all.len() implies {
            &&& (#[trigger] all[k]).product == CURRENT_PRODUCT@
            &&& accounts.contains(all[k])
        } by {
            if k < before.len() {
                assert(all[k] == before[k]);
                let i = choose|i: int| 0 <= i < shorter.len() && shorter[i] == before[k];
                assert(accounts[i] == shorter[i]);
            } else {
                assert(accounts[accounts.len() - 1] == all[k]);
            }
        }
    }
}

/// The user is sent to Launchpad's page with the client id, the redirect address and the state,
/// each percent-encoded under its own name, and asks for a code.
pub proof fn law_auth_url_holds_its_parameters(
    client_id: Seq<char>,
    redirect_uri: Seq<char>,
    state: Seq<char>,
)
    ensures
        auth_url_text(client_id, redirect_uri, state)
            == "https://launchpad.37signals.com/authorization/new?type=web_server"@
            + "&client_id="@ + web::url_encoded(client_id) + "&redirect_uri="@ + web::url_encoded(
            redirect_uri,
        ) + "&response_type=code"@ + "&state="@ + web::url_encoded(state),
{
    reveal_strlit("https://launchpad.37signals.com/authorization/new?type=web_server");
    reveal_strlit("https://launchpad.37signals.com");
    reveal_strlit("/authorization/new");
    reveal_strlit("?type=web_server&client_id=");
    reveal_strlit("&client_id=");
    reveal_strlit("&response_type=code&state=");
    reveal_strlit("&response_type=code");
    reveal_strlit("&state=");
    let head = "https://launchpad.37signals.com/authorization/new?type=web_server"@
        + "&client_id="@;
    assert(LAUNCHPAD_BASE@ + AUTHORIZE_PATH@ + "?type=web_server&client_id="@ =~= head);
    let before = head + web::url_encoded(client_id) + "&redirect_uri="@ + web::url_encoded(
        redirect_uri,
    );
    assert(before + "&response_type=code&state="@ =~= before + "&response_type=code"@
        + "&state="@);
}

/// A code is exchanged, and a token renewed, with exactly what that takes: each form names its
/// grant in the way of Launchpad and holds each value once, under its own name.
pub proof fn law_forms_hold_what_they_take(
    client_id: Seq<char>,
    client_secret: Seq<char>,
    code: Seq<char>,
    redirect_uri: Seq<char>,
    refresh_token: Seq<char>,
)
    ensures
        ({
            let form = exchange_fields(client_id, client_secret, code, redirect_uri);
            &&& form.len() == 5
            &&& form.contains(("type"@, "web_server"@))
            &&& form.contains(("client_id"@, client_id))
            &&& form.contains(("client_secret"@, client_secret))
            &&& form.contains(("redirect_uri"@, redirect_uri))
            &&& form.contains(("code"@, code))
        }),
        ({
            let form = refresh_fields(client_id, client_secret, refresh_token);
            &&& form.len() == 4
            &&& form.contains(("type"@, "refresh"@))
            &&& form.contains(("client_id"@, client_id))
            &&& form.contains(("client_secret"@, client_secret))
            &&& form.contains(("refresh_token"@, refresh_token))
        }),
{
    let form = exchange_fields(client_id, client_secret, code, redirect_uri);
    assert(form[0] == ("type"@, "web_server"@));
    assert(form[1] == ("client_id"@, client_id));
    assert(form[2] == ("client_secret"@, client_secret));
    assert(form[3] == ("redirect_uri"@, redirect_uri));
    assert(form[4] == ("code"@, code));
    let form = refresh_fields(client_id, client_secret, refresh_token);
    assert(form[0] == ("type"@, "refresh"@));
    assert(form[1] == ("client_id"@, client_id));
    assert(form[2] == ("client_secret"@, client_secret));
    assert(form[3] == ("refresh_token"@, refresh_token));
}

/// A token lasts as long as the grant says, and two weeks where it does not say.
pub proof fn law_lifetime_is_as_granted(seconds: i64)
    ensures
        lifetime(Some(seconds)) == seconds,
        lifetime(None) == 14 * 24 * 60 * 60,
{
}

/// An identity is called by its first and last name with a space between, by its first name alone
/// where there is no last name, and by its email address where there is no first name. White
/// space around the two names goes.
pub proof fn law_identities_are_called_by_their_names(
    first: Seq<char>,
    last: Seq<char>,
    email: Seq<char>,
)
    ensures
        shown_name(Some(first), None, email) == first,
        shown_name(None, Some(last), email) == email,
        shown_name(None, None, email) == email,
        shown_name(Some(first), Some(last), email) == text::trimmed(first + " "@ + last),
        first.len() > 0 && !text::is_space(first[0]) && last.len() > 0 && !text::is_space(
            last.last(),
        ) ==> shown_name(Some(first), Some(last), email) == first + " "@ + last,
{
    let full = first + " "@ + last;
    if first.len() > 0 && last.len() > 0 {
        assert(full[0] == first[0]);
        assert(full.last() == last.last());
        if !text::is_space(first[0]) && !text::is_space(last.last()) {
            text::lemma_trimmed_keeps(full);
        }
    }
}

/// Accounts are read one by one, in order: a document whose `id` is a number or a text is an
/// account of that id, called by its `name` and with its `product`; one without such an id is
/// none.
pub proof fn law_accounts_are_read_one_by_one(
    before: Seq<Json>,
    document: Json,
    after: Seq<Json>,
    id: Seq<char>,
)
    ensures
        told_accounts(before + after) == told_accounts(before) + told_accounts(after),
        (document.member("id"@) matches Some(Json::Number(n)) && n@ == id) || (document.member(
            "id"@,
        ) matches Some(Json::Text(s)) && s@ == id) ==> told_accounts(seq![document]) == seq![
            AccountView {
                id,
                name: match document.member("name"@) {
                    Some(Json::Text(name)) => name@,
                    _ => "Basecamp"@,
                },
                product: match document.member("product"@) {
                    Some(Json::Text(product)) => product@,
                    _ => Seq::empty(),
                },
            },
        ],
        !(document.member("id"@) matches Some(Json::Number(_))) && !(document.member("id"@) matches
            Some(Json::Text(_))) ==> told_accounts(seq![document]) == Seq::<AccountView>::empty(),
{
    lemma_accounts_add(before, after);
    assert(seq![document].drop_last() =~= Seq::<Json>::empty());
    assert(seq![document].last() == document);
    reveal_with_fuel(told_accounts, 2);
    match told_account(document) {
        Some(account) => {
            assert(Seq::<AccountView>::empty().push(account) =~= seq![account]);
        },
        None => {},
    }
}

proof fn lemma_accounts_add(before: Seq<Json>, after: Seq<Json>)
    ensures
        told_accounts(before + after) == told_accounts(before) + told_accounts(after),
    decreases after.len(),
{
    let all = before + after;
    if after.len() == 0 {
        assert(all =~= before);
        assert(told_accounts(before) + told_accounts(after) =~= told_accounts(before));
    } else {
        assert(all.drop_last() =~= before + after.drop_last());
        assert(all.last() == after.last());
        lemma_accounts_add(before, after.drop_last());
        assert(told_accounts(all) =~= told_accounts(before) + told_accounts(after));
    }
}

/// An authorization document tells an identity exactly where it has one: with the email address
/// that stands there, or none, and with the accounts that the document lists, or none.
pub proof fn law_identity_is_what_the_document_tells(document: Json)
    ensures
        document.member("identity"@) is None <==> told_identity(document) == Err::<
            IdentityView,
            Failure<Seq<char>>,
        >(Failure::NoIdentity),
        document.member("identity"@) matches Some(identity) ==> (told_identity(document) matches Ok(
            told,
        ) && {
            &&& told.email == match identity.member("email_address"@) {
                Some(Json::Text(email)) => email@,
                _ => Seq::empty(),
            }
            &&& told.accounts == match document.member("accounts"@) {
                Some(Json::Array(items)) => told_accounts(items@),
                _ => Seq::empty(),
            }
            &&& told.name == shown_name(
                match identity.member("first_name"@) {
                    Some(Json::Text(first)) => Some(first@),
                    _ => None,
                },
                match identity.member("last_name"@) {
                    Some(Json::Text(last)) => Some(last@),
                    _ => None,
                },
                told.email,
            )
        }),
{
}

/// Accounts are offered one by one, in order: every account of the product `bc3` is offered, and
/// no other.
pub proof fn law_current_accounts_are_offered(
    before: Seq<AccountView>,
    account: AccountView,
    after: Seq<AccountView>,
)
    ensures
        current_accounts(before + after) == current_accounts(before) + current_accounts(after),
        current_accounts(seq![account]) == if account.product == "bc3"@ {
            seq![account]
        } else {
            Seq::empty()
        },
{
    lemma_current_accounts_add(before, after);
    assert(seq![account].drop_last() =~= Seq::<AccountView>::empty());
    assert(seq![account].last() == account);
    reveal_with_fuel(current_accounts, 2);
    assert(Seq::<AccountView>::empty().push(account) =~= seq![account]);
}

proof fn lemma_current_accounts_add(before: Seq<AccountView>, after: Seq<AccountView>)
    ensures
        current_accounts(before + after) == current_accounts(before) + current_accounts(after),
    decreases after.len(),
{
    let all = before + after;
    if after.len() == 0 {
        assert(all =~= before);
        assert(current_accounts(before) + current_accounts(after) =~= current_accounts(before));
    } else {
        assert(all.drop_last() =~= before + after.drop_last());
        assert(all.last() == after.last());
        lemma_current_accounts_add(before, after.drop_last());
        assert(current_accounts(all) =~= current_accounts(before) + current_accounts(after));
    }
}

/// The app is configured exactly where the row holds a client id and a secret and neither is
/// empty; these are then its credentials.
pub proof fn law_app_is_configured_with_id_and_secret(id: Seq<char>, secret: Seq<char>)
    ensures
        id.len() > 0 && secret.len() > 0 ==> stored_credentials(Some((Some(id), Some(secret))))
            == Ok::<(Seq<char>, Seq<char>), Failure<Seq<char>>>((id, secret)),
        forall|row: Option<(Option<Seq<char>>, Option<Seq<char>>)>|
            #[trigger] stored_credentials(row) == Ok::<
                (Seq<char>, Seq<char>),
                Failure<Seq<char>>,
            >((id, secret)) ==> row == Some((Some(id), Some(secret))) && id.len() > 0
                && secret.len() > 0,
        forall|row: Option<(Option<Seq<char>>, Option<Seq<char>>)>|
            #[trigger] stored_credentials(row) matches Err(e) ==> e
                == Failure::<Seq<char>>::NotConfigured,
{
}

/// A token is due for renewal exactly where less than five minutes are left of it, to the
/// nanosecond; outside of leap seconds these are counted on the clock. One whose expiry is not
/// known is due.
pub proof fn law_tokens_are_renewed_five_minutes_early(expiry: UtcDateTime, now: UtcDateTime)
    requires
        expiry.nanos < 1_000_000_000,
        now.nanos < 1_000_000_000,
    ensures
        is_due(Some(expiry), now) <==> time::epoch_second(expiry) < time::epoch_second(now) + 300
            || (time::epoch_second(expiry) == time::epoch_second(now) + 300 && expiry.nanos
            < now.nanos),
        is_due(None, now),
{
}

/// An expiry is known exactly where one is stored and can be read.
pub proof fn law_expiry_is_read_from_its_text(raw: Seq<char>)
    ensures
        stored_expiry(Some(raw)) == time::rfc3339_utc(raw),
        stored_expiry(None) is None,
{
}

/// The expiry that is stored is the text of the time that is as many seconds after the grant as
/// the token lasts.
pub proof fn law_expiry_is_stored_as_granted(now: UtcDateTime, seconds: i64, at: UtcDateTime)
    requires
        at.valid(),
        at.nanos == now.nanos,
        time::epoch_second(at) == time::epoch_second(now) + seconds,
    ensures
        expiry_told(now, seconds) == Some(time::rfc3339_text(at)),
{
    time::lemma_epoch_bounds(at);
    assert(time::is_later(at, now, seconds as int));
    time::law_later_is_unique(at, now, seconds as int);
}

/// Renewed tokens go to every source that was found, in that order, and to the source itself,
/// which comes last where it was not found; to no other, and to none twice that was found once.
pub proof fn law_receivers_are_those_found_and_the_source(
    found: Seq<Seq<char>>,
    source_id: Seq<char>,
)
    ensures
        receivers(found, source_id).take(found.len() as int) == found,
        receivers(found, source_id).contains(source_id),
        found.contains(source_id) ==> receivers(found, source_id).len() == found.len(),
        !found.contains(source_id) ==> receivers(found, source_id).len() == found.len() + 1
            && receivers(found, source_id).last() == source_id,
{
    let all = receivers(found, source_id);
    assert(all.take(found.len() as int) =~= found);
    if !found.contains(source_id) {
        assert(all[found.len() as int] == source_id);
    }
}

/// Tokens are written source by source, in order: each gets one write of the access token with
/// its expiry and then, exactly where there is a new refresh token, one of that.
pub proof fn law_tokens_are_written_source_by_source(
    before: Seq<Seq<char>>,
    source_id: Seq<char>,
    after: Seq<Seq<char>>,
    access: Seq<char>,
    expires_at: Seq<char>,
    refresh: Option<Seq<char>>,
)
    ensures
        writes_of(before + after, access, expires_at, refresh) == writes_of(
            before,
            access,
            expires_at,
            refresh,
        ) + writes_of(after, access, expires_at, refresh),
        writes_of(seq![source_id], access, expires_at, refresh) == match refresh {
            Some(token) => seq![
                WriteView::Access { source_id, access_token_enc: access, expires_at },
                WriteView::Refresh { source_id, refresh_token_enc: token },
            ],
            None => seq![WriteView::Access { source_id, access_token_enc: access, expires_at }],
        },
{
    lemma_writes_add(before, after, access, expires_at, refresh);
    let one = seq![source_id];
    assert(one.drop_last() =~= Seq::<Seq<char>>::empty());
    assert(one.last() == source_id);
    reveal_with_fuel(writes_of, 2);
    let first = WriteView::Access { source_id, access_token_enc: access, expires_at };
    assert(Seq::<WriteView>::empty().push(first) =~= seq![first]);
    if refresh is Some {
        let second = WriteView::Refresh { source_id, refresh_token_enc: refresh->0 };
        assert(Seq::<WriteView>::empty().push(first).push(second) =~= seq![first, second]);
    }
}

proof fn lemma_writes_add(
    before: Seq<Seq<char>>,
    after: Seq<Seq<char>>,
    access: Seq<char>,
    expires_at: Seq<char>,
    refresh: Option<Seq<char>>,
)
    ensures
        writes_of(before + after, access, expires_at, refresh) == writes_of(
            before,
            access,
            expires_at,
            refresh,
        ) + writes_of(after, access, expires_at, refresh),
    decreases after.len(),
{
    let all = before + after;
    let b = writes_of(before, access, expires_at, refresh);
    let a = writes_of(after, access, expires_at, refresh);
    if after.len() == 0 {
        assert(all =~= before);
        assert(b + a =~= b);
    } else {
        assert(all.drop_last() =~= before + after.drop_last());
        assert(all.last() == after.last());
        lemma_writes_add(before, after.drop_last(), access, expires_at, refresh);
        assert(writes_of(all, access, expires_at, refresh) =~= b + a);
    }
}

/// A stored access token is used only where it is not due and can be decrypted: one that is due,
/// or cannot be decrypted, is renewed, and one that is neither due nor there is a failure.
pub proof fn law_stored_tokens_are_used_while_they_last(enc: Seq<char>, token: Seq<char>)
    ensures
        stored_token_step(true, Some(enc)) == TokenStepView::Refresh,
        stored_token_step(true, None) == TokenStepView::Refresh,
        stored_token_step(false, Some(enc)) == TokenStepView::Decrypt(enc),
        stored_token_step(false, None) == TokenStepView::Fail(Failure::NoStoredAccessToken),
        opened_token_step(Some(token)) == TokenStepView::Use(token),
        opened_token_step(None) == TokenStepView::Refresh,
{
}

/// A code is good for the access token, the refresh token and the lifetime that were granted;
/// without a refresh token the exchange fails.
pub proof fn law_exchange_hands_on_the_grant(
    access: Seq<char>,
    refresh: Seq<char>,
    seconds: i64,
)
    ensures
        exchange_outcome(access, Some(refresh), Some(seconds)) == Ok::<
            (Seq<char>, Seq<char>, i64),
            Failure<Seq<char>>,
        >((access, refresh, seconds)),
        exchange_outcome(access, Some(refresh), None) == Ok::<
            (Seq<char>, Seq<char>, i64),
            Failure<Seq<char>>,
        >((access, refresh, 1_209_600)),
        exchange_outcome(access, None, Some(seconds)) == Err::<
            (Seq<char>, Seq<char>, i64),
            Failure<Seq<char>>,
        >(Failure::NoRefreshTokenReturned),
        exchange_outcome(access, None, None) == Err::<
            (Seq<char>, Seq<char>, i64),
            Failure<Seq<char>>,
        >(Failure::NoRefreshTokenReturned),
{
}

/// Tokens are asked for, and the identity is told, at Launchpad's own addresses.
pub proof fn law_launchpad_is_asked_at_its_addresses()
    ensures
        LAUNCHPAD_BASE@ + TOKEN_PATH@ == "https://launchpad.37signals.com/authorization/token"@,
        LAUNCHPAD_BASE@ + IDENTITY_PATH@ == "https://launchpad.37signals.com/authorization.json"@,
{
    reveal_strlit("https://launchpad.37signals.com");
    reveal_strlit("/authorization/token");
    reveal_strlit("/authorization.json");
    reveal_strlit("https://launchpad.37signals.com/authorization/token");
    reveal_strlit("https://launchpad.37signals.com/authorization.json");
    assert(LAUNCHPAD_BASE@ + TOKEN_PATH@
        =~= "https://launchpad.37signals.com/authorization/token"@);
    assert(LAUNCHPAD_BASE@ + IDENTITY_PATH@
        =~= "https://launchpad.37signals.com/authorization.json"@);
}

} // verus!
