//! Renewing the tokens of a source, step by step.
//!
//! A renewal says what is to be done next and is handed what came of it, until it finishes with
//! the writes that the renewed tokens need, or fails. Nothing is sent to Launchpad before the
//! stored refresh token and the app credentials are at hand.

use vstd::prelude::*;
use super::oauth;
use super::oauth::{
    configured_credentials, decrypted_credentials, expiry_text, is_expiry_representable,
    refresh_form, siblings_and_self, stored_refresh_token, token_writes, TokenResponse,
    TokenWrite, WriteView,
};
use crate::error::{Error, Failure};
use crate::text;
use crate::text::as_text;
use crate::time;
use crate::time::{utc_now, UtcDateTime};
use crate::utils;

verus! {

/// What has to be done next.
#[derive(Debug)]
pub enum RenewalAction {
    /// Read the encrypted refresh token of the source.
    ReadRefreshToken,
    /// Decrypt this refresh token.
    DecryptRefreshToken(String),
    /// Read the app credentials.
    ReadCredentials,
    /// Decrypt this client secret.
    DecryptSecret(String),
    /// Post this form to Launchpad.
    Post(Vec<(&'static str, String)>),
    /// Encrypt this access token.
    EncryptAccessToken(String),
    /// Find the sources that share the source's tokens.
    FindSiblings,
    /// Encrypt this refresh token.
    EncryptRefreshToken(String),
    /// Make these writes, in order; then the access token can be used.
    Finish { writes: Vec<TokenWrite>, access_token: String },
    /// Give up.
    Fail(Error),
}

/// What came of an action.
#[derive(Debug)]
pub enum RenewalEvent {
    /// The row of the source, and in it the encrypted refresh token.
    RefreshTokenRow(Option<Option<String>>),
    /// The decrypted refresh token.
    RefreshToken(String),
    /// The row of the app credentials.
    CredentialsRow(Option<(Option<String>, Option<String>)>),
    /// The decrypted client secret, or why it could not be decrypted.
    Secret(Result<String, String>),
    /// What Launchpad granted, and when.
    Granted(TokenResponse, UtcDateTime),
    /// The encrypted access token.
    AccessTokenEncrypted(String),
    /// The sources that were found.
    SiblingsFound(Vec<String>),
    /// The encrypted refresh token, where it could be encrypted.
    RefreshTokenEncrypted(Option<String>),
}

/// What is known so far.
#[derive(Debug)]
enum Stage {
    RefreshTokenWanted,
    RefreshTokenLocked,
    CredentialsWanted { refresh_token: String },
    SecretLocked { refresh_token: String, client_id: String },
    GrantWanted,
    AccessTokenOpen { access_token: String, refresh_token: Option<String>, expires_at: String },
    SiblingsWanted {
        access_token: String,
        refresh_token: Option<String>,
        expires_at: String,
        access_enc: String,
    },
    RefreshTokenOpen {
        access_token: String,
        expires_at: String,
        access_enc: String,
        siblings: Vec<String>,
    },
    Ended,
}

/// The renewal of one source's tokens.
#[derive(Debug)]
pub struct Renewal {
    source_id: String,
    stage: Stage,
}

/// What is known so far, as contracts speak of it.
pub enum StageView {
    RefreshTokenWanted,
    RefreshTokenLocked,
    CredentialsWanted { refresh_token: Seq<char> },
    SecretLocked { refresh_token: Seq<char>, client_id: Seq<char> },
    GrantWanted,
    AccessTokenOpen {
        access_token: Seq<char>,
        refresh_token: Option<Seq<char>>,
        expires_at: Seq<char>,
    },
    SiblingsWanted {
        access_token: Seq<char>,
        refresh_token: Option<Seq<char>>,
        expires_at: Seq<char>,
        access_enc: Seq<char>,
    },
    RefreshTokenOpen {
        access_token: Seq<char>,
        expires_at: Seq<char>,
        access_enc: Seq<char>,
        siblings: Seq<Seq<char>>,
    },
    Ended,
}

/// A renewal, as contracts speak of it.
pub struct RenewalView {
    pub source_id: Seq<char>,
    pub stage: StageView,
}

/// What has to be done next, as contracts speak of it.
pub enum ActionView {
    ReadRefreshToken,
    DecryptRefreshToken(Seq<char>),
    ReadCredentials,
    DecryptSecret(Seq<char>),
    Post(Seq<(Seq<char>, Seq<char>)>),
    EncryptAccessToken(Seq<char>),
    FindSiblings,
    EncryptRefreshToken(Seq<char>),
    Finish { writes: Seq<WriteView>, access_token: Seq<char> },
    Fail(Failure<Seq<char>>),
}

/// What came of an action, as contracts speak of it.
pub enum EventView {
    RefreshTokenRow(Option<Option<Seq<char>>>),
    RefreshToken(Seq<char>),
    CredentialsRow(Option<(Option<Seq<char>>, Option<Seq<char>>)>),
    Secret(Result<Seq<char>, Seq<char>>),
    Granted {
        access_token: Seq<char>,
        refresh_token: Option<Seq<char>>,
        expires_in: Option<i64>,
        now: UtcDateTime,
    },
    AccessTokenEncrypted(Seq<char>),
    SiblingsFound(Seq<Seq<char>>),
    RefreshTokenEncrypted(Option<Seq<char>>),
}

impl View for Stage {
    type V = StageView;

    closed spec fn view(&self) -> StageView {
        match self {
            Stage::RefreshTokenWanted => StageView::RefreshTokenWanted,
            Stage::RefreshTokenLocked => StageView::RefreshTokenLocked,
            Stage::CredentialsWanted { refresh_token } => StageView::CredentialsWanted {
                refresh_token: refresh_token@,
            },
            Stage::SecretLocked { refresh_token, client_id } => StageView::SecretLocked {
                refresh_token: refresh_token@,
                client_id: client_id@,
            },
            Stage::GrantWanted => StageView::GrantWanted,
            Stage::AccessTokenOpen {
                access_token,
                refresh_token,
                expires_at,
            } => StageView::AccessTokenOpen {
                access_token: access_token@,
                refresh_token: text::opt_string_view(*refresh_token),
                expires_at: expires_at@,
            },
            Stage::SiblingsWanted {
                access_token,
                refresh_token,
                expires_at,
                access_enc,
            } => StageView::SiblingsWanted {
                access_token: access_token@,
                refresh_token: text::opt_string_view(*refresh_token),
                expires_at: expires_at@,
                access_enc: access_enc@,
            },
            Stage::RefreshTokenOpen {
                access_token,
                expires_at,
                access_enc,
                siblings,
            } => StageView::RefreshTokenOpen {
                access_token: access_token@,
                expires_at: expires_at@,
                access_enc: access_enc@,
                siblings: utils::texts(siblings@),
            },
            Stage::Ended => StageView::Ended,
        }
    }
}

impl View for Renewal {
    type V = RenewalView;

    closed spec fn view(&self) -> RenewalView {
        RenewalView { source_id: self.source_id@, stage: self.stage@ }
    }
}

impl View for RenewalAction {
    type V = ActionView;

    open spec fn view(&self) -> ActionView {
        match self {
            RenewalAction::ReadRefreshToken => ActionView::ReadRefreshToken,
            RenewalAction::DecryptRefreshToken(s) => ActionView::DecryptRefreshToken(s@),
            RenewalAction::ReadCredentials => ActionView::ReadCredentials,
            RenewalAction::DecryptSecret(s) => ActionView::DecryptSecret(s@),
            RenewalAction::Post(form) => ActionView::Post(oauth::form_view(form@)),
            RenewalAction::EncryptAccessToken(s) => ActionView::EncryptAccessToken(s@),
            RenewalAction::FindSiblings => ActionView::FindSiblings,
            RenewalAction::EncryptRefreshToken(s) => ActionView::EncryptRefreshToken(s@),
            RenewalAction::Finish { writes, access_token } => ActionView::Finish {
                writes: oauth::write_views(writes@),
                access_token: access_token@,
            },
            RenewalAction::Fail(e) => ActionView::Fail(e@),
        }
    }
}

impl View for RenewalEvent {
    type V = EventView;

    open spec fn view(&self) -> EventView {
        match self {
            RenewalEvent::RefreshTokenRow(row) => EventView::RefreshTokenRow(
                match row {
                    Some(token) => Some(text::opt_string_view(*token)),
                    None => None,
                },
            ),
            RenewalEvent::RefreshToken(s) => EventView::RefreshToken(s@),
            RenewalEvent::CredentialsRow(row) => EventView::CredentialsRow(oauth::row_view(*row)),
            RenewalEvent::Secret(secret) => EventView::Secret(
                match secret {
                    Ok(s) => Ok(s@),
                    Err(message) => Err(message@),
                },
            ),
            RenewalEvent::Granted(token, now) => granted_view(*token, *now),
            RenewalEvent::AccessTokenEncrypted(s) => EventView::AccessTokenEncrypted(s@),
            RenewalEvent::SiblingsFound(ids) => EventView::SiblingsFound(utils::texts(ids@)),
            RenewalEvent::RefreshTokenEncrypted(enc) => EventView::RefreshTokenEncrypted(
                text::opt_string_view(*enc),
            ),
        }
    }
}

/// A grant at a time, as contracts speak of it.
pub open spec fn granted_view(token: TokenResponse, now: UtcDateTime) -> EventView {
    EventView::Granted {
        access_token: token.access_token@,
        refresh_token: text::opt_string_view(token.refresh_token),
        expires_in: token.expires_in,
        now,
    }
}

/// Can the expiry of a grant at `now` be represented?
pub open spec fn can_expire(expires_in: Option<i64>, now: UtcDateTime) -> bool {
    time::representable_second(time::epoch_second(now) + oauth::lifetime(expires_in))
}

impl RenewalEvent {
    /// The event of a grant at `now`; `None` where its expiry cannot be represented.
    pub fn granted_at(token: TokenResponse, now: UtcDateTime) -> (r: Option<RenewalEvent>)
        requires
            now.valid(),
            now.nanos < 1_000_000_000,
        ensures
            match r {
                Some(event) => can_expire(token.expires_in, now) && event@ == granted_view(
                    token,
                    now,
                ),
                None => !can_expire(token.expires_in, now),
            },
    {
        if is_expiry_representable(now, token.expires_in) {
            Some(RenewalEvent::Granted(token, now))
        } else {
            None
        }
    }

    /// The event of a grant that came just now; `None` where its expiry cannot be represented. A
    /// lifetime that has run out by now can always be, one beyond the calendar's end never.
    pub fn granted(token: TokenResponse) -> (r: Option<RenewalEvent>)
        ensures
            exists|now: UtcDateTime|
                now.valid() && now.nanos < 1_000_000_000 && now.date.year >= 1970 && match r {
                    Some(event) => can_expire(token.expires_in, now) && event@
                        == #[trigger] granted_view(token, now),
                    None => !can_expire(token.expires_in, now),
                },
            -8_334_601_228_800 <= oauth::lifetime(token.expires_in) <= 0 ==> r is Some,
            oauth::lifetime(token.expires_in) > 8_210_266_876_799 ==> r is None,
    {
        let now = utc_now();
        proof {
            time::lemma_epoch_bounds(now);
        }
        assert(granted_view(token, now) is Granted);
        RenewalEvent::granted_at(token, now)
    }
}

/// Is this the event that the renewal waits for?
pub open spec fn is_awaited(stage: StageView, event: EventView) -> bool {
    match stage {
        StageView::RefreshTokenWanted => event is RefreshTokenRow,
        StageView::RefreshTokenLocked => event is RefreshToken,
        StageView::CredentialsWanted { .. } => event is CredentialsRow,
        StageView::SecretLocked { .. } => event is Secret,
        StageView::GrantWanted => event matches EventView::Granted { expires_in, now, .. }
            && now.valid() && now.nanos < 1_000_000_000 && can_expire(expires_in, now),
        StageView::AccessTokenOpen { .. } => event is AccessTokenEncrypted,
        StageView::SiblingsWanted { .. } => event is SiblingsFound,
        StageView::RefreshTokenOpen { .. } => event is RefreshTokenEncrypted,
        StageView::Ended => false,
    }
}

/// The stage and the action that follow an event. An event that is not waited for leaves the
/// stage as it is.
pub open spec fn step(r: RenewalView, event: EventView) -> (StageView, ActionView) {
    match (r.stage, event) {
        (StageView::RefreshTokenWanted, EventView::RefreshTokenRow(row)) => match row {
            Some(Some(enc)) => (
                StageView::RefreshTokenLocked,
                ActionView::DecryptRefreshToken(enc),
            ),
            _ => (StageView::Ended, ActionView::Fail(Failure::NoStoredRefreshToken)),
        },
        (StageView::RefreshTokenLocked, EventView::RefreshToken(refresh_token)) => (
            StageView::CredentialsWanted { refresh_token },
            ActionView::ReadCredentials,
        ),
        (
            StageView::CredentialsWanted { refresh_token },
            EventView::CredentialsRow(row),
        ) => match oauth::stored_credentials(row) {
            Ok((client_id, secret_enc)) => (
                StageView::SecretLocked { refresh_token, client_id },
                ActionView::DecryptSecret(secret_enc),
            ),
            Err(e) => (StageView::Ended, ActionView::Fail(e)),
        },
        (
            StageView::SecretLocked { refresh_token, client_id },
            EventView::Secret(secret),
        ) => match secret {
            Ok(s) => (
                StageView::GrantWanted,
                ActionView::Post(oauth::refresh_fields(client_id, s, refresh_token)),
            ),
            Err(message) => (
                StageView::Ended,
                ActionView::Fail(Failure::SecretUnreadable(message)),
            ),
        },
        (
            StageView::GrantWanted,
            EventView::Granted { access_token, refresh_token, expires_in, now },
        ) => (
            StageView::AccessTokenOpen {
                access_token,
                refresh_token,
                expires_at: oauth::expiry_told(now, oauth::lifetime(expires_in))->0,
            },
            ActionView::EncryptAccessToken(access_token),
        ),
        (
            StageView::AccessTokenOpen { access_token, refresh_token, expires_at },
            EventView::AccessTokenEncrypted(access_enc),
        ) => (
            StageView::SiblingsWanted { access_token, refresh_token, expires_at, access_enc },
            ActionView::FindSiblings,
        ),
        (
            StageView::SiblingsWanted { access_token, refresh_token, expires_at, access_enc },
            EventView::SiblingsFound(found),
        ) => {
            let siblings = oauth::receivers(found, r.source_id);
            match refresh_token {
                Some(token) => (
                    StageView::RefreshTokenOpen { access_token, expires_at, access_enc, siblings },
                    ActionView::EncryptRefreshToken(token),
                ),
                None => (
                    StageView::Ended,
                    ActionView::Finish {
                        writes: oauth::writes_of(siblings, access_enc, expires_at, None),
                        access_token,
                    },
                ),
            }
        },
        (
            StageView::RefreshTokenOpen { access_token, expires_at, access_enc, siblings },
            EventView::RefreshTokenEncrypted(refresh_enc),
        ) => (
            StageView::Ended,
            ActionView::Finish {
                writes: oauth::writes_of(siblings, access_enc, expires_at, refresh_enc),
                access_token,
            },
        ),
        _ => (r.stage, ActionView::ReadRefreshToken),
    }
}

/// A renewal after an event.
pub open spec fn after(r: RenewalView, event: EventView) -> RenewalView {
    RenewalView { stage: step(r, event).0, ..r }
}

impl Renewal {
    /// Start renewing the tokens of a source.
    pub fn begin(source_id: &str) -> (r: (Renewal, RenewalAction))
        ensures
            r.0@ == (RenewalView {
                source_id: source_id@,
                stage: StageView::RefreshTokenWanted,
            }),
            r.1@ == ActionView::ReadRefreshToken,
    {
        (
            Renewal { source_id: source_id.to_owned(), stage: Stage::RefreshTokenWanted },
            RenewalAction::ReadRefreshToken,
        )
    }

    /// Go on with what came of the last action.
    pub fn next(self, event: RenewalEvent) -> (r: (Renewal, RenewalAction))
        requires
            is_awaited(self@.stage, event@),
        ensures
            r.0@ == after(self@, event@),
            r.1@ == step(self@, event@).1,
    {
        let ghost before = self@;
        let ghost told = event@;
        let Renewal { source_id, stage } = self;
        match (stage, event) {
            (Stage::RefreshTokenWanted, RenewalEvent::RefreshTokenRow(row)) => {
                match stored_refresh_token(row) {
                    Ok(enc) => (
                        Renewal { source_id, stage: Stage::RefreshTokenLocked },
                        RenewalAction::DecryptRefreshToken(enc),
                    ),
                    Err(e) => (
                        Renewal { source_id, stage: Stage::Ended },
                        RenewalAction::Fail(e),
                    ),
                }
            },
            (Stage::RefreshTokenLocked, RenewalEvent::RefreshToken(refresh_token)) => (
                Renewal { source_id, stage: Stage::CredentialsWanted { refresh_token } },
                RenewalAction::ReadCredentials,
            ),
            (Stage::CredentialsWanted { refresh_token }, RenewalEvent::CredentialsRow(row)) => {
                match configured_credentials(row) {
                    Ok((client_id, secret_enc)) => (
                        Renewal {
                            source_id,
                            stage: Stage::SecretLocked { refresh_token, client_id },
                        },
                        RenewalAction::DecryptSecret(secret_enc),
                    ),
                    Err(e) => (
                        Renewal { source_id, stage: Stage::Ended },
                        RenewalAction::Fail(e),
                    ),
                }
            },
            (Stage::SecretLocked { refresh_token, client_id }, RenewalEvent::Secret(secret)) => {
                match decrypted_credentials(client_id, secret) {
                    Ok((id, plain)) => (
                        Renewal { source_id, stage: Stage::GrantWanted },
                        RenewalAction::Post(
                            refresh_form(id.as_str(), plain.as_str(), refresh_token.as_str()),
                        ),
                    ),
                    Err(e) => (
                        Renewal { source_id, stage: Stage::Ended },
                        RenewalAction::Fail(e),
                    ),
                }
            },
            (Stage::GrantWanted, RenewalEvent::Granted(token, now)) => {
                let shown = token.access_token.clone();
                let expires_at = match expiry_text(now, token.expires_in) {
                    Some(told) => told,
                    None => {
                        assert(false);
                        String::new()
                    },
                };
                (
                    Renewal {
                        source_id,
                        stage: Stage::AccessTokenOpen {
                            access_token: token.access_token,
                            refresh_token: token.refresh_token,
                            expires_at,
                        },
                    },
                    RenewalAction::EncryptAccessToken(shown),
                )
            },
            (
                Stage::AccessTokenOpen { access_token, refresh_token, expires_at },
                RenewalEvent::AccessTokenEncrypted(access_enc),
            ) => (
                Renewal {
                    source_id,
                    stage: Stage::SiblingsWanted {
                        access_token,
                        refresh_token,
                        expires_at,
                        access_enc,
                    },
                },
                RenewalAction::FindSiblings,
            ),
            (
                Stage::SiblingsWanted { access_token, refresh_token, expires_at, access_enc },
                RenewalEvent::SiblingsFound(found),
            ) => {
                let siblings = siblings_and_self(found, source_id.as_str());
                match refresh_token {
                    Some(token) => (
                        Renewal {
                            source_id,
                            stage: Stage::RefreshTokenOpen {
                                access_token,
                                expires_at,
                                access_enc,
                                siblings,
                            },
                        },
                        RenewalAction::EncryptRefreshToken(token),
                    ),
                    None => {
                        let writes = token_writes(
                            &siblings,
                            access_enc.as_str(),
                            expires_at.as_str(),
                            None,
                        );
                        (
                            Renewal { source_id, stage: Stage::Ended },
                            RenewalAction::Finish { writes, access_token },
                        )
                    },
                }
            },
            (
                Stage::RefreshTokenOpen { access_token, expires_at, access_enc, siblings },
                RenewalEvent::RefreshTokenEncrypted(refresh_enc),
            ) => {
                let writes = token_writes(
                    &siblings,
                    access_enc.as_str(),
                    expires_at.as_str(),
                    as_text(&refresh_enc),
                );
                (
                    Renewal { source_id, stage: Stage::Ended },
                    RenewalAction::Finish { writes, access_token },
                )
            },
            (stage, _) => {
                assert(!is_awaited(before.stage, told));
                (Renewal { source_id, stage }, RenewalAction::ReadRefreshToken)
            },
        }
    }
}

// ---------------------------------------------------------------------------
// Laws
// ---------------------------------------------------------------------------

/// A renewal after the first `n` of the events.
pub open spec fn run(start: RenewalView, events: Seq<EventView>, n: nat) -> RenewalView
    decreases n,
{
    if n == 0 {
        start
    } else {
        after(run(start, events, (n - 1) as nat), events[n - 1])
    }
}

/// The renewal of a source before its first event.
pub open spec fn begun(source_id: Seq<char>) -> RenewalView {
    RenewalView { source_id, stage: StageView::RefreshTokenWanted }
}

/// Is each of the events the one that a renewal of the source waits for?
pub open spec fn is_run(source_id: Seq<char>, events: Seq<EventView>) -> bool {
    forall|k: int|
        0 <= k < events.len() ==> is_awaited(
            run(begun(source_id), events, k as nat).stage,
            #[trigger] events[k],
        )
}

/// What a renewal of the source has to do after the last of the events.
pub open spec fn last_action(source_id: Seq<char>, events: Seq<EventView>) -> ActionView {
    step(run(begun(source_id), events, (events.len() - 1) as nat), events.last()).1
}

spec fn rank(stage: StageView) -> int {
    match stage {
        StageView::RefreshTokenWanted => 0,
        StageView::RefreshTokenLocked => 1,
        StageView::CredentialsWanted { .. } => 2,
        StageView::SecretLocked { .. } => 3,
        StageView::GrantWanted => 4,
        StageView::AccessTokenOpen { .. } => 5,
        StageView::SiblingsWanted { .. } => 6,
        StageView::RefreshTokenOpen { .. } => 7,
        StageView::Ended => 8,
    }
}

/// Each event leads one stage on, or ends the renewal.
proof fn lemma_rank(source_id: Seq<char>, events: Seq<EventView>, n: nat)
    requires
        is_run(source_id, events),
        n <= events.len(),
    ensures
        run(begun(source_id), events, n).source_id == source_id,
        run(begun(source_id), events, n).stage is Ended || rank(
            run(begun(source_id), events, n).stage,
        ) == n,
    decreases n,
{
    if n > 0 {
        lemma_rank(source_id, events, (n - 1) as nat);
        assert(is_awaited(
            run(begun(source_id), events, (n - 1) as nat).stage,
            events[n - 1],
        ));
    }
}

/// A request is made only with everything it takes: whenever a renewal posts a form, the source
/// had a refresh token, the app was configured, its secret could be decrypted, and the form holds
/// exactly these.
pub proof fn law_request_needs_every_credential(source_id: Seq<char>, events: Seq<EventView>)
    requires
        events.len() > 0,
        is_run(source_id, events),
        last_action(source_id, events) is Post,
    ensures
        events.len() == 4,
        events[0] matches EventView::RefreshTokenRow(Some(Some(_))),
        events[1] matches EventView::RefreshToken(refresh_token) && events[2] matches
            EventView::CredentialsRow(row) && events[3] matches EventView::Secret(Ok(secret))
            && oauth::stored_credentials(row) is Ok && last_action(source_id, events)
            == ActionView::Post(
            oauth::refresh_fields(oauth::stored_credentials(row)->Ok_0.0, secret, refresh_token),
        ),
{
    let n = (events.len() - 1) as nat;
    lemma_rank(source_id, events, n);
    assert(is_awaited(run(begun(source_id), events, n).stage, events[n as int]));
    assert(n == 3);
    assert(is_awaited(run(begun(source_id), events, 0).stage, events[0]));
    assert(is_awaited(run(begun(source_id), events, 1).stage, events[1]));
    assert(is_awaited(run(begun(source_id), events, 2).stage, events[2]));
    reveal_with_fuel(run, 4);
}

/// A renewal that finishes hands on the access token that was granted, and writes to the source
/// and to every source that was found: the encrypted access token with the expiry that the grant
/// tells, the time of the grant plus its lifetime, and the encrypted refresh token exactly where
/// a new one was granted and could be encrypted.
pub proof fn law_renewal_stores_the_grant(source_id: Seq<char>, events: Seq<EventView>)
    requires
        events.len() > 0,
        is_run(source_id, events),
        last_action(source_id, events) is Finish,
    ensures
        events.len() >= 7,
        events[4] matches EventView::Granted { access_token, refresh_token, expires_in, now }
            && events[5] matches EventView::AccessTokenEncrypted(access_enc) && events[6] matches
            EventView::SiblingsFound(found) && ({
            let refresh_enc = if refresh_token is Some {
                events[7]->RefreshTokenEncrypted_0
            } else {
                None
            };
            &&& events.len() == if refresh_token is Some {
                8int
            } else {
                7int
            }
            &&& refresh_token is Some ==> events[7] is RefreshTokenEncrypted
            &&& last_action(source_id, events) == (ActionView::Finish {
                writes: oauth::writes_of(
                    oauth::receivers(found, source_id),
                    access_enc,
                    time::rfc3339_text(time::later(now, oauth::lifetime(expires_in) as int)),
                    refresh_enc,
                ),
                access_token,
            })
        }),
{
    let n = (events.len() - 1) as nat;
    lemma_rank(source_id, events, n);
    assert(is_awaited(run(begun(source_id), events, n).stage, events[n as int]));
    assert(n == 6 || n == 7);
    lemma_rank(source_id, events, 4);
    lemma_rank(source_id, events, 5);
    lemma_rank(source_id, events, 6);
    let r4 = run(begun(source_id), events, 4);
    let r5 = run(begun(source_id), events, 5);
    let r6 = run(begun(source_id), events, 6);
    assert(is_awaited(r4.stage, events[4]));
    assert(is_awaited(r5.stage, events[5]));
    assert(is_awaited(r6.stage, events[6]));
    assert(r5 == after(r4, events[4]));
    assert(r6 == after(r5, events[5]));
    if n == 7 {
        let r7 = run(begun(source_id), events, 7);
        assert(r7 == after(r6, events[6]));
    }
}

/// What a renewal does after each event. A stored refresh token is decrypted, and without one the
/// renewal fails; then the app credentials are read, and the secret that is stored with a client
/// id is decrypted, or the renewal fails; the decrypted values are posted. What is granted is
/// encrypted: first the access token, then, after the siblings are found, the refresh token where
/// one was granted.
pub proof fn law_each_event_is_answered(source_id: Seq<char>, events: Seq<EventView>)
    requires
        events.len() > 0,
        is_run(source_id, events),
    ensures
        match events.last() {
            EventView::RefreshTokenRow(Some(Some(enc))) => last_action(source_id, events)
                == ActionView::DecryptRefreshToken(enc),
            EventView::RefreshTokenRow(_) => last_action(source_id, events) == ActionView::Fail(
                Failure::NoStoredRefreshToken,
            ),
            EventView::RefreshToken(_) => last_action(source_id, events)
                == ActionView::ReadCredentials,
            EventView::CredentialsRow(Some((Some(id), Some(secret)))) => last_action(
                source_id,
                events,
            ) == if id.len() > 0 && secret.len() > 0 {
                ActionView::DecryptSecret(secret)
            } else {
                ActionView::Fail(Failure::NotConfigured)
            },
            EventView::CredentialsRow(_) => last_action(source_id, events) == ActionView::Fail(
                Failure::NotConfigured,
            ),
            EventView::Secret(Ok(_)) => last_action(source_id, events) is Post,
            EventView::Secret(Err(message)) => last_action(source_id, events) == ActionView::Fail(
                Failure::SecretUnreadable(message),
            ),
            EventView::Granted { access_token, .. } => last_action(source_id, events)
                == ActionView::EncryptAccessToken(access_token),
            EventView::AccessTokenEncrypted(_) => last_action(source_id, events)
                == ActionView::FindSiblings,
            EventView::SiblingsFound(_) => events.len() == 7 && match events[4] {
                EventView::Granted { refresh_token: Some(token), .. } => last_action(
                    source_id,
                    events,
                ) == ActionView::EncryptRefreshToken(token),
                _ => last_action(source_id, events) is Finish,
            },
            EventView::RefreshTokenEncrypted(_) => last_action(source_id, events) is Finish,
        },
{
    let n = (events.len() - 1) as nat;
    lemma_rank(source_id, events, n);
    let r = run(begun(source_id), events, n);
    assert(is_awaited(r.stage, events[n as int]));
    assert(events.last() == events[n as int]);
    if events.last() is SiblingsFound {
        assert(n == 6);
        lemma_rank(source_id, events, 4);
        lemma_rank(source_id, events, 5);
        let r4 = run(begun(source_id), events, 4);
        let r5 = run(begun(source_id), events, 5);
        let r6 = run(begun(source_id), events, 6);
        assert(is_awaited(r4.stage, events[4]));
        assert(is_awaited(r5.stage, events[5]));
        assert(r5 == after(r4, events[4]));
        assert(r6 == after(r5, events[5]));
    }
}

/// The events come in one order: the refresh token, the credentials, the grant, the encrypted
/// access token, the siblings, the encrypted refresh token.
pub proof fn law_events_come_in_order(source_id: Seq<char>, events: Seq<EventView>, k: int)
    requires
        is_run(source_id, events),
        0 <= k < events.len(),
    ensures
        k < 8,
        k == 0 <==> events[k] is RefreshTokenRow,
        k == 1 <==> events[k] is RefreshToken,
        k == 2 <==> events[k] is CredentialsRow,
        k == 3 <==> events[k] is Secret,
        k == 4 <==> events[k] is Granted,
        k == 5 <==> events[k] is AccessTokenEncrypted,
        k == 6 <==> events[k] is SiblingsFound,
        k == 7 <==> events[k] is RefreshTokenEncrypted,
{
    lemma_rank(source_id, events, k as nat);
    assert(is_awaited(run(begun(source_id), events, k as nat).stage, events[k]));
}

/// After a failure, or once the renewal is finished, no event is waited for.
pub proof fn law_nothing_follows_the_end(source_id: Seq<char>, events: Seq<EventView>, k: int)
    requires
        is_run(source_id, events),
        0 <= k < events.len() - 1,
    ensures
        !(last_action(source_id, events.take(k + 1)) is Fail),
        !(last_action(source_id, events.take(k + 1)) is Finish),
{
    let shorter = events.take(k + 1);
    lemma_same_run(begun(source_id), events, shorter, k as nat);
    assert(shorter.last() == events[k]);
    let before = run(begun(source_id), events, k as nat);
    assert(is_awaited(before.stage, events[k]));
    let next = run(begun(source_id), events, (k + 1) as nat);
    assert(next == after(before, events[k]));
    assert(is_awaited(next.stage, events[k + 1]));
}

proof fn lemma_same_run(
    start: RenewalView,
    events: Seq<EventView>,
    shorter: Seq<EventView>,
    n: nat,
)
    requires
        n <= shorter.len() <= events.len(),
        shorter == events.take(shorter.len() as int),
    ensures
        run(start, events, n) == run(start, shorter, n),
    decreases n,
{
    if n > 0 {
        lemma_same_run(start, events, shorter, (n - 1) as nat);
        assert(shorter[n - 1] == events[n - 1]);
    }
}

} // verus!
