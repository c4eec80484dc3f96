//! Credentials and authenticated sessions: the claims that a verified bearer
//! token carries, the check of a principal against a channel's roster, and
//! the table of sessions with their idle timeout.
//!
//! Instants and durations are milliseconds on a clock that the caller reads.

use crate::channels::channel_position;
use crate::channels::get_user_role_in_channel;
use crate::channels::get_username_by_id;
use crate::channels::is_user_banned;
use crate::channels::lists_ban;
use crate::channels::role_in_channel;
use crate::channels::AppState;
use crate::channels::Channel;
use crate::channels::Role;
use crate::table::first_where;
use crate::table::lemma_filter_next;
use crate::table::lemma_filter_none;
use crate::table::lemma_first_where;
use crate::table::lemma_first_where_at;
use crate::table::lemma_first_where_none;
use crate::text::json_number_field;
use crate::text::json_string_field;
use crate::text::json_string_list_field;
use crate::text::json_text_field;
use crate::text::json_text_list_field;
use crate::text::json_u64_field;
use crate::text::text_eq;
use vstd::prelude::*;

verus! {

/// The claims of a bearer token.
#[derive(Debug)]
pub struct AudioClaims {
    /// Subject: the principal id.
    pub sub: String,
    /// Roles granted.
    pub roles: Vec<String>,
    /// Instant of expiry, in seconds.
    pub exp: usize,
    /// Instant of issue, in seconds.
    pub iat: usize,
}

/// Claims as a mathematical value.
pub ghost struct AudioClaimsView {
    pub sub: Seq<char>,
    pub roles: Seq<Seq<char>>,
    pub exp: usize,
    pub iat: usize,
}

impl View for AudioClaims {
    type V = AudioClaimsView;

    open spec fn view(&self) -> AudioClaimsView {
        AudioClaimsView {
            sub: self.sub@,
            roles: self.roles.deep_view(),
            exp: self.exp,
            iat: self.iat,
        }
    }
}

/// An authenticated session.
#[derive(Debug)]
pub struct AudioSession {
    /// The principal id.
    pub user_id: String,
    /// The display name.
    pub username: String,
    /// Roles granted by the credential.
    pub roles: Vec<String>,
    /// Instant of authentication.
    pub authenticated_at: u64,
    /// Instant of the last activity.
    pub last_activity: u64,
}

/// A session as a mathematical value.
pub ghost struct AudioSessionView {
    pub user_id: Seq<char>,
    pub username: Seq<char>,
    pub roles: Seq<Seq<char>>,
    pub authenticated_at: u64,
    pub last_activity: u64,
}

impl View for AudioSession {
    type V = AudioSessionView;

    open spec fn view(&self) -> AudioSessionView {
        AudioSessionView {
            user_id: self.user_id@,
            username: self.username@,
            roles: self.roles.deep_view(),
            authenticated_at: self.authenticated_at,
            last_activity: self.last_activity,
        }
    }
}

/// A copy of a list of texts.
pub(crate) fn clone_texts(texts: &Vec<String>) -> (r: Vec<String>)
    ensures
        r.deep_view() == texts.deep_view(),
{
    let mut out: Vec<String> = Vec::new();
    let mut i: usize = 0;
    while i < texts.len()
        invariant
            i <= texts@.len(),
            out@.len() == i,
            forall|j: int| 0 <= j < i ==> out@[j]@ == texts@[j]@,
        decreases texts@.len() - i,
    {
        out.push(texts[i].clone());
        i += 1;
    }
    assert(out.deep_view() =~= texts.deep_view());
    out
}

impl Clone for AudioSession {
    fn clone(&self) -> (r: Self)
        ensures
            r@ == self@,
    {
        AudioSession {
            user_id: self.user_id.clone(),
            username: self.username.clone(),
            roles: clone_texts(&self.roles),
            authenticated_at: self.authenticated_at,
            last_activity: self.last_activity,
        }
    }
}

/// Whether a session has been idle for longer than `max_age` at the instant
/// `now`. A session touched later than `now` has not been idle at all.
pub open spec fn session_expired(s: AudioSessionView, max_age: u64, now: u64) -> bool {
    now - s.last_activity > max_age
}

impl AudioSession {
    /// A session that begins at the instant `now`.
    pub fn new(user_id: String, username: String, roles: Vec<String>, now: u64) -> (r: Self)
        ensures
            r.user_id == user_id,
            r.username == username,
            r.roles == roles,
            r.authenticated_at == now,
            r.last_activity == now,
    {
        AudioSession { user_id, username, roles, authenticated_at: now, last_activity: now }
    }

    /// Records activity at the instant `now`.
    pub fn update_activity(&mut self, now: u64)
        ensures
            *final(self) == (AudioSession { last_activity: now, ..*old(self) }),
    {
        self.last_activity = now;
    }

    /// Whether the session has been idle for longer than `max_age` at the
    /// instant `now`.
    pub fn is_expired(&self, max_age: u64, now: u64) -> (r: bool)
        ensures
            r == session_expired(self@, max_age, now),
    {
        now > self.last_activity && now - self.last_activity > max_age
    }
}

/// Why authentication or a session lookup failed.
#[derive(Debug, Clone, Copy, PartialEq, Eq, Structural)]
pub enum AuthError {
    /// The credential does not verify.
    InvalidToken,
    /// No session for the principal.
    SessionNotFound,
    /// The session was idle for too long.
    SessionExpired,
    /// No such user.
    UserNotFound,
    /// The role does not allow it.
    PermissionDenied,
    /// No such channel.
    ChannelNotFound,
    /// The principal does not belong to the channel.
    NotChannelMember,
    /// The principal is banned from the channel.
    UserBanned,
}

impl AuthError {
    /// The text that describes the error.
    pub open spec fn text(self) -> Seq<char> {
        match self {
            AuthError::InvalidToken => "Invalid JWT token"@,
            AuthError::SessionNotFound => "Session not found"@,
            AuthError::SessionExpired => "Session expired"@,
            AuthError::UserNotFound => "User not found"@,
            AuthError::PermissionDenied => "Permission denied"@,
            AuthError::ChannelNotFound => "Channel not found"@,
            AuthError::NotChannelMember => "User not a member of channel"@,
            AuthError::UserBanned => "User is banned from channel"@,
        }
    }

    /// The message that describes the error.
    pub fn message(&self) -> (r: String)
        ensures
            r@ == self.text(),
    {
        match self {
            AuthError::InvalidToken => "Invalid JWT token".to_string(),
            AuthError::SessionNotFound => "Session not found".to_string(),
            AuthError::SessionExpired => "Session expired".to_string(),
            AuthError::UserNotFound => "User not found".to_string(),
            AuthError::PermissionDenied => "Permission denied".to_string(),
            AuthError::ChannelNotFound => "Channel not found".to_string(),
            AuthError::NotChannelMember => "User not a member of channel".to_string(),
            AuthError::UserBanned => "User is banned from channel".to_string(),
        }
    }
}

/// The claims that a JSON object holds: the string `sub`, the list of
/// strings `roles`, and the numbers `exp` and `iat`, all four required.
pub open spec fn claims_of_text(text: Seq<char>) -> Option<AudioClaimsView> {
    claims_of_parts(
        json_text_field(text, "sub"@),
        json_text_list_field(text, "roles"@),
        json_number_field(text, "exp"@),
        json_number_field(text, "iat"@),
    )
}

/// The claims that four members make, if all four are there and the two
/// numbers are within the machine's word.
pub open spec fn claims_of_parts(
    sub: Option<Seq<char>>,
    roles: Option<Seq<Seq<char>>>,
    exp: Option<u64>,
    iat: Option<u64>,
) -> Option<AudioClaimsView> {
    if sub is Some && roles is Some && exp is Some && iat is Some && exp->0 <= usize::MAX
        && iat->0 <= usize::MAX {
        Some(
            AudioClaimsView {
                sub: sub->0,
                roles: roles->0,
                exp: exp->0 as usize,
                iat: iat->0 as usize,
            },
        )
    } else {
        None
    }
}

/// The view of optional claims.
pub open spec fn claims_view(claims: Option<AudioClaims>) -> Option<AudioClaimsView> {
    match claims {
        Some(c) => Some(c@),
        None => None,
    }
}

/// The view of an optional text.
pub open spec fn opt_text(t: Option<String>) -> Option<Seq<char>> {
    match t {
        Some(s) => Some(s@),
        None => None,
    }
}

/// The view of an optional list of texts.
pub open spec fn opt_texts(t: Option<Vec<String>>) -> Option<Seq<Seq<char>>> {
    match t {
        Some(s) => Some(s.deep_view()),
        None => None,
    }
}

/// Puts claims together from what the JSON reader found under `sub`,
/// `roles`, `exp` and `iat`.
pub fn claims_from_parts(
    sub: Option<String>,
    roles: Option<Vec<String>>,
    exp: Option<u64>,
    iat: Option<u64>,
) -> (r: Option<AudioClaims>)
    ensures
        claims_view(r) == claims_of_parts(opt_text(sub), opt_texts(roles), exp, iat),
{
    match (sub, roles, exp, iat) {
        (Some(sub), Some(roles), Some(exp), Some(iat)) => {
            if exp > usize::MAX as u64 || iat > usize::MAX as u64 {
                None
            } else {
                Some(AudioClaims { sub, roles, exp: exp as usize, iat: iat as usize })
            }
        },
        _ => None,
    }
}

/// Reads claims from the text of a JSON object.
pub fn parse_claims(text: &str) -> (r: Option<AudioClaims>)
    ensures
        claims_view(r) == claims_of_text(text@),
{
    let sub = json_string_field(text, "sub");
    let roles = json_string_list_field(text, "roles");
    let exp = json_u64_field(text, "exp");
    let iat = json_u64_field(text, "iat");
    claims_from_parts(sub, roles, exp, iat)
}

/// Verifies a bearer token with `jsonwebtoken::decode`, under the shared
/// secret and the crate's default validation (HS256, expiry checked against
/// the system clock), and hands out the claims as JSON text. Whether a
/// token verifies depends on the clock, so nothing is promised of the
/// result.
#[verifier::external_body]
fn decode_claims(token: &str, secret: &str) -> (r: Option<String>) {
    let key = jsonwebtoken::DecodingKey::from_secret(secret.as_bytes());
    let validation = jsonwebtoken::Validation::default();
    match jsonwebtoken::decode::<serde_json::Value>(token, &key, &validation) {
        Ok(data) => Some(data.claims.to_string()),
        Err(_) => None,
    }
}

/// What the roster says of a principal and a channel: the role held, or why
/// the principal may not enter. An unknown channel comes first, then a ban,
/// then the lack of any role.
pub open spec fn membership(channels: Seq<Channel>, user_id: Seq<char>, channel_id: Seq<char>)
    -> Result<Role, AuthError> {
    match channel_position(channels, channel_id) {
        None => Err(AuthError::ChannelNotFound),
        Some(i) => if lists_ban(channels[i].banned_users@, user_id) {
            Err(AuthError::UserBanned)
        } else {
            match role_in_channel(channels[i], user_id) {
                Some(role) => Ok(role),
                None => Err(AuthError::NotChannelMember),
            }
        },
    }
}

/// The views of the sessions of a table, row by row.
pub open spec fn session_views(sessions: Seq<AudioSession>) -> Seq<AudioSessionView> {
    Seq::new(sessions.len(), |i: int| sessions[i]@)
}

/// The predicate that picks the session of a principal.
pub open spec fn of_user(user_id: Seq<char>) -> spec_fn(AudioSessionView) -> bool {
    |s: AudioSessionView| s.user_id == user_id
}

/// The predicate that picks the sessions that are not expired.
pub open spec fn not_expired(max_age: u64, now: u64) -> spec_fn(AudioSessionView) -> bool {
    |s: AudioSessionView| !session_expired(s, max_age, now)
}

/// Whether no principal has two sessions.
pub open spec fn distinct_sessions(sessions: Seq<AudioSessionView>) -> bool {
    forall|i: int, j: int|
        0 <= i < j < sessions.len() ==> sessions[i].user_id != sessions[j].user_id
}

/// The session that claims open at the instant `now`: the subject is both id
/// and display name.
pub open spec fn opened_session(claims: AudioClaimsView, now: u64) -> AudioSessionView {
    AudioSessionView {
        user_id: claims.sub,
        username: claims.sub,
        roles: claims.roles,
        authenticated_at: now,
        last_activity: now,
    }
}

/// A table with one session put in: in the place of the principal's earlier
/// session, or at the end.
pub open spec fn with_session(sessions: Seq<AudioSessionView>, s: AudioSessionView) -> Seq<
    AudioSessionView,
> {
    match first_where(sessions, of_user(s.user_id)) {
        Some(i) => sessions.update(i, s),
        None => sessions.push(s),
    }
}

/// The sessions and the roster behind authentication.
#[derive(Debug)]
pub struct AudioAuth {
    /// The sessions, at most one per principal.
    pub sessions: Vec<AudioSession>,
    /// Secret shared with the issuer of the credentials.
    pub jwt_secret: String,
    /// Idle time after which a session expires.
    pub session_timeout: u64,
    /// The rosters.
    pub channel_state: AppState,
}

impl AudioAuth {
    /// The table's invariant: at most one session per principal.
    pub open spec fn wf(&self) -> bool {
        distinct_sessions(self.views())
    }

    /// The sessions as mathematical values.
    pub open spec fn views(&self) -> Seq<AudioSessionView> {
        session_views(self.sessions@)
    }

    /// Where the session of a principal stands, if there is one.
    pub open spec fn session_index(&self, user_id: Seq<char>) -> Option<int> {
        first_where(self.views(), of_user(user_id))
    }

    /// No sessions, and a timeout of one hour.
    pub fn new(jwt_secret: String, channel_state: AppState) -> (r: Self)
        ensures
            r.wf(),
            r.sessions@ == Seq::<AudioSession>::empty(),
            r.jwt_secret == jwt_secret,
            r.session_timeout == 3_600_000,
            r.channel_state == channel_state,
    {
        AudioAuth {
            sessions: Vec::new(),
            jwt_secret,
            session_timeout: 3_600_000,
            channel_state,
        }
    }

    /// Finds the session of a principal.
    fn find_session(&self, user_id: &str) -> (r: Option<usize>)
        ensures
            match r {
                Some(i) => self.session_index(user_id@) == Some(i as int) && i
                    < self.sessions@.len(),
                None => self.session_index(user_id@) is None,
            },
    {
        let mut i: usize = 0;
        while i < self.sessions.len()
            invariant
                i <= self.sessions@.len(),
                forall|j: int| 0 <= j < i ==> !of_user(user_id@)(#[trigger] self.views()[j]),
            decreases self.sessions@.len() - i,
        {
            if text_eq(self.sessions[i].user_id.as_str(), user_id) {
                proof {
                    assert(self.views()[i as int] == self.sessions@[i as int]@);
                    lemma_first_where_at(self.views(), of_user(user_id@), i as int);
                }
                return Some(i);
            }
            proof {
                assert(self.views()[i as int] == self.sessions@[i as int]@);
            }
            i += 1;
        }
        proof {
            lemma_first_where_none(self.views(), of_user(user_id@));
        }
        None
    }

    /// Asks the roster whether a principal may enter a channel, and in which
    /// role.
    pub fn check_membership(&self, user_id: &str, channel_id: &str) -> (r: Result<
        Role,
        AuthError,
    >)
        ensures
            r == membership(self.channel_state.channels@, user_id@, channel_id@),
    {
        let at = match self.channel_state.find_channel(channel_id) {
            Some(at) => at,
            None => {
                return Err(AuthError::ChannelNotFound);
            },
        };
        proof {
            crate::channels::lemma_channel_position(self.channel_state.channels@, channel_id@);
        }
        let channel = &self.channel_state.channels[at];
        if is_user_banned(channel, user_id) {
            return Err(AuthError::UserBanned);
        }
        match get_user_role_in_channel(channel, user_id) {
            Some(role) => Ok(role),
            None => Err(AuthError::NotChannelMember),
        }
    }

    /// Stores a session, in the place of the principal's earlier one or at
    /// the end.
    fn put_session(&mut self, session: AudioSession)
        requires
            old(self).wf(),
        ensures
            final(self).wf(),
            final(self).views() == with_session(old(self).views(), session@),
            final(self).jwt_secret == old(self).jwt_secret,
            final(self).session_timeout == old(self).session_timeout,
            final(self).channel_state == old(self).channel_state,
    {
        let ghost before = self.views();
        let ghost pick = of_user(session.user_id@);
        proof {
            lemma_first_where(before, pick);
        }
        match self.find_session(session.user_id.as_str()) {
            Some(i) => {
                self.sessions[i] = session;
                proof {
                    assert(self.views() =~= before.update(i as int, session@));
                    assert forall|a: int, b: int| 0 <= a < b < self.views().len() implies
                        self.views()[a].user_id
                        != self.views()[b].user_id by {
                        assert(before[a].user_id != before[b].user_id);
                    }
                }
            },
            None => {
                self.sessions.push(session);
                proof {
                    assert(self.views() =~= before.push(session@));
                    assert forall|a: int, b: int| 0 <= a < b < self.views().len() implies
                        self.views()[a].user_id
                        != self.views()[b].user_id by {
                        if b == before.len() {
                            assert(!pick(before[a]));
                        } else {
                            assert(before[a].user_id != before[b].user_id);
                        }
                    }
                }
            },
        }
    }

    /// Opens a session for verified claims at the instant `now`; without
    /// claims the credential did not verify. The session replaces an earlier
    /// one of the same principal.
    pub fn open_session(&mut self, claims: Option<AudioClaims>, now: u64) -> (r: Result<
        AudioSession,
        AuthError,
    >)
        requires
            old(self).wf(),
        ensures
            final(self).wf(),
            final(self).jwt_secret == old(self).jwt_secret,
            final(self).session_timeout == old(self).session_timeout,
            final(self).channel_state == old(self).channel_state,
            match claims {
                None => r == Err::<AudioSession, AuthError>(AuthError::InvalidToken)
                    && final(self).sessions == old(self).sessions,
                Some(c) => r is Ok && r->Ok_0@ == opened_session(c@, now) && final(self).views()
                    == with_session(old(self).views(), opened_session(c@, now)),
            },
    {
        let claims = match claims {
            Some(claims) => claims,
            None => {
                return Err(AuthError::InvalidToken);
            },
        };
        let username = get_username_by_id(claims.sub.as_str());
        let session = AudioSession::new(claims.sub, username, claims.roles, now);
        let stored = session.clone();
        self.put_session(stored);
        Ok(session)
    }

    /// Admits a principal to a channel at the instant `now`, given the claims
    /// of the credential if it verified. The roster is asked first; a session
    /// is opened only for a principal who may enter, and otherwise the table
    /// stays as it was.
    pub fn enter_channel(&mut self, claims: Option<AudioClaims>, channel_id: &str, now: u64) -> (r: Result<
        AudioSession,
        AuthError,
    >)
        requires
            old(self).wf(),
        ensures
            final(self).wf(),
            final(self).jwt_secret == old(self).jwt_secret,
            final(self).session_timeout == old(self).session_timeout,
            final(self).channel_state == old(self).channel_state,
            match claims {
                None => r == Err::<AudioSession, AuthError>(AuthError::InvalidToken)
                    && final(self).sessions == old(self).sessions,
                Some(c) => match membership(
                    old(self).channel_state.channels@,
                    c.sub@,
                    channel_id@,
                ) {
                    Err(e) => r == Err::<AudioSession, AuthError>(e) && final(self).sessions
                        == old(self).sessions,
                    Ok(_) => r is Ok
                        && r->Ok_0@ == opened_session(c@, now)
                        && final(self).views() == with_session(old(self).views(), opened_session(c@, now)),
                },
            },
    {
        let claims = match claims {
            Some(claims) => claims,
            None => {
                return Err(AuthError::InvalidToken);
            },
        };
        match self.check_membership(claims.sub.as_str(), channel_id) {
            Err(e) => Err(e),
            Ok(_) => self.open_session(Some(claims), now),
        }
    }

    /// Verifies a bearer token under the shared secret and reads its claims.
    /// Whether it verifies is the verifier's word; claims that are handed
    /// out were read from a claims text that holds all four members.
    pub(crate) fn verify_token(&self, token: &str) -> (r: Option<AudioClaims>)
        ensures
            read_from_claims_text(claims_view(r)),
    {
        match decode_claims(token, self.jwt_secret.as_str()) {
            Some(text) => {
                let claims = parse_claims(text.as_str());
                proof {
                    if claims is Some {
                        assert(claims_of_text(text@) == claims_view(claims));
                    }
                }
                claims
            },
            None => None,
        }
    }

    /// Verifies a bearer token and opens a session for its subject. Whether
    /// the token verifies is the verifier's word; a token that does not, or
    /// whose claims are incomplete, gives `InvalidToken` and changes nothing.
    pub fn authenticate(&mut self, token: &str, now: u64) -> (r: Result<AudioSession, AuthError>)
        requires
            old(self).wf(),
        ensures
            final(self).wf(),
            final(self).jwt_secret == old(self).jwt_secret,
            final(self).session_timeout == old(self).session_timeout,
            final(self).channel_state == old(self).channel_state,
            match r {
                Ok(s) => s@.username == s@.user_id && s@.authenticated_at == now
                    && s@.last_activity == now && final(self).views() == with_session(
                    old(self).views(),
                    s@,
                ),
                Err(e) => e == AuthError::InvalidToken && final(self).sessions == old(self).sessions,
            },
    {
        let claims = self.verify_token(token);
        self.open_session(claims, now)
    }

    /// Verifies a bearer token and admits its subject to a channel. Whether
    /// the token verifies is the verifier's word; whatever it says, a
    /// session is opened only when the roster lets the subject enter, and a
    /// failure changes nothing.
    pub fn authenticate_with_channel(&mut self, token: &str, channel_id: &str, now: u64) -> (r:
        Result<AudioSession, AuthError>)
        requires
            old(self).wf(),
        ensures
            final(self).wf(),
            final(self).jwt_secret == old(self).jwt_secret,
            final(self).session_timeout == old(self).session_timeout,
            final(self).channel_state == old(self).channel_state,
            match r {
                Ok(s) => membership(old(self).channel_state.channels@, s@.user_id, channel_id@)
                    is Ok && s@.username == s@.user_id && s@.authenticated_at == now
                    && s@.last_activity == now && final(self).views() == with_session(
                    old(self).views(),
                    s@,
                ),
                Err(e) => final(self).sessions == old(self).sessions && (e
                    == AuthError::InvalidToken || e == AuthError::ChannelNotFound || e
                    == AuthError::UserBanned || e == AuthError::NotChannelMember),
            },
    {
        let claims = self.verify_token(token);
        self.enter_channel(claims, channel_id, now)
    }

    /// Looks a principal's session up at the instant `now`. A session that has
    /// been idle for longer than the timeout is removed and reported as
    /// expired; a live one is touched and handed out.
    #[verifier::rlimit(40)]
    pub fn get_session(&mut self, user_id: &str, now: u64) -> (r: Result<AudioSession, AuthError>)
        requires
            old(self).wf(),
        ensures
            final(self).wf(),
            final(self).jwt_secret == old(self).jwt_secret,
            final(self).session_timeout == old(self).session_timeout,
            final(self).channel_state == old(self).channel_state,
            match old(self).session_index(user_id@) {
                None => r == Err::<AudioSession, AuthError>(AuthError::SessionNotFound)
                    && final(self).sessions == old(self).sessions,
                Some(i) => if session_expired(
                    old(self).views()[i],
                    old(self).session_timeout,
                    now,
                ) {
                    r == Err::<AudioSession, AuthError>(AuthError::SessionExpired)
                        && final(self).views() == old(self).views().remove(i)
                } else {
                    r is Ok && r->Ok_0@ == (AudioSessionView {
                        last_activity: now,
                        ..old(self).views()[i]
                    }) && final(self).views() == old(self).views().update(i, r->Ok_0@)
                },
            },
    {
        let ghost before = self.views();
        let i = match self.find_session(user_id) {
            Some(i) => i,
            None => {
                return Err(AuthError::SessionNotFound);
            },
        };
        proof {
            assert(before[i as int] == self.sessions@[i as int]@);
        }
        if self.sessions[i].is_expired(self.session_timeout, now) {
            self.sessions.remove(i);
            proof {
                assert(self.views() =~= before.remove(i as int));
                assert forall|a: int, b: int| 0 <= a < b < self.views().len() implies self.views()[a].user_id
                    != self.views()[b].user_id by {
                    let a0 = if a < i {
                        a
                    } else {
                        a + 1
                    };
                    let b0 = if b < i {
                        b
                    } else {
                        b + 1
                    };
                    assert(before[a0].user_id != before[b0].user_id);
                }
            }
            return Err(AuthError::SessionExpired);
        }
        let mut touched = self.sessions[i].clone();
        touched.update_activity(now);
        let stored = touched.clone();
        self.sessions[i] = stored;
        proof {
            assert(self.views() =~= before.update(i as int, touched@));
            assert forall|a: int, b: int| 0 <= a < b < self.views().len() implies self.views()[a].user_id
                != self.views()[b].user_id by {
                assert(before[a].user_id != before[b].user_id);
            }
        }
        Ok(touched)
    }

    /// Removes a principal's session, if there is one.
    pub fn remove_session(&mut self, user_id: &str)
        requires
            old(self).wf(),
        ensures
            final(self).wf(),
            final(self).jwt_secret == old(self).jwt_secret,
            final(self).session_timeout == old(self).session_timeout,
            final(self).channel_state == old(self).channel_state,
            match old(self).session_index(user_id@) {
                None => final(self).sessions == old(self).sessions,
                Some(i) => final(self).views() == old(self).views().remove(i),
            },
            final(self).session_index(user_id@) is None,
    {
        let ghost before = self.views();
        proof {
            lemma_first_where(before, of_user(user_id@));
        }
        if let Some(i) = self.find_session(user_id) {
            self.sessions.remove(i);
            proof {
                assert(self.views() =~= before.remove(i as int));
                assert forall|a: int, b: int| 0 <= a < b < self.views().len() implies self.views()[a].user_id
                    != self.views()[b].user_id by {
                    let a0 = if a < i {
                        a
                    } else {
                        a + 1
                    };
                    let b0 = if b < i {
                        b
                    } else {
                        b + 1
                    };
                    assert(before[a0].user_id != before[b0].user_id);
                }
                assert forall|a: int| 0 <= a < self.views().len() implies !of_user(user_id@)(
                    #[trigger] self.views()[a],
                ) by {
                    let a0 = if a < i {
                        a
                    } else {
                        a + 1
                    };
                    if a0 != i {
                        assert(before[a0].user_id != before[i as int].user_id);
                    }
                }
                lemma_first_where_none(self.views(), of_user(user_id@));
            }
        }
    }

    /// Removes the sessions that have been idle for longer than the timeout
    /// at the instant `now`; the others stay, in their order.
    #[verifier::rlimit(40)]
    pub fn cleanup_expired_sessions(&mut self, now: u64)
        requires
            old(self).wf(),
        ensures
            final(self).wf(),
            final(self).views() == old(self).views().filter(
                not_expired(old(self).session_timeout, now),
            ),
            final(self).jwt_secret == old(self).jwt_secret,
            final(self).session_timeout == old(self).session_timeout,
            final(self).channel_state == old(self).channel_state,
    {
        let ghost before = self.views();
        let ghost keep = not_expired(self.session_timeout, now);
        let ghost mut seen: int = 0;
        let mut i: usize = 0;
        proof {
            lemma_filter_none(before, keep);
            assert(self.views() =~= before.subrange(0, 0).filter(keep) + before.subrange(
                0,
                before.len() as int,
            ));
        }
        while i < self.sessions.len()
            invariant
                0 <= seen <= before.len(),
                i == before.subrange(0, seen).filter(keep).len(),
                self.views() == before.subrange(0, seen).filter(keep) + before.subrange(
                    seen,
                    before.len() as int,
                ),
                self.wf(),
                keep == not_expired(self.session_timeout, now),
                self.jwt_secret == old(self).jwt_secret,
                self.session_timeout == old(self).session_timeout,
                self.channel_state == old(self).channel_state,
            decreases before.len() - seen,
        {
            let ghost current = self.views();
            proof {
                assert(current[i as int] == self.sessions@[i as int]@);
                assert(current[i as int] == before[seen]);
                lemma_filter_next(before, keep, seen);
            }
            if self.sessions[i].is_expired(self.session_timeout, now) {
                self.sessions.remove(i);
                proof {
                    assert(self.views() =~= current.remove(i as int));
                    assert(self.views() =~= before.subrange(0, seen + 1).filter(keep)
                        + before.subrange(seen + 1, before.len() as int));
                    assert forall|a: int, b: int| 0 <= a < b < self.views().len() implies
                        self.views()[a].user_id
                        != self.views()[b].user_id by {
                        let a0 = if a < i {
                            a
                        } else {
                            a + 1
                        };
                        let b0 = if b < i {
                            b
                        } else {
                            b + 1
                        };
                        assert(current[a0].user_id != current[b0].user_id);
                    }
                }
            } else {
                proof {
                    assert(self.views() =~= before.subrange(0, seen + 1).filter(keep)
                        + before.subrange(seen + 1, before.len() as int));
                }
                i += 1;
            }
            proof {
                seen = seen + 1;
            }
        }
        proof {
            assert(seen == before.len());
            assert(before.subrange(0, seen) =~= before);
            assert(self.views() =~= before.filter(keep));
        }
    }

    /// Sets the idle time after which a session expires.
    pub fn set_session_timeout(&mut self, timeout: u64)
        ensures
            *final(self) == (AudioAuth { session_timeout: timeout, ..*old(self) }),
    {
        self.session_timeout = timeout;
    }

    /// Number of sessions.
    pub fn session_count(&self) -> (r: usize)
        ensures
            r == self.sessions@.len(),
    {
        self.sessions.len()
    }
}

/// Putting a session into a table of sessions leaves a table.
pub proof fn lemma_with_session_distinct(sessions: Seq<AudioSessionView>, s: AudioSessionView)
    requires
        distinct_sessions(sessions),
    ensures
        distinct_sessions(with_session(sessions, s)),
{
    let after = with_session(sessions, s);
    lemma_first_where(sessions, of_user(s.user_id));
    match first_where(sessions, of_user(s.user_id)) {
        Some(i) => {
            assert forall|a: int, b: int| 0 <= a < b < after.len() implies after[a].user_id
                != after[b].user_id by {
                assert(sessions[a].user_id != sessions[b].user_id);
            }
        },
        None => {
            assert forall|a: int, b: int| 0 <= a < b < after.len() implies after[a].user_id
                != after[b].user_id by {
                if b == sessions.len() {
                    assert(!of_user(s.user_id)(sessions[a]));
                } else {
                    assert(sessions[a].user_id != sessions[b].user_id);
                }
            }
        },
    }
}

/// Keeping some sessions of a table leaves a table.
pub proof fn lemma_kept_sessions_distinct(
    sessions: Seq<AudioSessionView>,
    keep: spec_fn(AudioSessionView) -> bool,
)
    requires
        distinct_sessions(sessions),
    ensures
        distinct_sessions(sessions.filter(keep)),
{
    let kept = sessions.filter(keep);
    assert forall|a: int, b: int| 0 <= a < b < kept.len() implies kept[a].user_id
        != kept[b].user_id by {
        crate::table::lemma_filter_pairs(sessions, keep, a, b);
        let (x, y) = choose|x: int, y: int|
            0 <= x < y < sessions.len() && sessions[x] == kept[a] && sessions[y] == kept[b]
                && keep(sessions[x]) && keep(sessions[y]);
        assert(sessions[x].user_id != sessions[y].user_id);
    }
}

/// Whether claims, where there are any, are what some JSON text holds as
/// claims: the string `sub`, the list of strings `roles` and the numbers
/// `exp` and `iat`, all four present.
pub open spec fn read_from_claims_text(claims: Option<AudioClaimsView>) -> bool {
    claims is Some ==> exists|text: Seq<char>| #[trigger] claims_of_text(text) == claims
}

} // verus!
