//! Login sessions: the claims of their tokens, the sessions of each user with
//! a limit on how many stay open, and revocation by logout, by an operator
//! or by idleness.
//!
//! Signing and checking the tokens (JWT) belongs to the caller; it hands the
//! claims of a token it has checked to this table. Times are nanoseconds
//! since the Unix epoch unless named seconds.
use vstd::prelude::*;

use crate::keyed::{
    find_keyed, has_key, keys_unique, lemma_keyed_absent, lemma_keyed_at, lemma_keyed_push, lemma_keyed_remove,
    lemma_keyed_update,
};
use crate::order::{lemma_filter_pairwise, pairwise};
use crate::registry::copy_opt;
use crate::security::settings::{SessionClaims, SessionConfig};
use crate::text::{concat, owned, str_eq};

verus! {

/// One session.
pub struct SessionInfo {
    pub session_id: String,
    pub user_id: String,
    pub role: String,
    pub created_at: u64,
    pub expires_at: u64,
    pub last_activity: u64,
    pub user_agent: Option<String>,
    pub client_ip: Option<String>,
    pub is_active: bool,
}

/// A token that may no longer be used, until it would have expired anyway.
pub struct RevokedToken {
    pub jti: String,
    pub user_id: String,
    pub revoked_at: u64,
    pub expires_at: u64,
    pub reason: String,
}

/// Why the claims of a token were refused.
#[derive(Debug, Clone, Copy, PartialEq, Eq, Structural)]
pub enum SessionError {
    NotARefreshToken,
    Revoked,
    Inactive,
}

/// Figures on the sessions.
pub struct SessionStats {
    pub active_sessions: usize,
    pub idle_sessions: usize,
    pub revoked_tokens: usize,
    pub max_sessions_per_user: usize,
    pub token_expiry_hours: u64,
    pub idle_timeout_hours: u64,
}

pub open spec fn session_key() -> spec_fn(SessionInfo) -> Seq<char> {
    |s: SessionInfo| s.session_id@
}

pub open spec fn revoked_key() -> spec_fn(RevokedToken) -> Seq<char> {
    |t: RevokedToken| t.jti@
}

/// `h` hours in nanoseconds.
pub open spec fn hours_ns(h: u64) -> int {
    h * 3_600_000_000_000
}

/// `h` hours after `now`, or the end of time when that does not fit.
pub open spec fn hours_after(now: u64, h: u64) -> u64 {
    if now + hours_ns(h) <= u64::MAX {
        (now + hours_ns(h)) as u64
    } else {
        u64::MAX
    }
}

fn later_by_hours(now: u64, h: u64) -> (r: u64)
    ensures
        r == hours_after(now, h),
{
    match h.checked_mul(3_600_000_000_000) {
        Some(d) => now.saturating_add(d),
        None => u64::MAX,
    }
}

/// `after` is `before` with session `id` made inactive and revoked by
/// `user` at `now` for `reason`; nothing else changed.
pub open spec fn revoked_by(
    after: SessionManager,
    before: SessionManager,
    id: Seq<char>,
    user: Seq<char>,
    reason: Seq<char>,
    now: u64,
) -> bool {
    &&& before.session(id) is Some
    &&& after.session(id) == Some(deactivated(before.session(id).unwrap()))
    &&& forall|k: Seq<char>| k != id ==> #[trigger] after.session(k) == before.session(k)
    &&& after.revoked(id) is Some
    &&& revokes(after.revoked(id).unwrap(), before.session(id).unwrap(), user, reason, now)
    &&& forall|k: Seq<char>| k != id ==> #[trigger] after.revoked(k) == before.revoked(k)
}

/// An active session of `user`.
pub open spec fn user_active(s: SessionInfo, user: Seq<char>) -> bool {
    s.user_id@ == user && s.is_active
}

pub open spec fn is_user_active(user: Seq<char>) -> spec_fn(SessionInfo) -> bool {
    |s: SessionInfo| user_active(s, user)
}

pub open spec fn is_active() -> spec_fn(SessionInfo) -> bool {
    |s: SessionInfo| s.is_active
}

/// `i` is the first of the active sessions of `user` with the earliest start.
pub open spec fn is_oldest(t: Seq<SessionInfo>, user: Seq<char>, i: int) -> bool {
    &&& 0 <= i < t.len()
    &&& user_active(t[i], user)
    &&& forall|j: int| 0 <= j < t.len() && user_active(#[trigger] t[j], user) ==> t[i].created_at <= t[j].created_at
    &&& forall|j: int| 0 <= j < i && user_active(#[trigger] t[j], user) ==> t[i].created_at < t[j].created_at
}

/// `s` is the session `id` of `user` opened at `now`.
pub open spec fn opened(
    s: SessionInfo,
    id: Seq<char>,
    user: Seq<char>,
    role: Seq<char>,
    ua: Option<String>,
    ip: Option<String>,
    now: u64,
    config: SessionConfig,
) -> bool {
    &&& s.session_id@ == id
    &&& s.user_id@ == user
    &&& s.role@ == role
    &&& s.created_at == now
    &&& s.expires_at == hours_after(now, config.token_expiry_hours)
    &&& s.last_activity == now
    &&& s.user_agent == ua
    &&& s.client_ip == ip
    &&& s.is_active
}

/// `t` revokes session `s` for `user` at `now` for `reason`.
pub open spec fn revokes(t: RevokedToken, s: SessionInfo, user: Seq<char>, reason: Seq<char>, now: u64) -> bool {
    &&& t.jti@ == s.session_id@
    &&& t.user_id@ == user
    &&& t.revoked_at == now
    &&& t.expires_at == s.expires_at
    &&& t.reason@ == reason
}

/// `s` with its last activity at `now`.
pub open spec fn touched(s: SessionInfo, now: u64) -> SessionInfo {
    SessionInfo { last_activity: now, ..s }
}

/// `s` made inactive.
pub open spec fn deactivated(s: SessionInfo) -> SessionInfo {
    SessionInfo { is_active: false, ..s }
}

/// Whether `s` has been idle longer than the idle timeout at `now`.
pub open spec fn idle(s: SessionInfo, now: u64, idle_timeout_hours: u64) -> bool {
    now - s.last_activity > hours_ns(idle_timeout_hours)
}

/// The claims of a token for `user` issued at `now_secs` and valid for
/// `hours`.
pub open spec fn claims_of(
    c: SessionClaims,
    user: Seq<char>,
    role: Seq<char>,
    jti: Seq<char>,
    now_secs: i64,
    hours: u64,
    ua: Option<String>,
    ip: Option<String>,
    typ: Seq<char>,
) -> bool {
    &&& c.sub@ == user
    &&& c.role@ == role
    &&& c.jti@ == jti
    &&& c.iat == now_secs
    &&& c.exp == now_secs + hours * 3600
    &&& c.nbf == now_secs
    &&& c.iss@ == "bonsai"@
    &&& c.aud@ == "bonsai-users"@
    &&& c.ua == ua
    &&& c.ip == ip
    &&& c.typ@ == typ
}

/// Claims valid for `hours` from `now_secs` fit in a signed 64-bit time.
pub open spec fn claims_fit(now_secs: i64, hours: u64) -> bool {
    now_secs + hours * 3600 <= i64::MAX
}

/// The claims of a token; `typ` is `access` or `refresh`.
pub fn session_claims(
    user_id: &str,
    role: &str,
    jti: &str,
    now_secs: i64,
    hours: u64,
    user_agent: &Option<String>,
    client_ip: &Option<String>,
    typ: &str,
) -> (r: SessionClaims)
    requires
        0 <= now_secs,
        claims_fit(now_secs, hours),
    ensures
        claims_of(r, user_id@, role@, jti@, now_secs, hours, *user_agent, *client_ip, typ@),
{
    let exp = now_secs + (hours as i64) * 3600;
    SessionClaims {
        sub: owned(user_id),
        role: owned(role),
        jti: owned(jti),
        iat: now_secs,
        exp,
        nbf: now_secs,
        iss: owned("bonsai"),
        aud: owned("bonsai-users"),
        ua: copy_opt(user_agent),
        ip: copy_opt(client_ip),
        typ: owned(typ),
    }
}

/// The two tokens of a new session `session_id`: the access token for the
/// token lifetime, and the refresh token, named `refresh-` and the session
/// id, for the refresh lifetime.
pub fn new_session_claims(
    config: &SessionConfig,
    session_id: &str,
    user_id: &str,
    role: &str,
    now_secs: i64,
    user_agent: &Option<String>,
    client_ip: &Option<String>,
) -> (r: (SessionClaims, SessionClaims))
    requires
        0 <= now_secs,
        claims_fit(now_secs, config.token_expiry_hours),
        claims_fit(now_secs, config.refresh_token_expiry_hours),
    ensures
        claims_of(
            r.0,
            user_id@,
            role@,
            session_id@,
            now_secs,
            config.token_expiry_hours,
            *user_agent,
            *client_ip,
            "access"@,
        ),
        claims_of(
            r.1,
            user_id@,
            role@,
            "refresh-"@ + session_id@,
            now_secs,
            config.refresh_token_expiry_hours,
            *user_agent,
            *client_ip,
            "refresh"@,
        ),
{
    let access = session_claims(
        user_id,
        role,
        session_id,
        now_secs,
        config.token_expiry_hours,
        user_agent,
        client_ip,
        "access",
    );
    let refresh_id = concat("refresh-", session_id);
    let refresh = session_claims(
        user_id,
        role,
        refresh_id.as_str(),
        now_secs,
        config.refresh_token_expiry_hours,
        user_agent,
        client_ip,
        "refresh",
    );
    (access, refresh)
}

impl SessionInfo {
    /// An exact copy.
    pub fn copy(&self) -> (r: SessionInfo)
        ensures
            r == *self,
    {
        SessionInfo {
            session_id: self.session_id.clone(),
            user_id: self.user_id.clone(),
            role: self.role.clone(),
            created_at: self.created_at,
            expires_at: self.expires_at,
            last_activity: self.last_activity,
            user_agent: copy_opt(&self.user_agent),
            client_ip: copy_opt(&self.client_ip),
            is_active: self.is_active,
        }
    }
}

/// The sessions and the revoked tokens.
pub struct SessionManager {
    pub config: SessionConfig,
    pub active_sessions: Vec<SessionInfo>,
    pub revoked_tokens: Vec<RevokedToken>,
}

impl SessionManager {
    /// No two sessions and no two revoked tokens share an id.
    pub open spec fn wf(&self) -> bool {
        &&& keys_unique(self.active_sessions@, session_key())
        &&& keys_unique(self.revoked_tokens@, revoked_key())
    }

    /// The session with id `id`.
    pub open spec fn session(&self, id: Seq<char>) -> Option<SessionInfo> {
        find_keyed(self.active_sessions@, session_key(), id)
    }

    /// The revocation of token `jti`.
    pub open spec fn revoked(&self, jti: Seq<char>) -> Option<RevokedToken> {
        find_keyed(self.revoked_tokens@, revoked_key(), jti)
    }

    /// Why the claims of a token `jti` would be refused, if they would: a
    /// revoked token, or an inactive session.
    pub open spec fn validate_refusal(&self, jti: Seq<char>) -> Option<SessionError> {
        if self.revoked(jti) is Some {
            Some(SessionError::Revoked)
        } else if self.session_inactive(jti) {
            Some(SessionError::Inactive)
        } else {
            None
        }
    }

    /// Whether session `id` exists and is inactive.
    pub open spec fn session_inactive(&self, id: Seq<char>) -> bool {
        match self.session(id) {
            Some(s) => !s.is_active,
            None => false,
        }
    }

    pub fn new(config: SessionConfig) -> (r: SessionManager)
        ensures
            r.wf(),
            r.config == config,
            r.active_sessions@.len() == 0,
            r.revoked_tokens@.len() == 0,
    {
        SessionManager { config, active_sessions: Vec::new(), revoked_tokens: Vec::new() }
    }

    fn find_session(&self, id: &str) -> (r: Option<usize>)
        requires
            self.wf(),
        ensures
            match r {
                Some(i) => i < self.active_sessions@.len() && self.active_sessions@[i as int].session_id@ == id@
                    && self.session(id@) == Some(self.active_sessions@[i as int]),
                None => self.session(id@) is None && !has_key(self.active_sessions@, session_key(), id@),
            },
    {
        let mut i: usize = 0;
        while i < self.active_sessions.len()
            invariant
                self.wf(),
                i <= self.active_sessions@.len(),
                forall|j: int| 0 <= j < i ==> (session_key())(#[trigger] self.active_sessions@[j]) != id@,
            decreases self.active_sessions@.len() - i,
        {
            if str_eq(self.active_sessions[i].session_id.as_str(), id) {
                proof {
                    lemma_keyed_at(self.active_sessions@, session_key(), i as int);
                }
                return Some(i);
            }
            i = i + 1;
        }
        proof {
            lemma_keyed_absent(self.active_sessions@, session_key(), id@);
        }
        None
    }

    fn find_revoked(&self, jti: &str) -> (r: Option<usize>)
        requires
            keys_unique(self.revoked_tokens@, revoked_key()),
        ensures
            match r {
                Some(i) => i < self.revoked_tokens@.len() && self.revoked_tokens@[i as int].jti@ == jti@
                    && self.revoked(jti@) == Some(self.revoked_tokens@[i as int]),
                None => self.revoked(jti@) is None && !has_key(self.revoked_tokens@, revoked_key(), jti@),
            },
    {
        let mut i: usize = 0;
        while i < self.revoked_tokens.len()
            invariant
                keys_unique(self.revoked_tokens@, revoked_key()),
                i <= self.revoked_tokens@.len(),
                forall|j: int| 0 <= j < i ==> (revoked_key())(#[trigger] self.revoked_tokens@[j]) != jti@,
            decreases self.revoked_tokens@.len() - i,
        {
            if str_eq(self.revoked_tokens[i].jti.as_str(), jti) {
                proof {
                    lemma_keyed_at(self.revoked_tokens@, revoked_key(), i as int);
                }
                return Some(i);
            }
            i = i + 1;
        }
        proof {
            lemma_keyed_absent(self.revoked_tokens@, revoked_key(), jti@);
        }
        None
    }

    /// Puts `s` in the table under its id, replacing the session of that id.
    fn put_session(&mut self, s: SessionInfo)
        requires
            old(self).wf(),
        ensures
            final(self).wf(),
            final(self).session(s.session_id@) == Some(s),
            forall|k: Seq<char>| k != s.session_id@ ==> #[trigger] final(self).session(k) == old(self).session(k),
            final(self).config == old(self).config,
            final(self).revoked_tokens == old(self).revoked_tokens,
    {
        let ghost before = self.active_sessions@;
        let ghost sv = s;
        match self.find_session(s.session_id.as_str()) {
            Some(i) => {
                self.active_sessions.set(i, s);
                proof {
                    lemma_keyed_update(before, session_key(), i as int, sv);
                }
            },
            None => {
                self.active_sessions.push(s);
                proof {
                    lemma_keyed_push(before, session_key(), sv);
                }
            },
        }
    }

    /// Puts `t` in the table under its id, replacing the revocation of that id.
    fn put_revoked(&mut self, t: RevokedToken)
        requires
            keys_unique(old(self).revoked_tokens@, revoked_key()),
        ensures
            keys_unique(final(self).revoked_tokens@, revoked_key()),
            final(self).revoked(t.jti@) == Some(t),
            forall|k: Seq<char>| k != t.jti@ ==> #[trigger] final(self).revoked(k) == old(self).revoked(k),
            final(self).config == old(self).config,
            final(self).active_sessions == old(self).active_sessions,
    {
        let ghost before = self.revoked_tokens@;
        let ghost tv = t;
        match self.find_revoked(t.jti.as_str()) {
            Some(i) => {
                self.revoked_tokens.set(i, t);
                proof {
                    lemma_keyed_update(before, revoked_key(), i as int, tv);
                }
            },
            None => {
                self.revoked_tokens.push(t);
                proof {
                    lemma_keyed_push(before, revoked_key(), tv);
                }
            },
        }
    }

    /// Whether token `jti` was revoked.
    pub fn is_token_revoked(&self, jti: &str) -> (r: bool)
        requires
            self.wf(),
        ensures
            r == self.revoked(jti@) is Some,
    {
        self.find_revoked(jti).is_some()
    }

    /// The session with id `session_id`.
    pub fn get_session_info(&self, session_id: &str) -> (r: Option<&SessionInfo>)
        requires
            self.wf(),
        ensures
            match r {
                Some(s) => self.session(session_id@) == Some(*s),
                None => self.session(session_id@) is None,
            },
    {
        match self.find_session(session_id) {
            Some(i) => Some(&self.active_sessions[i]),
            None => None,
        }
    }

    fn count_user_active(&self, user_id: &str) -> (r: usize)
        ensures
            r == self.active_sessions@.filter(is_user_active(user_id@)).len(),
    {
        let ghost f = is_user_active(user_id@);
        let mut n: usize = 0;
        let mut i: usize = 0;
        while i < self.active_sessions.len()
            invariant
                f == is_user_active(user_id@),
                i <= self.active_sessions@.len(),
                n == self.active_sessions@.subrange(0, i as int).filter(f).len(),
                n <= i,
            decreases self.active_sessions@.len() - i,
        {
            proof {
                assert(self.active_sessions@.subrange(0, i + 1) =~= self.active_sessions@.subrange(0, i as int).push(
                    self.active_sessions@[i as int],
                ));
                self.active_sessions@.subrange(0, i as int).lemma_filter_push(self.active_sessions@[i as int], f);
            }
            let s = &self.active_sessions[i];
            if s.is_active && str_eq(s.user_id.as_str(), user_id) {
                n = n + 1;
            }
            i = i + 1;
        }
        assert(self.active_sessions@.subrange(0, self.active_sessions@.len() as int) =~= self.active_sessions@);
        n
    }

    fn oldest_of_user(&self, user_id: &str) -> (r: Option<usize>)
        ensures
            match r {
                Some(i) => is_oldest(self.active_sessions@, user_id@, i as int),
                None => forall|j: int| 0 <= j < self.active_sessions@.len() ==> !user_active(
                    #[trigger] self.active_sessions@[j],
                    user_id@,
                ),
            },
    {
        let t = &self.active_sessions;
        let mut best: Option<usize> = None;
        let mut i: usize = 0;
        while i < t.len()
            invariant
                i <= t@.len(),
                match best {
                    Some(b) => b < i && user_active(t@[b as int], user_id@) && (forall|j: int|
                        0 <= j < i && user_active(#[trigger] t@[j], user_id@) ==> t@[b as int].created_at
                            <= t@[j].created_at) && (forall|j: int|
                        0 <= j < b && user_active(#[trigger] t@[j], user_id@) ==> t@[b as int].created_at
                            < t@[j].created_at),
                    None => forall|j: int| 0 <= j < i ==> !user_active(#[trigger] t@[j], user_id@),
                },
            decreases t@.len() - i,
        {
            let s = &t[i];
            if s.is_active && str_eq(s.user_id.as_str(), user_id) {
                match best {
                    Some(b) => {
                        if s.created_at < t[b].created_at {
                            best = Some(i);
                        }
                    },
                    None => {
                        best = Some(i);
                    },
                }
            }
            i = i + 1;
        }
        best
    }

    /// Records the new session `session_id` of `user_id`, opened at
    /// `now_ns`. When the user already has as many active sessions as
    /// allowed, the oldest of them is dropped first; its id is returned.
    pub fn register_session(
        &mut self,
        session_id: &str,
        user_id: &str,
        role: &str,
        user_agent: Option<String>,
        client_ip: Option<String>,
        now_ns: u64,
    ) -> (evicted: Option<String>)
        requires
            old(self).wf(),
        ensures
            final(self).wf(),
            final(self).config == old(self).config,
            final(self).revoked_tokens == old(self).revoked_tokens,
            final(self).session(session_id@) is Some,
            opened(
                final(self).session(session_id@).unwrap(),
                session_id@,
                user_id@,
                role@,
                user_agent,
                client_ip,
                now_ns,
                old(self).config,
            ),
            (evicted is Some) == (old(self).active_sessions@.filter(is_user_active(user_id@)).len()
                >= old(self).config.max_sessions_per_user && old(self).active_sessions@.filter(
                is_user_active(user_id@),
            ).len() > 0),
            match evicted {
                Some(e) => (exists|i: int|
                    is_oldest(old(self).active_sessions@, user_id@, i) && old(self).active_sessions@[i].session_id@
                        == e@) && forall|k: Seq<char>| k != session_id@ ==> #[trigger] final(self).session(k) == if k
                    == e@ {
                    None
                } else {
                    old(self).session(k)
                },
                None => forall|k: Seq<char>| k != session_id@ ==> #[trigger] final(self).session(k) == old(self).session(k),
            },
    {
        let n = self.count_user_active(user_id);
        let mut evicted: Option<String> = None;
        if n >= self.config.max_sessions_per_user {
            match self.oldest_of_user(user_id) {
                Some(i) => {
                    let ghost before = self.active_sessions@;
                    proof {
                        lemma_keyed_remove(before, session_key(), i as int);
                    }
                    let gone = self.active_sessions.remove(i);
                    evicted = Some(gone.session_id);
                },
                None => {
                    proof {
                        let f = is_user_active(user_id@);
                        let t = self.active_sessions@;
                        if t.filter(f).len() > 0 {
                            assert(t.filter(f).contains(t.filter(f)[0]));
                            t.lemma_filter_contains_rev(f, t.filter(f)[0]);
                            t.lemma_filter_pred(f, 0);
                            let j = choose|j: int| 0 <= j < t.len() && t[j] == t.filter(f)[0];
                            assert(user_active(t[j], user_id@));
                        }
                    }
                },
            }
        } else {
        }
        proof {
            let f = is_user_active(user_id@);
            let t = old(self).active_sessions@;
            if evicted is Some {
                let i = choose|i: int| is_oldest(t, user_id@, i) && t[i].session_id@ == evicted.unwrap()@;
                assert(f(t[i]));
                t.lemma_filter_contains(f, i);
                assert(t.filter(f).contains(t[i]));
            }
        }
        let s = SessionInfo {
            session_id: owned(session_id),
            user_id: owned(user_id),
            role: owned(role),
            created_at: now_ns,
            expires_at: later_by_hours(now_ns, self.config.token_expiry_hours),
            last_activity: now_ns,
            user_agent,
            client_ip,
            is_active: true,
        };
        self.put_session(s);
        evicted
    }

    /// Every active session of `user_id` was last active at `now_ns`.
    pub fn update_session_activity(&mut self, user_id: &str, now_ns: u64)
        requires
            old(self).wf(),
        ensures
            final(self).wf(),
            final(self).config == old(self).config,
            final(self).revoked_tokens == old(self).revoked_tokens,
            final(self).active_sessions@.len() == old(self).active_sessions@.len(),
            forall|i: int| 0 <= i < final(self).active_sessions@.len() ==> #[trigger] final(self).active_sessions@[i]
                == if user_active(old(self).active_sessions@[i], user_id@) {
                touched(old(self).active_sessions@[i], now_ns)
            } else {
                old(self).active_sessions@[i]
            },
    {
        let ghost before = self.active_sessions@;
        let mut i: usize = 0;
        while i < self.active_sessions.len()
            invariant
                i <= self.active_sessions@.len(),
                self.active_sessions@.len() == before.len(),
                self.config == old(self).config,
                self.revoked_tokens == old(self).revoked_tokens,
                keys_unique(self.revoked_tokens@, revoked_key()),
                before == old(self).active_sessions@,
                keys_unique(before, session_key()),
                forall|j: int| 0 <= j < i ==> #[trigger] self.active_sessions@[j] == if user_active(before[j], user_id@) {
                    touched(before[j], now_ns)
                } else {
                    before[j]
                },
                forall|j: int| i <= j < before.len() ==> #[trigger] self.active_sessions@[j] == before[j],
            decreases before.len() - i,
        {
            if self.active_sessions[i].is_active && str_eq(self.active_sessions[i].user_id.as_str(), user_id) {
                let mut s = self.active_sessions[i].copy();
                s.last_activity = now_ns;
                self.active_sessions.set(i, s);
            }
            i = i + 1;
        }
        proof {
            let t = self.active_sessions@;
            assert forall|a: int, b: int| 0 <= a < b < t.len() implies (session_key())(#[trigger] t[a]) != (
            session_key())(#[trigger] t[b]) by {
                assert(t[a].session_id == before[a].session_id);
                assert(t[b].session_id == before[b].session_id);
            }
        }
    }

    /// Checks the claims of a refresh token that the caller has verified,
    /// at `now_secs`: it must be a refresh token that was not revoked. The
    /// claims of the new access token are returned, named `new_jti`, and the
    /// user's sessions were active at `now_ns`.
    pub fn refresh_session(
        &mut self,
        claims: &SessionClaims,
        new_jti: &str,
        now_secs: i64,
        now_ns: u64,
    ) -> (r: Result<SessionClaims, SessionError>)
        requires
            old(self).wf(),
            0 <= now_secs,
            claims_fit(now_secs, old(self).config.token_expiry_hours),
        ensures
            final(self).wf(),
            final(self).config == old(self).config,
            final(self).revoked_tokens == old(self).revoked_tokens,
            claims.typ@ != "refresh"@ ==> r == Err::<SessionClaims, SessionError>(SessionError::NotARefreshToken),
            claims.typ@ == "refresh"@ && old(self).revoked(claims.jti@) is Some ==> r == Err::<
                SessionClaims,
                SessionError,
            >(SessionError::Revoked),
            r is Err ==> final(self).active_sessions == old(self).active_sessions,
            claims.typ@ == "refresh"@ && old(self).revoked(claims.jti@) is None ==> {
                &&& r is Ok
                &&& claims_of(
                    r->Ok_0,
                    claims.sub@,
                    claims.role@,
                    new_jti@,
                    now_secs,
                    old(self).config.token_expiry_hours,
                    claims.ua,
                    claims.ip,
                    "access"@,
                )
                &&& final(self).active_sessions@.len() == old(self).active_sessions@.len()
                &&& forall|i: int| 0 <= i < final(self).active_sessions@.len() ==> #[trigger] final(self).active_sessions@[i] == if user_active(old(self).active_sessions@[i], claims.sub@) {
                    touched(old(self).active_sessions@[i], now_ns)
                } else {
                    old(self).active_sessions@[i]
                }
            },
    {
        if !str_eq(claims.typ.as_str(), "refresh") {
            return Err(SessionError::NotARefreshToken);
        }
        if self.is_token_revoked(claims.jti.as_str()) {
            return Err(SessionError::Revoked);
        }
        let access = session_claims(
            claims.sub.as_str(),
            claims.role.as_str(),
            new_jti,
            now_secs,
            self.config.token_expiry_hours,
            &claims.ua,
            &claims.ip,
            "access",
        );
        self.update_session_activity(claims.sub.as_str(), now_ns);
        Ok(access)
    }

    /// Checks the claims of a token that the caller has verified: it must
    /// not be revoked, and its session, when there is one, must be active;
    /// then the user's sessions were active at `now_ns`.
    pub fn validate_session(&mut self, claims: &SessionClaims, now_ns: u64) -> (r: Result<(), SessionError>)
        requires
            old(self).wf(),
        ensures
            final(self).wf(),
            final(self).config == old(self).config,
            final(self).revoked_tokens == old(self).revoked_tokens,
            match old(self).validate_refusal(claims.jti@) {
                Some(e) => r == Err::<(), SessionError>(e),
                None => r is Ok,
            },
            old(self).revoked(claims.jti@) is Some ==> r == Err::<(), SessionError>(SessionError::Revoked),
            old(self).revoked(claims.jti@) is None && old(self).session_inactive(claims.jti@) ==> r == Err::<
                (),
                SessionError,
            >(SessionError::Inactive),
            r is Err ==> final(self).active_sessions == old(self).active_sessions,
            old(self).revoked(claims.jti@) is None && !old(self).session_inactive(claims.jti@) ==> {
                &&& r is Ok
                &&& (old(self).session(claims.jti@) is Some ==> {
                    &&& final(self).active_sessions@.len() == old(self).active_sessions@.len()
                    &&& forall|i: int| 0 <= i < final(self).active_sessions@.len() ==> #[trigger] final(self).active_sessions@[i] == if user_active(old(self).active_sessions@[i], claims.sub@) {
                        touched(old(self).active_sessions@[i], now_ns)
                    } else {
                        old(self).active_sessions@[i]
                    }
                })
                &&& (old(self).session(claims.jti@) is None ==> final(self).active_sessions
                    == old(self).active_sessions)
            },
    {
        if self.is_token_revoked(claims.jti.as_str()) {
            return Err(SessionError::Revoked);
        }
        match self.find_session(claims.jti.as_str()) {
            Some(i) => {
                if !self.active_sessions[i].is_active {
                    return Err(SessionError::Inactive);
                }
                self.update_session_activity(claims.sub.as_str(), now_ns);
            },
            None => {},
        }
        Ok(())
    }

    /// Revokes session `session_id` (when it exists) on behalf of `user_id`.
    pub fn revoke_session(&mut self, session_id: &str, user_id: &str, reason: &str, now_ns: u64)
        requires
            old(self).wf(),
        ensures
            final(self).wf(),
            final(self).config == old(self).config,
            match old(self).session(session_id@) {
                None => final(self).active_sessions == old(self).active_sessions && final(self).revoked_tokens
                    == old(self).revoked_tokens,
                Some(s) => revoked_by(*final(self), *old(self), session_id@, user_id@, reason@, now_ns),
            },
    {
        match self.find_session(session_id) {
            Some(i) => {
                let mut s = self.active_sessions[i].copy();
                s.is_active = false;
                let expires_at = s.expires_at;
                self.put_session(s);
                let ghost mid = *self;
                self.put_revoked(
                    RevokedToken {
                        jti: owned(session_id),
                        user_id: owned(user_id),
                        revoked_at: now_ns,
                        expires_at,
                        reason: owned(reason),
                    },
                );
                assert forall|k: Seq<char>| k != session_id@ implies #[trigger] self.session(k) == old(self).session(k) by {
                    assert(mid.session(k) == old(self).session(k));
                }
            },
            None => {},
        }
    }

    /// Makes the active session at `i` inactive and revokes it for `user_id`.
    fn revoke_at(&mut self, i: usize, user_id: &str, reason: &str, now_ns: u64)
        requires
            keys_unique(old(self).revoked_tokens@, revoked_key()),
            i < old(self).active_sessions@.len(),
        ensures
            keys_unique(final(self).revoked_tokens@, revoked_key()),
            final(self).config == old(self).config,
            final(self).active_sessions@ == old(self).active_sessions@.update(
                i as int,
                deactivated(old(self).active_sessions@[i as int]),
            ),
            final(self).revoked(old(self).active_sessions@[i as int].session_id@) is Some,
            revokes(
                final(self).revoked(old(self).active_sessions@[i as int].session_id@).unwrap(),
                old(self).active_sessions@[i as int],
                user_id@,
                reason@,
                now_ns,
            ),
            forall|k: Seq<char>| k != old(self).active_sessions@[i as int].session_id@ ==> #[trigger] final(self).revoked(k)
                == old(self).revoked(k),
    {
        let mut s = self.active_sessions[i].copy();
        s.is_active = false;
        let token = RevokedToken {
            jti: s.session_id.clone(),
            user_id: owned(user_id),
            revoked_at: now_ns,
            expires_at: s.expires_at,
            reason: owned(reason),
        };
        self.active_sessions.set(i, s);
        self.put_revoked(token);
    }

    /// Revokes every active session of `user_id`; returns how many.
    pub fn revoke_all_user_sessions(&mut self, user_id: &str, reason: &str, now_ns: u64) -> (n: usize)
        requires
            old(self).wf(),
        ensures
            final(self).wf(),
            final(self).config == old(self).config,
            n == old(self).active_sessions@.filter(is_user_active(user_id@)).len(),
            final(self).active_sessions@.len() == old(self).active_sessions@.len(),
            forall|i: int| 0 <= i < final(self).active_sessions@.len() ==> #[trigger] final(self).active_sessions@[i]
                == if user_active(old(self).active_sessions@[i], user_id@) {
                deactivated(old(self).active_sessions@[i])
            } else {
                old(self).active_sessions@[i]
            },
            forall|i: int|
                0 <= i < old(self).active_sessions@.len() && user_active(#[trigger] old(self).active_sessions@[i], user_id@)
                    ==> final(self).revoked(old(self).active_sessions@[i].session_id@) is Some && revokes(
                    final(self).revoked(old(self).active_sessions@[i].session_id@).unwrap(),
                    old(self).active_sessions@[i],
                    user_id@,
                    reason@,
                    now_ns,
                ),
            forall|k: Seq<char>|
                !(exists|i: int|
                    0 <= i < old(self).active_sessions@.len() && user_active(
                        #[trigger] old(self).active_sessions@[i],
                        user_id@,
                    ) && old(self).active_sessions@[i].session_id@ == k) ==> #[trigger] final(self).revoked(k) == old(self).revoked(k),
    {
        let ghost before = self.active_sessions@;
        let ghost rev0 = *self;
        let ghost f = is_user_active(user_id@);
        let mut n: usize = 0;
        let mut i: usize = 0;
        while i < self.active_sessions.len()
            invariant
                f == is_user_active(user_id@),
                i <= self.active_sessions@.len(),
                self.active_sessions@.len() == before.len(),
                self.config == old(self).config,
                before == old(self).active_sessions@,
                keys_unique(before, session_key()),
                keys_unique(self.revoked_tokens@, revoked_key()),
                n == before.subrange(0, i as int).filter(f).len(),
                n <= i,
                forall|j: int| 0 <= j < i ==> #[trigger] self.active_sessions@[j] == if user_active(before[j], user_id@) {
                    deactivated(before[j])
                } else {
                    before[j]
                },
                forall|j: int| i <= j < before.len() ==> #[trigger] self.active_sessions@[j] == before[j],
                forall|j: int| 0 <= j < i && user_active(#[trigger] before[j], user_id@) ==> self.revoked(
                    before[j].session_id@,
                ) is Some && revokes(
                    self.revoked(before[j].session_id@).unwrap(),
                    before[j],
                    user_id@,
                    reason@,
                    now_ns,
                ),
                forall|k: Seq<char>|
                    !(exists|j: int| 0 <= j < i && user_active(#[trigger] before[j], user_id@) && before[j].session_id@ == k)
                        ==> #[trigger] self.revoked(k) == old(self).revoked(k),
            decreases before.len() - i,
        {
            proof {
                assert(before.subrange(0, i + 1) =~= before.subrange(0, i as int).push(before[i as int]));
                before.subrange(0, i as int).lemma_filter_push(before[i as int], f);
            }
            if self.active_sessions[i].is_active && str_eq(self.active_sessions[i].user_id.as_str(), user_id) {
                self.revoke_at(i, user_id, reason, now_ns);
                proof {
                    assert forall|j: int| 0 <= j < i && user_active(#[trigger] before[j], user_id@) implies before[j].session_id@
                        != before[i as int].session_id@ by {
                        assert((session_key())(before[j]) != (session_key())(before[i as int]));
                    }
                }
                n = n + 1;
            }
            i = i + 1;
        }
        proof {
            assert(before.subrange(0, before.len() as int) =~= before);
            let t = self.active_sessions@;
            assert forall|a: int, b: int| 0 <= a < b < t.len() implies (session_key())(#[trigger] t[a]) != (
            session_key())(#[trigger] t[b]) by {
                assert(t[a].session_id == before[a].session_id);
                assert(t[b].session_id == before[b].session_id);
            }
        }
        n
    }

    /// The active sessions of `user_id`, in table order.
    pub fn get_user_sessions(&self, user_id: &str) -> (r: Vec<&SessionInfo>)
        ensures
            r@.len() == self.active_sessions@.filter(is_user_active(user_id@)).len(),
            forall|j: int| 0 <= j < r@.len() ==> *#[trigger] r@[j] == self.active_sessions@.filter(
                is_user_active(user_id@),
            )[j],
    {
        let ghost f = is_user_active(user_id@);
        let mut r: Vec<&SessionInfo> = Vec::new();
        let mut i: usize = 0;
        while i < self.active_sessions.len()
            invariant
                f == is_user_active(user_id@),
                i <= self.active_sessions@.len(),
                r@.len() == self.active_sessions@.subrange(0, i as int).filter(f).len(),
                forall|j: int| 0 <= j < r@.len() ==> *#[trigger] r@[j] == self.active_sessions@.subrange(
                    0,
                    i as int,
                ).filter(f)[j],
            decreases self.active_sessions@.len() - i,
        {
            proof {
                assert(self.active_sessions@.subrange(0, i + 1) =~= self.active_sessions@.subrange(0, i as int).push(
                    self.active_sessions@[i as int],
                ));
                self.active_sessions@.subrange(0, i as int).lemma_filter_push(self.active_sessions@[i as int], f);
            }
            let s = &self.active_sessions[i];
            if s.is_active && str_eq(s.user_id.as_str(), user_id) {
                r.push(s);
            }
            i = i + 1;
        }
        assert(self.active_sessions@.subrange(0, self.active_sessions@.len() as int) =~= self.active_sessions@);
        r
    }

    /// Every active session, in table order.
    pub fn get_all_active_sessions(&self) -> (r: Vec<&SessionInfo>)
        ensures
            r@.len() == self.active_sessions@.filter(is_active()).len(),
            forall|j: int| 0 <= j < r@.len() ==> *#[trigger] r@[j] == self.active_sessions@.filter(is_active())[j],
    {
        let ghost f = is_active();
        let mut r: Vec<&SessionInfo> = Vec::new();
        let mut i: usize = 0;
        while i < self.active_sessions.len()
            invariant
                f == is_active(),
                i <= self.active_sessions@.len(),
                r@.len() == self.active_sessions@.subrange(0, i as int).filter(f).len(),
                forall|j: int| 0 <= j < r@.len() ==> *#[trigger] r@[j] == self.active_sessions@.subrange(
                    0,
                    i as int,
                ).filter(f)[j],
            decreases self.active_sessions@.len() - i,
        {
            proof {
                assert(self.active_sessions@.subrange(0, i + 1) =~= self.active_sessions@.subrange(0, i as int).push(
                    self.active_sessions@[i as int],
                ));
                self.active_sessions@.subrange(0, i as int).lemma_filter_push(self.active_sessions@[i as int], f);
            }
            if self.active_sessions[i].is_active {
                r.push(&self.active_sessions[i]);
            }
            i = i + 1;
        }
        assert(self.active_sessions@.subrange(0, self.active_sessions@.len() as int) =~= self.active_sessions@);
        r
    }

    /// The number of active sessions.
    pub fn get_active_session_count(&self) -> (r: usize)
        ensures
            r == self.active_sessions@.filter(is_active()).len(),
    {
        self.get_all_active_sessions().len()
    }

    /// Drops the sessions and revocations that have expired at `now_ns`, then
    /// revokes the active sessions idle longer than the idle timeout.
    pub fn cleanup_expired(&mut self, now_ns: u64)
        requires
            old(self).wf(),
        ensures
            final(self).wf(),
            final(self).config == old(self).config,
            final(self).active_sessions@.len() == old(self).active_sessions@.filter(alive_session(now_ns)).len(),
            forall|i: int| 0 <= i < final(self).active_sessions@.len() ==> #[trigger] final(self).active_sessions@[i]
                == if goes_idle(old(self).active_sessions@.filter(alive_session(now_ns))[i], now_ns, old(self).config) {
                deactivated(old(self).active_sessions@.filter(alive_session(now_ns))[i])
            } else {
                old(self).active_sessions@.filter(alive_session(now_ns))[i]
            },
            forall|i: int|
                0 <= i < old(self).active_sessions@.filter(alive_session(now_ns)).len() && goes_idle(
                    #[trigger] old(self).active_sessions@.filter(alive_session(now_ns))[i],
                    now_ns,
                    old(self).config,
                ) ==> final(self).revoked(old(self).active_sessions@.filter(alive_session(now_ns))[i].session_id@) is Some
                    && revokes(
                    final(self).revoked(old(self).active_sessions@.filter(alive_session(now_ns))[i].session_id@).unwrap(),
                    old(self).active_sessions@.filter(alive_session(now_ns))[i],
                    old(self).active_sessions@.filter(alive_session(now_ns))[i].user_id@,
                    "idle_timeout"@,
                    now_ns,
                ),
            forall|k: Seq<char>|
                !(exists|i: int|
                    0 <= i < old(self).active_sessions@.filter(alive_session(now_ns)).len() && goes_idle(
                        #[trigger] old(self).active_sessions@.filter(alive_session(now_ns))[i],
                        now_ns,
                        old(self).config,
                    ) && old(self).active_sessions@.filter(alive_session(now_ns))[i].session_id@ == k)
                    ==> #[trigger] final(self).revoked(k) == find_keyed(
                    old(self).revoked_tokens@.filter(alive_token(now_ns)),
                    revoked_key(),
                    k,
                ),
    {
        let kept = self.kept_sessions(now_ns);
        let tokens = self.kept_tokens(now_ns);
        self.active_sessions = kept;
        self.revoked_tokens = tokens;
        let ghost before = self.active_sessions@;
        let ghost mid = *self;
        let idle_ns: Option<u64> = self.config.idle_timeout_hours.checked_mul(3_600_000_000_000);
        let mut i: usize = 0;
        while i < self.active_sessions.len()
            invariant
                i <= self.active_sessions@.len(),
                self.active_sessions@.len() == before.len(),
                self.config == old(self).config,
                before == old(self).active_sessions@.filter(alive_session(now_ns)),
                keys_unique(before, session_key()),
                keys_unique(self.revoked_tokens@, revoked_key()),
                idle_ns == (if hours_ns(self.config.idle_timeout_hours) <= u64::MAX {
                    Some(hours_ns(self.config.idle_timeout_hours) as u64)
                } else {
                    None::<u64>
                }),
                forall|j: int| 0 <= j < i ==> #[trigger] self.active_sessions@[j] == if goes_idle(
                    before[j],
                    now_ns,
                    self.config,
                ) {
                    deactivated(before[j])
                } else {
                    before[j]
                },
                forall|j: int| i <= j < before.len() ==> #[trigger] self.active_sessions@[j] == before[j],
                forall|j: int| 0 <= j < i && goes_idle(#[trigger] before[j], now_ns, self.config) ==> self.revoked(
                    before[j].session_id@,
                ) is Some && revokes(
                    self.revoked(before[j].session_id@).unwrap(),
                    before[j],
                    before[j].user_id@,
                    "idle_timeout"@,
                    now_ns,
                ),
                forall|k: Seq<char>|
                    !(exists|j: int| 0 <= j < i && goes_idle(#[trigger] before[j], now_ns, self.config) && before[j].session_id@ == k)
                        ==> #[trigger] self.revoked(k) == mid.revoked(k),
            decreases before.len() - i,
        {
            let s = &self.active_sessions[i];
            let is_idle = match idle_ns {
                Some(limit) => now_ns.saturating_sub(s.last_activity) > limit,
                None => false,
            };
            if s.is_active && is_idle {
                let user = s.user_id.clone();
                self.revoke_at(i, user.as_str(), "idle_timeout", now_ns);
                proof {
                    assert forall|j: int| 0 <= j < i && goes_idle(#[trigger] before[j], now_ns, self.config) implies before[j].session_id@
                        != before[i as int].session_id@ by {
                        assert((session_key())(before[j]) != (session_key())(before[i as int]));
                    }
                }
            }
            i = i + 1;
        }
        proof {
            let t = self.active_sessions@;
            assert forall|a: int, b: int| 0 <= a < b < t.len() implies (session_key())(#[trigger] t[a]) != (
            session_key())(#[trigger] t[b]) by {
                assert(t[a].session_id == before[a].session_id);
                assert(t[b].session_id == before[b].session_id);
            }
        }
    }

    fn kept_sessions(&self, now_ns: u64) -> (r: Vec<SessionInfo>)
        requires
            self.wf(),
        ensures
            r@ == self.active_sessions@.filter(alive_session(now_ns)),
            keys_unique(r@, session_key()),
    {
        let ghost f = alive_session(now_ns);
        let mut r: Vec<SessionInfo> = Vec::new();
        let mut i: usize = 0;
        while i < self.active_sessions.len()
            invariant
                f == alive_session(now_ns),
                i <= self.active_sessions@.len(),
                r@ == self.active_sessions@.subrange(0, i as int).filter(f),
            decreases self.active_sessions@.len() - i,
        {
            proof {
                assert(self.active_sessions@.subrange(0, i + 1) =~= self.active_sessions@.subrange(0, i as int).push(
                    self.active_sessions@[i as int],
                ));
                self.active_sessions@.subrange(0, i as int).lemma_filter_push(self.active_sessions@[i as int], f);
            }
            if self.active_sessions[i].expires_at > now_ns {
                r.push(self.active_sessions[i].copy());
            }
            i = i + 1;
        }
        proof {
            assert(self.active_sessions@.subrange(0, self.active_sessions@.len() as int) =~= self.active_sessions@);
            let rel = |a: SessionInfo, b: SessionInfo| a.session_id@ != b.session_id@;
            assert(pairwise(self.active_sessions@, rel));
            lemma_filter_pairwise(self.active_sessions@, f, rel);
            assert forall|a: int, b: int| 0 <= a < b < r@.len() implies (session_key())(#[trigger] r@[a]) != (
            session_key())(#[trigger] r@[b]) by {
                assert(rel(r@[a], r@[b]));
            }
        }
        r
    }

    fn kept_tokens(&self, now_ns: u64) -> (r: Vec<RevokedToken>)
        requires
            self.wf(),
        ensures
            r@ == self.revoked_tokens@.filter(alive_token(now_ns)),
            keys_unique(r@, revoked_key()),
    {
        let ghost f = alive_token(now_ns);
        let mut r: Vec<RevokedToken> = Vec::new();
        let mut i: usize = 0;
        while i < self.revoked_tokens.len()
            invariant
                f == alive_token(now_ns),
                i <= self.revoked_tokens@.len(),
                r@ == self.revoked_tokens@.subrange(0, i as int).filter(f),
            decreases self.revoked_tokens@.len() - i,
        {
            proof {
                assert(self.revoked_tokens@.subrange(0, i + 1) =~= self.revoked_tokens@.subrange(0, i as int).push(
                    self.revoked_tokens@[i as int],
                ));
                self.revoked_tokens@.subrange(0, i as int).lemma_filter_push(self.revoked_tokens@[i as int], f);
            }
            if self.revoked_tokens[i].expires_at > now_ns {
                let t = &self.revoked_tokens[i];
                r.push(
                    RevokedToken {
                        jti: t.jti.clone(),
                        user_id: t.user_id.clone(),
                        revoked_at: t.revoked_at,
                        expires_at: t.expires_at,
                        reason: t.reason.clone(),
                    },
                );
            }
            i = i + 1;
        }
        proof {
            assert(self.revoked_tokens@.subrange(0, self.revoked_tokens@.len() as int) =~= self.revoked_tokens@);
            let rel = |a: RevokedToken, b: RevokedToken| a.jti@ != b.jti@;
            assert(pairwise(self.revoked_tokens@, rel));
            lemma_filter_pairwise(self.revoked_tokens@, f, rel);
            assert forall|a: int, b: int| 0 <= a < b < r@.len() implies (revoked_key())(#[trigger] r@[a]) != (
            revoked_key())(#[trigger] r@[b]) by {
                assert(rel(r@[a], r@[b]));
            }
        }
        r
    }

    /// Figures on the sessions at `now_ns`.
    pub fn get_session_stats(&self, now_ns: u64) -> (r: SessionStats)
        ensures
            r.active_sessions == self.active_sessions@.filter(is_active()).len(),
            r.idle_sessions == self.active_sessions@.filter(|s: SessionInfo| goes_idle(s, now_ns, self.config)).len(),
            r.revoked_tokens == self.revoked_tokens@.len(),
            r.max_sessions_per_user == self.config.max_sessions_per_user,
            r.token_expiry_hours == self.config.token_expiry_hours,
            r.idle_timeout_hours == self.config.idle_timeout_hours,
    {
        let ghost f = |s: SessionInfo| goes_idle(s, now_ns, self.config);
        let idle_ns: Option<u64> = self.config.idle_timeout_hours.checked_mul(3_600_000_000_000);
        let mut n: usize = 0;
        let mut i: usize = 0;
        while i < self.active_sessions.len()
            invariant
                f == |s: SessionInfo| goes_idle(s, now_ns, self.config),
                idle_ns == (if hours_ns(self.config.idle_timeout_hours) <= u64::MAX {
                    Some(hours_ns(self.config.idle_timeout_hours) as u64)
                } else {
                    None::<u64>
                }),
                i <= self.active_sessions@.len(),
                n == self.active_sessions@.subrange(0, i as int).filter(f).len(),
                n <= i,
            decreases self.active_sessions@.len() - i,
        {
            proof {
                assert(self.active_sessions@.subrange(0, i + 1) =~= self.active_sessions@.subrange(0, i as int).push(
                    self.active_sessions@[i as int],
                ));
                self.active_sessions@.subrange(0, i as int).lemma_filter_push(self.active_sessions@[i as int], f);
            }
            let s = &self.active_sessions[i];
            let is_idle = match idle_ns {
                Some(limit) => now_ns.saturating_sub(s.last_activity) > limit,
                None => false,
            };
            if s.is_active && is_idle {
                n = n + 1;
            }
            i = i + 1;
        }
        assert(self.active_sessions@.subrange(0, self.active_sessions@.len() as int) =~= self.active_sessions@);
        SessionStats {
            active_sessions: self.get_active_session_count(),
            idle_sessions: n,
            revoked_tokens: self.revoked_tokens.len(),
            max_sessions_per_user: self.config.max_sessions_per_user,
            token_expiry_hours: self.config.token_expiry_hours,
            idle_timeout_hours: self.config.idle_timeout_hours,
        }
    }
}

pub open spec fn alive_session(now: u64) -> spec_fn(SessionInfo) -> bool {
    |s: SessionInfo| s.expires_at > now
}

pub open spec fn alive_token(now: u64) -> spec_fn(RevokedToken) -> bool {
    |t: RevokedToken| t.expires_at > now
}

/// An active session that has been idle longer than the idle timeout.
pub open spec fn goes_idle(s: SessionInfo, now: u64, config: SessionConfig) -> bool {
    s.is_active && idle(s, now, config.idle_timeout_hours)
}


// ── Laws ─────────────────────────────────────────────────────────────────────

/// The token of a revoked session is refused from then on, and its session
/// stays inactive.
pub proof fn lemma_revoked_session_refused(
    after: SessionManager,
    before: SessionManager,
    id: Seq<char>,
    user: Seq<char>,
    reason: Seq<char>,
    now: u64,
)
    requires
        revoked_by(after, before, id, user, reason, now),
    ensures
        after.validate_refusal(id) == Some(SessionError::Revoked),
        after.session(id) is Some && !after.session(id).unwrap().is_active,
{
}

/// Revoking one session leaves the others as they were.
pub proof fn lemma_revocation_is_local(
    after: SessionManager,
    before: SessionManager,
    id: Seq<char>,
    user: Seq<char>,
    reason: Seq<char>,
    now: u64,
    other: Seq<char>,
)
    requires
        revoked_by(after, before, id, user, reason, now),
        other != id,
    ensures
        after.session(other) == before.session(other),
        after.validate_refusal(other) == before.validate_refusal(other),
{
}

/// A session opened and not revoked is accepted: its claims are refused
/// neither as revoked nor as inactive.
pub proof fn lemma_opened_session_accepted(
    m: SessionManager,
    id: Seq<char>,
    user: Seq<char>,
    role: Seq<char>,
    ua: Option<String>,
    ip: Option<String>,
    now: u64,
    config: SessionConfig,
)
    requires
        m.session(id) is Some,
        opened(m.session(id).unwrap(), id, user, role, ua, ip, now, config),
        m.revoked(id) is None,
    ensures
        m.validate_refusal(id) is None,
{
}

} // verus!
