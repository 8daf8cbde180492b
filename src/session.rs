use vstd::prelude::*;
use crate::consts::ZkError;

verus! {

broadcast use vstd::std_specs::vec::vec_clone_deep_view_proof;

/// Length of a session password.
pub const PASSWORD_LEN: usize = 16;

/// Lifecycle of the connection.
#[derive(Debug, Clone, Copy, PartialEq, Eq, Structural)]
pub enum ConnState {
    NotConnected,
    Connecting,
    Connected,
    ConnectedReadOnly,
    Closed,
    AuthFailed,
    Expired,
}

/// A state from which the client never reconnects.
pub open spec fn is_terminal(s: ConnState) -> bool {
    s == ConnState::Closed || s == ConnState::AuthFailed || s == ConnState::Expired
}

/// The handshake request sent on every new socket.
#[derive(Debug)]
pub struct ConnectRequest {
    pub protocol_version: i32,
    pub last_zxid_seen: i64,
    pub timeout_ms: i32,
    pub session_id: i64,
    pub password: Vec<u8>,
    pub read_only: bool,
}

/// The server's answer to a handshake.
#[derive(Debug)]
pub struct ConnectResponse {
    pub protocol_version: i32,
    pub timeout_ms: i32,
    pub session_id: i64,
    pub password: Vec<u8>,
    pub read_only: bool,
}

/// The client's side of a session and the connection state it is in.
#[derive(Debug)]
pub struct Session {
    pub session_id: i64,
    pub password: Vec<u8>,
    pub timeout_ms: i32,
    pub last_zxid_seen: i64,
    pub read_only: bool,
    pub state: ConnState,
}

/// Sixteen zero bytes: the password of a session not yet established.
pub open spec fn zero_password() -> Seq<u8> {
    Seq::new(PASSWORD_LEN as nat, |i: int| 0u8)
}

fn zero_password_exec() -> (r: Vec<u8>)
    ensures
        r@ == zero_password(),
{
    let mut r: Vec<u8> = Vec::new();
    while r.len() < PASSWORD_LEN
        invariant
            r@.len() <= PASSWORD_LEN,
            forall|i: int| 0 <= i < r@.len() ==> r@[i] == 0u8,
        decreases PASSWORD_LEN - r@.len(),
    {
        r.push(0u8);
    }
    proof {
        assert(r@ =~= zero_password());
    }
    r
}

/// The state a successful handshake leads to.
pub open spec fn connected_state(read_only: bool) -> ConnState {
    if read_only {
        ConnState::ConnectedReadOnly
    } else {
        ConnState::Connected
    }
}

impl Session {
    /// A session not yet established, asking the server for `timeout_ms`.
    pub fn new(timeout_ms: i32, read_only: bool) -> (r: Self)
        ensures
            r.session_id == 0,
            r.password@ == zero_password(),
            r.timeout_ms == timeout_ms,
            r.last_zxid_seen == 0,
            r.read_only == read_only,
            r.state == ConnState::NotConnected,
    {
        Session {
            session_id: 0,
            password: zero_password_exec(),
            timeout_ms,
            last_zxid_seen: 0,
            read_only,
            state: ConnState::NotConnected,
        }
    }

    /// The handshake to send on a new socket: it carries the current session's
    /// identifier and password, so that a live session is resumed.
    pub fn connect_request(&self) -> (r: ConnectRequest)
        ensures
            request_of(*self, r),
    {
        ConnectRequest {
            protocol_version: 0,
            last_zxid_seen: self.last_zxid_seen,
            timeout_ms: self.timeout_ms,
            session_id: self.session_id,
            password: self.password.clone(),
            read_only: self.read_only,
        }
    }

    /// Applies the server's handshake answer. A negotiated timeout of zero means
    /// the session expired: it is cleared and the state becomes `Expired`.
    /// Otherwise the session takes the server's identifier, password and timeout
    /// and the state becomes connected (read-only if the server says so).
    pub fn on_connect_response(&mut self, resp: ConnectResponse) -> (r: ConnState)
        ensures
            r == final(self).state,
            handshake_applied(*old(self), resp, *final(self)),
    {
        if resp.timeout_ms == 0 {
            self.session_id = 0;
            self.password = zero_password_exec();
            self.state = ConnState::Expired;
        } else {
            self.session_id = resp.session_id;
            self.password = resp.password;
            self.timeout_ms = resp.timeout_ms;
            self.read_only = resp.read_only;
            self.state = if resp.read_only {
                ConnState::ConnectedReadOnly
            } else {
                ConnState::Connected
            };
        }
        self.state
    }

    /// Applies the loss of the socket after `elapsed_ms` milliseconds without
    /// successful I/O. A terminal state stays. A session that is established and
    /// still within its timeout is resumed (`Connecting`, identifier and password
    /// kept); an established one past its timeout is `Expired`; a session that
    /// was never established simply reconnects.
    pub fn on_connection_lost(&mut self, elapsed_ms: u64) -> (r: ConnState)
        ensures
            r == final(self).state,
            connection_lost(*old(self), elapsed_ms, *final(self)),
    {
        if self.state == ConnState::Closed || self.state == ConnState::AuthFailed
            || self.state == ConnState::Expired {
        } else if self.session_id != 0 && (self.timeout_ms < 0 || elapsed_ms >= self.timeout_ms as u64) {
            self.state = ConnState::Expired;
        } else {
            self.state = ConnState::Connecting;
        }
        self.state
    }

    /// Records the transaction id of a reply; the last one seen never decreases.
    pub fn observe_zxid(&mut self, zxid: i64)
        ensures
            final(self).last_zxid_seen == if zxid > old(self).last_zxid_seen {
                zxid
            } else {
                old(self).last_zxid_seen
            },
            final(self).session_id == old(self).session_id,
            final(self).password@ == old(self).password@,
            final(self).timeout_ms == old(self).timeout_ms,
            final(self).read_only == old(self).read_only,
            final(self).state == old(self).state,
    {
        if zxid > self.last_zxid_seen {
            self.last_zxid_seen = zxid;
        }
    }

    /// Applies the answer to an authentication packet: a refusal is terminal.
    pub fn on_auth_result(&mut self, failed: bool)
        ensures
            final(self).state == if failed { ConnState::AuthFailed } else { old(self).state },
            final(self).session_id == old(self).session_id,
            final(self).password@ == old(self).password@,
            final(self).timeout_ms == old(self).timeout_ms,
            final(self).last_zxid_seen == old(self).last_zxid_seen,
            final(self).read_only == old(self).read_only,
    {
        if failed {
            self.state = ConnState::AuthFailed;
        }
    }

    /// Marks the session closed by the caller.
    pub fn close(&mut self)
        ensures
            final(self).state == ConnState::Closed,
            final(self).session_id == old(self).session_id,
            final(self).password@ == old(self).password@,
            final(self).timeout_ms == old(self).timeout_ms,
            final(self).last_zxid_seen == old(self).last_zxid_seen,
            final(self).read_only == old(self).read_only,
    {
        self.state = ConnState::Closed;
    }

    /// The error a new call fails with in the current state, if any: after
    /// `Closed` every call is a connection loss, after `Expired` a session
    /// expiry, after `AuthFailed` an authentication failure.
    pub fn call_error(&self) -> (r: Option<ZkError>)
        ensures
            r == state_error(self.state),
    {
        match self.state {
            ConnState::Closed => Some(ZkError::ConnectionLoss),
            ConnState::Expired => Some(ZkError::SessionExpired),
            ConnState::AuthFailed => Some(ZkError::AuthFailed),
            _ => None,
        }
    }
}

/// The state after a socket loss, `elapsed_ms` after the last successful I/O.
pub open spec fn lost_state(s: ConnState, session_id: i64, timeout_ms: i32, elapsed_ms: u64) -> ConnState {
    if is_terminal(s) {
        s
    } else if session_id != 0 && elapsed_ms >= timeout_ms {
        ConnState::Expired
    } else {
        ConnState::Connecting
    }
}

/// The error of a call made in state `s`.
pub open spec fn state_error(s: ConnState) -> Option<ZkError> {
    match s {
        ConnState::Closed => Some(ZkError::ConnectionLoss),
        ConnState::Expired => Some(ZkError::SessionExpired),
        ConnState::AuthFailed => Some(ZkError::AuthFailed),
        _ => None,
    }
}

/// `after` is `before` once the handshake answer `resp` has been applied.
pub open spec fn handshake_applied(before: Session, resp: ConnectResponse, after: Session) -> bool {
    &&& after.last_zxid_seen == before.last_zxid_seen
    &&& resp.timeout_ms == 0 ==> {
        &&& after.state == ConnState::Expired
        &&& after.session_id == 0
        &&& after.password@ == zero_password()
        &&& after.timeout_ms == before.timeout_ms
        &&& after.read_only == before.read_only
    }
    &&& resp.timeout_ms != 0 ==> {
        &&& after.state == connected_state(resp.read_only)
        &&& after.session_id == resp.session_id
        &&& after.password@ == resp.password@
        &&& after.timeout_ms == resp.timeout_ms
        &&& after.read_only == resp.read_only
    }
}

/// `after` is `before` once the socket was lost `elapsed_ms` after the last
/// successful I/O: only the state changes.
pub open spec fn connection_lost(before: Session, elapsed_ms: u64, after: Session) -> bool {
    &&& after.state == lost_state(before.state, before.session_id, before.timeout_ms, elapsed_ms)
    &&& after.session_id == before.session_id
    &&& after.password@ == before.password@
    &&& after.timeout_ms == before.timeout_ms
    &&& after.last_zxid_seen == before.last_zxid_seen
    &&& after.read_only == before.read_only
}

/// `req` is the handshake that `s` sends.
pub open spec fn request_of(s: Session, req: ConnectRequest) -> bool {
    &&& req.protocol_version == 0
    &&& req.last_zxid_seen == s.last_zxid_seen
    &&& req.timeout_ms == s.timeout_ms
    &&& req.session_id == s.session_id
    &&& req.password@ == s.password@
    &&& req.read_only == s.read_only
}

/// Session resume: when an established, connected session loses its socket
/// before its timeout has run out, the client reconnects and offers the same
/// session identifier and password; when the server accepts that identifier,
/// the client is connected again in the same session.
pub proof fn lemma_session_resume(
    before: Session,
    elapsed_ms: u64,
    lost: Session,
    req: ConnectRequest,
    resp: ConnectResponse,
    after: Session,
)
    requires
        before.state == ConnState::Connected || before.state == ConnState::ConnectedReadOnly,
        before.session_id != 0,
        elapsed_ms < before.timeout_ms,
        connection_lost(before, elapsed_ms, lost),
        request_of(lost, req),
        resp.timeout_ms != 0,
        resp.session_id == req.session_id,
        handshake_applied(lost, resp, after),
    ensures
        lost.state == ConnState::Connecting,
        req.session_id == before.session_id,
        req.password@ == before.password@,
        after.session_id == before.session_id,
        after.state == connected_state(resp.read_only),
{
}

/// Session expiry: an established session that loses its socket once its
/// timeout has run out is `Expired`, and so is any session whose handshake the
/// server answers with a negotiated timeout of zero; after that every call
/// fails with `SessionExpired` and no further loss brings it back.
pub proof fn lemma_session_expire(
    before: Session,
    elapsed_ms: u64,
    lost: Session,
    resp: ConnectResponse,
    answered: Session,
    later_ms: u64,
    later: Session,
)
    requires
        !is_terminal(before.state),
        before.session_id != 0,
        elapsed_ms >= before.timeout_ms,
        connection_lost(before, elapsed_ms, lost),
        resp.timeout_ms == 0,
        handshake_applied(before, resp, answered),
        connection_lost(answered, later_ms, later),
    ensures
        lost.state == ConnState::Expired,
        answered.state == ConnState::Expired,
        state_error(answered.state) == Some(ZkError::SessionExpired),
        later.state == ConnState::Expired,
{
}

/// Shortest wait between two passes over the ensemble.
pub const MIN_BACKOFF_MS: u64 = 1000;
/// Longest wait between two passes over the ensemble.
pub const MAX_BACKOFF_MS: u64 = 60000;

/// A ping is due once the connection has been idle for more than a third of
/// the negotiated timeout.
pub fn ping_due(idle_ms: u64, timeout_ms: u64) -> (r: bool)
    ensures
        r == (idle_ms > timeout_ms / 3),
{
    idle_ms > timeout_ms / 3
}

/// The connection is taken as dead once nothing was read for two thirds of
/// the negotiated timeout.
pub fn read_timed_out(silent_ms: u64, timeout_ms: u64) -> (r: bool)
    ensures
        r == (3 * silent_ms >= 2 * timeout_ms),
{
    3 * (silent_ms as u128) >= 2 * (timeout_ms as u128)
}

/// The wait after the first full pass: the session timeout shared among the
/// hosts, but never under a second (an empty ensemble counts as one host).
pub fn initial_backoff_ms(timeout_ms: u64, ensemble_size: u64) -> (r: u64)
    ensures
        r == if ensemble_size == 0 {
            if timeout_ms > MIN_BACKOFF_MS { timeout_ms } else { MIN_BACKOFF_MS }
        } else if timeout_ms / ensemble_size > MIN_BACKOFF_MS {
            timeout_ms / ensemble_size
        } else {
            MIN_BACKOFF_MS
        },
{
    let share = if ensemble_size == 0 { timeout_ms } else { timeout_ms / ensemble_size };
    if share > MIN_BACKOFF_MS { share } else { MIN_BACKOFF_MS }
}

/// The wait after the next full pass: twice the last one, capped at a minute.
pub fn next_backoff_ms(last_ms: u64) -> (r: u64)
    ensures
        r == if 2 * last_ms < MAX_BACKOFF_MS { 2 * last_ms } else { MAX_BACKOFF_MS as int },
{
    if last_ms < MAX_BACKOFF_MS / 2 { 2 * last_ms } else { MAX_BACKOFF_MS }
}

} // verus!
