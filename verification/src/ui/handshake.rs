//! Handshake bookkeeping with the watch app: per-device sessions that expire
//! after ten idle minutes, and the pending handshake that registration
//! retries and ping polls drive forward on timer events.
//!
//! Times are milliseconds on a monotonic clock, read by the caller.

use vstd::prelude::*;

use super::state::{
    JsonObject, WatchSettings, HS_PING_EVENT, HS_REGISTER_RETRY_EVENT, WATCH_APP_PKG_NAME,
};
use crate::seqs::{first_index, lemma_first_index_at, lemma_first_index_none};
use crate::text::{decimal, decimal_string, str_eq};
use vstd::string::StringExecFns;

verus! {

/// A session expires after this long without activity (ten minutes).
pub const SESSION_IDLE_TIMEOUT_MS: u64 = 600_000;

/// A device's handshake session.
#[derive(Debug, Clone, Copy)]
pub struct HandshakeSession {
    /// Whether the session is open.
    pub open: bool,
    /// Time of the last activity.
    pub last_seen: u64,
    /// The watch app's settings, once a handshake succeeded.
    pub settings: Option<WatchSettings>,
}

/// Whether a session seen last at `last_seen` is still alive at `now` (a
/// clock that seems to go back counts as no time elapsed).
pub open spec fn is_fresh(last_seen: u64, now: u64) -> bool {
    now <= last_seen + SESSION_IDLE_TIMEOUT_MS
}

/// The session stored for `key`: the first entry with that key.
pub open spec fn find_session(v: Seq<(String, HandshakeSession)>, key: Seq<char>) -> Option<
    HandshakeSession,
>
    decreases v.len(),
{
    if v.len() == 0 {
        None
    } else if v[0].0@ == key {
        Some(v[0].1)
    } else {
        find_session(v.drop_first(), key)
    }
}

/// Sessions per device address.
pub struct HandshakeState {
    sessions: Vec<(String, HandshakeSession)>,
}

impl HandshakeState {
    /// The session stored for a device address.
    pub closed spec fn lookup(&self, key: Seq<char>) -> Option<HandshakeSession> {
        find_session(self.sessions@, key)
    }

    /// Each device address has at most one session.
    pub closed spec fn wf(&self) -> bool {
        forall|i: int, j: int|
            0 <= i < j < self.sessions@.len() ==> #[trigger] self.sessions@[i].0@
                != #[trigger] self.sessions@[j].0@
    }

    /// No sessions.
    pub fn new() -> (s: Self)
        ensures
            s.wf(),
            forall|k: Seq<char>| #[trigger] s.lookup(k) is None,
    {
        HandshakeState { sessions: Vec::new() }
    }
}

proof fn lemma_find_push(v: Seq<(String, HandshakeSession)>, e: (String, HandshakeSession), k: Seq<char>)
    ensures
        find_session(v.push(e), k) == match find_session(v, k) {
            Some(x) => Some(x),
            None => if e.0@ == k {
                Some(e.1)
            } else {
                None
            },
        },
    decreases v.len(),
{
    if v.len() > 0 {
        assert(v.push(e)[0] == v[0]);
        assert(v.push(e).drop_first() =~= v.drop_first().push(e));
        lemma_find_push(v.drop_first(), e, k);
    } else {
        assert(v.push(e)[0] == e);
        assert(v.push(e).drop_first() =~= Seq::<(String, HandshakeSession)>::empty());
        assert(find_session(v.push(e).drop_first(), k) is None);
    }
}

proof fn lemma_find_at(v: Seq<(String, HandshakeSession)>, i: int, k: Seq<char>)
    requires
        0 <= i < v.len(),
        forall|j: int| 0 <= j < i ==> #[trigger] v[j].0@ != k,
    ensures
        v[i].0@ == k ==> find_session(v, k) == Some(v[i].1),
    decreases i,
{
    if i > 0 {
        assert(v[0].0@ != k);
        assert forall|j: int| 0 <= j < i - 1 implies #[trigger] v.drop_first()[j].0@ != k by {
            assert(v.drop_first()[j] == v[j + 1]);
        }
        lemma_find_at(v.drop_first(), i - 1, k);
    }
}

proof fn lemma_find_none(v: Seq<(String, HandshakeSession)>, k: Seq<char>)
    ensures
        find_session(v, k) is None <==> forall|j: int| 0 <= j < v.len() ==> #[trigger] v[j].0@ != k,
    decreases v.len(),
{
    if v.len() > 0 {
        lemma_find_none(v.drop_first(), k);
        if find_session(v, k) is None {
            assert forall|j: int| 0 <= j < v.len() implies #[trigger] v[j].0@ != k by {
                if j > 0 {
                    assert(v[j] == v.drop_first()[j - 1]);
                }
            }
        } else if v[0].0@ != k {
            let j = choose|j: int| 0 <= j < v.drop_first().len() && #[trigger] v.drop_first()[j].0@ == k;
            assert(v[j + 1] == v.drop_first()[j]);
        }
    }
}

proof fn lemma_find_update(
    v: Seq<(String, HandshakeSession)>,
    i: int,
    x: HandshakeSession,
    k: Seq<char>,
)
    requires
        0 <= i < v.len(),
        forall|a: int, b: int| 0 <= a < b < v.len() ==> #[trigger] v[a].0@ != #[trigger] v[b].0@,
    ensures
        find_session(v.update(i, (v[i].0, x)), k) == if v[i].0@ == k {
            Some(x)
        } else {
            find_session(v, k)
        },
    decreases v.len(),
{
    let w = v.update(i, (v[i].0, x));
    if i == 0 {
        if v[0].0@ != k {
            assert(w.drop_first() =~= v.drop_first());
        }
    } else {
        assert(w.drop_first() =~= v.drop_first().update(i - 1, (v[i].0, x)));
        assert(v.drop_first()[i - 1] == v[i]);
        assert forall|a: int, b: int|
            0 <= a < b < v.drop_first().len() implies #[trigger] v.drop_first()[a].0@
                != #[trigger] v.drop_first()[b].0@ by {
            assert(v.drop_first()[a] == v[a + 1]);
            assert(v.drop_first()[b] == v[b + 1]);
        }
        lemma_find_update(v.drop_first(), i - 1, x, k);
        if v[0].0@ == k {
            assert(v[0].0@ != v[i].0@);
        }
    }
}

/// Position of a device's session, if there is one.
fn find_index(v: &Vec<(String, HandshakeSession)>, key: &str) -> (r: Option<usize>)
    ensures
        r matches Some(i) ==> i < v@.len() && v@[i as int].0@ == key@ && find_session(v@, key@)
            == Some(v@[i as int].1),
        r is None ==> find_session(v@, key@) is None,
{
    let mut i: usize = 0;
    while i < v.len()
        invariant
            i <= v@.len(),
            forall|j: int| 0 <= j < i ==> #[trigger] v@[j].0@ != key@,
        decreases v.len() - i,
    {
        if str_eq(v[i].0.as_str(), key) {
            proof {
                lemma_find_at(v@, i as int, key@);
            }
            return Some(i);
        }
        i = i + 1;
    }
    proof {
        lemma_find_none(v@, key@);
    }
    None
}

/// Whether the device's session is open and not expired.
pub fn is_session_open(state: &HandshakeState, device_addr: &str, now: u64) -> (open: bool)
    ensures
        open == (state.lookup(device_addr@) matches Some(s) && s.open && is_fresh(s.last_seen, now)),
{
    match find_index(&state.sessions, device_addr) {
        Some(i) => {
            let s = &state.sessions[i].1;
            s.open && (now <= s.last_seen || now - s.last_seen <= SESSION_IDLE_TIMEOUT_MS)
        },
        None => false,
    }
}

/// The watch app's settings negotiated for the device, while its session is
/// open and not expired.
pub fn get_settings(state: &HandshakeState, device_addr: &str, now: u64) -> (r: Option<
    WatchSettings,
>)
    ensures
        r == match state.lookup(device_addr@) {
            Some(s) => if s.open && is_fresh(s.last_seen, now) {
                s.settings
            } else {
                None
            },
            None => None,
        },
{
    match find_index(&state.sessions, device_addr) {
        Some(i) => {
            let s = &state.sessions[i].1;
            if !s.open || !(now <= s.last_seen || now - s.last_seen <= SESSION_IDLE_TIMEOUT_MS) {
                return None;
            }
            s.settings
        },
        None => None,
    }
}

/// Records activity on the device's session (keep-alive): a known session
/// becomes open and seen now; unknown devices are ignored.
pub fn record_activity(state: &mut HandshakeState, device_addr: &str, now: u64)
    requires
        old(state).wf(),
    ensures
        final(state).wf(),
        forall|k: Seq<char>|
            #[trigger] final(state).lookup(k) == if k == device_addr@ && old(state).lookup(k) is Some {
                Some(
                    HandshakeSession {
                        open: true,
                        last_seen: now,
                        ..old(state).lookup(k)->0
                    },
                )
            } else {
                old(state).lookup(k)
            },
{
    match find_index(&state.sessions, device_addr) {
        Some(i) => {
            let key = state.sessions[i].0.clone();
            let s = HandshakeSession {
                open: true,
                last_seen: now,
                settings: state.sessions[i].1.settings,
            };
            let ghost v = state.sessions@;
            state.sessions.set(i, (key, s));
            proof {
                assert(state.sessions@ == v.update(i as int, (v[i as int].0, s)));
                assert forall|k: Seq<char>|
                    #[trigger] find_session(state.sessions@, k) == if k == device_addr@ && find_session(v, k) is Some {
                        Some(HandshakeSession { open: true, last_seen: now, ..find_session(v, k)->0 })
                    } else {
                        find_session(v, k)
                    } by {
                    lemma_find_update(v, i as int, s, k);
                }
                assert forall|a: int, b: int|
                    0 <= a < b < state.sessions@.len() implies #[trigger] state.sessions@[a].0@
                        != #[trigger] state.sessions@[b].0@ by {
                    assert(state.sessions@[a].0 == v[a].0);
                    assert(state.sessions@[b].0 == v[b].0);
                }
            }
        },
        None => {},
    }
}


/// The session as it stands after the idle sessions are dropped.
pub open spec fn fresh_only(s: Option<HandshakeSession>, now: u64) -> Option<HandshakeSession> {
    match s {
        Some(x) => if is_fresh(x.last_seen, now) {
            Some(x)
        } else {
            None
        },
        None => None,
    }
}

/// A session touched at `now`: seen now, with the given open flag and
/// settings where they are given, the rest kept (a new session starts
/// closed and without settings).
pub open spec fn touched(
    prev: Option<HandshakeSession>,
    open: Option<bool>,
    settings: Option<WatchSettings>,
    now: u64,
) -> HandshakeSession {
    let base = match prev {
        Some(s) => s,
        None => HandshakeSession { open: false, last_seen: now, settings: None },
    };
    HandshakeSession {
        open: match open {
            Some(o) => o,
            None => base.open,
        },
        last_seen: now,
        settings: match settings {
            Some(x) => Some(x),
            None => base.settings,
        },
    }
}

/// Touches the device's session: expired sessions of every device are
/// dropped first, then the device's session (created if missing) is marked
/// seen now, with the given open flag and settings. Returns whether the
/// session is open.
pub fn touch_session(
    state: &mut HandshakeState,
    device_addr: &str,
    open: Option<bool>,
    settings: Option<WatchSettings>,
    now: u64,
) -> (is_open: bool)
    requires
        old(state).wf(),
    ensures
        final(state).wf(),
        forall|k: Seq<char>|
            #[trigger] final(state).lookup(k) == if k == device_addr@ {
                Some(touched(fresh_only(old(state).lookup(k), now), open, settings, now))
            } else {
                fresh_only(old(state).lookup(k), now)
            },
        is_open == touched(fresh_only(old(state).lookup(device_addr@), now), open, settings, now).open,
{
    let ghost v = state.sessions@;
    let mut kept: Vec<(String, HandshakeSession)> = Vec::new();
    let mut i: usize = 0;
    while i < state.sessions.len()
        invariant
            v == state.sessions@,
            i <= v.len(),
            forall|a: int, b: int| 0 <= a < b < v.len() ==> #[trigger] v[a].0@ != #[trigger] v[b].0@,
            forall|a: int, b: int|
                0 <= a < b < kept@.len() ==> #[trigger] kept@[a].0@ != #[trigger] kept@[b].0@,
            forall|k: Seq<char>|
                #[trigger] find_session(kept@, k) == fresh_only(find_session(v.take(i as int), k), now),
        decreases v.len() - i,
    {
        let e = &state.sessions[i];
        let ghost key = v[i as int].0@;
        proof {
            assert(v.take(i + 1) =~= v.take(i as int).push(v[i as int]));
            assert forall|k: Seq<char>| #[trigger] find_session(v.take(i + 1), k) == match find_session(v.take(i as int), k) {
                Some(x) => Some(x),
                None => if v[i as int].0@ == k { Some(v[i as int].1) } else { None },
            } by {
                lemma_find_push(v.take(i as int), v[i as int], k);
            }
            assert forall|j: int| 0 <= j < v.take(i as int).len() implies #[trigger] v.take(i as int)[j].0@ != key by {
                assert(v.take(i as int)[j] == v[j]);
            }
            lemma_find_none(v.take(i as int), key);
        }
        if now <= e.1.last_seen || now - e.1.last_seen <= SESSION_IDLE_TIMEOUT_MS {
            let ghost kv = kept@;
            proof {
                lemma_find_none(kv, key);
            }
            kept.push((e.0.clone(), e.1));
            proof {
                assert forall|k: Seq<char>| #[trigger] find_session(kept@, k) == fresh_only(find_session(v.take(i + 1), k), now) by {
                    lemma_find_push(kv, (v[i as int].0, v[i as int].1), k);
                }
                assert forall|a: int, b: int|
                    0 <= a < b < kept@.len() implies #[trigger] kept@[a].0@ != #[trigger] kept@[b].0@ by {
                    if b == kv.len() {
                        assert(kept@[a] == kv[a]);
                    } else {
                        assert(kept@[a] == kv[a]);
                        assert(kept@[b] == kv[b]);
                    }
                }
            }
        }
        i = i + 1;
    }
    assert(v.take(v.len() as int) =~= v);
    let ghost kv = kept@;
    let result: bool;
    match find_index(&kept, device_addr) {
        Some(j) => {
            let prev = kept[j].1;
            let s = HandshakeSession {
                open: match open {
                    Some(o) => o,
                    None => prev.open,
                },
                last_seen: now,
                settings: match settings {
                    Some(x) => Some(x),
                    None => prev.settings,
                },
            };
            let key = kept[j].0.clone();
            kept.set(j, (key, s));
            result = s.open;
            proof {
                assert(kept@ == kv.update(j as int, (kv[j as int].0, s)));
                assert forall|k: Seq<char>| #[trigger] find_session(kept@, k) == if k == device_addr@ {
                    Some(s)
                } else {
                    find_session(kv, k)
                } by {
                    lemma_find_update(kv, j as int, s, k);
                }
                assert forall|a: int, b: int|
                    0 <= a < b < kept@.len() implies #[trigger] kept@[a].0@ != #[trigger] kept@[b].0@ by {
                    assert(kept@[a].0 == kv[a].0);
                    assert(kept@[b].0 == kv[b].0);
                }
            }
        },
        None => {
            let s = HandshakeSession {
                open: match open {
                    Some(o) => o,
                    None => false,
                },
                last_seen: now,
                settings: settings,
            };
            proof {
                lemma_find_none(kv, device_addr@);
            }
            kept.push((String::from_str(device_addr), s));
            result = s.open;
            proof {
                assert forall|k: Seq<char>| #[trigger] find_session(kept@, k) == if k == device_addr@ {
                    Some(s)
                } else {
                    find_session(kv, k)
                } by {
                    lemma_find_push(kv, kept@[kv.len() as int], k);
                }
                assert forall|a: int, b: int|
                    0 <= a < b < kept@.len() implies #[trigger] kept@[a].0@ != #[trigger] kept@[b].0@ by {
                    assert(kept@[a] == kv[a]);
                    if b < kv.len() {
                        assert(kept@[b] == kv[b]);
                    }
                }
            }
        },
    }
    state.sessions = kept;
    result
}


/// Interval between registration attempts.
pub const REGISTER_RETRY_INTERVAL_MS: u64 = 300;

/// Registration gives up once it has waited this long.
pub const REGISTER_RETRY_TIMEOUT_MS: u64 = 5000;

/// Interval between handshake pings.
pub const HANDSHAKE_POLL_INTERVAL_MS: u64 = 500;

/// Pinging gives up (and carries on in compatibility mode) once it has
/// waited this long.
pub const HANDSHAKE_POLL_TIMEOUT_MS: u64 = 10_000;

/// Stage of a pending handshake.
#[derive(Debug, Clone, Copy)]
pub enum HandshakePhase {
    /// Waiting for the watch app to start (registration retries).
    Registering,
    /// Waiting for the watch app to answer a ping.
    Pinging,
}

/// A handshake in progress. The host's timers only fire events, so every
/// wait is a timer event: registration retries and ping polls advance one
/// step per event, and a pong completes the handshake.
#[derive(Debug)]
pub struct PendingHandshake {
    pub device_addr: String,
    pub ping_str: String,
    pub phase: HandshakePhase,
    pub register_waited_ms: u64,
    pub ping_waited_ms: u64,
    pub attempt: u32,
}

impl PendingHandshake {
    /// Waits stay within their limits, pinging starts only after
    /// registration, and every attempt is a step of one of the two waits.
    pub open spec fn wf(&self) -> bool {
        &&& self.register_waited_ms <= REGISTER_RETRY_TIMEOUT_MS + REGISTER_RETRY_INTERVAL_MS
        &&& self.ping_waited_ms <= HANDSHAKE_POLL_TIMEOUT_MS
        &&& self.register_waited_ms % REGISTER_RETRY_INTERVAL_MS == 0
        &&& self.ping_waited_ms % HANDSHAKE_POLL_INTERVAL_MS == 0
        &&& (self.phase is Registering ==> self.ping_waited_ms == 0)
        &&& self.attempt as int <= (self.register_waited_ms / REGISTER_RETRY_INTERVAL_MS) as int
            + (self.ping_waited_ms / HANDSHAKE_POLL_INTERVAL_MS) as int + if self.phase is Pinging {
            2int
        } else {
            1int
        }
    }
}

/// Whether a handshake is pending in the given stage.
pub open spec fn pending_in(p: Option<PendingHandshake>, pinging: bool) -> bool {
    match p {
        Some(h) => (h.phase is Pinging) == pinging,
        None => false,
    }
}

/// Starts waiting for a handshake with the device: a new pending handshake
/// (registration first) replaces, and drops, any earlier one, and the
/// device's session is reset to closed. Returns whether one was replaced;
/// the caller then arms the first registration attempt.
pub fn begin_wait(
    sessions: &mut HandshakeState,
    pending: &mut Option<PendingHandshake>,
    device_addr: String,
    ping_str: String,
    now: u64,
) -> (replaced: bool)
    requires
        old(sessions).wf(),
    ensures
        final(sessions).wf(),
        forall|k: Seq<char>|
            #[trigger] final(sessions).lookup(k) == if k == device_addr@ {
                Some(touched(fresh_only(old(sessions).lookup(k), now), Some(false), None, now))
            } else {
                fresh_only(old(sessions).lookup(k), now)
            },
        replaced == (*old(pending) is Some),
        *final(pending) == Some(
            PendingHandshake {
                device_addr,
                ping_str,
                phase: HandshakePhase::Registering,
                register_waited_ms: 0,
                ping_waited_ms: 0,
                attempt: 0,
            },
        ),
        final(pending)->0.wf(),
{
    let replaced = pending.is_some();
    touch_session(sessions, device_addr.as_str(), Some(false), None, now);
    *pending = Some(
        PendingHandshake {
            device_addr,
            ping_str,
            phase: HandshakePhase::Registering,
            register_waited_ms: 0,
            ping_waited_ms: 0,
            attempt: 0,
        },
    );
    replaced
}

/// The device to try registering with, while registration is pending.
pub fn registering_device(pending: &Option<PendingHandshake>) -> (r: Option<String>)
    ensures
        pending_in(*pending, false) ==> r == Some(pending->0.device_addr),
        !pending_in(*pending, false) ==> r is None,
{
    match pending {
        Some(p) => match p.phase {
            HandshakePhase::Registering => Some(p.device_addr.clone()),
            HandshakePhase::Pinging => None,
        },
        None => None,
    }
}

/// What a registration attempt leads to.
#[derive(Debug)]
pub enum RegisterOutcome {
    /// No registration is pending.
    NotPending,
    /// Registered: go on to pinging right away.
    StartPing,
    /// Registration kept failing: the handshake ended with this error.
    Failed(String),
    /// Try again after the retry interval; the progress shows the seconds
    /// waited so far.
    Retry { waited_secs: u64 },
}

/// Takes the result of a registration attempt: success moves on to pinging;
/// failure retries until the registration timeout, then ends the handshake.
pub fn after_register(pending: &mut Option<PendingHandshake>, registered: bool) -> (r:
    RegisterOutcome)
    requires
        *old(pending) matches Some(p) ==> p.wf(),
    ensures
        *final(pending) matches Some(p) ==> p.wf(),
        !pending_in(*old(pending), false) ==> r is NotPending && *final(pending) == *old(pending),
        *old(pending) matches Some(p) ==> (p.phase is Registering ==> if registered {
            &&& r is StartPing
            &&& *final(pending) == Some(
                PendingHandshake {
                    phase: HandshakePhase::Pinging,
                    attempt: (p.attempt + 1) as u32,
                    ..p
                },
            )
        } else if p.register_waited_ms >= REGISTER_RETRY_TIMEOUT_MS {
            &&& r matches RegisterOutcome::Failed(msg) && msg@ == "无法连接快应用，请确保手表快应用已打开后重试。"@
            &&& *final(pending) is None
        } else {
            &&& r == (RegisterOutcome::Retry {
                waited_secs: ((p.register_waited_ms + REGISTER_RETRY_INTERVAL_MS) / 1000 + 1) as u64,
            })
            &&& *final(pending) == Some(
                PendingHandshake {
                    register_waited_ms: (p.register_waited_ms + REGISTER_RETRY_INTERVAL_MS) as u64,
                    attempt: (p.attempt + 1) as u32,
                    ..p
                },
            )
        }),
{
    let registering = match pending {
        Some(p) => match p.phase {
            HandshakePhase::Registering => true,
            HandshakePhase::Pinging => false,
        },
        None => false,
    };
    if !registering {
        return RegisterOutcome::NotPending;
    }
    let mut p = pending.take().unwrap();
    p.attempt = p.attempt + 1;
    if registered {
        p.phase = HandshakePhase::Pinging;
        *pending = Some(p);
        return RegisterOutcome::StartPing;
    }
    if p.register_waited_ms >= REGISTER_RETRY_TIMEOUT_MS {
        return RegisterOutcome::Failed(String::from_str("无法连接快应用，请确保手表快应用已打开后重试。"));
    }
    p.register_waited_ms = p.register_waited_ms + REGISTER_RETRY_INTERVAL_MS;
    let waited_secs = p.register_waited_ms / 1000 + 1;
    *pending = Some(p);
    RegisterOutcome::Retry { waited_secs }
}

/// What a ping poll leads to.
#[derive(Debug)]
pub enum PingOutcome {
    /// No ping phase is pending.
    NotPending,
    /// No answer in time: the handshake ended; carry on with an older watch
    /// app's defaults.
    TimedOut,
    /// Send the ping and poll again after the interval; the progress shows
    /// the seconds waited so far.
    Send { device_addr: String, ping_str: String, waited_secs: u64 },
}

/// One ping poll: sends a ping (the watch app's script starts later than the
/// channel, so early pings are lost and the ping repeats) until the poll
/// timeout ends the handshake.
pub fn ping_tick(pending: &mut Option<PendingHandshake>) -> (r: PingOutcome)
    requires
        *old(pending) matches Some(p) ==> p.wf(),
    ensures
        *final(pending) matches Some(p) ==> p.wf(),
        !pending_in(*old(pending), true) ==> r is NotPending && *final(pending) == *old(pending),
        *old(pending) matches Some(p) ==> (p.phase is Pinging ==> if p.ping_waited_ms
            >= HANDSHAKE_POLL_TIMEOUT_MS {
            &&& r is TimedOut
            &&& *final(pending) is None
        } else {
            &&& r == (PingOutcome::Send {
                device_addr: p.device_addr,
                ping_str: p.ping_str,
                waited_secs: (p.ping_waited_ms / 1000 + 1) as u64,
            })
            &&& *final(pending) == Some(
                PendingHandshake {
                    ping_waited_ms: (p.ping_waited_ms + HANDSHAKE_POLL_INTERVAL_MS) as u64,
                    attempt: (p.attempt + 1) as u32,
                    ..p
                },
            )
        }),
{
    let pinging = match pending {
        Some(p) => match p.phase {
            HandshakePhase::Registering => false,
            HandshakePhase::Pinging => true,
        },
        None => false,
    };
    if !pinging {
        return PingOutcome::NotPending;
    }
    let mut p = pending.take().unwrap();
    if p.ping_waited_ms >= HANDSHAKE_POLL_TIMEOUT_MS {
        return PingOutcome::TimedOut;
    }
    assert((p.ping_waited_ms + 500) / 500 == p.ping_waited_ms / 500 + 1);
    assert(p.ping_waited_ms + 500 <= 10000);
    p.attempt = p.attempt + 1;
    let waited_secs = p.ping_waited_ms / 1000 + 1;
    p.ping_waited_ms = p.ping_waited_ms + HANDSHAKE_POLL_INTERVAL_MS;
    let r = PingOutcome::Send {
        device_addr: p.device_addr.clone(),
        ping_str: p.ping_str.clone(),
        waited_secs,
    };
    *pending = Some(p);
    r
}

/// A pong arrived: when a handshake is waiting for it, the handshake is
/// complete and removed. Returns whether one completed.
pub fn pong_completes(pending: &mut Option<PendingHandshake>) -> (completed: bool)
    ensures
        completed == pending_in(*old(pending), true),
        completed ==> *final(pending) is None,
        !completed ==> *final(pending) == *old(pending),
{
    let pinging = match pending {
        Some(p) => match p.phase {
            HandshakePhase::Registering => false,
            HandshakePhase::Pinging => true,
        },
        None => false,
    };
    if pinging {
        *pending = None;
    }
    pinging
}

/// Which handshake step a timer event drives.
#[derive(Debug)]
pub enum TimerStep {
    Register,
    Ping,
    Other,
}

/// Dispatches a handshake timer event to its step.
pub fn on_timer(payload: &str) -> (step: TimerStep)
    ensures
        payload@ == HS_REGISTER_RETRY_EVENT@ ==> step is Register,
        payload@ != HS_REGISTER_RETRY_EVENT@ && payload@ == HS_PING_EVENT@ ==> step is Ping,
        payload@ != HS_REGISTER_RETRY_EVENT@ && payload@ != HS_PING_EVENT@ ==> step is Other,
{
    if str_eq(payload, HS_REGISTER_RETRY_EVENT) {
        TimerStep::Register
    } else if str_eq(payload, HS_PING_EVENT) {
        TimerStep::Ping
    } else {
        TimerStep::Other
    }
}

/// A handshake answer (`hs_pong`) from the device: reads the watch app's
/// settings (defaults when the answer has none), opens the device's session
/// with them, and completes the handshake waiting for the answer. Returns
/// (settings, whether a handshake completed).
pub fn handle_hs_pong(
    sessions: &mut HandshakeState,
    pending: &mut Option<PendingHandshake>,
    device_addr: &str,
    settings_json: Option<&JsonObject>,
    now: u64,
) -> (r: (WatchSettings, bool))
    requires
        old(sessions).wf(),
    ensures
        final(sessions).wf(),
        settings_json is None ==> r.0 == WatchSettings::spec_default(),
        settings_json matches Some(o) ==> r.0 == WatchSettings::from_json_spec(*o),
        forall|k: Seq<char>|
            #[trigger] final(sessions).lookup(k) == if k == device_addr@ {
                Some(touched(fresh_only(old(sessions).lookup(k), now), Some(true), Some(r.0), now))
            } else {
                fresh_only(old(sessions).lookup(k), now)
            },
        r.1 == pending_in(*old(pending), true),
        r.1 ==> *final(pending) is None,
        !r.1 ==> *final(pending) == *old(pending),
{
    let settings = match settings_json {
        Some(o) => WatchSettings::from_json(o),
        None => WatchSettings::default(),
    };
    touch_session(sessions, device_addr, Some(true), Some(settings), now);
    let completed = pong_completes(pending);
    (settings, completed)
}

/// Handshakes end: registration makes at most 18 attempts, and the whole
/// handshake at most 39 (registration, then pings until the poll timeout).
pub proof fn law_handshake_attempts_bounded(p: PendingHandshake)
    requires
        p.wf(),
    ensures
        p.phase is Registering ==> p.attempt <= 18,
        p.attempt <= 39,
{
}

/// A handshake as `begin_wait` starts it: registering, nothing waited yet.
pub open spec fn fresh_handshake(p: PendingHandshake) -> bool {
    &&& p.phase is Registering
    &&& p.register_waited_ms == 0
    &&& p.ping_waited_ms == 0
    &&& p.attempt == 0
}

/// The handshake after `k` failed registration attempts.
pub open spec fn after_failed_registrations(p: PendingHandshake, k: nat) -> PendingHandshake {
    PendingHandshake {
        register_waited_ms: (k * REGISTER_RETRY_INTERVAL_MS) as u64,
        attempt: k as u32,
        ..p
    }
}

/// The handshake after registration succeeded on attempt `a` and `k` pings
/// were sent.
pub open spec fn after_pings(p: PendingHandshake, a: nat, k: nat) -> PendingHandshake {
    PendingHandshake {
        phase: HandshakePhase::Pinging,
        ping_waited_ms: (k * HANDSHAKE_POLL_INTERVAL_MS) as u64,
        attempt: (a + k) as u32,
        ..p
    }
}

/// The whole run of a handshake that never gets an answer. With every
/// registration attempt failing, attempts 1 to 17 retry (each leaving the
/// state of one more failure, as `register_timer_step` states) and the
/// 18th ends the handshake with the error. With registration succeeding on
/// attempt `a`, the first ping goes out at once and pings 1 to 20 are sent
/// (each leaving the state of one more ping, as `ping_timer_step` states);
/// the poll after the 20th ping ends the handshake as timed out.
pub proof fn law_handshake_run(p: PendingHandshake, k: nat, a: nat)
    requires
        fresh_handshake(p),
        1 <= a <= 18,
    ensures
        k <= 17 ==> after_failed_registrations(p, k).wf(),
        k < 17 ==> after_failed_registrations(p, k).register_waited_ms < REGISTER_RETRY_TIMEOUT_MS
            && (PendingHandshake {
            register_waited_ms: (after_failed_registrations(p, k).register_waited_ms
                + REGISTER_RETRY_INTERVAL_MS) as u64,
            attempt: (after_failed_registrations(p, k).attempt + 1) as u32,
            ..after_failed_registrations(p, k)
        }) == after_failed_registrations(p, k + 1),
        after_failed_registrations(p, 17).register_waited_ms >= REGISTER_RETRY_TIMEOUT_MS,
        (PendingHandshake {
            phase: HandshakePhase::Pinging,
            attempt: (after_failed_registrations(p, (a - 1) as nat).attempt + 1) as u32,
            ..after_failed_registrations(p, (a - 1) as nat)
        }) == (PendingHandshake {
            register_waited_ms: ((a - 1) * REGISTER_RETRY_INTERVAL_MS) as u64,
            ..after_pings(p, a, 0)
        }),
        k <= 20 ==> (PendingHandshake {
            register_waited_ms: ((a - 1) * REGISTER_RETRY_INTERVAL_MS) as u64,
            ..after_pings(p, a, k)
        }).wf(),
        k < 20 ==> after_pings(p, a, k).ping_waited_ms < HANDSHAKE_POLL_TIMEOUT_MS
            && (PendingHandshake {
            ping_waited_ms: (after_pings(p, a, k).ping_waited_ms + HANDSHAKE_POLL_INTERVAL_MS) as u64,
            attempt: (after_pings(p, a, k).attempt + 1) as u32,
            ..after_pings(p, a, k)
        }) == after_pings(p, a, k + 1),
        after_pings(p, a, 20).ping_waited_ms >= HANDSHAKE_POLL_TIMEOUT_MS,
{
}

/// Once registered, a handshake never goes back to registering: the
/// registration step leaves a pinging handshake alone.
pub proof fn law_no_registration_after_ping(p: PendingHandshake)
    requires
        p.wf(),
        p.phase is Pinging,
    ensures
        !pending_in(Some(p), false),
{
}

/// What the handshake asks for after one of its timer steps.
#[derive(Debug)]
pub enum HandshakeAction {
    /// No handshake is waiting in this phase.
    Nothing,
    /// Registration failed: try again after the retry interval; the progress
    /// shows the seconds waited so far.
    RetryRegister { waited_secs: u64 },
    /// Send the ping and poll again after the interval; the progress shows
    /// the seconds waited so far.
    Ping { device_addr: String, ping_str: String, waited_secs: u64 },
    /// The handshake ended with this error.
    Failed(String),
    /// No answer to the pings in time: the handshake ended; carry on with an
    /// older watch app's defaults.
    TimedOut,
}

/// The handshake action of a ping poll's outcome.
pub open spec fn ping_action(r: PingOutcome) -> HandshakeAction {
    match r {
        PingOutcome::NotPending => HandshakeAction::Nothing,
        PingOutcome::TimedOut => HandshakeAction::TimedOut,
        PingOutcome::Send { device_addr, ping_str, waited_secs } => HandshakeAction::Ping {
            device_addr,
            ping_str,
            waited_secs,
        },
    }
}

fn to_action(r: PingOutcome) -> (a: HandshakeAction)
    ensures
        a == ping_action(r),
{
    match r {
        PingOutcome::NotPending => HandshakeAction::Nothing,
        PingOutcome::TimedOut => HandshakeAction::TimedOut,
        PingOutcome::Send { device_addr, ping_str, waited_secs } => HandshakeAction::Ping {
            device_addr,
            ping_str,
            waited_secs,
        },
    }
}

/// The ping-poll timer fired: one ping poll (see `ping_tick`).
pub fn ping_timer_step(pending: &mut Option<PendingHandshake>) -> (a: HandshakeAction)
    requires
        *old(pending) matches Some(p) ==> p.wf(),
    ensures
        *final(pending) matches Some(p) ==> p.wf(),
        !pending_in(*old(pending), true) ==> a is Nothing && *final(pending) == *old(pending),
        *old(pending) matches Some(p) ==> (p.phase is Pinging ==> if p.ping_waited_ms
            >= HANDSHAKE_POLL_TIMEOUT_MS {
            &&& a is TimedOut
            &&& *final(pending) is None
        } else {
            &&& a == (HandshakeAction::Ping {
                device_addr: p.device_addr,
                ping_str: p.ping_str,
                waited_secs: (p.ping_waited_ms / 1000 + 1) as u64,
            })
            &&& *final(pending) == Some(
                PendingHandshake {
                    ping_waited_ms: (p.ping_waited_ms + HANDSHAKE_POLL_INTERVAL_MS) as u64,
                    attempt: (p.attempt + 1) as u32,
                    ..p
                },
            )
        }),
{
    let r = ping_tick(pending);
    to_action(r)
}

/// A registration attempt came back (`registered` or not): a success goes on
/// to the first ping poll at once; a failure retries until the registration
/// timeout ends the handshake (see `after_register` and `ping_tick`).
pub fn register_timer_step(pending: &mut Option<PendingHandshake>, registered: bool) -> (a: HandshakeAction)
    requires
        *old(pending) matches Some(p) ==> p.wf(),
    ensures
        *final(pending) matches Some(p) ==> p.wf(),
        !pending_in(*old(pending), false) ==> a is Nothing && *final(pending) == *old(pending),
        *old(pending) matches Some(p) ==> (p.phase is Registering ==> if registered {
            let q = PendingHandshake { phase: HandshakePhase::Pinging, attempt: (p.attempt + 1) as u32, ..p };
            if q.ping_waited_ms >= HANDSHAKE_POLL_TIMEOUT_MS {
                &&& a is TimedOut
                &&& *final(pending) is None
            } else {
                &&& a == (HandshakeAction::Ping {
                    device_addr: q.device_addr,
                    ping_str: q.ping_str,
                    waited_secs: (q.ping_waited_ms / 1000 + 1) as u64,
                })
                &&& *final(pending) == Some(
                    PendingHandshake {
                        ping_waited_ms: (q.ping_waited_ms + HANDSHAKE_POLL_INTERVAL_MS) as u64,
                        attempt: (q.attempt + 1) as u32,
                        ..q
                    },
                )
            }
        } else if p.register_waited_ms >= REGISTER_RETRY_TIMEOUT_MS {
            &&& a matches HandshakeAction::Failed(msg) && msg@ == "无法连接快应用，请确保手表快应用已打开后重试。"@
            &&& *final(pending) is None
        } else {
            &&& a == (HandshakeAction::RetryRegister {
                waited_secs: ((p.register_waited_ms + REGISTER_RETRY_INTERVAL_MS) / 1000 + 1) as u64,
            })
            &&& *final(pending) == Some(
                PendingHandshake {
                    register_waited_ms: (p.register_waited_ms + REGISTER_RETRY_INTERVAL_MS) as u64,
                    attempt: (p.attempt + 1) as u32,
                    ..p
                },
            )
        }),
{
    match after_register(pending, registered) {
        RegisterOutcome::NotPending => HandshakeAction::Nothing,
        RegisterOutcome::StartPing => ping_timer_step(pending),
        RegisterOutcome::Failed(m) => HandshakeAction::Failed(m),
        RegisterOutcome::Retry { waited_secs } => HandshakeAction::RetryRegister { waited_secs },
    }
}

/// The device to talk to: the first connected one.
pub fn first_device(devices: &Vec<String>) -> (r: Result<String, String>)
    ensures
        devices@.len() > 0 ==> r == Ok::<String, String>(devices@[0]),
        devices@.len() == 0 ==> (r matches Err(m) && m@ == "没有已连接的设备，请检查手表连接。"@),
{
    if devices.len() > 0 {
        Ok(devices[0].clone())
    } else {
        proof {
            reveal_strlit("没有已连接的设备，请检查手表连接。");
        }
        Err(String::from_str("没有已连接的设备，请检查手表连接。"))
    }
}

/// Whether an installed app (package name, version code) is the watch app.
pub open spec fn is_watch_app(app: (String, u32)) -> bool {
    app.0@ == WATCH_APP_PKG_NAME@
}

/// Finds the watch app among the apps installed on the device (package
/// name, version code): the first with the watch app's package name, which
/// must be at least version `min_version`. Returns its position.
pub fn find_watch_app(apps: &Vec<(String, u32)>, min_version: u32) -> (r: Result<usize, String>)
    ensures
        match first_index(apps@, |a: (String, u32)| is_watch_app(a)) {
            None => r matches Err(m) && m@ == "请先安装腕上漫画快应用！"@,
            Some(i) => if apps@[i].1 < min_version {
                r matches Err(m) && m@ == "请先安装腕上漫画快应用的新版本！"@
            } else {
                r == Ok::<usize, String>(i as usize)
            },
        },
{
    let ghost p = |a: (String, u32)| is_watch_app(a);
    let mut i: usize = 0;
    while i < apps.len()
        invariant
            p == (|a: (String, u32)| is_watch_app(a)),
            i <= apps@.len(),
            forall|k: int| 0 <= k < i ==> !p(#[trigger] apps@[k]),
        decreases apps.len() - i,
    {
        if str_eq(apps[i].0.as_str(), WATCH_APP_PKG_NAME) {
            proof {
                lemma_first_index_at(apps@, p, i as int);
                reveal_strlit("请先安装腕上漫画快应用的新版本！");
            }
            if apps[i].1 < min_version {
                return Err(String::from_str("请先安装腕上漫画快应用的新版本！"));
            }
            return Ok(i);
        }
        i = i + 1;
    }
    proof {
        lemma_first_index_none(apps@, p);
        reveal_strlit("请先安装腕上漫画快应用！");
    }
    Err(String::from_str("请先安装腕上漫画快应用！"))
}

/// The outcome of preparing the watch app, from what the host reported: the
/// connected devices, the apps installed on the first one (`None` when the
/// list could not be had) and whether launching the watch app worked. The
/// first device must have the watch app at `min_version` or later, and the
/// app must start; the result is the device's address.
pub open spec fn launch_chain(
    devices: Seq<String>,
    apps: Option<Seq<(String, u32)>>,
    min_version: u32,
    launched: bool,
) -> Result<Seq<char>, Seq<char>> {
    if devices.len() == 0 {
        Err("没有已连接的设备，请检查手表连接。"@)
    } else {
        match apps {
            None => Err("无法获取快应用列表。"@),
            Some(a) => match first_index(a, |x: (String, u32)| is_watch_app(x)) {
                None => Err("请先安装腕上漫画快应用！"@),
                Some(i) => if a[i].1 < min_version {
                    Err("请先安装腕上漫画快应用的新版本！"@)
                } else if !launched {
                    Err("启动快应用失败。"@)
                } else {
                    Ok(devices[0]@)
                },
            },
        }
    }
}

/// The views of a result of texts.
pub open spec fn result_view(r: Result<String, String>) -> Result<Seq<char>, Seq<char>> {
    match r {
        Ok(s) => Ok(s@),
        Err(m) => Err(m@),
    }
}

/// The outcome of preparing the watch app (see `launch_chain`). The caller
/// asks the host step by step (`first_device`, then the app list, then
/// `find_watch_app`, then the launch) and hands in what it learned; a step
/// not reached is not consulted.
pub fn prepare_launch_outcome(
    devices: &Vec<String>,
    apps: Option<&Vec<(String, u32)>>,
    min_version: u32,
    launched: bool,
) -> (r: Result<String, String>)
    ensures
        result_view(r) == launch_chain(
            devices@,
            match apps {
                Some(a) => Some(a@),
                None => None,
            },
            min_version,
            launched,
        ),
{
    let addr = match first_device(devices) {
        Ok(a) => a,
        Err(m) => {
            return Err(m);
        },
    };
    let apps = match apps {
        Some(a) => a,
        None => {
            return Err(String::from_str("无法获取快应用列表。"));
        },
    };
    match find_watch_app(apps, min_version) {
        Err(m) => Err(m),
        Ok(_) => if launched {
            Ok(addr)
        } else {
            Err(String::from_str("启动快应用失败。"))
        },
    }
}

/// The progress line while registration is retried.
pub fn register_progress_text(waited_secs: u64) -> (s: String)
    ensures
        s@ == "等待快应用就绪 ("@ + decimal(waited_secs as nat) + "s)..."@,
{
    String::from_str("等待快应用就绪 (").concat(decimal_string(waited_secs).as_str()).concat("s)...")
}

/// The progress line while pinging.
pub fn ping_progress_text(waited_secs: u64) -> (s: String)
    ensures
        s@ == "正在连接快应用 ("@ + decimal(waited_secs as nat) + "s)..."@,
{
    String::from_str("正在连接快应用 (").concat(decimal_string(waited_secs).as_str()).concat("s)...")
}

/// A handshake answer at `now` opens the device's session with the
/// answered settings (whatever session there was before); the session then
/// counts as open, with those settings, exactly until ten idle minutes have
/// passed.
pub proof fn law_pong_opens_session(
    prev: Option<HandshakeSession>,
    settings: WatchSettings,
    now: u64,
    later: u64,
)
    ensures
        touched(fresh_only(prev, now), Some(true), Some(settings), now).open,
        touched(fresh_only(prev, now), Some(true), Some(settings), now).settings == Some(settings),
        is_fresh(touched(fresh_only(prev, now), Some(true), Some(settings), now).last_seen, later)
            <==> later <= now + SESSION_IDLE_TIMEOUT_MS,
{
}

} // verus!
