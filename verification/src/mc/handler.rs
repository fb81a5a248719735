use vstd::prelude::*;
use crate::mc::{Description, Players, StatusResponse, Version};
use crate::minecraft::java::elapsed_secs;

verus! {

/// When a fallback connection should wake the backend.
#[derive(Debug, Clone, Copy, PartialEq, Eq)]
pub enum WakeupCondition {
    /// Never.
    Disabled,
    /// On a status ping or a join.
    Motd,
    /// On a join only.
    Join,
}

/// How the fallback answers a connection.
#[derive(Debug, Clone, Copy, PartialEq, Eq)]
pub enum FallbackReply {
    /// Answer the ping with the wake-up MOTD, then relay the ping once the backend is up.
    Wakeup,
    /// Hold the client until the backend is up, then disconnect it with the online message.
    Waitlist,
    /// Disconnect at once, with the message for this attempt.
    Disconnect,
}

/// Which message a disconnect carries.
#[derive(Debug, Clone, Copy, PartialEq, Eq)]
pub enum DisconnectMessage {
    /// The first attempt: the server is starting.
    Starting,
    /// A later attempt: the client is on the wait list.
    Waitlist,
}

/// How long a client's attempt counter is remembered, in nanoseconds (300 s).
pub open spec fn attempt_window_nanos() -> u128 {
    300_000_000_000u128
}

/// What the fallback does with one connection.
#[derive(Debug, Clone, Copy, PartialEq, Eq)]
pub struct FallbackStep {
    /// Whether the wake-up is triggered (it starts the callback unless a
    /// wake-up is already under way).
    pub wake: bool,
    /// How the connection is answered; `None`: it is left unanswered.
    pub reply: Option<FallbackReply>,
    /// The client's new attempt count, stored with the current time as its
    /// last-seen time; `None`: its history entry is left as it is.
    pub attempts: Option<u32>,
}

/// Whether `wakeup_on` fires for a connection in state `state`.
pub open spec fn fires(wakeup_on: WakeupCondition, state: i32) -> bool {
    match wakeup_on {
        WakeupCondition::Disabled => false,
        WakeupCondition::Motd => state == 1 || state == 2,
        WakeupCondition::Join => state == 2,
    }
}

/// A client's attempt count after one more attempt, from its history entry
/// (count, nanoseconds since last seen).
pub open spec fn attempts_after(previous: Option<(u32, u128)>) -> int {
    match previous {
        None => 1,
        Some((a, e)) => if e > attempt_window_nanos() { 1 } else { a + 1 },
    }
}

/// The reply to a join on attempt `n`.
pub open spec fn join_reply(n: int) -> FallbackReply {
    if n >= 3 { FallbackReply::Waitlist } else { FallbackReply::Disconnect }
}

/// The status relay of a woken ping, as a state machine.
#[derive(Debug, Clone, Copy, PartialEq, Eq)]
pub enum RelayState {
    /// The wake-up status is being sent.
    Answering,
    /// Waiting (at most 2 s) for the client's ping.
    AwaitingPing,
    /// Polling the backend, since the given time (nanoseconds).
    Polling(u64),
    /// Done.
    Finished,
}

/// What happened since the last action.
#[derive(Debug, Clone, Copy, PartialEq, Eq)]
pub enum RelayEvent {
    /// The status answer was written.
    StatusSent,
    /// The ping read finished: whether bytes were read in time, and when.
    PingRead(bool, u64),
    /// Time to decide whether to poll again, at the given time.
    Check(u64),
    /// The connection attempt to the backend finished: whether it succeeded.
    Connected(bool),
}

/// What to do next.
#[derive(Debug, Clone, Copy, PartialEq, Eq)]
pub enum RelayAction {
    /// Read the client's ping, with a 2 s timeout.
    ReadPing,
    /// Try to connect to the backend.
    TryBackend,
    /// Write the ping bytes back to the client, then stop.
    WriteBack,
    /// Sleep 1 s, then check again.
    Sleep,
    /// Stop.
    Finish,
}

/// The relay's transitions: after the status, read the ping; with no ping
/// in time, stop; with one, poll the backend for as long as fewer than 120
/// whole seconds have passed since the ping, writing the ping back once the
/// backend accepts a connection and sleeping 1 s between attempts. Any
/// other event stops the relay.
pub open spec fn relay_next(s: RelayState, e: RelayEvent) -> (RelayState, RelayAction) {
    match (s, e) {
        (RelayState::Answering, RelayEvent::StatusSent) => (RelayState::AwaitingPing, RelayAction::ReadPing),
        (RelayState::AwaitingPing, RelayEvent::PingRead(got, now)) => if got {
            (RelayState::Polling(now), RelayAction::TryBackend)
        } else {
            (RelayState::Finished, RelayAction::Finish)
        },
        (RelayState::Polling(start), RelayEvent::Check(now)) => if elapsed_secs(start, now) < 120 {
            (RelayState::Polling(start), RelayAction::TryBackend)
        } else {
            (RelayState::Finished, RelayAction::Finish)
        },
        (RelayState::Polling(start), RelayEvent::Connected(ok)) => if ok {
            (RelayState::Finished, RelayAction::WriteBack)
        } else {
            (RelayState::Polling(start), RelayAction::Sleep)
        },
        _ => (RelayState::Finished, RelayAction::Finish),
    }
}

/// When the fallback wakes the backend, in explicit terms: never when
/// disabled; under `Motd` on a status ping (state 1) and on a join (state 2);
/// under `Join` on a join only. In particular every join wakes the backend
/// unless waking is disabled, and no other state ever wakes it.
pub proof fn lemma_fallback_wake_rule(wakeup_on: WakeupCondition, state: i32)
    ensures
        fires(WakeupCondition::Disabled, state) == false,
        fires(WakeupCondition::Motd, state) == (state == 1 || state == 2),
        fires(WakeupCondition::Join, state) == (state == 2),
        wakeup_on != WakeupCondition::Disabled ==> fires(wakeup_on, 2),
        state != 1 && state != 2 ==> !fires(wakeup_on, state),
{
}

/// How joins are counted and answered: a client never seen, or last seen
/// more than 300 seconds (300_000_000_000 ns) ago, is on attempt 1; one seen
/// within that window is on one attempt more than before. Attempts 1 and 2
/// are disconnected, attempt 3 and later wait in line.
pub proof fn lemma_fallback_attempts(previous: Option<(u32, u128)>, n: int)
    ensures
        attempt_window_nanos() == 300_000_000_000u128,
        match previous {
            None => attempts_after(previous) == 1,
            Some((a, e)) => if e > 300_000_000_000u128 {
                attempts_after(previous) == 1
            } else {
                attempts_after(previous) == a + 1
            },
        },
        (n == 1 || n == 2) ==> join_reply(n) == FallbackReply::Disconnect,
        n >= 3 ==> join_reply(n) == FallbackReply::Waitlist,
{
}

/// The relay writes the ping back only right after a connection to the
/// backend succeeded while polling; it polls only while fewer than 120
/// seconds (120_000_000_000 ns) have passed since the ping; and without a
/// ping in time it stops at once.
pub proof fn lemma_relay_bounds(s: RelayState, e: RelayEvent)
    ensures
        relay_next(s, e).1 == RelayAction::WriteBack ==> (s is Polling && e == RelayEvent::Connected(true)),
        match (s, e) {
            (RelayState::Polling(start), RelayEvent::Check(now)) => now >= start ==> (relay_next(s, e).1
                == RelayAction::TryBackend <==> now - start < 120_000_000_000),
            _ => true,
        },
        s == RelayState::AwaitingPing && e == RelayEvent::PingRead(false, 0) ==> relay_next(s, e) == (
            RelayState::Finished,
            RelayAction::Finish,
        ),
        relay_next(RelayState::Answering, RelayEvent::StatusSent) == (RelayState::AwaitingPing, RelayAction::ReadPing),
        match e {
            RelayEvent::PingRead(true, now) => relay_next(RelayState::AwaitingPing, e) == (
                RelayState::Polling(now),
                RelayAction::TryBackend,
            ),
            _ => true,
        },
        match s {
            RelayState::Polling(start) => relay_next(s, RelayEvent::Connected(false)) == (
                RelayState::Polling(start),
                RelayAction::Sleep,
            ),
            _ => true,
        },
{
    if let RelayState::Polling(start) = s {
        if let RelayEvent::Check(now) = e {
            if now >= start {
                let d = (now - start) as int;
                assert((d / 1_000_000_000 < 120) <==> (d < 120_000_000_000)) by (nonlinear_arith)
                    requires
                        d >= 0,
                ;
            }
        }
    }
}

/// Answers connections while the backend is offline.
pub struct McHandler;

impl McHandler {
    /// Whether a connection in handshake state `state` (1 = status,
    /// 2 = login) triggers the wake-up under `wakeup_on`.
    pub fn should_trigger(wakeup_on: WakeupCondition, state: i32) -> (b: bool)
        ensures
            b == match wakeup_on {
                WakeupCondition::Disabled => false,
                WakeupCondition::Motd => state == 1 || state == 2,
                WakeupCondition::Join => state == 2,
            },
    {
        match wakeup_on {
            WakeupCondition::Disabled => false,
            WakeupCondition::Motd => state == 1 || state == 2,
            WakeupCondition::Join => state == 2,
        }
    }

    /// A client's attempt count after one more attempt: 1 for a client not
    /// seen before or last seen more than 300 s ago, else one more than
    /// before. `previous` is the remembered count and the time since it was
    /// last updated.
    pub fn next_attempts(previous: Option<(u32, u128)>) -> (n: u32)
        requires
            previous matches Some((a, e)) ==> (e > attempt_window_nanos() || a < u32::MAX),
        ensures
            n == match previous {
                None => 1,
                Some((a, e)) => if e > attempt_window_nanos() { 1 } else { (a + 1) as u32 },
            },
    {
        match previous {
            None => 1,
            Some((attempts, elapsed_nanos)) => {
                if elapsed_nanos > 300_000_000_000u128 {
                    1
                } else {
                    attempts + 1
                }
            },
        }
    }

    /// How a connection is answered: a status ping (state 1) gets the
    /// wake-up MOTD; a join waits in line from the third attempt on and is
    /// disconnected before that.
    pub fn reply_for(state: i32, attempts: u32) -> (r: FallbackReply)
        ensures
            r == if state == 1 {
                FallbackReply::Wakeup
            } else if attempts >= 3 {
                FallbackReply::Waitlist
            } else {
                FallbackReply::Disconnect
            },
    {
        if state == 1 {
            FallbackReply::Wakeup
        } else if attempts >= 3 {
            FallbackReply::Waitlist
        } else {
            FallbackReply::Disconnect
        }
    }

    /// The message of a disconnect: "starting" on the first attempt, the
    /// wait-list message after it.
    pub fn disconnect_message(attempts: u32) -> (m: DisconnectMessage)
        ensures
            m == if attempts == 1 { DisconnectMessage::Starting } else { DisconnectMessage::Waitlist },
    {
        if attempts == 1 {
            DisconnectMessage::Starting
        } else {
            DisconnectMessage::Waitlist
        }
    }

    /// The status answered while the backend wakes: version "mc-gate"
    /// (protocol 767), no player slots, "???" online, and the given MOTD.
    pub fn wakeup_status(motd: String) -> (r: StatusResponse)
        ensures
            r.version.name@ == "mc-gate"@,
            r.version.protocol == 767,
            r.players.max == 0,
            r.players.online@ == "???"@,
            r.description.text == motd,
    {
        StatusResponse {
            version: Version { name: "mc-gate".to_owned(), protocol: 767 },
            players: Players { max: 0, online: "???".to_owned() },
            description: Description { text: motd },
        }
    }

    /// What the fallback does with a connection in handshake state `state`:
    /// nothing at all without a wake-up callback. Otherwise it fires the
    /// wake-up when `wakeup_on` says so; a status ping (state 1) gets the
    /// wake-up answer and leaves the client's history alone; any other state
    /// counts one more attempt (see `next_attempts`), stores it, and waits in
    /// line from the third attempt on or is disconnected before that.
    pub fn fallback_step(
        has_callback: bool,
        wakeup_on: WakeupCondition,
        state: i32,
        previous: Option<(u32, u128)>,
    ) -> (r: FallbackStep)
        requires
            has_callback && state != 1 ==> (previous matches Some((a, e)) ==> (e > attempt_window_nanos() || a
                < u32::MAX)),
        ensures
            !has_callback ==> r == (FallbackStep { wake: false, reply: None, attempts: None }),
            has_callback ==> r.wake == fires(wakeup_on, state),
            has_callback && state == 1 ==> r.reply == Some(FallbackReply::Wakeup) && r.attempts is None,
            has_callback && state != 1 ==> (r.attempts matches Some(n) && n == attempts_after(previous)
                && r.reply == Some(join_reply(n as int))),
    {
        if !has_callback {
            return FallbackStep { wake: false, reply: None, attempts: None };
        }
        let wake = Self::should_trigger(wakeup_on, state);
        if state == 1 {
            FallbackStep { wake, reply: Some(Self::reply_for(state, 0)), attempts: None }
        } else {
            let n = Self::next_attempts(previous);
            FallbackStep { wake, reply: Some(Self::reply_for(state, n)), attempts: Some(n) }
        }
    }

    /// One step of the status relay; see `relay_next`.
    pub fn relay_step(s: RelayState, e: RelayEvent) -> (r: (RelayState, RelayAction))
        ensures
            r == relay_next(s, e),
    {
        match (s, e) {
            (RelayState::Answering, RelayEvent::StatusSent) => (RelayState::AwaitingPing, RelayAction::ReadPing),
            (RelayState::AwaitingPing, RelayEvent::PingRead(got, now)) => {
                if got {
                    (RelayState::Polling(now), RelayAction::TryBackend)
                } else {
                    (RelayState::Finished, RelayAction::Finish)
                }
            },
            (RelayState::Polling(start), RelayEvent::Check(now)) => {
                let elapsed: u64 = if now >= start { (now - start) / 1_000_000_000 } else { 0 };
                if elapsed < 120 {
                    (RelayState::Polling(start), RelayAction::TryBackend)
                } else {
                    (RelayState::Finished, RelayAction::Finish)
                }
            },
            (RelayState::Polling(start), RelayEvent::Connected(ok)) => {
                if ok {
                    (RelayState::Finished, RelayAction::WriteBack)
                } else {
                    (RelayState::Polling(start), RelayAction::Sleep)
                }
            },
            _ => (RelayState::Finished, RelayAction::Finish),
        }
    }
}

} // verus!
