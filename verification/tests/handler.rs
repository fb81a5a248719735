use enderpearl::mc::handler::{
    DisconnectMessage, FallbackReply, FallbackStep, McHandler, RelayAction, RelayEvent, RelayState, WakeupCondition,
};

#[test]
fn wakeup_triggers() {
    assert!(!McHandler::should_trigger(WakeupCondition::Disabled, 2));
    assert!(McHandler::should_trigger(WakeupCondition::Motd, 1));
    assert!(McHandler::should_trigger(WakeupCondition::Motd, 2));
    assert!(!McHandler::should_trigger(WakeupCondition::Motd, 3));
    assert!(!McHandler::should_trigger(WakeupCondition::Join, 1));
    assert!(McHandler::should_trigger(WakeupCondition::Join, 2));
}

#[test]
fn attempts_counting() {
    assert_eq!(McHandler::next_attempts(None), 1);
    assert_eq!(McHandler::next_attempts(Some((2, 1_000_000_000))), 3);
    assert_eq!(McHandler::next_attempts(Some((2, 300_000_000_000))), 3);
    assert_eq!(McHandler::next_attempts(Some((2, 300_000_000_001))), 1);
}

#[test]
fn replies() {
    assert_eq!(McHandler::reply_for(1, 5), FallbackReply::Wakeup);
    assert_eq!(McHandler::reply_for(2, 1), FallbackReply::Disconnect);
    assert_eq!(McHandler::reply_for(2, 3), FallbackReply::Waitlist);
    assert_eq!(McHandler::disconnect_message(1), DisconnectMessage::Starting);
    assert_eq!(McHandler::disconnect_message(2), DisconnectMessage::Waitlist);
    let s = McHandler::wakeup_status("zzz".into());
    assert_eq!(s.version.name, "mc-gate");
    assert_eq!(s.version.protocol, 767);
    assert_eq!(s.players.online, "???");
    assert_eq!(s.description.text, "zzz");
}

#[test]
fn fallback_without_callback_does_nothing() {
    let r = McHandler::fallback_step(false, WakeupCondition::Motd, 2, Some((5, 0)));
    assert_eq!(r, FallbackStep { wake: false, reply: None, attempts: None });
}

#[test]
fn fallback_status_ping_keeps_history() {
    let r = McHandler::fallback_step(true, WakeupCondition::Motd, 1, Some((2, 0)));
    assert_eq!(r, FallbackStep { wake: true, reply: Some(FallbackReply::Wakeup), attempts: None });
    let r = McHandler::fallback_step(true, WakeupCondition::Join, 1, None);
    assert_eq!(r, FallbackStep { wake: false, reply: Some(FallbackReply::Wakeup), attempts: None });
}

#[test]
fn fallback_joins_count_attempts() {
    let first = McHandler::fallback_step(true, WakeupCondition::Join, 2, None);
    assert_eq!(first, FallbackStep { wake: true, reply: Some(FallbackReply::Disconnect), attempts: Some(1) });
    let third = McHandler::fallback_step(true, WakeupCondition::Disabled, 2, Some((2, 1_000_000_000)));
    assert_eq!(third, FallbackStep { wake: false, reply: Some(FallbackReply::Waitlist), attempts: Some(3) });
    // more than 300 s since last seen: the count starts over
    let later = McHandler::fallback_step(true, WakeupCondition::Join, 2, Some((7, 300_000_000_001)));
    assert_eq!(later.attempts, Some(1));
    assert_eq!(later.reply, Some(FallbackReply::Disconnect));
}

#[test]
fn relay_polls_then_writes_back() {
    const SEC: u64 = 1_000_000_000;
    let (s, a) = McHandler::relay_step(RelayState::Answering, RelayEvent::StatusSent);
    assert_eq!((s, a), (RelayState::AwaitingPing, RelayAction::ReadPing));
    let (s, a) = McHandler::relay_step(s, RelayEvent::PingRead(true, 5 * SEC));
    assert_eq!((s, a), (RelayState::Polling(5 * SEC), RelayAction::TryBackend));
    let (s, a) = McHandler::relay_step(s, RelayEvent::Connected(false));
    assert_eq!((s, a), (RelayState::Polling(5 * SEC), RelayAction::Sleep));
    let (s, a) = McHandler::relay_step(s, RelayEvent::Check(124 * SEC));
    assert_eq!((s, a), (RelayState::Polling(5 * SEC), RelayAction::TryBackend));
    let (s, a) = McHandler::relay_step(s, RelayEvent::Connected(true));
    assert_eq!((s, a), (RelayState::Finished, RelayAction::WriteBack));
}

#[test]
fn relay_gives_up() {
    const SEC: u64 = 1_000_000_000;
    assert_eq!(
        McHandler::relay_step(RelayState::AwaitingPing, RelayEvent::PingRead(false, 0)),
        (RelayState::Finished, RelayAction::Finish)
    );
    assert_eq!(
        McHandler::relay_step(RelayState::Polling(0), RelayEvent::Check(120 * SEC)),
        (RelayState::Finished, RelayAction::Finish)
    );
    assert_eq!(
        McHandler::relay_step(RelayState::Finished, RelayEvent::StatusSent),
        (RelayState::Finished, RelayAction::Finish)
    );
}
