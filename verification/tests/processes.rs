use word_lookup::control::{
    choose_daemon_binary, daemon_start, daemon_step, DaemonBinary, launcher_start, launcher_step, DaemonAction, DaemonState,
    LauncherAction, LauncherState, FIRST_TIMEOUT_MS, HOST, MAX_RETRIES, PORT,
    RETRY_PAUSE_MS, RETRY_TIMEOUT_MS,
};

use word_lookup::wire::{payload_of, received_word, trigger_word, word_from_payload};

const RETRY: LauncherAction = LauncherAction::Deliver { pause_ms: 200, timeout_ms: 800 };

#[test]
fn endpoint_and_limits() {
    assert_eq!(HOST, "127.0.0.1");
    assert_eq!(PORT, 5050);
    assert_eq!(FIRST_TIMEOUT_MS, 1000);
    assert_eq!(RETRY_TIMEOUT_MS, 800);
    assert_eq!(RETRY_PAUSE_MS, 200);
    assert_eq!(MAX_RETRIES, 8);
}

#[test]
fn trigger_ends_when_first_delivery_succeeds() {
    let (state, action) = launcher_start();
    assert_eq!(action, LauncherAction::Deliver { pause_ms: 0, timeout_ms: 1000 });
    assert_eq!(
        launcher_step(state, true),
        (LauncherState::Finished { code: 0 }, LauncherAction::Exit { code: 0 })
    );
}

#[test]
fn trigger_spawns_then_delivers_on_a_later_attempt() {
    let (state, _) = launcher_start();
    let (state, action) = launcher_step(state, false);
    assert_eq!(action, LauncherAction::SpawnDaemon);
    let (state, action) = launcher_step(state, true);
    assert_eq!(action, RETRY);
    let (state, action) = launcher_step(state, false);
    assert_eq!((state, action), (LauncherState::Retrying { attempt: 2 }, RETRY));
    assert_eq!(
        launcher_step(state, true),
        (LauncherState::Finished { code: 0 }, LauncherAction::Exit { code: 0 })
    );
}

#[test]
fn trigger_ends_when_spawn_fails() {
    let (state, _) = launcher_start();
    let (state, _) = launcher_step(state, false);
    assert_eq!(
        launcher_step(state, false),
        (LauncherState::Finished { code: 1 }, LauncherAction::Exit { code: 1 })
    );
}

#[test]
fn trigger_gives_up_after_eight_retries() {
    let (state, _) = launcher_start();
    let (state, _) = launcher_step(state, false);
    let (mut state, mut action) = launcher_step(state, true);
    let mut deliveries = 0;
    while let LauncherAction::Deliver { pause_ms, timeout_ms } = action {
        assert_eq!((pause_ms, timeout_ms), (200, 800));
        deliveries += 1;
        assert!(deliveries <= 8);
        let next = launcher_step(state, false);
        state = next.0;
        action = next.1;
    }
    assert_eq!(deliveries, 8);
    assert_eq!(action, LauncherAction::Exit { code: 1 });
    assert_eq!(state, LauncherState::Finished { code: 1 });
    assert_eq!(launcher_step(state, true), (state, LauncherAction::Exit { code: 1 }));
}

#[test]
fn daemon_without_word_loads_binds_and_serves() {
    let (state, action) = daemon_start(false);
    assert_eq!((state, action), (DaemonState::Loading, DaemonAction::LoadSources));
    let (state, action) = daemon_step(state, true);
    assert_eq!((state, action), (DaemonState::Binding, DaemonAction::Bind));
    let (state, action) = daemon_step(state, true);
    assert_eq!((state, action), (DaemonState::Accepting, DaemonAction::Accept));
    let (state, action) = daemon_step(state, false);
    assert_eq!((state, action), (DaemonState::Accepting, DaemonAction::Accept));
    let (state, action) = daemon_step(state, true);
    assert_eq!((state, action), (DaemonState::Dispatching, DaemonAction::LookUpReceived));
    assert_eq!(daemon_step(state, false), (DaemonState::Accepting, DaemonAction::Accept));
    assert_eq!(daemon_step(state, true), (DaemonState::Accepting, DaemonAction::Accept));
}

#[test]
fn daemon_with_word_hands_it_to_a_running_daemon() {
    let (state, action) = daemon_start(true);
    assert_eq!(action, DaemonAction::Deliver { timeout_ms: 1000 });
    assert_eq!(
        daemon_step(state, true),
        (DaemonState::Finished { code: 0 }, DaemonAction::Exit { code: 0 })
    );
}

#[test]
fn daemon_with_word_looks_it_up_then_serves() {
    let (state, _) = daemon_start(true);
    let (state, action) = daemon_step(state, false);
    assert_eq!((state, action), (DaemonState::LocalLookup, DaemonAction::LookUpArgument));
    assert_eq!(daemon_step(state, false), (DaemonState::Loading, DaemonAction::LoadSources));
    assert_eq!(daemon_step(state, true), (DaemonState::Loading, DaemonAction::LoadSources));
}

#[test]
fn daemon_ends_without_source_or_port() {
    let failed = (DaemonState::Finished { code: 1 }, DaemonAction::Exit { code: 1 });
    assert_eq!(daemon_step(DaemonState::Loading, false), failed);
    assert_eq!(daemon_step(DaemonState::Binding, false), failed);
    assert_eq!(daemon_step(failed.0, true), failed);
}

#[test]
fn daemon_binary_is_sought_in_order() {
    assert_eq!(choose_daemon_binary(true, true), DaemonBinary::Override);
    assert_eq!(choose_daemon_binary(true, false), DaemonBinary::Override);
    assert_eq!(choose_daemon_binary(false, true), DaemonBinary::Sibling);
    assert_eq!(choose_daemon_binary(false, false), DaemonBinary::SearchPath);
}

#[test]
fn payload_is_the_words_bytes() {
    assert_eq!(payload_of("hello world"), b"hello world");
    assert_eq!(payload_of("\u{fc}"), &[0xC3, 0xBC]);
    assert_eq!(payload_of(""), b"");
}

#[test]
fn received_payload_is_trimmed() {
    assert_eq!(word_from_payload(b"  hello world\n"), Some("hello world".to_string()));
    assert_eq!(word_from_payload(&[0xC3, 0xBC]), Some("\u{fc}".to_string()));
    assert_eq!(word_from_payload(b" \r\n\t"), None);
    assert_eq!(word_from_payload(b""), None);
    assert_eq!(word_from_payload(&[b'a', 0xFF, b'b']), Some("a\u{fffd}b".to_string()));
    assert_eq!(word_from_payload(payload_of(" caf\u{e9} ")), Some("caf\u{e9}".to_string()));
}

#[test]
fn blank_text_carries_no_word() {
    assert_eq!(received_word(" a b "), Some("a b".to_string()));
    assert_eq!(received_word("\u{2003}"), None);
    assert_eq!(received_word(""), None);
}

#[test]
fn trigger_sends_hello_by_default() {
    assert_eq!(trigger_word(""), "hello");
    assert_eq!(trigger_word("  "), "hello");
    assert_eq!(trigger_word(" two words "), " two words ");
}
