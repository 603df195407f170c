//! The control channel's fixed endpoint and the decisions of the two
//! processes that meet there: the trigger, which delivers a word and starts
//! the daemon when nobody listens, and the daemon, which holds the port and
//! serves the words it receives.
//!
//! Each process is a machine: it is given the outcome of the action it
//! asked for last, and answers with its next state and the next action.

use vstd::prelude::*;

verus! {

/// The loopback address on which the daemon listens.
pub const HOST: &'static str = "127.0.0.1";

/// The port that the daemon holds while it runs.
pub const PORT: u16 = 5050;

/// Time allowed for the delivery that is tried before anything else.
pub const FIRST_TIMEOUT_MS: u64 = 1000;

/// Time allowed for each delivery after the daemon was started.
pub const RETRY_TIMEOUT_MS: u64 = 800;

/// Pause before each delivery after the daemon was started.
pub const RETRY_PAUSE_MS: u64 = 200;

/// Number of deliveries tried after the daemon was started.
pub const MAX_RETRIES: u8 = 8;

/// Where the trigger stands.
#[derive(Debug, Clone, Copy, PartialEq, Eq, Structural)]
pub enum LauncherState {
    /// The first delivery is under way.
    FirstDelivery,
    /// The daemon is being started.
    Spawning,
    /// The delivery with this number, counted from 1, is under way.
    Retrying { attempt: u8 },
    /// The trigger is over, with this exit code.
    Finished { code: u8 },
}

/// What the trigger does next.
#[derive(Debug, Clone, Copy, PartialEq, Eq, Structural)]
pub enum LauncherAction {
    /// Wait for `pause_ms`, then try to deliver the word within
    /// `timeout_ms`.
    Deliver { pause_ms: u64, timeout_ms: u64 },
    /// Start the daemon, detached, and do not wait until it is ready.
    SpawnDaemon,
    /// Leave with this exit code.
    Exit { code: u8 },
}

/// The delivery that is tried after the daemon was started.
pub open spec fn retry() -> LauncherAction {
    LauncherAction::Deliver { pause_ms: 200, timeout_ms: 800 }
}

/// The trigger's next state and action, given whether the last action
/// succeeded.
pub open spec fn launcher_next(state: LauncherState, ok: bool) -> (LauncherState, LauncherAction) {
    match state {
        LauncherState::FirstDelivery => if ok {
            (LauncherState::Finished { code: 0 }, LauncherAction::Exit { code: 0 })
        } else {
            (LauncherState::Spawning, LauncherAction::SpawnDaemon)
        },
        LauncherState::Spawning => if ok {
            (LauncherState::Retrying { attempt: 1 }, retry())
        } else {
            (LauncherState::Finished { code: 1 }, LauncherAction::Exit { code: 1 })
        },
        LauncherState::Retrying { attempt } => if ok {
            (LauncherState::Finished { code: 0 }, LauncherAction::Exit { code: 0 })
        } else if attempt < 8 {
            (LauncherState::Retrying { attempt: (attempt + 1) as u8 }, retry())
        } else {
            (LauncherState::Finished { code: 1 }, LauncherAction::Exit { code: 1 })
        },
        LauncherState::Finished { code } => (state, LauncherAction::Exit { code }),
    }
}

/// The state after `failures` actions in a row have failed.
pub open spec fn after_failures(state: LauncherState, failures: nat) -> LauncherState
    decreases failures,
{
    if failures == 0 {
        state
    } else {
        launcher_next(after_failures(state, (failures - 1) as nat), false).0
    }
}

/// The trigger begins with one delivery, without a pause.
pub fn launcher_start() -> (r: (LauncherState, LauncherAction))
    ensures
        r == (LauncherState::FirstDelivery, LauncherAction::Deliver { pause_ms: 0, timeout_ms: 1000 }),
{
    (
        LauncherState::FirstDelivery,
        LauncherAction::Deliver { pause_ms: 0, timeout_ms: FIRST_TIMEOUT_MS },
    )
}

/// Moves the trigger on: `ok` says whether the action it asked for last,
/// a delivery or the start of the daemon, succeeded.
pub fn launcher_step(state: LauncherState, ok: bool) -> (r: (LauncherState, LauncherAction))
    ensures
        r == launcher_next(state, ok),
{
    match state {
        LauncherState::FirstDelivery => {
            if ok {
                (LauncherState::Finished { code: 0 }, LauncherAction::Exit { code: 0 })
            } else {
                (LauncherState::Spawning, LauncherAction::SpawnDaemon)
            }
        },
        LauncherState::Spawning => {
            if ok {
                (
                    LauncherState::Retrying { attempt: 1 },
                    LauncherAction::Deliver {
                        pause_ms: RETRY_PAUSE_MS,
                        timeout_ms: RETRY_TIMEOUT_MS,
                    },
                )
            } else {
                (LauncherState::Finished { code: 1 }, LauncherAction::Exit { code: 1 })
            }
        },
        LauncherState::Retrying { attempt } => {
            if ok {
                (LauncherState::Finished { code: 0 }, LauncherAction::Exit { code: 0 })
            } else if attempt < MAX_RETRIES {
                (
                    LauncherState::Retrying { attempt: attempt + 1 },
                    LauncherAction::Deliver {
                        pause_ms: RETRY_PAUSE_MS,
                        timeout_ms: RETRY_TIMEOUT_MS,
                    },
                )
            } else {
                (LauncherState::Finished { code: 1 }, LauncherAction::Exit { code: 1 })
            }
        },
        LauncherState::Finished { code } => (state, LauncherAction::Exit { code }),
    }
}

/// A delivery that succeeds ends the trigger with exit code 0, whichever
/// delivery it is.
pub proof fn lemma_delivery_ends_trigger(state: LauncherState)
    requires
        state is FirstDelivery || state is Retrying,
    ensures
        launcher_next(state, true) == (
            LauncherState::Finished { code: 0 },
            LauncherAction::Exit { code: 0 },
        ),
{
}

/// Where the daemon cannot be started, the trigger ends at once with exit
/// code 1.
pub proof fn lemma_spawn_failure_ends_trigger()
    ensures
        launcher_next(LauncherState::Spawning, false) == (
            LauncherState::Finished { code: 1 },
            LauncherAction::Exit { code: 1 },
        ),
{
}

/// Where the daemon was started and no delivery ever succeeds, the trigger
/// tries exactly eight deliveries, each after a pause of 200 ms and within
/// 800 ms, and then ends with exit code 1.
pub proof fn lemma_retry_exhaustion(failures: nat)
    requires
        failures < 8,
    ensures
        launcher_next(LauncherState::Spawning, true) == (
            LauncherState::Retrying { attempt: 1 },
            retry(),
        ),
        after_failures(LauncherState::Retrying { attempt: 1 }, failures)
            == (LauncherState::Retrying { attempt: (failures + 1) as u8 }),
        failures < 7 ==> launcher_next(
            after_failures(LauncherState::Retrying { attempt: 1 }, failures),
            false,
        ).1 == retry(),
        failures == 7 ==> launcher_next(
            after_failures(LauncherState::Retrying { attempt: 1 }, failures),
            false,
        ) == (LauncherState::Finished { code: 1 }, LauncherAction::Exit { code: 1 }),
    decreases failures,
{
    if failures > 0 {
        lemma_retry_exhaustion((failures - 1) as nat);
    }
}

/// Where the daemon's executable is taken from.
#[derive(Debug, Clone, Copy, PartialEq, Eq, Structural)]
pub enum DaemonBinary {
    /// The path that the override variable names.
    Override,
    /// The file beside the trigger's own executable.
    Sibling,
    /// The bare name, left to the search path.
    SearchPath,
}

/// Picks the daemon's executable: the override where it names a file that
/// exists, else the file beside the trigger where that exists, else the
/// bare name.
pub fn choose_daemon_binary(override_exists: bool, sibling_exists: bool) -> (choice: DaemonBinary)
    ensures
        choice == if override_exists {
            DaemonBinary::Override
        } else if sibling_exists {
            DaemonBinary::Sibling
        } else {
            DaemonBinary::SearchPath
        },
{
    if override_exists {
        DaemonBinary::Override
    } else if sibling_exists {
        DaemonBinary::Sibling
    } else {
        DaemonBinary::SearchPath
    }
}

/// Where the daemon stands.
#[derive(Debug, Clone, Copy, PartialEq, Eq, Structural)]
pub enum DaemonState {
    /// The word given on the command line is being delivered to a daemon
    /// that may already run.
    Delivering,
    /// Nobody took the word: it is being looked up by this process.
    LocalLookup,
    /// The source list is being loaded.
    Loading,
    /// The port is being bound.
    Binding,
    /// The port is held, and the next word is awaited.
    Accepting,
    /// A word that was received is being looked up.
    Dispatching,
    /// The process is over, with this exit code.
    Finished { code: u8 },
}

/// What the daemon does next.
#[derive(Debug, Clone, Copy, PartialEq, Eq, Structural)]
pub enum DaemonAction {
    /// Try to deliver the command line's word within `timeout_ms`.
    Deliver { timeout_ms: u64 },
    /// Open the URL for the command line's word.
    LookUpArgument,
    /// Load the source list and see whether it has a first source.
    LoadSources,
    /// Bind the port.
    Bind,
    /// Accept one connection and read its word.
    Accept,
    /// Open the URL for the word that was received.
    LookUpReceived,
    /// Leave with this exit code.
    Exit { code: u8 },
}

/// The daemon's next state and action, given the outcome of its last
/// action. `ok` says, after a delivery, that the word was taken; after
/// loading, that the list has a first source; after binding, that the port
/// is held; after accepting, that a word came which is not blank. What a
/// lookup gave changes nothing.
pub open spec fn daemon_next(state: DaemonState, ok: bool) -> (DaemonState, DaemonAction) {
    match state {
        DaemonState::Delivering => if ok {
            (DaemonState::Finished { code: 0 }, DaemonAction::Exit { code: 0 })
        } else {
            (DaemonState::LocalLookup, DaemonAction::LookUpArgument)
        },
        DaemonState::LocalLookup => (DaemonState::Loading, DaemonAction::LoadSources),
        DaemonState::Loading => if ok {
            (DaemonState::Binding, DaemonAction::Bind)
        } else {
            (DaemonState::Finished { code: 1 }, DaemonAction::Exit { code: 1 })
        },
        DaemonState::Binding => if ok {
            (DaemonState::Accepting, DaemonAction::Accept)
        } else {
            (DaemonState::Finished { code: 1 }, DaemonAction::Exit { code: 1 })
        },
        DaemonState::Accepting => if ok {
            (DaemonState::Dispatching, DaemonAction::LookUpReceived)
        } else {
            (DaemonState::Accepting, DaemonAction::Accept)
        },
        DaemonState::Dispatching => (DaemonState::Accepting, DaemonAction::Accept),
        DaemonState::Finished { code } => (state, DaemonAction::Exit { code }),
    }
}

/// The daemon holds the port and serves.
pub open spec fn is_serving(state: DaemonState) -> bool {
    state is Accepting || state is Dispatching
}

/// The daemon begins by delivering its word, where it was given one, and
/// by loading the sources, where it was given none.
pub fn daemon_start(has_word: bool) -> (r: (DaemonState, DaemonAction))
    ensures
        r == if has_word {
            (DaemonState::Delivering, DaemonAction::Deliver { timeout_ms: 1000 })
        } else {
            (DaemonState::Loading, DaemonAction::LoadSources)
        },
{
    if has_word {
        (DaemonState::Delivering, DaemonAction::Deliver { timeout_ms: FIRST_TIMEOUT_MS })
    } else {
        (DaemonState::Loading, DaemonAction::LoadSources)
    }
}

/// Moves the daemon on, given the outcome of the action it asked for last.
pub fn daemon_step(state: DaemonState, ok: bool) -> (r: (DaemonState, DaemonAction))
    ensures
        r == daemon_next(state, ok),
        is_serving(state) ==> is_serving(r.0),
{
    match state {
        DaemonState::Delivering => {
            if ok {
                (DaemonState::Finished { code: 0 }, DaemonAction::Exit { code: 0 })
            } else {
                (DaemonState::LocalLookup, DaemonAction::LookUpArgument)
            }
        },
        DaemonState::LocalLookup => (DaemonState::Loading, DaemonAction::LoadSources),
        DaemonState::Loading => {
            if ok {
                (DaemonState::Binding, DaemonAction::Bind)
            } else {
                (DaemonState::Finished { code: 1 }, DaemonAction::Exit { code: 1 })
            }
        },
        DaemonState::Binding => {
            if ok {
                (DaemonState::Accepting, DaemonAction::Accept)
            } else {
                (DaemonState::Finished { code: 1 }, DaemonAction::Exit { code: 1 })
            }
        },
        DaemonState::Accepting => {
            if ok {
                (DaemonState::Dispatching, DaemonAction::LookUpReceived)
            } else {
                (DaemonState::Accepting, DaemonAction::Accept)
            }
        },
        DaemonState::Dispatching => (DaemonState::Accepting, DaemonAction::Accept),
        DaemonState::Finished { code } => (state, DaemonAction::Exit { code }),
    }
}

/// Once the daemon holds the port it serves for good: no outcome of an
/// accept or of a lookup ends it, and after each it accepts again or looks
/// up the word that came.
pub proof fn lemma_serving_never_ends(state: DaemonState, ok: bool)
    requires
        is_serving(state),
    ensures
        is_serving(daemon_next(state, ok).0),
        !(daemon_next(state, ok).1 is Exit),
{
}

/// The daemon ends with exit code 1, before it serves, exactly where the
/// list has no first source or the port cannot be bound.
pub proof fn lemma_daemon_start_failures(state: DaemonState)
    requires
        state is Loading || state is Binding,
    ensures
        daemon_next(state, false) == (
            DaemonState::Finished { code: 1 },
            DaemonAction::Exit { code: 1 },
        ),
        !(daemon_next(state, true).0 is Finished),
{
}

} // verus!
