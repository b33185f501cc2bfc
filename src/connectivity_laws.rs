//! Laws of the connectivity state machine over whole runs of events.

use vstd::prelude::*;

use crate::connectivity::{
    boot_model, drain, in_bootstrap, run, step_model, ActionModel, ConnectivityState, Event,
    IdentityModel, MachineModel,
};
use crate::scan::scan_reply_frames;

verus! {

/// How many times `a` occurs in `acts`.
pub open spec fn occurrences(acts: Seq<ActionModel>, a: ActionModel) -> nat
    decreases acts.len(),
{
    if acts.len() == 0 {
        0
    } else {
        occurrences(acts.drop_last(), a) + if acts.last() == a {
            1nat
        } else {
            0nat
        }
    }
}

/// Whether `acts` asks for a station connect of the connect loop.
pub open spec fn asks_connect(acts: Seq<ActionModel>) -> bool {
    exists|i: int| 0 <= i < acts.len() && #[trigger] acts[i] is Connect
}

/// One while connected, zero otherwise.
pub open spec fn connected_count(m: MachineModel) -> nat {
    if m.state == ConnectivityState::Connected {
        1
    } else {
        0
    }
}

proof fn lemma_occurrences_append(x: Seq<ActionModel>, y: Seq<ActionModel>, a: ActionModel)
    ensures
        occurrences(x + y, a) == occurrences(x, a) + occurrences(y, a),
    decreases y.len(),
{
    if y.len() == 0 {
        assert(x + y =~= x);
    } else {
        assert((x + y).drop_last() =~= x + y.drop_last());
        lemma_occurrences_append(x, y.drop_last(), a);
    }
}

proof fn lemma_asks_connect_append(x: Seq<ActionModel>, y: Seq<ActionModel>)
    ensures
        asks_connect(x + y) == (asks_connect(x) || asks_connect(y)),
{
    if asks_connect(x + y) {
        let i = choose|i: int| 0 <= i < (x + y).len() && #[trigger] (x + y)[i] is Connect;
        if i < x.len() {
            assert(x[i] is Connect);
        } else {
            assert(y[i - x.len()] is Connect);
        }
    }
    if asks_connect(x) {
        let i = choose|i: int| 0 <= i < x.len() && #[trigger] x[i] is Connect;
        assert((x + y)[i] is Connect);
    }
    if asks_connect(y) {
        let i = choose|i: int| 0 <= i < y.len() && #[trigger] y[i] is Connect;
        assert((x + y)[i + x.len()] is Connect);
    }
}

/// Actions that are neither a connect of the connect loop nor a notice.
pub open spec fn quiet(acts: Seq<ActionModel>) -> bool {
    forall|i: int|
        0 <= i < acts.len() ==> !(#[trigger] acts[i] is Connect) && acts[i]
            != ActionModel::NotifyConnected && acts[i] != ActionModel::NotifyDisconnected
}

proof fn lemma_quiet_counts(acts: Seq<ActionModel>)
    requires
        quiet(acts),
    ensures
        !asks_connect(acts),
        occurrences(acts, ActionModel::NotifyConnected) == 0,
        occurrences(acts, ActionModel::NotifyDisconnected) == 0,
    decreases acts.len(),
{
    if acts.len() > 0 {
        assert(quiet(acts.drop_last()));
        lemma_quiet_counts(acts.drop_last());
        assert(acts.last() == acts[acts.len() - 1]);
    }
}

/// Frames sent in reply to a scan are neither connects nor notices.
proof fn lemma_frames_quiet(frames: Seq<Seq<u8>>)
    ensures
        quiet(frames.map_values(|f: Seq<u8>| ActionModel::SendFrame(f))),
{
    let acts = frames.map_values(|f: Seq<u8>| ActionModel::SendFrame(f));
    assert forall|i: int| 0 <= i < acts.len() implies !(#[trigger] acts[i] is Connect) && acts[i]
        != ActionModel::NotifyConnected && acts[i] != ActionModel::NotifyDisconnected by {
        assert(acts[i] == ActionModel::SendFrame(frames[i]));
    }
}

/// Draining the serial buffer asks for no connect and gives no notice; it
/// keeps the state, or moves to `VerifyingSettings`.
proof fn lemma_drain_effects(m: MachineModel)
    ensures
        drain(m).0.state == m.state || drain(m).0.state == ConnectivityState::VerifyingSettings,
        quiet(drain(m).1),
    decreases m.buffer.len(),
{
    reveal(drain);
    let rest_len = m.buffer.len();
    match crate::serial_buffer::buffer_step(m.buffer) {
        crate::serial_buffer::BufferStepModel::NeedMore => {},
        crate::serial_buffer::BufferStepModel::Corrupt(n, lost) => {
            if 0 < n <= rest_len {
                lemma_drain_effects(MachineModel { buffer: m.buffer.skip(n), ..m });
            }
        },
        crate::serial_buffer::BufferStepModel::Frame(p, n) => {
            if 0 < n <= rest_len {
                let rest = MachineModel { buffer: m.buffer.skip(n), ..m };
                lemma_drain_effects(rest);
            }
        },
    }
}

/// One event in the bootstrap phase asks for no connect of the connect
/// loop, and leaves the phase only on credentials checked successfully
/// while verifying them.
proof fn lemma_bootstrap_step(m: MachineModel, e: Event)
    requires
        in_bootstrap(m.state),
    ensures
        !asks_connect(step_model(m, e).1),
        !in_bootstrap(step_model(m, e).0.state) ==> m.state
            == ConnectivityState::VerifyingSettings && e == Event::CredentialsChecked(true),
{
    lemma_step_quiet_in_bootstrap(m, e);
    lemma_quiet_counts(step_model(m, e).1);
    match e {
        Event::SerialData(bytes) => {
            lemma_drain_effects(
                MachineModel {
                    state: ConnectivityState::AwaitingSettings,
                    buffer: m.buffer + bytes@,
                    ..m
                },
            );
        },
        Event::ScanFinished(networks) => {
            lemma_drain_effects(m);
        },
        Event::CredentialsChecked(ok) => {
            lemma_drain_effects(MachineModel { state: ConnectivityState::AwaitingSettings, ..m });
        },
        _ => {},
    }
}

/// In the bootstrap phase every event gives quiet actions.
proof fn lemma_step_quiet_in_bootstrap(m: MachineModel, e: Event)
    requires
        in_bootstrap(m.state),
    ensures
        quiet(step_model(m, e).1),
{
    match e {
        Event::SerialData(bytes) => {
            lemma_drain_effects(
                MachineModel {
                    state: ConnectivityState::AwaitingSettings,
                    buffer: m.buffer + bytes@,
                    ..m
                },
            );
        },
        Event::ScanFinished(networks) => {
            lemma_drain_effects(m);
            lemma_frames_quiet(scan_reply_frames(networks@));
        },
        Event::CredentialsChecked(ok) => {
            lemma_drain_effects(MachineModel { state: ConnectivityState::AwaitingSettings, ..m });
        },
        _ => {},
    }
}

/// Past the bootstrap phase the machine never returns to it.
proof fn lemma_outside_bootstrap_step(m: MachineModel, e: Event)
    requires
        !in_bootstrap(m.state),
    ensures
        !in_bootstrap(step_model(m, e).0.state),
{
}

proof fn lemma_run_outside_bootstrap(m: MachineModel, events: Seq<Event>)
    requires
        !in_bootstrap(m.state),
    ensures
        !in_bootstrap(run(m, events).0.state),
    decreases events.len(),
{
    if events.len() > 0 {
        lemma_outside_bootstrap_step(m, events[0]);
        lemma_run_outside_bootstrap(step_model(m, events[0]).0, events.drop_first());
    }
}

proof fn lemma_run_take(m: MachineModel, events: Seq<Event>, j: int)
    requires
        0 <= j < events.len(),
    ensures
        run(m, events.take(j + 1)).0 == run(step_model(m, events[0]).0, events.drop_first().take(
            j,
        )).0,
{
    assert(events.take(j + 1)[0] == events[0]);
    assert(events.take(j + 1).drop_first() =~= events.drop_first().take(j));
}

/// From any state of the bootstrap phase: while the machine stays in that
/// phase it never asks for a station connect of the connect loop, and it
/// leaves the phase only on `CredentialsChecked(true)` received while
/// verifying credentials that came in a `SendWifiSettings` frame.
pub proof fn lemma_bootstrap_run(m: MachineModel, events: Seq<Event>)
    requires
        in_bootstrap(m.state),
    ensures
        in_bootstrap(run(m, events).0.state) ==> !asks_connect(run(m, events).1),
        !in_bootstrap(run(m, events).0.state) ==> exists|j: int|
            0 <= j < events.len() && #[trigger] events[j] == Event::CredentialsChecked(true)
                && run(m, events.take(j)).0.state == ConnectivityState::VerifyingSettings,
    decreases events.len(),
{
    if events.len() > 0 {
        let first = step_model(m, events[0]);
        let rest = events.drop_first();
        lemma_bootstrap_step(m, events[0]);
        lemma_asks_connect_append(first.1, run(first.0, rest).1);
        assert(events.take(0) =~= Seq::<Event>::empty());
        if in_bootstrap(first.0.state) {
            lemma_bootstrap_run(first.0, rest);
            if !in_bootstrap(run(m, events).0.state) {
                let j = choose|j: int|
                    0 <= j < rest.len() && #[trigger] rest[j] == Event::CredentialsChecked(true)
                        && run(first.0, rest.take(j)).0.state
                        == ConnectivityState::VerifyingSettings;
                lemma_run_take(m, events, j);
                assert(events[j + 1] == rest[j]);
            }
        } else {
            lemma_run_outside_bootstrap(first.0, rest);
        }
    }
}

/// Without both an SSID and a password in storage, the machine boots into
/// `Bootstrapping` without asking for a station connect, and along any run
/// it asks for none while it is still in the bootstrap phase; it leaves
/// that phase only once credentials received over serial were checked by a
/// successful connection.
pub proof fn lemma_no_station_before_verified(
    id: IdentityModel,
    ssid: Option<Seq<char>>,
    password: Option<Seq<char>>,
    events: Seq<Event>,
)
    requires
        !(ssid is Some && password is Some),
    ensures
        boot_model(id, ssid, password).0.state == ConnectivityState::Bootstrapping,
        !asks_connect(boot_model(id, ssid, password).1),
        in_bootstrap(run(boot_model(id, ssid, password).0, events).0.state) ==> !asks_connect(
            run(boot_model(id, ssid, password).0, events).1,
        ),
        !in_bootstrap(run(boot_model(id, ssid, password).0, events).0.state) ==> exists|j: int|
            0 <= j < events.len() && #[trigger] events[j] == Event::CredentialsChecked(true)
                && run(boot_model(id, ssid, password).0, events.take(j)).0.state
                == ConnectivityState::VerifyingSettings,
{
    let acts = boot_model(id, ssid, password).1;
    assert(!asks_connect(acts)) by {
        if asks_connect(acts) {
            let i = choose|i: int| 0 <= i < acts.len() && #[trigger] acts[i] is Connect;
        }
    }
    lemma_bootstrap_run(boot_model(id, ssid, password).0, events);
}

/// With an SSID and a password in storage, the machine boots straight into
/// `Connecting` and its only action is a connect with them: no access
/// point, and no serial frame.
pub proof fn lemma_stored_credentials_boot(id: IdentityModel, ssid: Seq<char>, password: Seq<char>)
    ensures
        boot_model(id, Some(ssid), Some(password)).0.state == ConnectivityState::Connecting,
        boot_model(id, Some(ssid), Some(password)).1 == seq![
            ActionModel::Connect(ssid, password),
        ],
{
}

/// One event changes the notices given as the connected state changes.
proof fn lemma_notice_step(m: MachineModel, e: Event)
    ensures
        occurrences(step_model(m, e).1, ActionModel::NotifyDisconnected) + connected_count(
            step_model(m, e).0,
        ) == occurrences(step_model(m, e).1, ActionModel::NotifyConnected) + connected_count(m),
{
    reveal_with_fuel(occurrences, 5);
    match e {
        Event::SerialData(bytes) => {
            lemma_drain_effects(
                MachineModel {
                    state: ConnectivityState::AwaitingSettings,
                    buffer: m.buffer + bytes@,
                    ..m
                },
            );
            lemma_quiet_counts(step_model(m, e).1);
        },
        Event::ScanFinished(networks) => {
            lemma_drain_effects(m);
            lemma_frames_quiet(scan_reply_frames(networks@));
            lemma_quiet_counts(step_model(m, e).1);
        },
        Event::CredentialsChecked(ok) => {
            lemma_drain_effects(MachineModel { state: ConnectivityState::AwaitingSettings, ..m });
            lemma_quiet_counts(step_model(m, e).1);
        },
        _ => {},
    }
}

/// A lost connection is reported once, not once per retry: over any run,
/// the disconnect notices plus one if the run ends connected equal the
/// connect notices plus one if it starts connected. So a run from
/// `Connected` back to `Connected` with one connect notice gives exactly
/// one disconnect notice, however many attempts failed in between.
pub proof fn lemma_disconnect_noticed_once(m: MachineModel, events: Seq<Event>)
    ensures
        occurrences(run(m, events).1, ActionModel::NotifyDisconnected) + connected_count(
            run(m, events).0,
        ) == occurrences(run(m, events).1, ActionModel::NotifyConnected) + connected_count(m),
    decreases events.len(),
{
    if events.len() > 0 {
        let first = step_model(m, events[0]);
        let rest = events.drop_first();
        lemma_notice_step(m, events[0]);
        lemma_disconnect_noticed_once(first.0, rest);
        lemma_occurrences_append(first.1, run(first.0, rest).1, ActionModel::NotifyConnected);
        lemma_occurrences_append(first.1, run(first.0, rest).1, ActionModel::NotifyDisconnected);
    }
}

} // verus!
