//! The connectivity state machine: bootstrap over an access point and the
//! serial provisioning exchange, verification of the received credentials,
//! their persistence, and the connect loop that reconnects for ever.
//!
//! The machine performs no I/O. Each call takes one event (bytes read, the
//! outcome of a connect attempt, an address, ...) and returns the actions to
//! perform, in order; the driver performs them and feeds back what happened.

use vstd::prelude::*;

use crate::improv_wifi::{
    encode_frame, CommandModel, CurrentStateOption, ErrorStateOption, FramePayload,
    ImprovWifiPacket, ImprovWifiPacketData, RPCCommand, RPCResultStruct,
};
use crate::scan::{scan_reply, scan_reply_frames, ScannedNetwork};
use crate::serial_buffer::{buffer_step, drop_front, next_buffer_step, BufferStep, BufferStepModel};
use crate::web_urls::{redirect_url, redirect_url_string};

verus! {

/// Where the machine stands.
#[derive(Debug, Clone, Copy, PartialEq, Eq, Structural)]
pub enum ConnectivityState {
    /// Before boot has looked at storage.
    NoCredentials,
    /// Access point up, waiting for the serial peer.
    Bootstrapping,
    /// Answering the serial peer until it sends credentials.
    AwaitingSettings,
    /// One station connection with the received credentials is under way.
    VerifyingSettings,
    /// Connecting with known credentials, or waiting for an address.
    Connecting,
    Connected,
    /// Connection failed or was lost; waiting out the backoff.
    Disconnected,
}

/// Which network the configuration web endpoint serves.
#[derive(Debug, Clone, Copy, PartialEq, Eq, Structural)]
pub enum WebConfigMode {
    AP,
    STA,
}

/// Credentials as durable storage holds them.
pub struct WifiConfig {
    pub ssid: Option<String>,
    pub password: Option<String>,
}

/// What the device says of itself, and how it is reached while it hosts
/// its own access point.
pub struct DeviceIdentity {
    pub firmware_name: String,
    pub firmware_version: String,
    pub chip: String,
    pub device_name: String,
    /// Whether the configuration endpoint is served over HTTPS.
    pub https: bool,
    /// The device's address on its own access point.
    pub ap_address: (u8, u8, u8, u8),
}

/// Something that happened, handed to the machine by the driver.
pub enum Event {
    /// Bytes read from the serial peer.
    SerialData(Vec<u8>),
    /// The serial peer is gone (a read of zero bytes).
    SerialClosed,
    /// The scan finished; a failed scan is an empty list.
    ScanFinished(Vec<ScannedNetwork>),
    /// Outcome of the one connect attempt with received credentials.
    CredentialsChecked(bool),
    /// Outcome of a connect attempt of the connect loop.
    ConnectFinished(bool),
    /// The station has an address.
    AddressAcquired((u8, u8, u8, u8)),
    /// Outcome of storing the credentials.
    CredentialsStored(bool),
    /// The station's link went down.
    LinkLost,
    /// The backoff delay after a failure has elapsed.
    BackoffElapsed,
}

/// Something for the driver to do.
pub enum Action {
    /// Configure and start the radio as an access point named after the
    /// product, and start the DHCP (and captive DNS) helpers.
    StartAccessPoint,
    StartWebApp(WebConfigMode),
    StopWebApp,
    StopAccessPoint,
    /// Tell observers the station address (or that there is none), and
    /// whether the portal is captive.
    ReportAddress(Option<(u8, u8, u8, u8)>, bool),
    /// Write an encoded frame to the serial peer.
    SendFrame(Vec<u8>),
    /// Write the first frame after the settle delay, with a send timeout.
    SendHello(Vec<u8>),
    /// Scan for networks, then hand back `ScanFinished`.
    Scan,
    /// Try one station connection with these credentials, then hand back
    /// `CredentialsChecked`.
    TryCredentials(String, String),
    /// Start the station with these credentials if it is not started, try to
    /// connect, then hand back `ConnectFinished`.
    Connect(String, String),
    /// Wait for the link and an address, then hand back `AddressAcquired`.
    WaitForAddress,
    /// Persist the credentials, then hand back `CredentialsStored`.
    StoreCredentials(String, String),
    /// Tell observers that the station is connected.
    NotifyConnected,
    /// Tell observers that the station connection was lost.
    NotifyDisconnected,
    /// Wait the fixed backoff delay, then hand back `BackoffElapsed`.
    Backoff,
    /// Stop: the serial peer is gone, or the credentials could not be stored.
    Halt,
}

/// An action, as mathematical values.
pub enum ActionModel {
    StartAccessPoint,
    StartWebApp(WebConfigMode),
    StopWebApp,
    StopAccessPoint,
    ReportAddress(Option<(u8, u8, u8, u8)>, bool),
    SendFrame(Seq<u8>),
    SendHello(Seq<u8>),
    Scan,
    TryCredentials(Seq<char>, Seq<char>),
    Connect(Seq<char>, Seq<char>),
    WaitForAddress,
    StoreCredentials(Seq<char>, Seq<char>),
    NotifyConnected,
    NotifyDisconnected,
    Backoff,
    Halt,
}

impl View for Action {
    type V = ActionModel;

    open spec fn view(&self) -> ActionModel {
        match self {
            Action::StartAccessPoint => ActionModel::StartAccessPoint,
            Action::StartWebApp(m) => ActionModel::StartWebApp(*m),
            Action::StopWebApp => ActionModel::StopWebApp,
            Action::StopAccessPoint => ActionModel::StopAccessPoint,
            Action::ReportAddress(a, c) => ActionModel::ReportAddress(*a, *c),
            Action::SendFrame(b) => ActionModel::SendFrame(b@),
            Action::SendHello(b) => ActionModel::SendHello(b@),
            Action::Scan => ActionModel::Scan,
            Action::TryCredentials(s, p) => ActionModel::TryCredentials(s@, p@),
            Action::Connect(s, p) => ActionModel::Connect(s@, p@),
            Action::WaitForAddress => ActionModel::WaitForAddress,
            Action::StoreCredentials(s, p) => ActionModel::StoreCredentials(s@, p@),
            Action::NotifyConnected => ActionModel::NotifyConnected,
            Action::NotifyDisconnected => ActionModel::NotifyDisconnected,
            Action::Backoff => ActionModel::Backoff,
            Action::Halt => ActionModel::Halt,
        }
    }
}

pub open spec fn actions_view(a: Seq<Action>) -> Seq<ActionModel> {
    a.map_values(|x: Action| x@)
}

/// The device's identity, as mathematical values.
pub struct IdentityModel {
    pub firmware_name: Seq<char>,
    pub firmware_version: Seq<char>,
    pub chip: Seq<char>,
    pub device_name: Seq<char>,
    pub https: bool,
    pub ap_address: (u8, u8, u8, u8),
}

impl View for DeviceIdentity {
    type V = IdentityModel;

    open spec fn view(&self) -> IdentityModel {
        IdentityModel {
            firmware_name: self.firmware_name@,
            firmware_version: self.firmware_version@,
            chip: self.chip@,
            device_name: self.device_name@,
            https: self.https,
            ap_address: self.ap_address,
        }
    }
}

/// The machine, as mathematical values.
pub struct MachineModel {
    pub state: ConnectivityState,
    /// The active (or, while verifying, the candidate) credentials.
    pub ssid: Seq<char>,
    pub password: Seq<char>,
    /// The credentials came from the serial exchange and are not stored yet.
    pub provisioning: bool,
    /// The access point and its web endpoint are running.
    pub ap_active: bool,
    /// Serial bytes not consumed yet.
    pub buffer: Seq<u8>,
    /// The last station address.
    pub address: (u8, u8, u8, u8),
    pub identity: IdentityModel,
}

/// The machine.
pub struct ConnectionManager {
    state: ConnectivityState,
    ssid: String,
    password: String,
    provisioning: bool,
    ap_active: bool,
    buffer: Vec<u8>,
    address: (u8, u8, u8, u8),
    identity: DeviceIdentity,
}

impl View for ConnectionManager {
    type V = MachineModel;

    closed spec fn view(&self) -> MachineModel {
        MachineModel {
            state: self.state,
            ssid: self.ssid@,
            password: self.password@,
            provisioning: self.provisioning,
            ap_active: self.ap_active,
            buffer: self.buffer@,
            address: self.address,
            identity: self.identity@,
        }
    }
}

// The transition function ================================================

pub open spec fn send(p: FramePayload) -> ActionModel {
    ActionModel::SendFrame(encode_frame(p))
}

/// Reply to `RequestDeviceInformation`.
pub open spec fn device_info(id: IdentityModel) -> FramePayload {
    FramePayload::Result(
        0x03,
        seq![id.firmware_name, id.firmware_version, id.chip, id.device_name],
    )
}

/// States of the bootstrap phase, before credentials have been verified.
pub open spec fn in_bootstrap(s: ConnectivityState) -> bool {
    s == ConnectivityState::NoCredentials || s == ConnectivityState::Bootstrapping || s
        == ConnectivityState::AwaitingSettings || s == ConnectivityState::VerifyingSettings
}

/// States in which serial frames are answered.
pub open spec fn listening(s: ConnectivityState) -> bool {
    s == ConnectivityState::Bootstrapping || s == ConnectivityState::AwaitingSettings
}

/// Answers the frames at the front of the serial buffer, one after the
/// other, until more bytes are needed, a scan is to be made, or received
/// credentials are to be checked. Corrupt bytes are dropped up to the next
/// terminator; where they end like a `RequestDeviceInformation` that lost
/// its start, the device information is sent as it was asked for.
#[verifier::opaque]
pub open spec fn drain(m: MachineModel) -> (MachineModel, Seq<ActionModel>)
    decreases m.buffer.len(),
{
    match buffer_step(m.buffer) {
        BufferStepModel::NeedMore => (m, seq![]),
        BufferStepModel::Corrupt(n, lost) => if n <= 0 || n > m.buffer.len() {
            (m, seq![])
        } else {
            let next = drain(MachineModel { buffer: m.buffer.skip(n), ..m });
            (
                next.0,
                if lost {
                    seq![send(device_info(m.identity))] + next.1
                } else {
                    next.1
                },
            )
        },
        BufferStepModel::Frame(p, n) => if n <= 0 || n > m.buffer.len() {
            (m, seq![])
        } else {
            let rest = MachineModel { buffer: m.buffer.skip(n), ..m };
            match p {
                FramePayload::Command(CommandModel::RequestCurrentState) => {
                    let next = drain(rest);
                    (next.0, seq![send(FramePayload::CurrentState(CurrentStateOption::Ready))] + next.1)
                },
                FramePayload::Command(CommandModel::RequestDeviceInformation) => {
                    let next = drain(rest);
                    (next.0, seq![send(device_info(m.identity))] + next.1)
                },
                FramePayload::Command(CommandModel::RequestScannedWifiNetworks) => (
                    rest,
                    seq![ActionModel::Scan],
                ),
                FramePayload::Command(CommandModel::SendWifiSettings(ssid, password)) => (
                    MachineModel {
                        state: ConnectivityState::VerifyingSettings,
                        ssid,
                        password,
                        ap_active: false,
                        ..rest
                    },
                    seq![send(FramePayload::CurrentState(CurrentStateOption::Provisioning))] + (
                    if m.ap_active {
                        seq![ActionModel::StopWebApp, ActionModel::StopAccessPoint]
                    } else {
                        seq![]
                    }) + seq![ActionModel::TryCredentials(ssid, password)],
                ),
                _ => drain(rest),
            }
        },
    }
}

/// The state at boot, and what to do first: with stored credentials, go
/// straight to the connect loop; without, start the access point, its web
/// endpoint, and greet the serial peer.
pub open spec fn boot_model(id: IdentityModel, ssid: Option<Seq<char>>, password: Option<Seq<char>>) -> (
    MachineModel,
    Seq<ActionModel>,
) {
    if ssid is Some && password is Some {
        (
            MachineModel {
                state: ConnectivityState::Connecting,
                ssid: ssid->0,
                password: password->0,
                provisioning: false,
                ap_active: false,
                buffer: seq![],
                address: (0, 0, 0, 0),
                identity: id,
            },
            seq![ActionModel::Connect(ssid->0, password->0)],
        )
    } else {
        (
            MachineModel {
                state: ConnectivityState::Bootstrapping,
                ssid: seq![],
                password: seq![],
                provisioning: false,
                ap_active: true,
                buffer: seq![],
                address: (0, 0, 0, 0),
                identity: id,
            },
            seq![
                ActionModel::StartAccessPoint,
                ActionModel::StartWebApp(WebConfigMode::AP),
                ActionModel::ReportAddress(Some(id.ap_address), true),
                ActionModel::SendHello(encode_frame(FramePayload::CurrentState(CurrentStateOption::Ready))),
            ],
        )
    }
}

/// The next state, and the actions to perform, after an event.
pub open spec fn step_model(m: MachineModel, e: Event) -> (MachineModel, Seq<ActionModel>) {
    let unchanged = (m, Seq::<ActionModel>::empty());
    match e {
        Event::SerialData(bytes) => if listening(m.state) {
            drain(
                MachineModel {
                    state: ConnectivityState::AwaitingSettings,
                    buffer: m.buffer + bytes@,
                    ..m
                },
            )
        } else if m.state == ConnectivityState::VerifyingSettings {
            (MachineModel { buffer: m.buffer + bytes@, ..m }, seq![])
        } else {
            unchanged
        },
        Event::SerialClosed => if in_bootstrap(m.state) {
            (m, seq![ActionModel::Halt])
        } else {
            unchanged
        },
        Event::ScanFinished(networks) => if listening(m.state) {
            let next = drain(m);
            (next.0, scan_reply_frames(networks@).map_values(|f: Seq<u8>| ActionModel::SendFrame(f)) + next.1)
        } else {
            unchanged
        },
        Event::CredentialsChecked(ok) => if m.state == ConnectivityState::VerifyingSettings {
            if ok {
                (
                    MachineModel { state: ConnectivityState::Connecting, provisioning: true, ..m },
                    seq![ActionModel::WaitForAddress],
                )
            } else {
                let next = drain(MachineModel { state: ConnectivityState::AwaitingSettings, ..m });
                (
                    next.0,
                    seq![send(FramePayload::ErrorState(ErrorStateOption::UnableToConnect))]
                        + next.1,
                )
            }
        } else {
            unchanged
        },
        Event::ConnectFinished(ok) => if m.state == ConnectivityState::Connecting
            && !m.provisioning {
            if ok {
                (m, seq![ActionModel::WaitForAddress])
            } else {
                (
                    MachineModel { state: ConnectivityState::Disconnected, ..m },
                    seq![ActionModel::Backoff],
                )
            }
        } else {
            unchanged
        },
        Event::AddressAcquired(a) => if m.state == ConnectivityState::Connecting {
            if m.provisioning {
                (
                    MachineModel { address: a, ..m },
                    seq![
                        ActionModel::ReportAddress(Some(a), false),
                        ActionModel::StoreCredentials(m.ssid, m.password),
                    ],
                )
            } else {
                (
                    MachineModel { state: ConnectivityState::Connected, address: a, ..m },
                    seq![ActionModel::ReportAddress(Some(a), false), ActionModel::NotifyConnected],
                )
            }
        } else {
            unchanged
        },
        Event::CredentialsStored(ok) => if m.state == ConnectivityState::Connecting
            && m.provisioning {
            if ok {
                (
                    MachineModel {
                        state: ConnectivityState::Connected,
                        provisioning: false,
                        ..m
                    },
                    seq![
                        send(FramePayload::CurrentState(CurrentStateOption::Provisioned)),
                        ActionModel::StartWebApp(WebConfigMode::STA),
                        send(
                            FramePayload::Result(
                                0x01,
                                seq![redirect_url(m.identity.https, m.address)],
                            ),
                        ),
                        ActionModel::NotifyConnected,
                    ],
                )
            } else {
                (m, seq![ActionModel::Halt])
            }
        } else {
            unchanged
        },
        Event::LinkLost => if m.state == ConnectivityState::Connected {
            (
                MachineModel { state: ConnectivityState::Disconnected, ..m },
                seq![
                    ActionModel::ReportAddress(None, false),
                    ActionModel::NotifyDisconnected,
                    ActionModel::Backoff,
                ],
            )
        } else {
            unchanged
        },
        Event::BackoffElapsed => if m.state == ConnectivityState::Disconnected {
            (
                MachineModel { state: ConnectivityState::Connecting, ..m },
                seq![ActionModel::Connect(m.ssid, m.password)],
            )
        } else {
            unchanged
        },
    }
}

/// The state after a sequence of events, and every action on the way.
pub open spec fn run(m: MachineModel, events: Seq<Event>) -> (MachineModel, Seq<ActionModel>)
    decreases events.len(),
{
    if events.len() == 0 {
        (m, seq![])
    } else {
        let first = step_model(m, events[0]);
        let rest = run(first.0, events.drop_first());
        (rest.0, first.1 + rest.1)
    }
}

// The machine, executable ================================================

/// The encoded bytes of a frame.
fn frame_bytes(packet: ImprovWifiPacket) -> (r: Vec<u8>)
    ensures
        r@ == encode_frame(packet@),
{
    match packet.to_bytes() {
        Ok(bytes) => bytes,
        Err(_) => Vec::new(),
    }
}

fn copy_text(s: &String) -> (r: String)
    ensures
        r@ == s@,
{
    s.as_str().to_owned()
}

/// Appends one `SendFrame` per frame, in order.
fn push_frames(actions: &mut Vec<Action>, frames: Vec<Vec<u8>>)
    ensures
        actions_view(final(actions)@) == actions_view(old(actions)@) + frames@.map_values(
            |f: Vec<u8>| ActionModel::SendFrame(f@),
        ),
{
    let ghost orig = frames@;
    let ghost a0 = actions_view(actions@);
    let mut frames = frames;
    let ghost mut i: int = 0;
    while frames.len() > 0
        invariant
            0 <= i <= orig.len(),
            frames@ == orig.skip(i as int),
            actions_view(actions@) == a0 + orig.take(i as int).map_values(
                |f: Vec<u8>| ActionModel::SendFrame(f@),
            ),
        decreases frames@.len(),
    {
        let ghost before = actions_view(actions@);
        let f = frames.remove(0);
        assert(f == orig[i]);
        actions.push(Action::SendFrame(f));
        proof {
            let g = |f: Vec<u8>| ActionModel::SendFrame(f@);
            assert(frames@ =~= orig.skip(i + 1));
            assert(orig.take(i + 1) =~= orig.take(i).push(orig[i]));
            assert(orig.take(i + 1).map_values(g) =~= orig.take(i).map_values(g).push(g(orig[i])));
            assert(actions_view(actions@) =~= before.push(g(orig[i])));
            assert(actions_view(actions@) =~= a0 + orig.take(i + 1).map_values(g));
            i = i + 1;
        }
    }
    assert(orig.take(i) =~= orig);
}

impl ConnectionManager {
    /// Starts the machine. With an SSID and a password in storage it goes
    /// straight to `Connecting` and asks for a connect attempt, sending
    /// nothing to the serial peer; otherwise it enters `Bootstrapping`:
    /// access point, its web endpoint, the address report, and the first
    /// `CurrentState(Ready)` frame.
    pub fn boot(identity: DeviceIdentity, stored: WifiConfig) -> (r: (Self, Vec<Action>))
        ensures
            r.0@ == boot_model(
                identity@,
                match stored.ssid {
                    Some(s) => Some(s@),
                    None => None,
                },
                match stored.password {
                    Some(s) => Some(s@),
                    None => None,
                },
            ).0,
            actions_view(r.1@) == boot_model(
                identity@,
                match stored.ssid {
                    Some(s) => Some(s@),
                    None => None,
                },
                match stored.password {
                    Some(s) => Some(s@),
                    None => None,
                },
            ).1,
    {
        let ap_address = identity.ap_address;
        match (stored.ssid, stored.password) {
            (Some(ssid), Some(password)) => {
                let actions = vec![Action::Connect(copy_text(&ssid), copy_text(&password))];
                let machine = ConnectionManager {
                    state: ConnectivityState::Connecting,
                    ssid,
                    password,
                    provisioning: false,
                    ap_active: false,
                    buffer: Vec::new(),
                    address: (0, 0, 0, 0),
                    identity,
                };
                assert(actions_view(actions@) =~= boot_model(
                    identity@,
                    Some(machine.ssid@),
                    Some(machine.password@),
                ).1);
                (machine, actions)
            },
            (ssid, password) => {
                let hello = frame_bytes(ImprovWifiPacket::new_current_state(CurrentStateOption::Ready));
                let actions = vec![
                    Action::StartAccessPoint,
                    Action::StartWebApp(WebConfigMode::AP),
                    Action::ReportAddress(Some(ap_address), true),
                    Action::SendHello(hello),
                ];
                let machine = ConnectionManager {
                    state: ConnectivityState::Bootstrapping,
                    ssid: String::new(),
                    password: String::new(),
                    provisioning: false,
                    ap_active: true,
                    buffer: Vec::new(),
                    address: (0, 0, 0, 0),
                    identity,
                };
                assert(machine@.buffer =~= Seq::<u8>::empty());
                assert(actions_view(actions@) =~= boot_model(identity@, None, None).1);
                (machine, actions)
            },
        }
    }

    /// Where the machine stands.
    pub fn state(&self) -> (r: ConnectivityState)
        ensures
            r == self@.state,
    {
        self.state
    }

    fn device_info_frame(&self) -> (r: Vec<u8>)
        ensures
            r@ == encode_frame(device_info(self@.identity)),
    {
        frame_bytes(
            ImprovWifiPacket::new_rpc_result(
                RPCResultStruct::new_response_to_request_device_information(
                    self.identity.firmware_name.as_str(),
                    self.identity.firmware_version.as_str(),
                    self.identity.chip.as_str(),
                    self.identity.device_name.as_str(),
                ),
            ),
        )
    }

    /// Answers the frames in the serial buffer, as `drain` says.
    fn drain_serial(&mut self, actions: &mut Vec<Action>)
        ensures
            final(self)@ == drain(old(self)@).0,
            actions_view(final(actions)@) == actions_view(old(actions)@) + drain(old(self)@).1,
    {
        let ghost m0 = self@;
        let ghost a0 = actions_view(actions@);
        loop
            invariant
                m0 == old(self)@,
                a0 == actions_view(old(actions)@),
                drain(m0).0 == drain(self@).0,
                a0 + drain(m0).1 == actions_view(actions@) + drain(self@).1,
            decreases self@.buffer.len(),
        {
            let ghost a1 = actions_view(actions@);
            let ghost m1 = self@;
            if self.drain_step(actions) {
                assert(a1 + drain(m1).1 =~= actions_view(actions@));
                return ;
            }
        }
    }

    /// One step of `drain`: `true` when draining stops here.
    fn drain_step(&mut self, actions: &mut Vec<Action>) -> (done: bool)
        ensures
            done ==> final(self)@ == drain(old(self)@).0 && actions_view(final(actions)@)
                == actions_view(old(actions)@) + drain(old(self)@).1,
            !done ==> drain(final(self)@).0 == drain(old(self)@).0 && actions_view(
                old(actions)@,
            ) + drain(old(self)@).1 == actions_view(final(actions)@) + drain(final(self)@).1
                && final(self)@.buffer.len() < old(self)@.buffer.len(),
    {
        let ghost m = self@;
        let ghost before = actions_view(actions@);
        reveal(drain);
        let step = next_buffer_step(self.buffer.as_slice());
        match step {
            BufferStep::NeedMore => {
                assert(actions_view(actions@) =~= before + drain(m).1);
                true
            },
            BufferStep::Corrupt { drop, lost_request } => {
                if lost_request {
                    let info = self.device_info_frame();
                    actions.push(Action::SendFrame(info));
                }
                self.buffer = drop_front(&self.buffer, drop);
                proof {
                    let next = drain(self@);
                    if lost_request {
                        assert(actions_view(actions@) =~= before.push(
                            send(device_info(m.identity)),
                        ));
                        assert(before + (seq![send(device_info(m.identity))] + next.1)
                            =~= actions_view(actions@) + next.1);
                    } else {
                        assert(actions_view(actions@) =~= before);
                    }
                }
                false
            },
            BufferStep::Frame(packet, n) => {
                self.buffer = drop_front(&self.buffer, n);
                self.answer_frame(packet, actions)
            },
        }
    }

    /// Answers one decoded frame whose bytes have been taken from the buffer.
    fn answer_frame(&mut self, packet: ImprovWifiPacket, actions: &mut Vec<Action>) -> (done: bool)
        ensures
            ({
                let rest = old(self)@;
                let before = actions_view(old(actions)@);
                let now = actions_view(final(actions)@);
                match packet@ {
                    FramePayload::Command(CommandModel::RequestCurrentState) => !done
                        && final(self)@ == rest && now == before.push(
                        send(FramePayload::CurrentState(CurrentStateOption::Ready)),
                    ),
                    FramePayload::Command(CommandModel::RequestDeviceInformation) => !done
                        && final(self)@ == rest && now == before.push(
                        send(device_info(rest.identity)),
                    ),
                    FramePayload::Command(CommandModel::RequestScannedWifiNetworks) => done
                        && final(self)@ == rest && now == before.push(ActionModel::Scan),
                    FramePayload::Command(CommandModel::SendWifiSettings(ssid, password)) => done
                        && final(self)@ == MachineModel {
                        state: ConnectivityState::VerifyingSettings,
                        ssid,
                        password,
                        ap_active: false,
                        ..rest
                    } && now == before + (seq![
                        send(FramePayload::CurrentState(CurrentStateOption::Provisioning)),
                    ] + (if rest.ap_active {
                        seq![ActionModel::StopWebApp, ActionModel::StopAccessPoint]
                    } else {
                        seq![]
                    }) + seq![ActionModel::TryCredentials(ssid, password)]),
                    _ => !done && final(self)@ == rest && now == before,
                }
            }),
    {
        let ghost before = actions_view(actions@);
        match packet.data {
            ImprovWifiPacketData::RPC(cmd) => match cmd.data {
                RPCCommand::RequestCurrentState => {
                    let reply = frame_bytes(
                        ImprovWifiPacket::new_current_state(CurrentStateOption::Ready),
                    );
                    actions.push(Action::SendFrame(reply));
                    false
                },
                RPCCommand::RequestDeviceInformation => {
                    let info = self.device_info_frame();
                    actions.push(Action::SendFrame(info));
                    false
                },
                RPCCommand::RequestScannedWifiNetworks => {
                    actions.push(Action::Scan);
                    true
                },
                RPCCommand::SendWifiSettings(settings) => {
                    let reply = frame_bytes(
                        ImprovWifiPacket::new_current_state(CurrentStateOption::Provisioning),
                    );
                    actions.push(Action::SendFrame(reply));
                    let ghost was_active = self.ap_active;
                    if self.ap_active {
                        actions.push(Action::StopWebApp);
                        actions.push(Action::StopAccessPoint);
                        self.ap_active = false;
                    }
                    self.state = ConnectivityState::VerifyingSettings;
                    self.ssid = copy_text(&settings.ssid);
                    self.password = copy_text(&settings.password);
                    actions.push(Action::TryCredentials(settings.ssid, settings.password));
                    assert(actions_view(actions@) =~= before + (seq![
                        send(FramePayload::CurrentState(CurrentStateOption::Provisioning)),
                    ] + (if was_active {
                        seq![ActionModel::StopWebApp, ActionModel::StopAccessPoint]
                    } else {
                        seq![]
                    }) + seq![ActionModel::TryCredentials(self.ssid@, self.password@)]));
                    true
                },
            },
            _ => false,
        }
    }

    /// Takes one event: the new state is `step_model`'s, and the actions to
    /// perform, in order, are `step_model`'s.
    pub fn handle(&mut self, event: Event) -> (r: Vec<Action>)
        ensures
            final(self)@ == step_model(old(self)@, event).0,
            actions_view(r@) == step_model(old(self)@, event).1,
    {
        let ghost m = self@;
        let mut actions: Vec<Action> = Vec::new();
        match event {
            Event::SerialData(bytes) => {
                if self.state == ConnectivityState::Bootstrapping || self.state
                    == ConnectivityState::AwaitingSettings {
                    self.state = ConnectivityState::AwaitingSettings;
                    let mut incoming = bytes;
                    self.buffer.append(&mut incoming);
                    self.drain_serial(&mut actions);
                    assert(actions_view(actions@) =~= Seq::<ActionModel>::empty() + drain(
                        MachineModel {
                            state: ConnectivityState::AwaitingSettings,
                            buffer: m.buffer + bytes@,
                            ..m
                        },
                    ).1);
                } else if self.state == ConnectivityState::VerifyingSettings {
                    let mut incoming = bytes;
                    self.buffer.append(&mut incoming);
                }
            },
            Event::SerialClosed => {
                if self.state == ConnectivityState::NoCredentials || self.state
                    == ConnectivityState::Bootstrapping || self.state
                    == ConnectivityState::AwaitingSettings || self.state
                    == ConnectivityState::VerifyingSettings {
                    actions.push(Action::Halt);
                }
            },
            Event::ScanFinished(networks) => {
                if self.state == ConnectivityState::Bootstrapping || self.state
                    == ConnectivityState::AwaitingSettings {
                    let frames = scan_reply(networks.as_slice());
                    let ghost fv = frames@;
                    push_frames(&mut actions, frames);
                    proof {
                        let lhs = fv.map_values(|f: Vec<u8>| ActionModel::SendFrame(f@));
                        let rhs = scan_reply_frames(networks@).map_values(
                            |f: Seq<u8>| ActionModel::SendFrame(f),
                        );
                        let bytes = fv.map_values(|f: Vec<u8>| f@);
                        assert(bytes == scan_reply_frames(networks@));
                        assert forall|i: int| 0 <= i < lhs.len() implies #[trigger] lhs[i]
                            == rhs[i] by {
                            assert(bytes[i] == fv[i]@);
                        }
                        assert(lhs =~= rhs);
                    }
                    self.drain_serial(&mut actions);
                }
            },
            Event::CredentialsChecked(ok) => {
                if self.state == ConnectivityState::VerifyingSettings {
                    if ok {
                        self.state = ConnectivityState::Connecting;
                        self.provisioning = true;
                        actions.push(Action::WaitForAddress);
                    } else {
                        self.state = ConnectivityState::AwaitingSettings;
                        let reply = frame_bytes(
                            ImprovWifiPacket::new_error_state(ErrorStateOption::UnableToConnect),
                        );
                        actions.push(Action::SendFrame(reply));
                        self.drain_serial(&mut actions);
                    }
                }
            },
            Event::ConnectFinished(ok) => {
                if self.state == ConnectivityState::Connecting && !self.provisioning {
                    if ok {
                        actions.push(Action::WaitForAddress);
                    } else {
                        self.state = ConnectivityState::Disconnected;
                        actions.push(Action::Backoff);
                    }
                }
            },
            Event::AddressAcquired(a) => {
                if self.state == ConnectivityState::Connecting {
                    self.address = a;
                    actions.push(Action::ReportAddress(Some(a), false));
                    if self.provisioning {
                        actions.push(
                            Action::StoreCredentials(
                                copy_text(&self.ssid),
                                copy_text(&self.password),
                            ),
                        );
                    } else {
                        self.state = ConnectivityState::Connected;
                        actions.push(Action::NotifyConnected);
                    }
                }
            },
            Event::CredentialsStored(ok) => {
                if self.state == ConnectivityState::Connecting && self.provisioning {
                    if ok {
                        let provisioned = frame_bytes(
                            ImprovWifiPacket::new_current_state(CurrentStateOption::Provisioned),
                        );
                        actions.push(Action::SendFrame(provisioned));
                        actions.push(Action::StartWebApp(WebConfigMode::STA));
                        let url = redirect_url_string(self.identity.https, self.address);
                        let redirect = frame_bytes(
                            ImprovWifiPacket::new_rpc_result(
                                RPCResultStruct::new_response_to_send_wifi_settings(url.as_str()),
                            ),
                        );
                        actions.push(Action::SendFrame(redirect));
                        actions.push(Action::NotifyConnected);
                        self.state = ConnectivityState::Connected;
                        self.provisioning = false;
                    } else {
                        actions.push(Action::Halt);
                    }
                }
            },
            Event::LinkLost => {
                if self.state == ConnectivityState::Connected {
                    self.state = ConnectivityState::Disconnected;
                    actions.push(Action::ReportAddress(None, false));
                    actions.push(Action::NotifyDisconnected);
                    actions.push(Action::Backoff);
                }
            },
            Event::BackoffElapsed => {
                if self.state == ConnectivityState::Disconnected {
                    self.state = ConnectivityState::Connecting;
                    actions.push(Action::Connect(copy_text(&self.ssid), copy_text(&self.password)));
                }
            },
        }
        assert(actions_view(actions@) =~= step_model(m, event).1);
        actions
    }
}

} // verus!
