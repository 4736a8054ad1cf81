//! The packet transport: finding the public endpoint, reaching the peer, and files in packets.
//! Sockets and files are outside; here stands what follows from what they give.

use std::collections::HashMap;

use vstd::prelude::*;

use crate::addr::SocketAddr;
use crate::net::commands;
use crate::net::commands::{EventForm, NetCommand, NetEvent};
use crate::net::names;
use crate::net::packet_messages;
use crate::net::packet_messages::{PacketForm, PacketMessage};
use crate::net::stun;
use crate::net::transfer;
use crate::net::transfer::{NextFile, SendOutcome};
use crate::path;
use crate::path::{FilePath, PathForm};
use crate::text;

verus! {

broadcast use vstd::std_specs::hash::group_hash_axioms;

/// The channel of ordered packets.
pub const CHANNEL_ID: u8 = 0;

/// The bytes of a file in one packet.
pub const CHUNK_SIZE: usize = 1024;

/// The nanoseconds after which a peer is given up.
pub const PUNCH_TIMEOUT_NANOS: u64 = 10_000_000_000;

/// The nanoseconds between two packets that open the way to a peer.
pub const PUNCH_INTERVAL_NANOS: u64 = 200_000_000;

/// The version that greetings carry.
pub const HELLO_VERSION: u8 = 1;

// ---------------------------------------------------------------- the public endpoint

/// The servers asked when none are configured.
pub open spec fn default_servers() -> Seq<Seq<char>> {
    seq![
        "stun.cloudflare.com:53"@,
        "stun.cloudflare.com:3478"@,
        "stunserver2024.stunprotocol.org:3478"@,
        "stun.sipgate.net:3478"@,
        "stun.l.google.com:19302"@,
    ]
}

/// The servers to ask: those of a configured list, unless it is blank or missing.
pub open spec fn servers(configured: Option<Seq<char>>) -> Seq<Seq<char>> {
    let listed = match configured {
        Some(value) => text::kept_pieces(text::pieces(value, ',')),
        None => Seq::empty(),
    };
    if listed.len() > 0 {
        listed
    } else {
        default_servers()
    }
}

/// The servers to ask; `configured` is the comma-separated list that the user may have set.
pub fn stun_server_list(configured: Option<&str>) -> (r: Vec<String>)
    ensures
        text::texts(r@) == servers(
            match configured {
                Some(value) => Some(value@),
                None => None,
            },
        ),
{
    if let Some(value) = configured {
        let list = text::list_entries(value, ',');
        if list.len() > 0 {
            return list;
        }
    }
    let mut r: Vec<String> = Vec::new();
    r.push("stun.cloudflare.com:53".to_owned());
    r.push("stun.cloudflare.com:3478".to_owned());
    r.push("stunserver2024.stunprotocol.org:3478".to_owned());
    r.push("stun.sipgate.net:3478".to_owned());
    r.push("stun.l.google.com:19302".to_owned());
    assert(text::texts(r@) =~= default_servers());
    r
}

/// Chooses among the addresses of a server: the first of the family of `bind_addr`, else the
/// first.
pub fn pick_server_addr(addrs: &Vec<SocketAddr>, bind_addr: SocketAddr) -> (r: Option<SocketAddr>)
    ensures
        r is None <==> addrs@.len() == 0,
        forall|i: int| #[trigger]
            stun::first_of_family(addrs@, bind_addr.is_ipv4_spec(), i) ==> r == Some(addrs@[i]),
        addrs@.len() > 0 && stun::none_of_family(addrs@, bind_addr.is_ipv4_spec()) ==> r == Some(
            addrs@[0],
        ),
{
    match stun::pick_server_addr(addrs, bind_addr) {
        Some(addr) => Some(addr),
        None => {
            if addrs.len() == 0 {
                None
            } else {
                Some(addrs[0])
            }
        },
    }
}

/// What came of asking a server.
#[derive(Debug)]
pub enum StunAttempt {
    /// Its name led to no address.
    Unresolved(String),
    /// It did not answer.
    Failed(String),
    /// It told the public endpoint.
    Found(SocketAddr),
}

/// Servers that are asked one after the other, until one tells the public endpoint.
#[derive(Debug)]
pub struct StunSearch {
    pub servers: Vec<String>,
    pub at: usize,
    pub last_err: Option<String>,
}

/// What went wrong with a server.
pub open spec fn attempt_error(server: Seq<char>, attempt: StunAttempt) -> Option<Seq<char>> {
    match attempt {
        StunAttempt::Unresolved(err) => Some("falha ao resolver STUN "@ + server + ": "@ + err@),
        StunAttempt::Failed(err) => Some("falha STUN "@ + server + ": "@ + err@),
        StunAttempt::Found(_) => None,
    }
}

impl StunSearch {
    /// Whether the search is within its servers.
    pub open spec fn wf(&self) -> bool {
        self.at <= self.servers@.len()
    }

    /// A search that has asked no server.
    pub fn new(servers: Vec<String>) -> (r: StunSearch)
        ensures
            r.wf(),
            r.servers == servers,
            r.at == 0,
            r.last_err is None,
    {
        StunSearch { servers, at: 0, last_err: None }
    }

    /// The server to ask; where all were asked, why none told the endpoint.
    pub fn next(&self) -> (r: Result<String, String>)
        requires
            self.wf(),
        ensures
            match r {
                Ok(server) => self.at < self.servers@.len() && server@
                    == self.servers@[self.at as int]@,
                Err(error) => {
                    &&& self.at == self.servers@.len()
                    &&& error@ == match self.last_err {
                        Some(err) => err@,
                        None => "STUN sem servidores"@,
                    }
                },
            },
    {
        if self.at < self.servers.len() {
            return Ok(self.servers[self.at].as_str().to_owned());
        }
        match &self.last_err {
            Some(err) => Err(err.as_str().to_owned()),
            None => Err("STUN sem servidores".to_owned()),
        }
    }

    /// Goes on after a server was asked. The result is the endpoint, where it was told.
    pub fn asked(&mut self, attempt: StunAttempt) -> (r: Option<SocketAddr>)
        requires
            old(self).at < old(self).servers@.len(),
        ensures
            final(self).wf(),
            final(self).servers == old(self).servers,
            final(self).at == old(self).at + 1,
            text::text_in(final(self).last_err) == match attempt_error(
                old(self).servers@[old(self).at as int]@,
                attempt,
            ) {
                Some(err) => Some(err),
                None => text::text_in(old(self).last_err),
            },
            r == match attempt {
                StunAttempt::Found(addr) => Some(addr),
                _ => None,
            },
    {
        let total: usize = self.servers.len();
        assert(self.at < total);
        let (start, err) = match attempt {
            StunAttempt::Found(addr) => {
                self.at = self.at + 1;
                return Some(addr);
            },
            StunAttempt::Unresolved(err) => ("falha ao resolver STUN ", err),
            StunAttempt::Failed(err) => ("falha STUN ", err),
        };
        let mut line = text::joined(start, self.servers[self.at].as_str());
        line.append(": ");
        line.append(err.as_str());
        self.last_err = Some(line);
        self.at = self.at + 1;
        None
    }
}

/// What goes wrong with a server is told with its name and the reason; an answer is nothing wrong.
pub proof fn law_failed_servers_are_told(server: Seq<char>, attempt: StunAttempt)
    ensures
        attempt matches StunAttempt::Unresolved(err) ==> attempt_error(server, attempt) == Some(
            "falha ao resolver STUN "@ + server + ": "@ + err@,
        ),
        attempt matches StunAttempt::Failed(err) ==> attempt_error(server, attempt) == Some(
            "falha STUN "@ + server + ": "@ + err@,
        ),
        attempt is Found <==> attempt_error(server, attempt) is None,
{
}

/// The news of a search for the public endpoint. None is told where it took too long.
pub fn endpoint_events(found: Result<Option<SocketAddr>, String>) -> (r: Vec<NetEvent>)
    ensures
        commands::event_forms(r@) == (match found {
            Ok(Some(endpoint)) => seq![
                EventForm::PublicEndpoint(endpoint),
                EventForm::Log("endpoint publico "@ + endpoint.text_spec()),
            ],
            Ok(None) => seq![EventForm::Log("stun indisponivel"@)],
            Err(err) => seq![EventForm::Log("stun erro "@ + err@)],
        }),
{
    let mut r: Vec<NetEvent> = Vec::new();
    match found {
        Ok(Some(endpoint)) => {
            r.push(NetEvent::PublicEndpoint(endpoint));
            r.push(transfer::log_line("endpoint publico ", endpoint.text().as_str()));
            assert(commands::event_forms(r@) =~= seq![
                EventForm::PublicEndpoint(endpoint),
                EventForm::Log("endpoint publico "@ + endpoint.text_spec()),
            ]);
        },
        Ok(None) => {
            r.push(NetEvent::Log("stun indisponivel".to_owned()));
            assert(commands::event_forms(r@) =~= seq![EventForm::Log("stun indisponivel"@)]);
        },
        Err(err) => {
            r.push(transfer::log_line("stun erro ", err.as_str()));
            assert(commands::event_forms(r@) =~= seq![EventForm::Log("stun erro "@ + err@)]);
        },
    }
    r
}

// ---------------------------------------------------------------- the state of the transport

/// A peer that is being reached: since when, and when the last packet went to it, if any did.
#[derive(Clone, Copy, Debug)]
pub struct PunchState {
    pub peer: SocketAddr,
    pub started: u64,
    pub last_sent: Option<u64>,
}

impl PunchState {
    /// A peer that is to be reached from now on.
    pub fn new(peer: SocketAddr, now: u64) -> (r: PunchState)
        ensures
            r == (PunchState { peer, started: now, last_sent: None }),
    {
        PunchState { peer, started: now, last_sent: None }
    }
}

/// A file that is coming in.
#[derive(Debug)]
pub struct IncomingFile {
    pub path: FilePath,
    pub size: u64,
    pub bytes_written: u64,
}

/// A file that is coming in, as a value of mathematics.
pub struct IncomingFileForm {
    pub path: PathForm,
    pub size: u64,
    pub bytes_written: u64,
}

impl View for IncomingFile {
    type V = IncomingFileForm;

    open spec fn view(&self) -> IncomingFileForm {
        IncomingFileForm {
            path: self.path@,
            size: self.size,
            bytes_written: self.bytes_written,
        }
    }
}

/// What the transport knows.
pub struct DatagramState {
    pub connected_peer: Option<SocketAddr>,
    pub punch: Option<PunchState>,
    pub session_dir: Option<FilePath>,
    pub incoming: HashMap<u64, IncomingFile>,
    pub next_punch_nonce: u64,
}

/// What the transport knows, as a value of mathematics.
pub struct DatagramForm {
    pub connected_peer: Option<SocketAddr>,
    pub punch: Option<PunchState>,
    pub session_dir: Option<PathForm>,
    pub incoming: Map<u64, IncomingFileForm>,
    pub next_punch_nonce: u64,
}

impl View for DatagramState {
    type V = DatagramForm;

    open spec fn view(&self) -> DatagramForm {
        DatagramForm {
            connected_peer: self.connected_peer,
            punch: self.punch,
            session_dir: match self.session_dir {
                Some(dir) => Some(dir@),
                None => None,
            },
            incoming: self.incoming@.map_values(|f: IncomingFile| f@),
            next_punch_nonce: self.next_punch_nonce,
        }
    }
}

/// What a packet or a command asks for.
#[derive(Debug)]
pub enum PacketAction {
    /// A message in order to an address.
    Send(SocketAddr, PacketMessage),
    /// A message to an address that may be lost.
    SendLoose(SocketAddr, PacketMessage),
    /// News for the screen.
    Emit(NetEvent),
    /// The directory for received files is made.
    EnsureSession,
    /// A file is made in the directory for received files.
    Create { file_id: u64, name: String, size: u64 },
    /// Bytes are put behind those of a file.
    Write { file_id: u64, data: Vec<u8> },
    /// A file is closed.
    Flush(u64),
    /// A file is removed.
    Remove { file_id: u64, path: FilePath },
}

/// What a packet or a command asks for, as a value of mathematics.
pub enum PacketActionForm {
    Send(SocketAddr, PacketForm),
    SendLoose(SocketAddr, PacketForm),
    Emit(EventForm),
    EnsureSession,
    Create { file_id: u64, name: Seq<char>, size: u64 },
    Write { file_id: u64, data: Seq<u8> },
    Flush(u64),
    Remove { file_id: u64, path: PathForm },
}

impl View for PacketAction {
    type V = PacketActionForm;

    open spec fn view(&self) -> PacketActionForm {
        match *self {
            PacketAction::Send(addr, m) => PacketActionForm::Send(addr, m@),
            PacketAction::SendLoose(addr, m) => PacketActionForm::SendLoose(addr, m@),
            PacketAction::Emit(e) => PacketActionForm::Emit(e@),
            PacketAction::EnsureSession => PacketActionForm::EnsureSession,
            PacketAction::Create { file_id, name, size } => PacketActionForm::Create {
                file_id,
                name: name@,
                size,
            },
            PacketAction::Write { file_id, data } => PacketActionForm::Write {
                file_id,
                data: data@,
            },
            PacketAction::Flush(file_id) => PacketActionForm::Flush(file_id),
            PacketAction::Remove { file_id, path } => PacketActionForm::Remove {
                file_id,
                path: path@,
            },
        }
    }
}

/// The actions of a list.
pub open spec fn packet_actions(v: Seq<PacketAction>) -> Seq<PacketActionForm> {
    v.map_values(|a: PacketAction| a@)
}

impl DatagramState {
    /// The transport on an open socket, with the peer that is to be reached, if any.
    pub fn new(bind_addr: SocketAddr, initial_peer: Option<SocketAddr>, now: u64) -> (r: (
        DatagramState,
        Vec<NetEvent>,
    ))
        ensures
            r.0@ == (DatagramForm {
                connected_peer: None,
                punch: match initial_peer {
                    Some(peer) => Some(PunchState { peer, started: now, last_sent: None }),
                    None => None,
                },
                session_dir: None,
                incoming: Map::empty(),
                next_punch_nonce: 1,
            }),
            commands::event_forms(r.1@) == seq![
                EventForm::Log("escutando "@ + bind_addr.text_spec()),
            ] + (match initial_peer {
                Some(peer) => seq![EventForm::PeerConnecting(peer)],
                None => Seq::empty(),
            }),
    {
        let mut events: Vec<NetEvent> = Vec::new();
        events.push(transfer::log_line("escutando ", bind_addr.text().as_str()));
        let mut punch: Option<PunchState> = None;
        if let Some(peer) = initial_peer {
            punch = Some(PunchState::new(peer, now));
            events.push(NetEvent::PeerConnecting(peer));
        }
        assert(commands::event_forms(events@) =~= seq![
            EventForm::Log("escutando "@ + bind_addr.text_spec()),
        ] + (match initial_peer {
            Some(peer) => seq![EventForm::PeerConnecting(peer)],
            None => Seq::empty(),
        }));
        let state = DatagramState {
            connected_peer: None,
            punch,
            session_dir: None,
            incoming: HashMap::new(),
            next_punch_nonce: 1,
        };
        assert(state@.incoming =~= Map::empty());
        (state, events)
    }
}

// ---------------------------------------------------------------- reaching the peer

/// Whether a peer is given up.
pub open spec fn timed_out(punch: PunchState, now: u64) -> bool {
    transfer::elapsed(punch.started, now) >= PUNCH_TIMEOUT_NANOS
}

/// Whether the next packet to a peer is due. The first is due at once.
pub open spec fn punch_due(punch: PunchState, now: u64) -> bool {
    match punch.last_sent {
        Some(sent) => transfer::elapsed(sent, now) >= PUNCH_INTERVAL_NANOS,
        None => true,
    }
}

/// The transport after an instant passed.
pub open spec fn after_tick(state: DatagramForm, now: u64) -> DatagramForm {
    match state.punch {
        Some(punch) => if timed_out(punch, now) {
            DatagramForm { punch: None, ..state }
        } else if punch_due(punch, now) {
            DatagramForm {
                punch: Some(PunchState { last_sent: Some(now), ..punch }),
                next_punch_nonce: transfer::id_after(state.next_punch_nonce),
                ..state
            }
        } else {
            state
        },
        None => state,
    }
}

/// What an instant asks for.
pub open spec fn tick_action(state: DatagramForm, now: u64) -> Option<PacketActionForm> {
    match state.punch {
        Some(punch) => if timed_out(punch, now) {
            Some(PacketActionForm::Emit(EventForm::PeerTimeout(punch.peer)))
        } else if punch_due(punch, now) {
            Some(
                PacketActionForm::SendLoose(
                    punch.peer,
                    PacketForm::Punch { nonce: state.next_punch_nonce },
                ),
            )
        } else {
            None
        },
        None => None,
    }
}

impl DatagramState {
    /// Goes on as time passes: a peer that is being reached is sent the next packet, or given
    /// up.
    pub fn tick(&mut self, now: u64) -> (r: Option<PacketAction>)
        ensures
            final(self)@ == after_tick(old(self)@, now),
            (match r {
                Some(action) => Some(action@),
                None => None,
            }) == tick_action(old(self)@, now),
    {
        let punch = match self.punch {
            Some(punch) => punch,
            None => {
                return None;
            },
        };
        if now.saturating_sub(punch.started) >= PUNCH_TIMEOUT_NANOS {
            self.punch = None;
            return Some(PacketAction::Emit(NetEvent::PeerTimeout(punch.peer)));
        }
        let due = match punch.last_sent {
            Some(sent) => now.saturating_sub(sent) >= PUNCH_INTERVAL_NANOS,
            None => true,
        };
        if !due {
            return None;
        }
        let nonce: u64 = self.next_punch_nonce;
        self.next_punch_nonce = if nonce == u64::MAX {
            0
        } else {
            nonce + 1
        };
        self.punch = Some(
            PunchState { peer: punch.peer, started: punch.started, last_sent: Some(now) },
        );
        Some(PacketAction::SendLoose(punch.peer, PacketMessage::Punch { nonce }))
    }
}

/// A peer that does not answer is given up once its time is over, and nothing more is asked
/// for on its behalf.
pub proof fn law_silent_peer_is_given_up(state: DatagramForm, now: u64, later: u64)
    requires
        state.punch is Some,
        timed_out(state.punch->0, now),
    ensures
        after_tick(state, now).punch is None,
        tick_action(after_tick(state, now), later) is None,
{
}

/// Two packets that open the way lie an interval apart: after one, none is due before.
pub proof fn law_packets_lie_apart(state: DatagramForm, now: u64, later: u64)
    requires
        tick_action(state, now) is Some,
        now <= later,
        later - now < PUNCH_INTERVAL_NANOS,
        state.punch is Some,
        !timed_out(state.punch->0, later),
    ensures
        tick_action(after_tick(state, now), later) is None,
{
}

/// While a peer is being reached and its ten seconds are not over, the first tick sends a packet to
/// it, and so does every tick at least a fifth of a second after the last packet, however many were
/// sent before: each carries the next number. Between two packets a tick does nothing.
pub proof fn law_packets_go_on_until_the_timeout(state: DatagramForm, now: u64)
    requires
        state.punch is Some,
        now < state.punch->0.started + 10_000_000_000,
    ensures
        ({
            let punch = state.punch->0;
            let after = after_tick(state, now);
            if punch.last_sent is None || now >= punch.last_sent->0 + 200_000_000 {
                &&& tick_action(state, now) == Some(
                    PacketActionForm::SendLoose(
                        punch.peer,
                        PacketForm::Punch { nonce: state.next_punch_nonce },
                    ),
                )
                &&& after.next_punch_nonce == (state.next_punch_nonce + 1)
                    % 0x1_0000_0000_0000_0000
                &&& after.punch matches Some(p) && p.peer == punch.peer && p.started
                    == punch.started && p.last_sent == Some(now)
                &&& after.connected_peer == state.connected_peer
                &&& after.session_dir == state.session_dir
                &&& after.incoming == state.incoming
            } else {
                &&& tick_action(state, now) is None
                &&& after == state
            }
        }),
{
}

/// A peer that is being reached is given up at its tenth second, whatever was sent to it, and the
/// screen is told which. Where no peer is being reached a tick does nothing.
pub proof fn law_peer_is_given_up_in_time(state: DatagramForm, now: u64)
    ensures
        state.punch is None ==> tick_action(state, now) is None && after_tick(state, now) == state,
        state.punch is Some && now >= state.punch->0.started + 10_000_000_000 ==> {
            let after = after_tick(state, now);
            &&& tick_action(state, now) == Some(
                PacketActionForm::Emit(EventForm::PeerTimeout(state.punch->0.peer)),
            )
            &&& after.punch is None
            &&& after.connected_peer == state.connected_peer
            &&& after.session_dir == state.session_dir
            &&& after.incoming == state.incoming
            &&& after.next_punch_nonce == state.next_punch_nonce
        },
{
}

// ---------------------------------------------------------------- commands

/// What comes after a command.
#[derive(Debug)]
pub enum AfterCommand {
    /// The transport goes on.
    Continue,
    /// The transport ends.
    Stop,
    /// Files are sent to the peer.
    SendFiles { peer: SocketAddr, files: Vec<FilePath> },
}

impl DatagramState {
    /// Takes a command in. A packet socket does not listen elsewhere, so such a command does
    /// nothing.
    pub fn handle_command(&mut self, cmd: NetCommand, now: u64) -> (r: (
        Option<NetEvent>,
        AfterCommand,
    ))
        ensures
            final(self)@ == (match cmd {
                NetCommand::ConnectPeer(addr) => DatagramForm {
                    connected_peer: None,
                    punch: Some(PunchState { peer: addr, started: now, last_sent: None }),
                    ..old(self)@
                },
                _ => old(self)@,
            }),
            (match r.0 {
                Some(e) => Some(e@),
                None => None,
            }) == (match cmd {
                NetCommand::ConnectPeer(addr) => Some(EventForm::PeerConnecting(addr)),
                NetCommand::CancelTransfers => Some(EventForm::Log("cancelamento solicitado"@)),
                NetCommand::SendFiles(_) => if old(self)@.connected_peer is None {
                    Some(EventForm::Log("parceiro nao definido"@))
                } else {
                    None
                },
                _ => None,
            }),
            r.1 == (match cmd {
                NetCommand::Shutdown => AfterCommand::Stop,
                NetCommand::SendFiles(files) => match old(self)@.connected_peer {
                    Some(peer) => AfterCommand::SendFiles { peer, files },
                    None => AfterCommand::Continue,
                },
                _ => AfterCommand::Continue,
            }),
    {
        match cmd {
            NetCommand::ConnectPeer(addr) => {
                self.connected_peer = None;
                self.punch = Some(PunchState::new(addr, now));
                (Some(NetEvent::PeerConnecting(addr)), AfterCommand::Continue)
            },
            NetCommand::CancelTransfers => {
                (
                    Some(NetEvent::Log("cancelamento solicitado".to_owned())),
                    AfterCommand::Continue,
                )
            },
            NetCommand::SendFiles(files) => match self.connected_peer {
                Some(peer) => (None, AfterCommand::SendFiles { peer, files }),
                None => (
                    Some(NetEvent::Log("parceiro nao definido".to_owned())),
                    AfterCommand::Continue,
                ),
            },
            NetCommand::Rebind(_) => (None, AfterCommand::Continue),
            NetCommand::Shutdown => (None, AfterCommand::Stop),
        }
    }
}

/// Goes on after files were sent, or could not be: the news, and whether the transport ends.
pub fn files_sent(result: Result<SendOutcome, String>) -> (r: (Option<NetEvent>, bool))
    ensures
        (match r.0 {
            Some(e) => Some(e@),
            None => None,
        }) == (match result {
            Ok(SendOutcome::Canceled) => Some(EventForm::Log("transferencia cancelada"@)),
            Ok(_) => None,
            Err(err) => Some(EventForm::Log("erro ao enviar "@ + err@)),
        }),
        r.1 == (result matches Ok(outcome) && outcome is Shutdown),
{
    match result {
        Ok(SendOutcome::Completed) => (None, false),
        Ok(SendOutcome::Canceled) => (
            Some(NetEvent::Log("transferencia cancelada".to_owned())),
            false,
        ),
        Ok(SendOutcome::Shutdown) => (None, true),
        Err(err) => (Some(transfer::log_line("erro ao enviar ", err.as_str())), false),
    }
}

// ---------------------------------------------------------------- packets

/// What a message from an address asks for. The name of a file to make is given apart.
pub open spec fn message_actions(
    state: DatagramForm,
    message: PacketForm,
    from: SocketAddr,
    file_name: Seq<char>,
) -> Seq<PacketActionForm> {
    match message {
        PacketForm::Hello { .. } => if state.session_dir is None {
            seq![PacketActionForm::EnsureSession]
        } else {
            Seq::empty()
        },
        PacketForm::Punch { .. } => seq![
            PacketActionForm::Send(from, PacketForm::Hello { version: HELLO_VERSION }),
        ],
        PacketForm::Cancel { file_id } => if state.incoming.contains_key(file_id) {
            seq![
                PacketActionForm::Remove { file_id, path: state.incoming[file_id].path },
                PacketActionForm::Emit(
                    EventForm::ReceiveCanceled { file_id, path: state.incoming[file_id].path },
                ),
            ]
        } else {
            Seq::empty()
        },
        PacketForm::FileMeta { file_id, name, size } => seq![
            PacketActionForm::Create { file_id, name: file_name, size },
        ],
        PacketForm::FileChunk { file_id, data } => if state.incoming.contains_key(file_id) {
            seq![PacketActionForm::Write { file_id, data }]
        } else {
            Seq::empty()
        },
        PacketForm::FileDone { file_id } => if state.incoming.contains_key(file_id) {
            done_actions(file_id, state.incoming[file_id])
        } else {
            Seq::empty()
        },
    }
}

/// What the end of a file asks for.
pub open spec fn done_actions(file_id: u64, file: IncomingFileForm) -> Seq<PacketActionForm> {
    seq![
        PacketActionForm::Flush(file_id),
        PacketActionForm::Emit(EventForm::FileReceived { file_id, path: file.path, from: None }),
    ] + (if file.bytes_written != file.size {
        seq![
            PacketActionForm::Emit(
                EventForm::Log(
                    "tamanho divergente "@ + text::decimal(file.bytes_written as nat) + " bytes"@,
                ),
            ),
        ]
    } else {
        Seq::empty()
    })
}

/// The transport after a message from an address. The first message makes its sender the peer.
pub open spec fn after_message(state: DatagramForm, message: PacketForm, from: SocketAddr) ->
    DatagramForm {
    let known = DatagramForm {
        connected_peer: Some(
            match state.connected_peer {
                Some(peer) => peer,
                None => from,
            },
        ),
        ..state
    };
    match message {
        PacketForm::Cancel { file_id } => DatagramForm {
            incoming: state.incoming.remove(file_id),
            ..known
        },
        PacketForm::FileDone { file_id } => DatagramForm {
            incoming: state.incoming.remove(file_id),
            ..known
        },
        _ => known,
    }
}

/// Whether a new peer is the one that is being reached: it has its address, or at least its
/// host.
pub open spec fn reaches(punch: PunchState, from: SocketAddr) -> bool {
    punch.peer == from || punch.peer.ip_spec() == from.ip_spec()
}

/// The transport after its peer was found.
pub open spec fn after_peer(state: DatagramForm, from: SocketAddr) -> DatagramForm {
    match state.punch {
        Some(punch) => if reaches(punch, from) {
            DatagramForm { punch: None, ..state }
        } else {
            state
        },
        None => state,
    }
}

impl DatagramState {
    /// Takes a message in. The result says what it asks for, and whether its sender is a new
    /// peer.
    pub fn handle_incoming_message(&mut self, message: PacketMessage, from: SocketAddr) -> (r: (
        bool,
        Vec<PacketAction>,
    ))
        ensures
            r.0 == (old(self)@.connected_peer is None),
            final(self)@ == after_message(old(self)@, message@, from),
            ({
                let asked = packet_actions(r.1@);
                match message@ {
                    PacketForm::FileMeta { file_id, name, size } => exists|kept: Seq<char>|
                        names::kept_as(name, kept) && asked == #[trigger] message_actions(
                            old(self)@,
                            message@,
                            from,
                            kept,
                        ),
                    _ => asked == message_actions(old(self)@, message@, from, Seq::empty()),
                }
            }),
    {
        let ghost said = message@;
        let ghost was = self@;
        let ghost mut kept = Seq::<char>::empty();
        let mut actions: Vec<PacketAction> = Vec::new();
        let new_peer = self.connected_peer.is_none();
        if new_peer {
            self.connected_peer = Some(from);
        }
        match message {
            PacketMessage::Hello { version: _ } => {
                if self.session_dir.is_none() {
                    actions.push(PacketAction::EnsureSession);
                }
            },
            PacketMessage::Punch { nonce: _ } => {
                actions.push(
                    PacketAction::Send(from, PacketMessage::Hello { version: HELLO_VERSION }),
                );
            },
            PacketMessage::Cancel { file_id } => {
                let gone = self.incoming.remove(&file_id);
                assert(self@.incoming =~= was.incoming.remove(file_id));
                if let Some(file) = gone {
                    actions.push(PacketAction::Remove { file_id, path: file.path.copied() });
                    actions.push(
                        PacketAction::Emit(NetEvent::ReceiveCanceled { file_id, path: file.path }),
                    );
                }
            },
            PacketMessage::FileMeta { file_id, name, size } => {
                let name = names::sanitize_file_name(name.as_str());
                proof {
                    kept = name@;
                }
                actions.push(PacketAction::Create { file_id, name, size });
            },
            PacketMessage::FileChunk { file_id, data } => {
                if self.incoming.contains_key(&file_id) {
                    actions.push(PacketAction::Write { file_id, data });
                }
            },
            PacketMessage::FileDone { file_id } => {
                let gone = self.incoming.remove(&file_id);
                assert(self@.incoming =~= was.incoming.remove(file_id));
                if let Some(file) = gone {
                    assert(was.incoming[file_id] == file@);
                    self.file_done(&mut actions, file_id, file);
                }
            },
        }
        assert(packet_actions(actions@) =~= message_actions(was, said, from, kept));
        (new_peer, actions)
    }

    fn file_done(&self, actions: &mut Vec<PacketAction>, file_id: u64, file: IncomingFile)
        requires
            old(actions)@.len() == 0,
        ensures
            packet_actions(final(actions)@) == done_actions(file_id, file@),
    {
        let ghost was = file@;
        let differs = file.bytes_written != file.size;
        let written: u64 = file.bytes_written;
        actions.push(PacketAction::Flush(file_id));
        actions.push(
            PacketAction::Emit(NetEvent::FileReceived { file_id, path: file.path, from: None }),
        );
        if differs {
            let mut line = text::joined(
                "tamanho divergente ",
                text::number_text(written).as_str(),
            );
            line.append(" bytes");
            actions.push(PacketAction::Emit(NetEvent::Log(line)));
        }
        assert(packet_actions(actions@) =~= done_actions(file_id, was));
    }

    /// Takes the peer that a message came from as found.
    pub fn peer_found(&mut self, from: SocketAddr) -> (r: NetEvent)
        ensures
            final(self)@ == after_peer(old(self)@, from),
            r@ == EventForm::PeerConnected(from),
    {
        if let Some(punch) = self.punch {
            if punch.peer == from || punch.peer.ip() == from.ip() {
                self.punch = None;
            }
        }
        NetEvent::PeerConnected(from)
    }

    /// Takes a packet in. A packet that is no message only leaves a line in the log.
    pub fn receive(&mut self, payload: &[u8], from: SocketAddr) -> (r: Vec<PacketAction>)
        ensures
            match packet_messages::decoded_prefix(payload@) {
                Ok((message, _)) => {
                    let told = if old(self)@.connected_peer is None {
                        seq![PacketActionForm::Emit(EventForm::PeerConnected(from))]
                    } else {
                        Seq::empty()
                    };
                    let after = after_message(old(self)@, message, from);
                    &&& final(self)@ == if old(self)@.connected_peer is None {
                        after_peer(after, from)
                    } else {
                        after
                    }
                    &&& match message {
                        PacketForm::FileMeta { file_id, name, size } => exists|kept: Seq<char>|
                            names::kept_as(name, kept) && packet_actions(r@) == #[trigger] message_actions(
                                old(self)@,
                                message,
                                from,
                                kept,
                            ) + told,
                        _ => packet_actions(r@) == message_actions(
                            old(self)@,
                            message,
                            from,
                            Seq::empty(),
                        ) + told,
                    }
                },
                Err(error) => {
                    &&& final(self)@ == old(self)@
                    &&& packet_actions(r@) == seq![
                        PacketActionForm::Emit(
                            EventForm::Log("erro ao decodificar "@ + error.words),
                        ),
                    ]
                },
            },
    {
        let message = match packet_messages::deserialize_packet(payload) {
            Ok(message) => message,
            Err(error) => {
                let mut r: Vec<PacketAction> = Vec::new();
                let line = text::joined("erro ao decodificar ", error.words.as_str());
                let ghost said = line@;
                r.push(PacketAction::Emit(NetEvent::Log(line)));
                assert(packet_actions(r@) =~= seq![PacketActionForm::Emit(EventForm::Log(said))]);
                return r;
            },
        };
        let (new_peer, mut actions) = self.handle_incoming_message(message, from);
        let ghost first = actions@;
        if new_peer {
            let told = self.peer_found(from);
            actions.push(PacketAction::Emit(told));
            assert(packet_actions(actions@) =~= packet_actions(first) + seq![
                PacketActionForm::Emit(EventForm::PeerConnected(from)),
            ]);
        } else {
            assert(packet_actions(actions@) =~= packet_actions(first) + Seq::empty());
        }
        actions
    }
}

/// A message from the peer that is being reached ends the search: nothing more is sent to open
/// the way, and the peer is not given up.
pub proof fn law_answer_ends_the_search(
    state: DatagramForm,
    message: PacketForm,
    from: SocketAddr,
    later: u64,
)
    requires
        state.connected_peer is None,
        state.punch is Some,
        reaches(state.punch->0, from),
    ensures
        ({
            let after = after_peer(after_message(state, message, from), from);
            &&& after.connected_peer == Some(from)
            &&& tick_action(after, later) is None
            &&& after_tick(after, later) == after
        }),
{
}

/// Every packet that opens the way is answered with a greeting to where it came from; a greeting has
/// the directory made where there is none; a file that begins is made under the name given.
pub proof fn law_packets_are_answered(
    state: DatagramForm,
    version: u8,
    nonce: u64,
    file_id: u64,
    name: Seq<char>,
    size: u64,
    from: SocketAddr,
    kept: Seq<char>,
)
    ensures
        message_actions(state, PacketForm::Punch { nonce }, from, kept) == seq![
            PacketActionForm::Send(from, PacketForm::Hello { version: 1 }),
        ],
        ({
            let greeted = message_actions(state, PacketForm::Hello { version }, from, kept);
            &&& state.session_dir is None ==> greeted == seq![PacketActionForm::EnsureSession]
            &&& state.session_dir is Some ==> greeted.len() == 0
        }),
        message_actions(state, PacketForm::FileMeta { file_id, name, size }, from, kept) == seq![
            PacketActionForm::Create { file_id, name: kept, size },
        ],
{
}

/// Bytes of a file that is coming in are written, all of them; those of any other are passed over.
pub proof fn law_bytes_of_known_files_are_written(
    state: DatagramForm,
    file_id: u64,
    data: Seq<u8>,
    from: SocketAddr,
    kept: Seq<char>,
)
    ensures
        ({
            let actions = message_actions(
                state,
                PacketForm::FileChunk { file_id, data },
                from,
                kept,
            );
            &&& state.incoming.contains_key(file_id) ==> actions == seq![
                PacketActionForm::Write { file_id, data },
            ]
            &&& !state.incoming.contains_key(file_id) ==> actions.len() == 0
        }),
{
}

/// A file that the peer ends is closed and told to the screen with its path, with a complaint where
/// other than its size was written; one that the peer cancels is removed. Either way it is
/// forgotten, no other file is touched, and a number that is not known is passed over.
pub proof fn law_ended_files_are_settled(
    state: DatagramForm,
    file_id: u64,
    other: u64,
    from: SocketAddr,
    kept: Seq<char>,
)
    requires
        other != file_id,
    ensures
        ({
            let (done, cancel) = (PacketForm::FileDone { file_id }, PacketForm::Cancel { file_id });
            let ended = message_actions(state, done, from, kept);
            let canceled = message_actions(state, cancel, from, kept);
            let file = state.incoming[file_id];
            &&& !after_message(state, done, from).incoming.contains_key(file_id)
            &&& !after_message(state, cancel, from).incoming.contains_key(file_id)
            &&& state.incoming.contains_key(other) <==> after_message(
                state,
                done,
                from,
            ).incoming.contains_key(other)
            &&& state.incoming.contains_key(other) <==> after_message(
                state,
                cancel,
                from,
            ).incoming.contains_key(other)
            &&& state.incoming.contains_key(other) ==> after_message(
                state,
                done,
                from,
            ).incoming[other] == state.incoming[other] && after_message(
                state,
                cancel,
                from,
            ).incoming[other] == state.incoming[other]
            &&& if state.incoming.contains_key(file_id) {
                &&& ended.len() == (if file.bytes_written == file.size {
                    2nat
                } else {
                    3nat
                })
                &&& ended[0] == PacketActionForm::Flush(file_id)
                &&& ended[1] == PacketActionForm::Emit(
                    EventForm::FileReceived { file_id, path: file.path, from: None },
                )
                &&& file.bytes_written != file.size ==> ended[2] == PacketActionForm::Emit(
                    EventForm::Log(
                        "tamanho divergente "@ + text::decimal(file.bytes_written as nat)
                            + " bytes"@,
                    ),
                )
                &&& canceled.len() == 2
                &&& canceled[0] == (PacketActionForm::Remove { file_id, path: file.path })
                &&& canceled[1] == PacketActionForm::Emit(
                    EventForm::ReceiveCanceled { file_id, path: file.path },
                )
            } else {
                ended.len() == 0 && canceled.len() == 0
            }
        }),
{
}

/// A message touches no more than it speaks of: its sender is the peer where there was none, files
/// change only where one ends or is canceled, and all else stays.
pub proof fn law_packets_touch_no_more(state: DatagramForm, message: PacketForm, from: SocketAddr)
    ensures
        ({
            let after = after_message(state, message, from);
            &&& state.connected_peer is None ==> after.connected_peer == Some(from)
            &&& state.connected_peer is Some ==> after.connected_peer == state.connected_peer
            &&& after.punch == state.punch
            &&& after.session_dir == state.session_dir
            &&& after.next_punch_nonce == state.next_punch_nonce
            &&& !(message is Cancel) && !(message is FileDone) ==> after.incoming == state.incoming
        }),
{
}

/// A peer that is found ends the search for a peer with its host, whatever its port, and no other
/// search; nothing else changes.
pub proof fn law_found_host_ends_the_search(state: DatagramForm, from: SocketAddr)
    ensures
        ({
            let after = after_peer(state, from);
            &&& state.punch is None ==> after.punch is None
            &&& state.punch is Some && state.punch->0.peer.ip_spec() == from.ip_spec()
                ==> after.punch is None
            &&& state.punch is Some && state.punch->0.peer.ip_spec() != from.ip_spec()
                ==> after.punch == state.punch
            &&& after.connected_peer == state.connected_peer
            &&& after.session_dir == state.session_dir
            &&& after.incoming == state.incoming
            &&& after.next_punch_nonce == state.next_punch_nonce
        }),
{
}

// ---------------------------------------------------------------- files that come in

/// The transport after a file was made.
pub open spec fn after_created(state: DatagramForm, file_id: u64, path: PathForm, size: u64) ->
    DatagramForm {
    DatagramForm {
        incoming: state.incoming.insert(
            file_id,
            IncomingFileForm { path, size, bytes_written: 0 },
        ),
        ..state
    }
}

/// The transport after bytes were put behind those of a file that is coming in.
pub open spec fn after_written(state: DatagramForm, file_id: u64, len: nat) -> DatagramForm {
    let was = state.incoming[file_id];
    DatagramForm {
        incoming: state.incoming.insert(
            file_id,
            IncomingFileForm { bytes_written: (was.bytes_written + len) as u64, ..was },
        ),
        ..state
    }
}

impl DatagramState {
    /// Keeps the directory for received files, which was made. The result is for the screen.
    pub fn session_ready(&mut self, dir: FilePath) -> (r: NetEvent)
        ensures
            final(self)@ == (DatagramForm { session_dir: Some(dir@), ..old(self)@ }),
            r@ == EventForm::SessionDir(dir@),
    {
        let r = NetEvent::SessionDir(dir.copied());
        self.session_dir = Some(dir);
        r
    }

    /// Goes on after a file was made.
    pub fn file_created(&mut self, file_id: u64, path: FilePath, size: u64) -> (r: Vec<NetEvent>)
        ensures
            final(self)@ == after_created(old(self)@, file_id, path@, size),
            commands::event_forms(r@) == seq![
                EventForm::ReceiveStarted { file_id, path: path@, size },
                EventForm::Log("recebendo "@ + path@.text),
            ],
    {
        let ghost was = self@;
        let ghost p = path@;
        let mut r: Vec<NetEvent> = Vec::new();
        r.push(NetEvent::ReceiveStarted { file_id, path: path.copied(), size });
        r.push(transfer::log_line("recebendo ", path.text.as_str()));
        assert(commands::event_forms(r@) =~= seq![
            EventForm::ReceiveStarted { file_id, path: p, size },
            EventForm::Log("recebendo "@ + p.text),
        ]);
        self.incoming.insert(file_id, IncomingFile { path, size, bytes_written: 0 });
        assert(self@.incoming =~= was.incoming.insert(
            file_id,
            IncomingFileForm { path: p, size, bytes_written: 0 },
        ));
        r
    }

    /// Goes on after bytes were put behind those of a file.
    pub fn chunk_written(&mut self, file_id: u64, len: u64) -> (r: Option<NetEvent>)
        requires
            old(self)@.incoming.contains_key(file_id) ==> old(
                self,
            )@.incoming[file_id].bytes_written + len <= u64::MAX,
        ensures
            if old(self)@.incoming.contains_key(file_id) {
                let was = old(self)@.incoming[file_id];
                &&& final(self)@ == after_written(old(self)@, file_id, len as nat)
                &&& r matches Some(e) && e@ == (EventForm::ReceiveProgress {
                    file_id,
                    bytes_received: (was.bytes_written + len) as u64,
                    size: was.size,
                })
            } else {
                &&& final(self)@ == old(self)@
                &&& r is None
            },
    {
        let ghost was = self@;
        match self.incoming.remove(&file_id) {
            Some(mut file) => {
                let ghost before = file@;
                assert(was.incoming[file_id] == before);
                file.bytes_written = file.bytes_written + len;
                let ghost now = file@;
                let r = NetEvent::ReceiveProgress {
                    file_id,
                    bytes_received: file.bytes_written,
                    size: file.size,
                };
                self.incoming.insert(file_id, file);
                assert(self@.incoming =~= was.incoming.insert(file_id, now));
                Some(r)
            },
            None => {
                assert(self@.incoming =~= was.incoming);
                None
            },
        }
    }
}

/// The line for the log where a file could not be made.
pub fn create_failed(error: &str) -> (r: NetEvent)
    ensures
        r@ == EventForm::Log("erro ao criar arquivo "@ + error@),
{
    transfer::log_line("erro ao criar arquivo ", error)
}

/// The line for the log where bytes could not be put into a file.
pub fn write_failed(error: &str) -> (r: NetEvent)
    ensures
        r@ == EventForm::Log("erro ao gravar "@ + error@),
{
    transfer::log_line("erro ao gravar ", error)
}

/// A file that was made is known by its number, with its path and size and no bytes; bytes that are
/// written add to those of their file. No other file is touched, nor anything else.
pub proof fn law_written_bytes_add_up(
    state: DatagramForm,
    file_id: u64,
    path: PathForm,
    size: u64,
    len: nat,
    other: u64,
)
    requires
        other != file_id,
    ensures
        ({
            let made = after_created(state, file_id, path, size);
            &&& made.incoming.contains_key(file_id)
            &&& made.incoming[file_id].path == path
            &&& made.incoming[file_id].size == size
            &&& made.incoming[file_id].bytes_written == 0
            &&& made.incoming.contains_key(other) <==> state.incoming.contains_key(other)
            &&& state.incoming.contains_key(other) ==> made.incoming[other] == state.incoming[other]
            &&& made.connected_peer == state.connected_peer
            &&& made.punch == state.punch
            &&& made.session_dir == state.session_dir
            &&& made.next_punch_nonce == state.next_punch_nonce
        }),
        state.incoming.contains_key(file_id) && state.incoming[file_id].bytes_written + len
            <= u64::MAX ==> {
            let more = after_written(state, file_id, len);
            let was = state.incoming[file_id];
            &&& more.incoming.contains_key(file_id)
            &&& more.incoming[file_id].bytes_written == was.bytes_written + len
            &&& more.incoming[file_id].path == was.path
            &&& more.incoming[file_id].size == was.size
            &&& more.incoming.contains_key(other) <==> state.incoming.contains_key(other)
            &&& state.incoming.contains_key(other) ==> more.incoming[other] == state.incoming[other]
            &&& more.connected_peer == state.connected_peer
            &&& more.punch == state.punch
            &&& more.session_dir == state.session_dir
            &&& more.next_punch_nonce == state.next_punch_nonce
        },
{
}

// ---------------------------------------------------------------- sending files

/// What the socket and the screen are given.
#[derive(Debug)]
pub enum PacketStep {
    /// A message in order to the peer.
    Send(PacketMessage),
    /// News for the screen.
    Emit(NetEvent),
    /// The socket does its work.
    Poll,
}

/// A step as a value of mathematics.
pub enum PacketStepForm {
    Send(PacketForm),
    Emit(EventForm),
    Poll,
}

impl View for PacketStep {
    type V = PacketStepForm;

    open spec fn view(&self) -> PacketStepForm {
        match *self {
            PacketStep::Send(m) => PacketStepForm::Send(m@),
            PacketStep::Emit(e) => PacketStepForm::Emit(e@),
            PacketStep::Poll => PacketStepForm::Poll,
        }
    }
}

/// The steps of a list.
pub open spec fn packet_steps(v: Seq<PacketStep>) -> Seq<PacketStepForm> {
    v.map_values(|s: PacketStep| s@)
}

/// The file that is being sent.
#[derive(Debug)]
pub struct OutgoingFile {
    pub file_id: u64,
    pub path: FilePath,
    pub size: u64,
    pub sent: u64,
}

/// The file that is being sent, as a value of mathematics.
pub struct OutgoingFileForm {
    pub file_id: u64,
    pub path: PathForm,
    pub size: u64,
    pub sent: u64,
}

impl View for OutgoingFile {
    type V = OutgoingFileForm;

    open spec fn view(&self) -> OutgoingFileForm {
        OutgoingFileForm {
            file_id: self.file_id,
            path: self.path@,
            size: self.size,
            sent: self.sent,
        }
    }
}

/// Files on their way to a peer, one after the other.
#[derive(Debug)]
pub struct PacketSession {
    pub files: Vec<FilePath>,
    pub at: usize,
    pub next_file_id: u64,
    pub current: Option<OutgoingFile>,
}

/// Files on their way, as a value of mathematics.
pub struct PacketSessionForm {
    pub files: Seq<PathForm>,
    pub at: nat,
    pub next_file_id: u64,
    pub current: Option<OutgoingFileForm>,
}

impl View for PacketSession {
    type V = PacketSessionForm;

    open spec fn view(&self) -> PacketSessionForm {
        PacketSessionForm {
            files: path::paths(self.files@),
            at: self.at as nat,
            next_file_id: self.next_file_id,
            current: match self.current {
                Some(o) => Some(o@),
                None => None,
            },
        }
    }
}

/// A session whose next file was opened.
pub open spec fn opened_form(s: PacketSessionForm, size: u64) -> PacketSessionForm {
    PacketSessionForm {
        at: s.at + 1,
        next_file_id: (s.next_file_id + 1) as u64,
        current: Some(
            OutgoingFileForm {
                file_id: s.next_file_id,
                path: s.files[s.at as int],
                size,
                sent: 0,
            },
        ),
        ..s
    }
}

/// The steps after the next file was opened.
pub open spec fn opened_steps(s: PacketSessionForm, size: u64) -> Seq<PacketStepForm> {
    let path = s.files[s.at as int];
    seq![
        PacketStepForm::Send(
            PacketForm::FileMeta {
                file_id: s.next_file_id,
                name: transfer::sent_name(path),
                size,
            },
        ),
        PacketStepForm::Emit(EventForm::SendStarted { file_id: s.next_file_id, path, size }),
    ]
}

/// The steps with which bytes of a file are sent.
pub open spec fn chunk_steps(o: OutgoingFileForm, data: Seq<u8>) -> Seq<PacketStepForm> {
    seq![
        PacketStepForm::Send(PacketForm::FileChunk { file_id: o.file_id, data }),
        PacketStepForm::Emit(
            EventForm::SendProgress {
                file_id: o.file_id,
                bytes_sent: (o.sent + data.len()) as u64,
                size: o.size,
            },
        ),
        PacketStepForm::Poll,
    ]
}

/// The steps with which a file is given up. At the end of the program the screen is told
/// nothing more.
pub open spec fn stop_steps(o: OutgoingFileForm, outcome: SendOutcome) -> Seq<PacketStepForm> {
    let cancel = PacketStepForm::Send(PacketForm::Cancel { file_id: o.file_id });
    match outcome {
        SendOutcome::Canceled => seq![
            cancel,
            PacketStepForm::Emit(EventForm::SendCanceled { file_id: o.file_id, path: o.path }),
        ],
        SendOutcome::Shutdown => seq![cancel],
        SendOutcome::Completed => Seq::empty(),
    }
}

/// The steps at the end of a file.
pub open spec fn end_steps(o: OutgoingFileForm) -> Seq<PacketStepForm> {
    seq![
        PacketStepForm::Send(PacketForm::FileDone { file_id: o.file_id }),
        PacketStepForm::Emit(EventForm::FileSent { file_id: o.file_id, path: o.path }),
    ]
}

impl PacketSession {
    /// Whether the session is within its files.
    pub open spec fn wf(&self) -> bool {
        self.at <= self.files@.len()
    }

    /// Begins to send files. The peer is greeted first.
    pub fn start(files: Vec<FilePath>, next_file_id: u64) -> (r: (PacketSession, PacketStep))
        ensures
            r.0.wf(),
            r.0@ == (PacketSessionForm {
                files: path::paths(files@),
                at: 0,
                next_file_id,
                current: None,
            }),
            r.1@ == PacketStepForm::Send(PacketForm::Hello { version: HELLO_VERSION }),
    {
        let session = PacketSession { files, at: 0, next_file_id, current: None };
        (session, PacketStep::Send(PacketMessage::Hello { version: HELLO_VERSION }))
    }

    /// What comes next: the next file, unless there is none or a command stops the files.
    pub fn next_file(&self, queue: &mut Vec<NetCommand>, pending: &mut Vec<NetCommand>) -> (r:
        NextFile)
        requires
            self.wf(),
        ensures
            if self@.at == self@.files.len() {
                &&& r == NextFile::Done(SendOutcome::Completed)
                &&& final(queue)@ == old(queue)@
                &&& final(pending)@ == old(pending)@
            } else {
                &&& match transfer::queue_outcome(old(queue)@, false) {
                    SendOutcome::Completed => r matches NextFile::Open(p) && p@
                        == self@.files[self@.at as int],
                    outcome => r == NextFile::Done(outcome),
                }
                &&& final(queue)@ == transfer::left_over(old(queue)@, false)
                &&& final(pending)@ == old(pending)@ + transfer::put_off(old(queue)@, false)
            },
    {
        if self.at >= self.files.len() {
            return NextFile::Done(SendOutcome::Completed);
        }
        match transfer::poll_send_control(queue, pending) {
            SendOutcome::Completed => NextFile::Open(self.files[self.at].copied()),
            outcome => NextFile::Done(outcome),
        }
    }

    /// Goes on after the next file was opened. The numbers of files are not used up.
    pub fn opened(&mut self, size: u64) -> (r: Vec<PacketStep>)
        requires
            old(self).at < old(self).files@.len(),
            old(self).next_file_id < u64::MAX,
        ensures
            final(self).wf(),
            final(self)@ == opened_form(old(self)@, size),
            packet_steps(r@) == opened_steps(old(self)@, size),
    {
        let path = self.files[self.at].copied();
        let name = path.name_or("file.bin");
        let file_id: u64 = self.next_file_id;
        self.next_file_id = file_id + 1;
        let total: usize = self.files.len();
        assert(self.at < total);
        self.at = self.at + 1;
        let mut steps: Vec<PacketStep> = Vec::new();
        steps.push(PacketStep::Send(PacketMessage::FileMeta { file_id, name, size }));
        steps.push(
            PacketStep::Emit(NetEvent::SendStarted { file_id, path: path.copied(), size }),
        );
        self.current = Some(OutgoingFile { file_id, path, size, sent: 0 });
        assert(packet_steps(steps@) =~= opened_steps(old(self)@, size));
        steps
    }

    /// Goes on after bytes of the file were read. A command may stop the files.
    pub fn read(
        &mut self,
        data: Vec<u8>,
        queue: &mut Vec<NetCommand>,
        pending: &mut Vec<NetCommand>,
    ) -> (r: (Vec<PacketStep>, SendOutcome))
        requires
            old(self).wf(),
            old(self).current is Some,
            old(self)@.current->0.sent + data@.len() <= u64::MAX,
        ensures
            final(self).wf(),
            ({
                let o = old(self)@.current->0;
                &&& r.1 == transfer::queue_outcome(old(queue)@, false)
                &&& packet_steps(r.0@) == chunk_steps(o, data@) + stop_steps(o, r.1)
                &&& final(self)@ == (PacketSessionForm {
                    current: if r.1 is Completed {
                        Some(OutgoingFileForm { sent: (o.sent + data@.len()) as u64, ..o })
                    } else {
                        None
                    },
                    ..old(self)@
                })
            }),
            final(queue)@ == transfer::left_over(old(queue)@, false),
            final(pending)@ == old(pending)@ + transfer::put_off(old(queue)@, false),
    {
        let mut steps: Vec<PacketStep> = Vec::new();
        let outcome = transfer::poll_send_control(queue, pending);
        if let Some(mut o) = self.current.take() {
            let ghost was = o@;
            let ghost bytes = data@;
            o.sent = o.sent + data.len() as u64;
            steps.push(PacketStep::Send(PacketMessage::FileChunk { file_id: o.file_id, data }));
            steps.push(
                PacketStep::Emit(
                    NetEvent::SendProgress {
                        file_id: o.file_id,
                        bytes_sent: o.sent,
                        size: o.size,
                    },
                ),
            );
            steps.push(PacketStep::Poll);
            assert(packet_steps(steps@) =~= chunk_steps(was, bytes));
            let ghost first = steps@;
            match outcome {
                SendOutcome::Completed => {
                    self.current = Some(o);
                },
                SendOutcome::Canceled => {
                    steps.push(PacketStep::Send(PacketMessage::Cancel { file_id: o.file_id }));
                    steps.push(
                        PacketStep::Emit(
                            NetEvent::SendCanceled { file_id: o.file_id, path: o.path },
                        ),
                    );
                },
                SendOutcome::Shutdown => {
                    steps.push(PacketStep::Send(PacketMessage::Cancel { file_id: o.file_id }));
                },
            }
            assert(packet_steps(steps@) =~= packet_steps(first) + stop_steps(was, outcome));
        }
        (steps, outcome)
    }

    /// Goes on after the end of the file.
    pub fn file_ended(&mut self) -> (r: Vec<PacketStep>)
        requires
            old(self).wf(),
            old(self).current is Some,
        ensures
            final(self).wf(),
            final(self)@ == (PacketSessionForm { current: None, ..old(self)@ }),
            packet_steps(r@) == end_steps(old(self)@.current->0),
    {
        let mut steps: Vec<PacketStep> = Vec::new();
        if let Some(o) = self.current.take() {
            let ghost was = o@;
            steps.push(PacketStep::Send(PacketMessage::FileDone { file_id: o.file_id }));
            steps.push(
                PacketStep::Emit(NetEvent::FileSent { file_id: o.file_id, path: o.path }),
            );
            assert(packet_steps(steps@) =~= end_steps(was));
        }
        steps
    }
}

/// The next file is opened under the next number, and the peer is told its number, name and size
/// before the screen.
pub proof fn law_opened_file_is_announced(s: PacketSessionForm, size: u64)
    requires
        s.at < s.files.len(),
        s.next_file_id < u64::MAX,
    ensures
        ({
            let now = opened_form(s, size);
            let file = s.files[s.at as int];
            let steps = opened_steps(s, size);
            &&& now.files == s.files
            &&& now.at == s.at + 1
            &&& now.next_file_id == s.next_file_id + 1
            &&& now.current matches Some(o) && o.file_id == s.next_file_id && o.path == file
                && o.size == size && o.sent == 0
            &&& steps.len() == 2
            &&& steps[0] == PacketStepForm::Send(
                PacketForm::FileMeta {
                    file_id: s.next_file_id,
                    name: path::name_or_spec(file, "file.bin"@),
                    size,
                },
            )
            &&& steps[1] == PacketStepForm::Emit(
                EventForm::SendStarted { file_id: s.next_file_id, path: file, size },
            )
        }),
{
}

/// Bytes that were read go out whole, then the screen is told how much is sent, then the socket does
/// its work.
pub proof fn law_read_bytes_are_sent(o: OutgoingFileForm, data: Seq<u8>)
    requires
        o.sent + data.len() <= u64::MAX,
    ensures
        chunk_steps(o, data).len() == 3,
        chunk_steps(o, data)[0] == PacketStepForm::Send(
            PacketForm::FileChunk { file_id: o.file_id, data },
        ),
        chunk_steps(o, data)[1] matches PacketStepForm::Emit(e)
            && e matches EventForm::SendProgress { file_id, bytes_sent, size } && file_id
            == o.file_id && bytes_sent == o.sent + data.len() && size == o.size,
        chunk_steps(o, data)[2] is Poll,
{
}

/// A file that is given up is canceled at the peer by its number, and the screen is told where the
/// user canceled it; a file that ends is ended at the peer, and the screen is told that it is sent.
pub proof fn law_stopped_or_ended_file_is_told(o: OutgoingFileForm, outcome: SendOutcome)
    ensures
        ({
            let steps = stop_steps(o, outcome);
            &&& outcome is Completed <==> steps.len() == 0
            &&& !(outcome is Completed) ==> steps.len() >= 1 && steps[0] == PacketStepForm::Send(
                PacketForm::Cancel { file_id: o.file_id },
            )
            &&& outcome is Shutdown ==> steps.len() == 1
            &&& outcome is Canceled ==> steps.len() == 2 && steps[1] == PacketStepForm::Emit(
                EventForm::SendCanceled { file_id: o.file_id, path: o.path },
            )
        }),
        end_steps(o) == seq![
            PacketStepForm::Send(PacketForm::FileDone { file_id: o.file_id }),
            PacketStepForm::Emit(EventForm::FileSent { file_id: o.file_id, path: o.path }),
        ],
{
}

// ---------------------------------------------------------------- a whole file

/// The bytes in pieces.
pub open spec fn bytes_in(pieces: Seq<Seq<u8>>) -> nat
    decreases pieces.len(),
{
    if pieces.len() == 0 {
        0
    } else {
        bytes_in(pieces.drop_last()) + pieces.last().len()
    }
}

/// The steps with which the pieces of a file are sent.
pub open spec fn sent_pieces(o: OutgoingFileForm, pieces: Seq<Seq<u8>>) -> Seq<PacketStepForm>
    decreases pieces.len(),
{
    if pieces.len() == 0 {
        Seq::empty()
    } else {
        let less = pieces.drop_last();
        let mid = OutgoingFileForm { sent: (o.sent + bytes_in(less)) as u64, ..o };
        sent_pieces(o, less) + chunk_steps(mid, pieces.last())
    }
}

/// The messages among steps.
pub open spec fn messages_in(steps: Seq<PacketStepForm>) -> Seq<PacketForm>
    decreases steps.len(),
{
    if steps.len() == 0 {
        Seq::empty()
    } else {
        match steps.last() {
            PacketStepForm::Send(m) => messages_in(steps.drop_last()).push(m),
            _ => messages_in(steps.drop_last()),
        }
    }
}

/// The transport after messages with bytes of a file, each of which was put behind those before.
pub open spec fn after_messages(
    state: DatagramForm,
    from: SocketAddr,
    messages: Seq<PacketForm>,
) -> DatagramForm
    decreases messages.len(),
{
    if messages.len() == 0 {
        state
    } else {
        let mid = after_messages(state, from, messages.drop_last());
        let next = after_message(mid, messages.last(), from);
        match messages.last() {
            PacketForm::FileChunk { file_id, data } => if mid.incoming.contains_key(file_id) {
                after_written(next, file_id, data.len())
            } else {
                next
            },
            _ => next,
        }
    }
}

/// What those messages ask for.
pub open spec fn asked_over(
    state: DatagramForm,
    from: SocketAddr,
    messages: Seq<PacketForm>,
) -> Seq<PacketActionForm>
    decreases messages.len(),
{
    if messages.len() == 0 {
        Seq::empty()
    } else {
        let less = messages.drop_last();
        asked_over(state, from, less) + message_actions(
            after_messages(state, from, less),
            messages.last(),
            from,
            Seq::empty(),
        )
    }
}

/// A file arrives as it was sent: over the messages with its bytes, the receiver writes its
/// pieces, all of them and in order, and where they make up the size that was told the end of
/// the file leaves no complaint.
pub proof fn law_file_arrives(
    o: OutgoingFileForm,
    pieces: Seq<Seq<u8>>,
    state: DatagramForm,
    from: SocketAddr,
    path: PathForm,
)
    requires
        o.sent == 0,
        bytes_in(pieces) <= u64::MAX,
    ensures
        ({
            let begun = after_created(state, o.file_id, path, o.size);
            let messages = messages_in(sent_pieces(o, pieces));
            let end = PacketForm::FileDone { file_id: o.file_id };
            &&& asked_over(begun, from, messages) == pieces.map_values(
                |data: Seq<u8>| PacketActionForm::Write { file_id: o.file_id, data },
            )
            &&& message_actions(
                after_messages(begun, from, messages),
                end,
                from,
                Seq::empty(),
            ) == done_actions(
                o.file_id,
                IncomingFileForm { path, size: o.size, bytes_written: bytes_in(pieces) as u64 },
            )
            &&& bytes_in(pieces) == o.size ==> message_actions(
                after_messages(begun, from, messages),
                end,
                from,
                Seq::empty(),
            ) == seq![
                PacketActionForm::Flush(o.file_id),
                PacketActionForm::Emit(
                    EventForm::FileReceived { file_id: o.file_id, path, from: None },
                ),
            ]
        }),
{
    let begun = after_created(state, o.file_id, path, o.size);
    lemma_pieces_arrive(o, pieces, begun, from, path);
    if bytes_in(pieces) == o.size {
        assert(done_actions(
            o.file_id,
            IncomingFileForm { path, size: o.size, bytes_written: bytes_in(pieces) as u64 },
        ) =~= seq![
            PacketActionForm::Flush(o.file_id),
            PacketActionForm::Emit(
                EventForm::FileReceived { file_id: o.file_id, path, from: None },
            ),
        ]);
    }
}

proof fn lemma_pieces_arrive(
    o: OutgoingFileForm,
    pieces: Seq<Seq<u8>>,
    begun: DatagramForm,
    from: SocketAddr,
    path: PathForm,
)
    requires
        o.sent == 0,
        bytes_in(pieces) <= u64::MAX,
        begun.incoming.contains_key(o.file_id),
        begun.incoming[o.file_id] == (IncomingFileForm { path, size: o.size, bytes_written: 0 }),
    ensures
        ({
            let messages = messages_in(sent_pieces(o, pieces));
            let after = after_messages(begun, from, messages);
            &&& asked_over(begun, from, messages) == pieces.map_values(
                |data: Seq<u8>| PacketActionForm::Write { file_id: o.file_id, data },
            )
            &&& after.incoming.contains_key(o.file_id)
            &&& after.incoming[o.file_id] == (IncomingFileForm {
                path,
                size: o.size,
                bytes_written: bytes_in(pieces) as u64,
            })
        }),
    decreases pieces.len(),
{
    let writes = |data: Seq<u8>| PacketActionForm::Write { file_id: o.file_id, data };
    if pieces.len() == 0 {
        assert(asked_over(begun, from, messages_in(sent_pieces(o, pieces))) =~= pieces.map_values(
            writes,
        ));
    } else {
        let less = pieces.drop_last();
        let data = pieces.last();
        lemma_pieces_arrive(o, less, begun, from, path);
        let mid = OutgoingFileForm { sent: (o.sent + bytes_in(less)) as u64, ..o };
        let before = sent_pieces(o, less);
        let m = PacketForm::FileChunk { file_id: o.file_id, data };
        lemma_messages_of_chunk(before, mid, data);
        let messages = messages_in(sent_pieces(o, pieces));
        assert(messages == messages_in(before).push(m));
        assert(messages.drop_last() =~= messages_in(before));
        assert(pieces.map_values(writes) =~= less.map_values(writes) + seq![writes(data)]);
    }
}

proof fn lemma_messages_of_chunk(before: Seq<PacketStepForm>, o: OutgoingFileForm, data: Seq<u8>)
    ensures
        messages_in(before + chunk_steps(o, data)) == messages_in(before).push(
            PacketForm::FileChunk { file_id: o.file_id, data },
        ),
{
    reveal_with_fuel(messages_in, 4);
    let steps = chunk_steps(o, data);
    let three = before + steps;
    assert(three.drop_last() =~= before + steps.take(2));
    assert((before + steps.take(2)).drop_last() =~= before + steps.take(1));
    assert((before + steps.take(1)).drop_last() =~= before);
    assert(three.last() == steps[2]);
    assert((before + steps.take(2)).last() == steps[1]);
    assert((before + steps.take(1)).last() == steps[0]);
}

/// The servers that the user lists are asked, those and no others, unless the list names none; then
/// five known ones are.
pub proof fn law_listed_servers_are_asked(value: Seq<char>)
    ensures
        ({
            let listed = text::kept_pieces(text::pieces(value, ','));
            let known = seq![
                "stun.cloudflare.com:53"@,
                "stun.cloudflare.com:3478"@,
                "stunserver2024.stunprotocol.org:3478"@,
                "stun.sipgate.net:3478"@,
                "stun.l.google.com:19302"@,
            ];
            &&& listed.len() > 0 ==> servers(Some(value)) == listed
            &&& listed.len() == 0 ==> servers(Some(value)) == known
            &&& servers(None) == known
        }),
{
}

/// Packets carry a kibibyte of a file each, in the first channel; a greeting tells the first version.
pub proof fn law_packets_carry_a_kibibyte()
    ensures
        CHANNEL_ID == 0,
        CHUNK_SIZE == 1024,
        HELLO_VERSION == 1,
        PUNCH_TIMEOUT_NANOS == 10 * 1_000_000_000,
        PUNCH_INTERVAL_NANOS == 200 * 1_000_000,
{
}

} // verus!
