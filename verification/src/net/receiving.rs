//! What a peer's messages and file streams do to the connection and to the files that come in.

use std::collections::HashMap;

use vstd::prelude::*;

use crate::addr::SocketAddr;
use crate::net::commands;
use crate::net::commands::{EventForm, NetEvent};
use crate::net::messages::{WireForm, WireMessage};
use crate::net::names;
use crate::net::transfer;
use crate::path::{FilePath, PathForm};
use crate::text;

verus! {

broadcast use vstd::std_specs::hash::group_hash_axioms;

/// The version that greetings carry, and the first that is told its own address.
#[derive(Clone, Copy, Debug)]
pub struct Versions {
    pub protocol: u8,
    pub observed_endpoint: u8,
}

/// What is known of a connection. Each incoming file has the path that it is kept under.
pub struct LinkState {
    pub peer_addr: Option<SocketAddr>,
    pub session_dir: Option<FilePath>,
    pub public_endpoint: Option<SocketAddr>,
    pub incoming: HashMap<u64, FilePath>,
}

/// A connection as a value of mathematics.
pub struct LinkForm {
    pub peer_addr: Option<SocketAddr>,
    pub session_dir: Option<PathForm>,
    pub public_endpoint: Option<SocketAddr>,
    pub incoming: Map<u64, PathForm>,
}

impl View for LinkState {
    type V = LinkForm;

    open spec fn view(&self) -> LinkForm {
        LinkForm {
            peer_addr: self.peer_addr,
            session_dir: match self.session_dir {
                Some(dir) => Some(dir@),
                None => None,
            },
            public_endpoint: self.public_endpoint,
            incoming: self.incoming@.map_values(|p: FilePath| p@),
        }
    }
}

/// What a message asks for.
#[derive(Debug)]
pub enum LinkAction {
    /// The directory for received files is made.
    EnsureSession,
    /// A message goes back.
    Control(WireMessage),
    /// News for the screen.
    Emit(NetEvent),
    /// An incoming file is given up.
    Abort(u64),
    /// It is looked up how much of a file is there, and answered.
    QueryResume { file_id: u64, name: String, size: u64 },
}

/// What a message asks for, as a value of mathematics.
pub enum ActionForm {
    EnsureSession,
    Control(WireForm),
    Emit(EventForm),
    Abort(u64),
    QueryResume { file_id: u64, name: Seq<char>, size: u64 },
}

impl View for LinkAction {
    type V = ActionForm;

    open spec fn view(&self) -> ActionForm {
        match *self {
            LinkAction::EnsureSession => ActionForm::EnsureSession,
            LinkAction::Control(m) => ActionForm::Control(m@),
            LinkAction::Emit(e) => ActionForm::Emit(e@),
            LinkAction::Abort(file_id) => ActionForm::Abort(file_id),
            LinkAction::QueryResume { file_id, name, size } => ActionForm::QueryResume {
                file_id,
                name: name@,
                size,
            },
        }
    }
}

/// The actions of a list.
pub open spec fn action_forms(v: Seq<LinkAction>) -> Seq<ActionForm> {
    v.map_values(|a: LinkAction| a@)
}

/// What a message from an address asks for.
pub open spec fn message_actions(
    link: LinkForm,
    message: WireForm,
    from: SocketAddr,
    versions: Versions,
) -> Seq<ActionForm> {
    match message {
        WireForm::Hello { version } => {
            (if link.session_dir is None {
                seq![ActionForm::EnsureSession]
            } else {
                Seq::empty()
            }) + (if version >= versions.observed_endpoint {
                seq![ActionForm::Control(WireForm::ObservedEndpoint { addr: from })]
            } else {
                Seq::empty()
            })
        },
        WireForm::ObservedEndpoint { addr } => if link.public_endpoint == Some(addr) {
            Seq::empty()
        } else {
            seq![ActionForm::Emit(EventForm::PublicEndpoint(addr))]
        },
        WireForm::Punch { .. } => seq![
            ActionForm::Control(WireForm::Hello { version: versions.protocol }),
        ],
        WireForm::Cancel { file_id } => if link.incoming.contains_key(file_id) {
            seq![
                ActionForm::Abort(file_id),
                ActionForm::Emit(
                    EventForm::ReceiveCanceled { file_id, path: link.incoming[file_id] },
                ),
            ]
        } else {
            Seq::empty()
        },
        WireForm::ResumeQuery { file_id, name, size } => seq![
            ActionForm::QueryResume { file_id, name, size },
        ],
        _ => Seq::empty(),
    }
}

/// A connection after a message from an address. The first message makes its sender the peer.
pub open spec fn after_message(link: LinkForm, message: WireForm, from: SocketAddr) -> LinkForm {
    let known = LinkForm {
        peer_addr: Some(
            match link.peer_addr {
                Some(peer) => peer,
                None => from,
            },
        ),
        ..link
    };
    match message {
        WireForm::ObservedEndpoint { addr } => LinkForm { public_endpoint: Some(addr), ..known },
        WireForm::Cancel { file_id } => LinkForm {
            incoming: link.incoming.remove(file_id),
            ..known
        },
        _ => known,
    }
}

impl LinkState {
    /// A connection of which nothing is known.
    pub fn new() -> (r: LinkState)
        ensures
            r@ == (LinkForm {
                peer_addr: None,
                session_dir: None,
                public_endpoint: None,
                incoming: Map::empty(),
            }),
    {
        let r = LinkState {
            peer_addr: None,
            session_dir: None,
            public_endpoint: None,
            incoming: HashMap::new(),
        };
        assert(r@.incoming =~= Map::empty());
        r
    }

    /// Takes a message in. The result says what it asks for, and whether its sender is a new
    /// peer.
    pub fn handle_incoming_message(
        &mut self,
        message: WireMessage,
        from: SocketAddr,
        versions: Versions,
    ) -> (r: (bool, Vec<LinkAction>))
        ensures
            r.0 == (old(self)@.peer_addr is None),
            final(self)@ == after_message(old(self)@, message@, from),
            action_forms(r.1@) == message_actions(old(self)@, message@, from, versions),
    {
        let ghost said = message@;
        let ghost was = self@;
        let mut actions: Vec<LinkAction> = Vec::new();
        let new_peer = self.peer_addr.is_none();
        if new_peer {
            self.peer_addr = Some(from);
        }
        match message {
            WireMessage::Hello { version } => {
                if self.session_dir.is_none() {
                    actions.push(LinkAction::EnsureSession);
                }
                if version >= versions.observed_endpoint {
                    actions.push(LinkAction::Control(WireMessage::ObservedEndpoint { addr: from }));
                }
            },
            WireMessage::ObservedEndpoint { addr } => {
                let known = match self.public_endpoint {
                    Some(endpoint) => endpoint == addr,
                    None => false,
                };
                if !known {
                    self.public_endpoint = Some(addr);
                    actions.push(LinkAction::Emit(NetEvent::PublicEndpoint(addr)));
                }
            },
            WireMessage::Punch { nonce: _ } => {
                actions.push(LinkAction::Control(WireMessage::Hello { version: versions.protocol }));
            },
            WireMessage::Cancel { file_id } => {
                let gone = self.incoming.remove(&file_id);
                assert(self@.incoming =~= was.incoming.remove(file_id));
                if let Some(path) = gone {
                    actions.push(LinkAction::Abort(file_id));
                    actions.push(LinkAction::Emit(NetEvent::ReceiveCanceled { file_id, path }));
                }
            },
            WireMessage::ResumeQuery { file_id, name, size } => {
                actions.push(LinkAction::QueryResume { file_id, name, size });
            },
            _ => {},
        }
        assert(action_forms(actions@) =~= message_actions(was, said, from, versions));
        (new_peer, actions)
    }

    /// Keeps the directory for received files, which was made. The result is for the screen.
    pub fn session_ready(&mut self, dir: FilePath) -> (r: NetEvent)
        ensures
            final(self)@ == (LinkForm { session_dir: Some(dir@), ..old(self)@ }),
            r@ == EventForm::SessionDir(dir@),
    {
        let r = NetEvent::SessionDir(dir.copied());
        self.session_dir = Some(dir);
        r
    }

    /// Keeps the path of a file that is coming in.
    pub fn file_began(&mut self, file_id: u64, path: FilePath)
        ensures
            final(self)@ == (LinkForm {
                incoming: old(self)@.incoming.insert(file_id, path@),
                ..old(self)@
            }),
    {
        let ghost was = self@;
        let ghost p = path@;
        self.incoming.insert(file_id, path);
        assert(self@.incoming =~= was.incoming.insert(file_id, p));
    }

    /// Forgets a file that no longer comes in.
    pub fn file_ended(&mut self, file_id: u64)
        ensures
            final(self)@ == (LinkForm {
                incoming: old(self)@.incoming.remove(file_id),
                ..old(self)@
            }),
    {
        let ghost was = self@;
        self.incoming.remove(&file_id);
        assert(self@.incoming =~= was.incoming.remove(file_id));
    }
}

/// The line for the log where the directory for received files could not be made.
pub fn session_failed(error: &str) -> (r: NetEvent)
    ensures
        r@ == EventForm::Log("erro na sessao "@ + error@),
{
    transfer::log_line("erro na sessao ", error)
}

/// The answer to a peer that asks where to resume a file: `found` holds the length of what is
/// there, if anything is, or why it could not be looked up.
pub fn resume_answer(file_id: u64, size: u64, found: Result<Option<u64>, String>) -> (r:
    WireMessage)
    ensures
        r@ == (match found {
            Ok(present) => WireForm::ResumeAnswer {
                file_id,
                offset: names::resume_at(present, size),
                ok: true,
                reason: None,
            },
            Err(error) => WireForm::ResumeAnswer {
                file_id,
                offset: 0,
                ok: false,
                reason: Some(error@),
            },
        }),
{
    match found {
        Ok(present) => WireMessage::ResumeAnswer {
            file_id,
            offset: names::resume_offset(present, size),
            ok: true,
            reason: None,
        },
        Err(error) => WireMessage::ResumeAnswer {
            file_id,
            offset: 0,
            ok: false,
            reason: Some(error),
        },
    }
}

/// The first sender stays the peer, whatever messages follow.
pub proof fn law_peer_stays(
    link: LinkForm,
    first: WireForm,
    from: SocketAddr,
    second: WireForm,
    other: SocketAddr,
)
    requires
        link.peer_addr is None,
    ensures
        after_message(after_message(link, first, from), second, other).peer_addr == Some(from),
{
}

/// A file that a peer cancels is given up once: a second message finds nothing.
pub proof fn law_cancel_is_final(
    link: LinkForm,
    file_id: u64,
    from: SocketAddr,
    versions: Versions,
)
    ensures
        message_actions(
            after_message(link, WireForm::Cancel { file_id }, from),
            WireForm::Cancel { file_id },
            from,
            versions,
        ) == Seq::<ActionForm>::empty(),
{
}

/// The screen is told once of an address that a peer saw, however often the peer repeats it.
pub proof fn law_endpoint_is_told_once(
    link: LinkForm,
    addr: SocketAddr,
    from: SocketAddr,
    versions: Versions,
)
    ensures
        message_actions(
            after_message(link, WireForm::ObservedEndpoint { addr }, from),
            WireForm::ObservedEndpoint { addr },
            from,
            versions,
        ) == Seq::<ActionForm>::empty(),
{
}

/// Every greeting is answered by its version alone: from the version on that knows of it, its sender
/// is told the address that it is seen at, whatever else is known of the connection. And a
/// directory is made whenever there is none.
pub proof fn law_greetings_are_answered(
    link: LinkForm,
    version: u8,
    from: SocketAddr,
    versions: Versions,
)
    ensures
        ({
            let actions = message_actions(link, WireForm::Hello { version }, from, versions);
            let answer = ActionForm::Control(WireForm::ObservedEndpoint { addr: from });
            &&& version >= versions.observed_endpoint <==> actions.contains(answer)
            &&& link.session_dir is None <==> actions.contains(ActionForm::EnsureSession)
            &&& forall|i: int|
                0 <= i < actions.len() ==> #[trigger] actions[i] == answer || actions[i]
                    is EnsureSession
            &&& actions.len() == (if version >= versions.observed_endpoint {
                1nat
            } else {
                0nat
            }) + (if link.session_dir is None {
                1nat
            } else {
                0nat
            })
            &&& link.session_dir is None ==> actions[0] is EnsureSession
        }),
{
    let actions = message_actions(link, WireForm::Hello { version }, from, versions);
    if version >= versions.observed_endpoint {
        assert(actions[actions.len() - 1] == ActionForm::Control(
            WireForm::ObservedEndpoint { addr: from },
        ));
    }
    if link.session_dir is None {
        assert(actions[0] is EnsureSession);
    }
}

/// The address that a peer saw is kept, the last one, and the screen is told whenever it is another
/// than before.
pub proof fn law_seen_address_is_kept(
    link: LinkForm,
    addr: SocketAddr,
    from: SocketAddr,
    versions: Versions,
)
    ensures
        ({
            let said = WireForm::ObservedEndpoint { addr };
            let actions = message_actions(link, said, from, versions);
            &&& after_message(link, said, from).public_endpoint == Some(addr)
            &&& link.public_endpoint == Some(addr) ==> actions.len() == 0
            &&& link.public_endpoint != Some(addr) ==> actions.len() == 1 && actions[0]
                == ActionForm::Emit(EventForm::PublicEndpoint(addr))
        }),
{
}

/// A packet that opens the way is answered with a greeting of the own version, and a question where
/// to resume with a look at what is there, always.
pub proof fn law_questions_are_answered(
    link: LinkForm,
    nonce: u64,
    file_id: u64,
    name: Seq<char>,
    size: u64,
    from: SocketAddr,
    versions: Versions,
)
    ensures
        message_actions(link, WireForm::Punch { nonce }, from, versions) == seq![
            ActionForm::Control(WireForm::Hello { version: versions.protocol }),
        ],
        message_actions(link, WireForm::ResumeQuery { file_id, name, size }, from, versions)
            == seq![ActionForm::QueryResume { file_id, name, size }],
{
}

/// A file that the peer cancels is given up and forgotten, and the screen is told its path; no
/// other file is touched, and a number that is not known is passed over.
pub proof fn law_canceled_file_is_given_up(
    link: LinkForm,
    file_id: u64,
    other: u64,
    from: SocketAddr,
    versions: Versions,
)
    requires
        other != file_id,
    ensures
        ({
            let said = WireForm::Cancel { file_id };
            let actions = message_actions(link, said, from, versions);
            let after = after_message(link, said, from);
            &&& !after.incoming.contains_key(file_id)
            &&& after.incoming.contains_key(other) == link.incoming.contains_key(other)
            &&& link.incoming.contains_key(other) ==> after.incoming[other] == link.incoming[other]
            &&& if link.incoming.contains_key(file_id) {
                &&& actions.len() == 2
                &&& actions[0] == ActionForm::Abort(file_id)
                &&& actions[1] == ActionForm::Emit(
                    EventForm::ReceiveCanceled { file_id, path: link.incoming[file_id] },
                )
            } else {
                actions.len() == 0
            }
        }),
{
}

/// A message touches no more than it speaks of: the peer is the first sender, the directory stays,
/// the address seen changes only where it is told, the files only where one is canceled. Messages
/// that are no question ask for nothing.
pub proof fn law_messages_touch_no_more(
    link: LinkForm,
    message: WireForm,
    from: SocketAddr,
    versions: Versions,
)
    ensures
        ({
            let after = after_message(link, message, from);
            &&& link.peer_addr is None ==> after.peer_addr == Some(from)
            &&& link.peer_addr is Some ==> after.peer_addr == link.peer_addr
            &&& after.session_dir == link.session_dir
            &&& !(message is ObservedEndpoint) ==> after.public_endpoint == link.public_endpoint
            &&& !(message is Cancel) ==> after.incoming == link.incoming
            &&& message is IdentityInit || message is IdentityAck || message is FileMeta
                || message is ResumeAnswer || message is FileChunk || message is FileDone || message
                is Ping || message is Pong ==> message_actions(link, message, from, versions).len()
                == 0
        }),
{
}

// ---------------------------------------------------------------- a file that comes in

/// A file that comes in on a stream: where it is kept, how much of it is there, and how much of
/// that was told, and when.
#[derive(Debug)]
pub struct IncomingStream {
    pub file_id: u64,
    pub final_path: FilePath,
    pub part_path: FilePath,
    pub size: u64,
    pub from: SocketAddr,
    pub received: u64,
    pub reported: u64,
    pub told: u64,
}

/// A file that comes in, as a value of mathematics.
pub struct StreamForm {
    pub file_id: u64,
    pub final_path: PathForm,
    pub part_path: PathForm,
    pub size: u64,
    pub from: SocketAddr,
    pub received: u64,
    pub reported: u64,
    pub told: u64,
}

impl View for IncomingStream {
    type V = StreamForm;

    open spec fn view(&self) -> StreamForm {
        StreamForm {
            file_id: self.file_id,
            final_path: self.final_path@,
            part_path: self.part_path@,
            size: self.size,
            from: self.from,
            received: self.received,
            reported: self.reported,
            told: self.told,
        }
    }
}

/// A file that begins to come in: what is kept behind the offset is cut off where `truncate`.
#[derive(Debug)]
pub struct Started {
    pub stream: IncomingStream,
    pub truncate: bool,
    pub events: Vec<NetEvent>,
}

/// A file that is refused, and why.
#[derive(Debug)]
pub struct Refused {
    pub event: NetEvent,
    pub error: String,
}

/// The line for the log where a file begins to come in.
pub open spec fn receiving_line(p: PathForm, offset: u64) -> Seq<char> {
    "recebendo "@ + p.text + " (offset "@ + text::decimal(offset as nat) + ")"@
}

/// Why a file is refused.
pub open spec fn offset_error(offset: u64, current_len: u64) -> Seq<char> {
    "offset remoto "@ + text::decimal(offset as nat) + " maior que parcial local "@ + text::decimal(
        current_len as nat,
    )
}

/// Begins to take a file in at an offset, with `current_len` bytes of it there. It is refused
/// where the offset lies behind them, for bytes would be missing.
pub fn begin_receive(
    file_id: u64,
    final_path: FilePath,
    part_path: FilePath,
    size: u64,
    offset: u64,
    from: SocketAddr,
    current_len: u64,
    now: u64,
) -> (r: Result<Started, Refused>)
    ensures
        r is Ok <==> offset <= current_len,
        match r {
            Ok(started) => {
                &&& started.truncate == (offset < current_len)
                &&& started.stream@ == (StreamForm {
                    file_id,
                    final_path: final_path@,
                    part_path: part_path@,
                    size,
                    from,
                    received: offset,
                    reported: 0,
                    told: now,
                })
                &&& commands::event_forms(started.events@) == seq![
                    EventForm::ReceiveStarted { file_id, path: part_path@, size },
                    EventForm::Log(receiving_line(part_path@, offset)),
                ]
            },
            Err(refused) => {
                &&& refused.event@ == (EventForm::ReceiveFailed { file_id, path: part_path@ })
                &&& refused.error@ == offset_error(offset, current_len)
            },
        },
{
    if current_len < offset {
        let mut error = text::joined("offset remoto ", text::number_text(offset).as_str());
        error.append(" maior que parcial local ");
        error.append(text::number_text(current_len).as_str());
        return Err(Refused { event: NetEvent::ReceiveFailed { file_id, path: part_path }, error });
    }
    let mut line = text::joined("recebendo ", part_path.text.as_str());
    line.append(" (offset ");
    line.append(text::number_text(offset).as_str());
    line.append(")");
    let ghost part = part_path@;
    let mut events: Vec<NetEvent> = Vec::new();
    events.push(NetEvent::ReceiveStarted { file_id, path: part_path.copied(), size });
    events.push(NetEvent::Log(line));
    assert(commands::event_forms(events@) =~= seq![
        EventForm::ReceiveStarted { file_id, path: part, size },
        EventForm::Log(receiving_line(part, offset)),
    ]);
    let stream = IncomingStream {
        file_id,
        final_path,
        part_path,
        size,
        from,
        received: offset,
        reported: 0,
        told: now,
    };
    Ok(Started { stream, truncate: current_len > offset, events })
}

/// What came of reading a stream.
#[derive(Debug)]
pub enum ReadOutcome {
    /// Nothing was read.
    Empty,
    /// So many bytes were read, and kept.
    Written(u64),
    /// Bytes were read, and could not be kept.
    WriteFailed(String),
    /// The stream is at its end.
    End,
    /// The peer gave the stream up.
    Reset,
    /// The stream could not be read.
    Failed(String),
}

/// What comes next.
#[derive(Clone, Copy, Debug, PartialEq, Eq, Structural)]
pub enum AfterRead {
    /// More is read.
    Continue,
    /// The file no longer comes in.
    Finish,
    /// The file is complete, and gets its own name.
    Rename,
}

/// A file after an outcome.
pub open spec fn after_read(s: StreamForm, outcome: ReadOutcome, now: u64) -> StreamForm {
    match outcome {
        ReadOutcome::Written(n) => {
            let received = (s.received + n) as u64;
            if transfer::progress_due(received, s.reported, transfer::elapsed(s.told, now)) {
                StreamForm { received, reported: received, told: now, ..s }
            } else {
                StreamForm { received, ..s }
            }
        },
        _ => s,
    }
}

/// How much of a file has come in.
pub open spec fn receive_progress(s: StreamForm) -> EventForm {
    EventForm::ReceiveProgress { file_id: s.file_id, bytes_received: s.received, size: s.size }
}

/// The news of a file that could not be kept.
pub open spec fn failed_events(s: StreamForm, line: Seq<char>) -> Seq<EventForm> {
    seq![
        EventForm::Log(line),
        EventForm::ReceiveFailed { file_id: s.file_id, path: s.part_path },
    ]
}

/// The line for the log where a stream ended with other than the file's size.
pub open spec fn size_line(s: StreamForm) -> Seq<char> {
    "tamanho divergente "@ + text::decimal(s.received as nat) + " bytes (esperado "@
        + text::decimal(s.size as nat) + ")"@
}

/// The news after an outcome.
pub open spec fn read_events(s: StreamForm, outcome: ReadOutcome, now: u64) -> Seq<EventForm> {
    match outcome {
        ReadOutcome::Empty => Seq::empty(),
        ReadOutcome::Written(n) => if transfer::progress_due(
            (s.received + n) as u64,
            s.reported,
            transfer::elapsed(s.told, now),
        ) {
            seq![receive_progress(after_read(s, outcome, now))]
        } else {
            Seq::empty()
        },
        ReadOutcome::WriteFailed(error) => failed_events(s, "erro ao gravar "@ + error@),
        ReadOutcome::End => (if s.received > s.reported {
            seq![receive_progress(s)]
        } else {
            Seq::empty()
        }) + (if s.received == s.size {
            Seq::empty()
        } else {
            seq![EventForm::Log(size_line(s))]
        }),
        ReadOutcome::Reset => seq![
            EventForm::ReceiveCanceled { file_id: s.file_id, path: s.part_path },
        ],
        ReadOutcome::Failed(error) => failed_events(s, "erro na leitura do stream "@ + error@),
    }
}

/// What comes after an outcome.
pub open spec fn next_after(s: StreamForm, outcome: ReadOutcome) -> AfterRead {
    match outcome {
        ReadOutcome::Written(_) => AfterRead::Continue,
        ReadOutcome::End => if s.received == s.size {
            AfterRead::Rename
        } else {
            AfterRead::Finish
        },
        _ => AfterRead::Finish,
    }
}

impl IncomingStream {
    fn progress(&self) -> (r: NetEvent)
        ensures
            r@ == receive_progress(self@),
    {
        NetEvent::ReceiveProgress {
            file_id: self.file_id,
            bytes_received: self.received,
            size: self.size,
        }
    }

    fn failed(&self, start: &str, error: &str) -> (r: Vec<NetEvent>)
        ensures
            commands::event_forms(r@) == failed_events(self@, start@ + error@),
    {
        let mut r: Vec<NetEvent> = Vec::new();
        r.push(transfer::log_line(start, error));
        r.push(
            NetEvent::ReceiveFailed { file_id: self.file_id, path: self.part_path.copied() },
        );
        assert(commands::event_forms(r@) =~= failed_events(self@, start@ + error@));
        r
    }

    /// Goes on after the stream was read.
    pub fn read(&mut self, outcome: ReadOutcome, now: u64) -> (r: (Vec<NetEvent>, AfterRead))
        requires
            outcome matches ReadOutcome::Written(n) ==> old(self).received + n <= u64::MAX,
        ensures
            final(self)@ == after_read(old(self)@, outcome, now),
            commands::event_forms(r.0@) == read_events(old(self)@, outcome, now),
            r.1 == next_after(old(self)@, outcome),
    {
        let ghost was = self@;
        let ghost said = outcome;
        let mut events: Vec<NetEvent> = Vec::new();
        let mut next = AfterRead::Finish;
        match outcome {
            ReadOutcome::Empty => {},
            ReadOutcome::Written(n) => {
                self.received = self.received + n;
                if transfer::should_emit_progress(
                    self.received,
                    self.reported,
                    now.saturating_sub(self.told),
                ) {
                    self.reported = self.received;
                    self.told = now;
                    events.push(self.progress());
                }
                next = AfterRead::Continue;
            },
            ReadOutcome::WriteFailed(error) => {
                events = self.failed("erro ao gravar ", error.as_str());
            },
            ReadOutcome::End => {
                if self.received > self.reported {
                    events.push(self.progress());
                }
                if self.received == self.size {
                    next = AfterRead::Rename;
                } else {
                    let mut line = text::joined(
                        "tamanho divergente ",
                        text::number_text(self.received).as_str(),
                    );
                    line.append(" bytes (esperado ");
                    line.append(text::number_text(self.size).as_str());
                    line.append(")");
                    events.push(NetEvent::Log(line));
                }
            },
            ReadOutcome::Reset => {
                events.push(
                    NetEvent::ReceiveCanceled {
                        file_id: self.file_id,
                        path: self.part_path.copied(),
                    },
                );
            },
            ReadOutcome::Failed(error) => {
                events = self.failed("erro na leitura do stream ", error.as_str());
            },
        }
        assert(commands::event_forms(events@) =~= read_events(was, said, now));
        (events, next)
    }

    /// Goes on after a complete file got its own name, or could not.
    pub fn renamed(&self, error: Option<String>) -> (r: Vec<NetEvent>)
        ensures
            commands::event_forms(r@) == (match error {
                Some(error) => failed_events(self@, "erro ao finalizar arquivo "@ + error@),
                None => seq![
                    EventForm::FileReceived {
                        file_id: self.file_id,
                        path: self.final_path@,
                        from: Some(self.from),
                    },
                ],
            }),
    {
        match error {
            Some(error) => self.failed("erro ao finalizar arquivo ", error.as_str()),
            None => {
                let mut r: Vec<NetEvent> = Vec::new();
                r.push(
                    NetEvent::FileReceived {
                        file_id: self.file_id,
                        path: self.final_path.copied(),
                        from: Some(self.from),
                    },
                );
                assert(commands::event_forms(r@) =~= seq![
                    EventForm::FileReceived {
                        file_id: self.file_id,
                        path: self.final_path@,
                        from: Some(self.from),
                    },
                ]);
                r
            },
        }
    }
}

/// After a chunk was written the stream is read on, whatever came before: its bytes count, and the
/// screen is told how much came after a mebibyte or a tenth of a second.
pub proof fn law_written_chunk_is_read_on(s: StreamForm, n: u64, now: u64)
    requires
        s.received + n <= u64::MAX,
    ensures
        ({
            let outcome = ReadOutcome::Written(n);
            let next = after_read(s, outcome, now);
            let events = read_events(s, outcome, now);
            &&& next_after(s, outcome) is Continue
            &&& next.received == s.received + n
            &&& next.file_id == s.file_id
            &&& next.final_path == s.final_path
            &&& next.part_path == s.part_path
            &&& next.size == s.size
            &&& next.from == s.from
            &&& if s.received + n >= s.reported + 1_048_576 || now >= s.told + 100_000_000 {
                &&& next.reported == s.received + n
                &&& next.told == now
                &&& events.len() == 1
                &&& events[0] == (EventForm::ReceiveProgress {
                    file_id: s.file_id,
                    bytes_received: (s.received + n) as u64,
                    size: s.size,
                })
            } else {
                &&& next.reported == s.reported
                &&& next.told == s.told
                &&& events.len() == 0
            }
        }),
{
}

/// Only a written chunk is followed by more: at the end of a stream the file gets its own name where
/// its size has come, and is left otherwise, with a line that tells both numbers. What was not
/// told yet of how much came is told first.
pub proof fn law_stream_end_settles_the_file(s: StreamForm, now: u64)
    ensures
        ({
            let events = read_events(s, ReadOutcome::End, now);
            let untold: int = if s.received > s.reported {
                1
            } else {
                0
            };
            &&& s.received == s.size <==> next_after(s, ReadOutcome::End) is Rename
            &&& s.received != s.size <==> next_after(s, ReadOutcome::End) is Finish
            &&& after_read(s, ReadOutcome::End, now) == s
            &&& events.len() == untold + (if s.received == s.size {
                0int
            } else {
                1int
            })
            &&& s.received > s.reported ==> events[0] == (EventForm::ReceiveProgress {
                file_id: s.file_id,
                bytes_received: s.received,
                size: s.size,
            })
            &&& s.received != s.size ==> events[untold] == EventForm::Log(
                "tamanho divergente "@ + text::decimal(s.received as nat) + " bytes (esperado "@
                    + text::decimal(s.size as nat) + ")"@,
            )
        }),
{
}

/// A stream that breaks ends the file where it is, under its partial name, and the screen is told
/// why: canceled where the peer gave it up, failed otherwise.
pub proof fn law_broken_stream_ends_the_file(s: StreamForm, outcome: ReadOutcome, now: u64)
    requires
        !(outcome is Written) && !(outcome is End),
    ensures
        ({
            let events = read_events(s, outcome, now);
            let failed = EventForm::ReceiveFailed { file_id: s.file_id, path: s.part_path };
            &&& next_after(s, outcome) is Finish
            &&& after_read(s, outcome, now) == s
            &&& outcome is Empty ==> events.len() == 0
            &&& outcome is Reset ==> events.len() == 1 && events[0] == (EventForm::ReceiveCanceled {
                file_id: s.file_id,
                path: s.part_path,
            })
            &&& outcome matches ReadOutcome::WriteFailed(error) ==> events.len() == 2 && events[0]
                == EventForm::Log("erro ao gravar "@ + error@) && events[1] == failed
            &&& outcome matches ReadOutcome::Failed(error) ==> events.len() == 2 && events[0]
                == EventForm::Log("erro na leitura do stream "@ + error@) && events[1] == failed
        }),
{
}

/// The lines that tell where a file begins, and why it is refused, name its place and the numbers.
pub proof fn law_offsets_are_told(p: PathForm, offset: u64, current_len: u64)
    ensures
        receiving_line(p, offset) == "recebendo "@ + p.text + " (offset "@ + text::decimal(
            offset as nat,
        ) + ")"@,
        offset_error(offset, current_len) == "offset remoto "@ + text::decimal(offset as nat)
            + " maior que parcial local "@ + text::decimal(current_len as nat),
{
}

/// A file after chunks, each with its length and its instant.
pub open spec fn after_chunks(s: StreamForm, chunks: Seq<(u64, u64)>) -> StreamForm
    decreases chunks.len(),
{
    if chunks.len() == 0 {
        s
    } else {
        let (n, now) = chunks.last();
        after_read(after_chunks(s, chunks.drop_last()), ReadOutcome::Written(n), now)
    }
}

/// A file gets its own name at the end of its stream where all of its bytes came in, from the
/// offset on, and at no other time.
pub proof fn law_complete_files_are_renamed(
    s: StreamForm,
    chunks: Seq<(u64, u64)>,
    outcome: ReadOutcome,
)
    requires
        s.received + transfer::bytes_in(chunks) <= u64::MAX,
    ensures
        next_after(after_chunks(s, chunks), outcome) is Rename <==> outcome is End && s.received
            + transfer::bytes_in(chunks) == s.size,
{
    lemma_chunks(s, chunks);
}

/// A file whose chunks make up its size reaches the end of its stream, chunk by chunk, and gets its
/// own name there.
pub proof fn law_whole_file_is_read(s: StreamForm, chunks: Seq<(u64, u64)>, i: int)
    requires
        0 <= i < chunks.len(),
        s.received + transfer::bytes_in(chunks) == s.size,
    ensures
        next_after(after_chunks(s, chunks.take(i)), ReadOutcome::Written(chunks[i].0)) is Continue,
        next_after(after_chunks(s, chunks), ReadOutcome::End) is Rename,
{
    lemma_chunks(s, chunks);
}

proof fn lemma_chunks(s: StreamForm, chunks: Seq<(u64, u64)>)
    requires
        s.received + transfer::bytes_in(chunks) <= u64::MAX,
    ensures
        after_chunks(s, chunks).received == s.received + transfer::bytes_in(chunks),
        after_chunks(s, chunks).size == s.size,
    decreases chunks.len(),
{
    if chunks.len() > 0 {
        lemma_chunks(s, chunks.drop_last());
    }
}

} // verus!
