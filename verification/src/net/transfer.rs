//! Sending and receiving files over streams. What is read, written and sent happens outside;
//! here stands what follows from it.

use vstd::prelude::*;

use crate::net::commands::{EventForm, NetCommand, NetEvent};
use crate::net::messages::{WireForm, WireMessage};
use crate::net::stun;
use crate::path;
use crate::path::{FilePath, PathForm};
use crate::text;

verus! {

/// The least number of bytes that is read at once.
pub const TRANSFER_BUFFER_SIZE: usize = 262144;

/// The number of bytes after which progress is told.
pub const PROGRESS_EMIT_BYTES: u64 = 1048576;

/// The nanoseconds after which progress is told.
pub const PROGRESS_EMIT_NANOS: u64 = 100_000_000;

/// How sending files ended.
#[derive(Clone, Copy, Debug, PartialEq, Eq, Structural)]
pub enum SendOutcome {
    Completed,
    Canceled,
    Shutdown,
}

/// Whether progress is told: after enough bytes, or after enough time.
pub open spec fn progress_due(total: u64, reported: u64, elapsed: u64) -> bool {
    total - reported >= PROGRESS_EMIT_BYTES || elapsed >= PROGRESS_EMIT_NANOS
}

/// Whether progress is told, `elapsed` nanoseconds after it was told last.
pub fn should_emit_progress(total: u64, reported: u64, elapsed: u64) -> (r: bool)
    ensures
        r == progress_due(total, reported, elapsed),
{
    total.saturating_sub(reported) >= PROGRESS_EMIT_BYTES || elapsed >= PROGRESS_EMIT_NANOS
}

/// The nanoseconds from one instant to another; none where the clock went back.
pub open spec fn elapsed(since: u64, now: u64) -> u64 {
    if now >= since {
        (now - since) as u64
    } else {
        0
    }
}

/// Progress is told after a mebibyte or a tenth of a second since it was told last, and never
/// before both.
pub proof fn law_progress_is_told_in_time(total: u64, reported: u64, passed: u64)
    ensures
        progress_due(total, reported, passed) <==> total >= reported + 1_048_576 || passed
            >= 100_000_000,
{
}

/// Time that passed brings one instant to the other; a clock that went back let none pass.
pub proof fn law_time_adds_up(since: u64, now: u64)
    ensures
        since <= now ==> since + elapsed(since, now) == now,
        now < since ==> elapsed(since, now) == 0,
{
}

// ---------------------------------------------------------------- frames

/// A payload on a stream: its length in four bytes, the highest first, then the payload. A
/// length beyond four bytes loses its highest ones.
pub open spec fn framed(payload: Seq<u8>) -> Seq<u8> {
    stun::be_bytes(payload.len() % 0x1_0000_0000, 4) + payload
}

/// The payload on a stream, with its length before it.
pub fn frame(payload: &[u8]) -> (r: Vec<u8>)
    requires
        payload@.len() + 4 <= isize::MAX,
    ensures
        r@ == framed(payload@),
{
    let len: u64 = payload.len() as u64 % 0x1_0000_0000;
    let mut r: Vec<u8> = Vec::new();
    r.push((len / 0x100_0000) as u8);
    r.push((len / 0x1_0000 % 256) as u8);
    r.push((len / 256 % 256) as u8);
    r.push((len % 256) as u8);
    proof {
        reveal_with_fuel(stun::be_bytes, 5);
        assert(len / 256 / 256 == len / 0x1_0000);
        assert(len / 256 / 256 / 256 == len / 0x100_0000);
        assert(r@ =~= stun::be_bytes(payload@.len() % 0x1_0000_0000, 4));
    }
    r.extend_from_slice(payload);
    r
}

/// A frame tells the length of its payload, and holds the payload behind it, for every payload
/// whose length fits in four bytes.
pub proof fn law_frame_is_read(payload: Seq<u8>)
    requires
        payload.len() < 0x1_0000_0000,
    ensures
        stun::be32(framed(payload), 0) == payload.len(),
        framed(payload).skip(4) == payload,
{
    reveal_with_fuel(stun::be_bytes, 5);
    let v = payload.len();
    let head = stun::be_bytes(v, 4);
    assert(head.len() == 4);
    assert(framed(payload).skip(4) =~= payload);
    assert(head[3] == v % 256);
    assert(head[2] == v / 256 % 256);
    assert(head[1] == v / 256 / 256 % 256);
    assert(head[0] == v / 256 / 256 / 256 % 256);
}

/// The head of a frame is the length in four bytes, the highest first, of whatever payload; a
/// length that does not fit keeps its lowest four bytes.
pub proof fn law_frame_head_is_the_length(payload: Seq<u8>)
    ensures
        framed(payload).len() == payload.len() + 4,
        framed(payload)[0] * 0x100_0000 + framed(payload)[1] * 0x1_0000 + framed(payload)[2] * 0x100
            + framed(payload)[3] == payload.len() % 0x1_0000_0000,
        forall|i: int| 0 <= i < payload.len() ==> framed(payload)[i + 4] == #[trigger] payload[i],
{
    reveal_with_fuel(stun::be_bytes, 5);
    let v = payload.len() % 0x1_0000_0000;
    let head = stun::be_bytes(v, 4);
    assert(head.len() == 4);
    assert(head[3] == v % 256);
    assert(head[2] == v / 256 % 256);
    assert(head[1] == v / 256 / 256 % 256);
    assert(head[0] == v / 256 / 256 / 256 % 256);
}

// ---------------------------------------------------------------- commands while sending

/// What a command does to the files that are being sent; nothing where it has to wait.
/// Listening elsewhere stops them where `rebind_stops`.
pub open spec fn stop_of(cmd: NetCommand, rebind_stops: bool) -> Option<SendOutcome> {
    match cmd {
        NetCommand::CancelTransfers => Some(SendOutcome::Canceled),
        NetCommand::Shutdown => Some(SendOutcome::Shutdown),
        NetCommand::Rebind(_) => if rebind_stops {
            Some(SendOutcome::Canceled)
        } else {
            None
        },
        _ => None,
    }
}

/// How many commands wait before the first that stops the files.
pub open spec fn stop_at(queue: Seq<NetCommand>, rebind_stops: bool) -> nat
    decreases queue.len(),
{
    if queue.len() == 0 || stop_of(queue[0], rebind_stops) is Some {
        0
    } else {
        1 + stop_at(queue.skip(1), rebind_stops)
    }
}

/// What a queue of commands does to the files.
pub open spec fn queue_outcome(queue: Seq<NetCommand>, rebind_stops: bool) -> SendOutcome {
    let k = stop_at(queue, rebind_stops) as int;
    if k < queue.len() {
        stop_of(queue[k], rebind_stops)->0
    } else {
        SendOutcome::Completed
    }
}

/// The commands that are kept for later: those before the one that stops the files, and that
/// one too where it asks to listen elsewhere.
pub open spec fn put_off(queue: Seq<NetCommand>, rebind_stops: bool) -> Seq<NetCommand> {
    let k = stop_at(queue, rebind_stops) as int;
    if k < queue.len() && queue[k] is Rebind {
        queue.take(k + 1)
    } else {
        queue.take(k)
    }
}

/// What is left of the queue: what stands behind the command that stops the files.
pub open spec fn left_over(queue: Seq<NetCommand>, rebind_stops: bool) -> Seq<NetCommand> {
    let k = stop_at(queue, rebind_stops) as int;
    if k < queue.len() {
        queue.skip(k + 1)
    } else {
        Seq::empty()
    }
}

fn drain_commands(
    queue: &mut Vec<NetCommand>,
    pending: &mut Vec<NetCommand>,
    rebind_stops: bool,
) -> (r: SendOutcome)
    ensures
        r == queue_outcome(old(queue)@, rebind_stops),
        final(pending)@ == old(pending)@ + put_off(old(queue)@, rebind_stops),
        final(queue)@ == left_over(old(queue)@, rebind_stops),
{
    let ghost all = put_off(queue@, rebind_stops);
    let ghost mut done = Seq::<NetCommand>::empty();
    assert(all =~= done + put_off(queue@, rebind_stops));
    while queue.len() > 0
        invariant
            queue_outcome(old(queue)@, rebind_stops) == queue_outcome(queue@, rebind_stops),
            left_over(old(queue)@, rebind_stops) == left_over(queue@, rebind_stops),
            put_off(old(queue)@, rebind_stops) == all,
            all == done + put_off(queue@, rebind_stops),
            pending@ == old(pending)@ + done,
        decreases queue@.len(),
    {
        let ghost before = queue@;
        let cmd = queue.remove(0);
        assert(queue@ =~= before.skip(1));
        proof {
            if stop_of(cmd, rebind_stops) is None {
                lemma_drained(before, rebind_stops);
                done = done.push(cmd);
                assert(all =~= done + put_off(queue@, rebind_stops));
            } else {
                assert(put_off(before, rebind_stops) =~= if cmd is Rebind {
                    seq![cmd]
                } else {
                    Seq::empty()
                });
            }
        }
        match cmd {
            NetCommand::CancelTransfers => {
                return SendOutcome::Canceled;
            },
            NetCommand::Shutdown => {
                return SendOutcome::Shutdown;
            },
            NetCommand::Rebind(addr) => {
                pending.push(NetCommand::Rebind(addr));
                if rebind_stops {
                    return SendOutcome::Canceled;
                }
            },
            other => {
                pending.push(other);
            },
        }
    }
    SendOutcome::Completed
}

proof fn lemma_drained(queue: Seq<NetCommand>, rebind_stops: bool)
    requires
        queue.len() > 0,
        stop_of(queue[0], rebind_stops) is None,
    ensures
        queue_outcome(queue, rebind_stops) == queue_outcome(queue.skip(1), rebind_stops),
        put_off(queue, rebind_stops) == seq![queue[0]] + put_off(queue.skip(1), rebind_stops),
        left_over(queue, rebind_stops) == left_over(queue.skip(1), rebind_stops),
{
    let rest = queue.skip(1);
    lemma_stop_at(rest, rebind_stops);
    let k = stop_at(rest, rebind_stops) as int;
    assert(put_off(queue, rebind_stops) =~= seq![queue[0]] + put_off(rest, rebind_stops));
    assert(left_over(queue, rebind_stops) =~= left_over(rest, rebind_stops));
}

proof fn lemma_stop_at(queue: Seq<NetCommand>, rebind_stops: bool)
    ensures
        stop_at(queue, rebind_stops) <= queue.len(),
    decreases queue.len(),
{
    if queue.len() > 0 {
        lemma_stop_at(queue.skip(1), rebind_stops);
    }
}

/// Takes the commands that came in while files are being sent, up to the first that stops
/// them.
pub fn handle_send_control(queue: &mut Vec<NetCommand>, pending: &mut Vec<NetCommand>) -> (r:
    SendOutcome)
    ensures
        r == queue_outcome(old(queue)@, true),
        final(pending)@ == old(pending)@ + put_off(old(queue)@, true),
        final(queue)@ == left_over(old(queue)@, true),
{
    drain_commands(queue, pending, true)
}

/// Takes the commands that came in while files are being sent in packets, up to the first that
/// stops them. A packet socket does not listen elsewhere, so such a command waits.
pub fn poll_send_control(queue: &mut Vec<NetCommand>, pending: &mut Vec<NetCommand>) -> (r:
    SendOutcome)
    ensures
        r == queue_outcome(old(queue)@, false),
        final(pending)@ == old(pending)@ + put_off(old(queue)@, false),
        final(queue)@ == left_over(old(queue)@, false),
{
    drain_commands(queue, pending, false)
}

/// No command is lost or moved before another: what was put off, the command that stopped the
/// files unless it was put off too, and what is left over make up the queue.
pub proof fn law_commands_are_kept(queue: Seq<NetCommand>, rebind_stops: bool)
    ensures
        queue_outcome(queue, rebind_stops) is Completed ==> put_off(queue, rebind_stops) == queue
            && left_over(queue, rebind_stops) == Seq::<NetCommand>::empty(),
        !(queue_outcome(queue, rebind_stops) is Completed) ==> {
            let stop = queue[stop_at(queue, rebind_stops) as int];
            ||| queue == put_off(queue, rebind_stops) + left_over(queue, rebind_stops)
            ||| queue == put_off(queue, rebind_stops).push(stop) + left_over(queue, rebind_stops)
        },
    decreases queue.len(),
{
    if queue.len() == 0 {
        assert(put_off(queue, rebind_stops) =~= queue);
    } else if stop_of(queue[0], rebind_stops) is Some {
        if queue[0] is Rebind {
            assert(queue =~= put_off(queue, rebind_stops) + left_over(queue, rebind_stops));
        } else {
            assert(queue =~= put_off(queue, rebind_stops).push(queue[0]) + left_over(
                queue,
                rebind_stops,
            ));
        }
    } else {
        let rest = queue.skip(1);
        law_commands_are_kept(rest, rebind_stops);
        lemma_drained(queue, rebind_stops);
        lemma_stop_at(rest, rebind_stops);
        let first = seq![queue[0]];
        assert(queue =~= first + rest);
        if queue_outcome(queue, rebind_stops) is Completed {
            assert(put_off(queue, rebind_stops) =~= queue);
        } else {
            let stop = queue[stop_at(queue, rebind_stops) as int];
            assert(stop == rest[stop_at(rest, rebind_stops) as int]);
            let p = put_off(rest, rebind_stops);
            let l = left_over(rest, rebind_stops);
            if rest == p + l {
                assert(queue =~= put_off(queue, rebind_stops) + l);
            } else {
                assert(queue =~= put_off(queue, rebind_stops).push(stop) + l);
            }
        }
    }
}

/// Commands to connect and to send files stop nothing, nor does listening elsewhere where files go
/// in packets: a queue of them is put off, whole and in order, and the files go on.
pub proof fn law_waiting_commands_stop_nothing(queue: Seq<NetCommand>, rebind_stops: bool)
    requires
        forall|i: int|
            0 <= i < queue.len() ==> (#[trigger] queue[i] is SendFiles || queue[i] is ConnectPeer || (
            queue[i] is Rebind && !rebind_stops)),
    ensures
        queue_outcome(queue, rebind_stops) is Completed,
        put_off(queue, rebind_stops) == queue,
        left_over(queue, rebind_stops) == Seq::<NetCommand>::empty(),
    decreases queue.len(),
{
    if queue.len() > 0 {
        let rest = queue.skip(1);
        assert forall|i: int| 0 <= i < rest.len() implies (#[trigger] rest[i] is SendFiles
            || rest[i] is ConnectPeer || (rest[i] is Rebind && !rebind_stops)) by {
            assert(rest[i] == queue[i + 1]);
        }
        assert(queue[0] is SendFiles || queue[0] is ConnectPeer || queue[0] is Rebind);
        law_waiting_commands_stop_nothing(rest, rebind_stops);
        lemma_drained(queue, rebind_stops);
        assert(queue =~= seq![queue[0]] + rest);
    } else {
        assert(put_off(queue, rebind_stops) =~= queue);
        assert(left_over(queue, rebind_stops) =~= Seq::<NetCommand>::empty());
    }
}

/// The first command that cancels the files, ends the program or, over streams, asks to listen
/// elsewhere stops the files. What stood before it is put off in order, and it too where it asks
/// to listen elsewhere; what stood behind it stays.
pub proof fn law_first_stopping_command_counts(queue: Seq<NetCommand>, rebind_stops: bool, k: int)
    requires
        0 <= k < queue.len(),
        forall|i: int|
            0 <= i < k ==> (#[trigger] queue[i] is SendFiles || queue[i] is ConnectPeer || (
            queue[i] is Rebind && !rebind_stops)),
        queue[k] is CancelTransfers || queue[k] is Shutdown || (queue[k] is Rebind && rebind_stops),
    ensures
        queue[k] is Shutdown <==> queue_outcome(queue, rebind_stops) is Shutdown,
        !(queue[k] is Shutdown) <==> queue_outcome(queue, rebind_stops) is Canceled,
        put_off(queue, rebind_stops) == (if queue[k] is Rebind {
            queue.take(k + 1)
        } else {
            queue.take(k)
        }),
        left_over(queue, rebind_stops) == queue.skip(k + 1),
    decreases queue.len(),
{
    if k > 0 {
        let rest = queue.skip(1);
        assert forall|i: int| 0 <= i < k - 1 implies (#[trigger] rest[i] is SendFiles
            || rest[i] is ConnectPeer || (rest[i] is Rebind && !rebind_stops)) by {
            assert(rest[i] == queue[i + 1]);
        }
        assert(queue[0] is SendFiles || queue[0] is ConnectPeer || queue[0] is Rebind);
        law_first_stopping_command_counts(rest, rebind_stops, k - 1);
        lemma_drained(queue, rebind_stops);
        assert(queue.take(k) =~= seq![queue[0]] + rest.take(k - 1));
        assert(queue.take(k + 1) =~= seq![queue[0]] + rest.take(k));
        assert(queue.skip(k + 1) =~= rest.skip(k));
    }
}

// ---------------------------------------------------------------- sending files

/// What the connection and the screen are given.
#[derive(Debug)]
pub enum Step {
    /// A message on a stream of its own.
    Control(WireMessage),
    /// A message at the head of the file's stream.
    Framed(WireMessage),
    /// News for the screen.
    Emit(NetEvent),
    /// The file's stream is given up.
    Reset,
    /// The file's stream is closed.
    Finish,
}

/// A step as a value of mathematics.
pub enum StepForm {
    Control(WireForm),
    Framed(WireForm),
    Emit(EventForm),
    Reset,
    Finish,
}

impl View for Step {
    type V = StepForm;

    open spec fn view(&self) -> StepForm {
        match *self {
            Step::Control(m) => StepForm::Control(m@),
            Step::Framed(m) => StepForm::Framed(m@),
            Step::Emit(e) => StepForm::Emit(e@),
            Step::Reset => StepForm::Reset,
            Step::Finish => StepForm::Finish,
        }
    }
}

/// The steps of a list.
pub open spec fn step_forms(v: Seq<Step>) -> Seq<StepForm> {
    v.map_values(|s: Step| s@)
}

/// The file that is being sent: how much of it is sent, and how much of that was told, and
/// when.
#[derive(Debug)]
pub struct Outgoing {
    pub file_id: u64,
    pub path: FilePath,
    pub size: u64,
    pub sent: u64,
    pub reported: u64,
    pub told: u64,
}

/// The file that is being sent, as a value of mathematics.
pub struct OutgoingForm {
    pub file_id: u64,
    pub path: PathForm,
    pub size: u64,
    pub sent: u64,
    pub reported: u64,
    pub told: u64,
}

impl View for Outgoing {
    type V = OutgoingForm;

    open spec fn view(&self) -> OutgoingForm {
        OutgoingForm {
            file_id: self.file_id,
            path: self.path@,
            size: self.size,
            sent: self.sent,
            reported: self.reported,
            told: self.told,
        }
    }
}

/// Files on their way to a peer, one after the other.
#[derive(Debug)]
pub struct SendSession {
    pub files: Vec<FilePath>,
    pub at: usize,
    pub next_file_id: u64,
    pub current: Option<Outgoing>,
}

/// Files on their way, as a value of mathematics.
pub struct SessionForm {
    pub files: Seq<PathForm>,
    pub at: nat,
    pub next_file_id: u64,
    pub current: Option<OutgoingForm>,
}

impl View for SendSession {
    type V = SessionForm;

    open spec fn view(&self) -> SessionForm {
        SessionForm {
            files: path::paths(self.files@),
            at: self.at as nat,
            next_file_id: self.next_file_id,
            current: match self.current {
                Some(o) => Some(o@),
                None => None,
            },
        }
    }
}

/// What comes next.
#[derive(Debug)]
pub enum NextFile {
    /// Sending is over.
    Done(SendOutcome),
    /// The next file is to be opened.
    Open(FilePath),
}

/// The number of the file after one.
pub open spec fn id_after(id: u64) -> u64 {
    if id == u64::MAX {
        0
    } else {
        (id + 1) as u64
    }
}

/// A session whose next file was opened.
pub open spec fn opened_form(s: SessionForm, size: u64) -> SessionForm {
    SessionForm {
        at: s.at + 1,
        next_file_id: id_after(s.next_file_id),
        current: Some(
            OutgoingForm {
                file_id: s.next_file_id,
                path: s.files[s.at as int],
                size,
                sent: 0,
                reported: 0,
                told: 0,
            },
        ),
        ..s
    }
}

/// The name that a file is sent under.
pub open spec fn sent_name(p: PathForm) -> Seq<char> {
    path::name_or_spec(p, "file.bin"@)
}

/// The steps after the next file was opened: the peer is asked where to resume.
pub open spec fn opened_steps(s: SessionForm, size: u64) -> Seq<StepForm> {
    seq![
        StepForm::Control(
            WireForm::ResumeQuery {
                file_id: s.next_file_id,
                name: sent_name(s.files[s.at as int]),
                size,
            },
        ),
    ]
}

/// The steps at the head of a file's stream. A file is sent from its start.
pub open spec fn head_steps(o: OutgoingForm) -> Seq<StepForm> {
    seq![
        StepForm::Framed(
            WireForm::FileMeta {
                file_id: o.file_id,
                name: sent_name(o.path),
                size: o.size,
                offset: 0,
            },
        ),
        StepForm::Emit(
            EventForm::SendStarted { file_id: o.file_id, path: o.path, size: o.size },
        ),
    ]
}

/// A file of which `n` more bytes were sent.
pub open spec fn after_chunk(o: OutgoingForm, n: u64, now: u64) -> OutgoingForm {
    let sent = (o.sent + n) as u64;
    if progress_due(sent, o.reported, elapsed(o.told, now)) {
        OutgoingForm { sent, reported: sent, told: now, ..o }
    } else {
        OutgoingForm { sent, ..o }
    }
}

/// The step that tells how much of a file is sent.
pub open spec fn progress_step(o: OutgoingForm) -> StepForm {
    StepForm::Emit(
        EventForm::SendProgress { file_id: o.file_id, bytes_sent: o.sent, size: o.size },
    )
}

/// The steps after `n` more bytes of a file were sent.
pub open spec fn chunk_steps(o: OutgoingForm, n: u64, now: u64) -> Seq<StepForm> {
    let sent = (o.sent + n) as u64;
    if progress_due(sent, o.reported, elapsed(o.told, now)) {
        seq![progress_step(after_chunk(o, n, now))]
    } else {
        Seq::empty()
    }
}

/// The steps with which a file is given up. At the end of the program the screen is told
/// nothing more.
pub open spec fn stop_steps(o: OutgoingForm, outcome: SendOutcome) -> Seq<StepForm> {
    let cancel = StepForm::Control(WireForm::Cancel { file_id: o.file_id });
    match outcome {
        SendOutcome::Canceled => seq![
            StepForm::Reset,
            cancel,
            StepForm::Emit(EventForm::SendCanceled { file_id: o.file_id, path: o.path }),
        ],
        SendOutcome::Shutdown => seq![StepForm::Reset, cancel],
        SendOutcome::Completed => Seq::empty(),
    }
}

/// The steps at the end of a file.
pub open spec fn end_steps(o: OutgoingForm) -> Seq<StepForm> {
    (if o.sent > o.reported {
        seq![progress_step(o)]
    } else {
        Seq::empty()
    }) + seq![
        StepForm::Finish,
        StepForm::Emit(EventForm::FileSent { file_id: o.file_id, path: o.path }),
    ]
}

impl Outgoing {
    fn progress(&self) -> (r: Step)
        ensures
            r@ == progress_step(self@),
    {
        Step::Emit(
            NetEvent::SendProgress {
                file_id: self.file_id,
                bytes_sent: self.sent,
                size: self.size,
            },
        )
    }
}

/// A line for the log, of two parts.
pub fn log_line(start: &str, end: &str) -> (r: NetEvent)
    ensures
        r@ == EventForm::Log(start@ + end@),
{
    NetEvent::Log(text::joined(start, end))
}

impl SendSession {
    /// Whether the session is within its files.
    pub open spec fn wf(&self) -> bool {
        self.at <= self.files@.len()
    }

    /// Begins to send files. The peer is greeted first.
    pub fn start(files: Vec<FilePath>, next_file_id: u64, version: u8) -> (r: (SendSession, Step))
        ensures
            r.0.wf(),
            r.0@ == (SessionForm {
                files: path::paths(files@),
                at: 0,
                next_file_id,
                current: None,
            }),
            r.1@ == StepForm::Control(WireForm::Hello { version }),
    {
        let session = SendSession { files, at: 0, next_file_id, current: None };
        (session, Step::Control(WireMessage::Hello { version }))
    }

    /// What comes next: the next file, unless there is none or a command stops the files.
    pub fn next_file(&self, queue: &mut Vec<NetCommand>, pending: &mut Vec<NetCommand>) -> (r:
        NextFile)
        requires
            self.wf(),
        ensures
            if self@.at == self@.files.len() {
                &&& r == NextFile::Done(SendOutcome::Completed)
                &&& final(queue)@ == old(queue)@
                &&& final(pending)@ == old(pending)@
            } else {
                &&& match queue_outcome(old(queue)@, true) {
                    SendOutcome::Completed => r matches NextFile::Open(p) && p@
                        == self@.files[self@.at as int],
                    outcome => r == NextFile::Done(outcome),
                }
                &&& final(queue)@ == left_over(old(queue)@, true)
                &&& final(pending)@ == old(pending)@ + put_off(old(queue)@, true)
            },
    {
        if self.at >= self.files.len() {
            return NextFile::Done(SendOutcome::Completed);
        }
        match handle_send_control(queue, pending) {
            SendOutcome::Completed => NextFile::Open(self.files[self.at].copied()),
            outcome => NextFile::Done(outcome),
        }
    }

    /// Goes on after the next file was opened.
    pub fn opened(&mut self, size: u64) -> (r: Vec<Step>)
        requires
            old(self).at < old(self).files@.len(),
        ensures
            final(self).wf(),
            final(self)@ == opened_form(old(self)@, size),
            step_forms(r@) == opened_steps(old(self)@, size),
    {
        let path = self.files[self.at].copied();
        let name = path.name_or("file.bin");
        let file_id: u64 = self.next_file_id;
        self.next_file_id = if file_id == u64::MAX {
            0
        } else {
            file_id + 1
        };
        let total: usize = self.files.len();
        assert(self.at < total);
        self.at = self.at + 1;
        self.current = Some(Outgoing { file_id, path, size, sent: 0, reported: 0, told: 0 });
        let mut steps: Vec<Step> = Vec::new();
        steps.push(Step::Control(WireMessage::ResumeQuery { file_id, name, size }));
        assert(step_forms(steps@) =~= opened_steps(old(self)@, size));
        steps
    }

    /// Goes on after the file's stream was opened.
    pub fn stream_opened(&mut self, now: u64) -> (r: Vec<Step>)
        requires
            old(self).wf(),
            old(self).current is Some,
        ensures
            final(self).wf(),
            final(self)@ == (SessionForm {
                current: Some(OutgoingForm { told: now, ..old(self)@.current->0 }),
                ..old(self)@
            }),
            step_forms(r@) == head_steps(old(self)@.current->0),
    {
        let mut steps: Vec<Step> = Vec::new();
        if let Some(mut o) = self.current.take() {
            let ghost was = o@;
            let name = o.path.name_or("file.bin");
            steps.push(
                Step::Framed(
                    WireMessage::FileMeta { file_id: o.file_id, name, size: o.size, offset: 0 },
                ),
            );
            steps.push(
                Step::Emit(
                    NetEvent::SendStarted {
                        file_id: o.file_id,
                        path: o.path.copied(),
                        size: o.size,
                    },
                ),
            );
            assert(step_forms(steps@) =~= head_steps(was));
            o.told = now;
            self.current = Some(o);
        }
        steps
    }

    /// Goes on after the file's stream could not be opened: the file is left out.
    pub fn stream_refused(&mut self, error: &str) -> (r: NetEvent)
        requires
            old(self).wf(),
        ensures
            final(self).wf(),
            final(self)@ == (SessionForm { current: None, ..old(self)@ }),
            r@ == EventForm::Log("erro ao abrir stream "@ + error@),
    {
        self.current = None;
        log_line("erro ao abrir stream ", error)
    }

    /// Goes on after `n` bytes of the file were written. A command may stop the files.
    pub fn written(
        &mut self,
        n: u64,
        now: u64,
        queue: &mut Vec<NetCommand>,
        pending: &mut Vec<NetCommand>,
    ) -> (r: (Vec<Step>, SendOutcome))
        requires
            old(self).wf(),
            old(self).current is Some,
            old(self)@.current->0.sent + n <= u64::MAX,
        ensures
            final(self).wf(),
            ({
                let o = old(self)@.current->0;
                &&& r.1 == queue_outcome(old(queue)@, true)
                &&& step_forms(r.0@) == chunk_steps(o, n, now) + stop_steps(o, r.1)
                &&& final(self)@ == (SessionForm {
                    current: if r.1 is Completed {
                        Some(after_chunk(o, n, now))
                    } else {
                        None
                    },
                    ..old(self)@
                })
            }),
            final(queue)@ == left_over(old(queue)@, true),
            final(pending)@ == old(pending)@ + put_off(old(queue)@, true),
    {
        let mut steps: Vec<Step> = Vec::new();
        let outcome = handle_send_control(queue, pending);
        if let Some(mut o) = self.current.take() {
            let ghost was = o@;
            o.sent = o.sent + n;
            if should_emit_progress(o.sent, o.reported, now.saturating_sub(o.told)) {
                o.reported = o.sent;
                o.told = now;
                steps.push(o.progress());
            }
            assert(o@ == after_chunk(was, n, now));
            assert(step_forms(steps@) =~= chunk_steps(was, n, now));
            let ghost first = steps@;
            match outcome {
                SendOutcome::Completed => {
                    self.current = Some(o);
                },
                SendOutcome::Canceled => {
                    steps.push(Step::Reset);
                    steps.push(Step::Control(WireMessage::Cancel { file_id: o.file_id }));
                    steps.push(
                        Step::Emit(NetEvent::SendCanceled { file_id: o.file_id, path: o.path }),
                    );
                },
                SendOutcome::Shutdown => {
                    steps.push(Step::Reset);
                    steps.push(Step::Control(WireMessage::Cancel { file_id: o.file_id }));
                },
            }
            assert(step_forms(steps@) =~= step_forms(first) + stop_steps(was, outcome));
        }
        (steps, outcome)
    }

    /// Goes on after bytes of the file could not be written: the file is left where it is.
    pub fn write_failed(&mut self, error: &str) -> (r: NetEvent)
        requires
            old(self).wf(),
        ensures
            final(self).wf(),
            final(self)@ == (SessionForm { current: None, ..old(self)@ }),
            r@ == EventForm::Log("erro ao enviar "@ + error@),
    {
        self.current = None;
        log_line("erro ao enviar ", error)
    }

    /// Goes on after the end of the file.
    pub fn file_ended(&mut self) -> (r: Vec<Step>)
        requires
            old(self).wf(),
            old(self).current is Some,
        ensures
            final(self).wf(),
            final(self)@ == (SessionForm { current: None, ..old(self)@ }),
            step_forms(r@) == end_steps(old(self)@.current->0),
    {
        let mut steps: Vec<Step> = Vec::new();
        if let Some(o) = self.current.take() {
            if o.sent > o.reported {
                steps.push(o.progress());
            }
            steps.push(Step::Finish);
            let ghost was = o@;
            steps.push(Step::Emit(NetEvent::FileSent { file_id: o.file_id, path: o.path }));
            assert(step_forms(steps@) =~= end_steps(was));
        }
        steps
    }
}

/// A session after files of these sizes were opened, one after the other.
pub open spec fn opened_all(s: SessionForm, sizes: Seq<u64>) -> SessionForm
    decreases sizes.len(),
{
    if sizes.len() == 0 {
        s
    } else {
        opened_form(opened_all(s, sizes.drop_last()), sizes.last())
    }
}

/// The files of a session are opened in order, and no two of them have the same number.
pub proof fn law_files_have_their_own_numbers(s: SessionForm, sizes: Seq<u64>, i: int, j: int)
    requires
        0 <= i < j < sizes.len() <= u64::MAX,
        s.at + sizes.len() <= s.files.len(),
    ensures
        ({
            let first = opened_all(s, sizes.take(i + 1)).current->0;
            let second = opened_all(s, sizes.take(j + 1)).current->0;
            &&& first.path == s.files[s.at + i]
            &&& second.path == s.files[s.at + j]
            &&& first.file_id != second.file_id
        }),
{
    lemma_opened_all(s, sizes.take(i));
    lemma_opened_all(s, sizes.take(j));
    assert(sizes.take(i + 1).drop_last() =~= sizes.take(i));
    assert(sizes.take(j + 1).drop_last() =~= sizes.take(j));
    assert((s.next_file_id + i) % 0x1_0000_0000_0000_0000 != (s.next_file_id + j)
        % 0x1_0000_0000_0000_0000);
}

proof fn lemma_opened_all(s: SessionForm, sizes: Seq<u64>)
    ensures
        opened_all(s, sizes).files == s.files,
        opened_all(s, sizes).at == s.at + sizes.len(),
        opened_all(s, sizes).next_file_id == (s.next_file_id + sizes.len())
            % 0x1_0000_0000_0000_0000,
    decreases sizes.len(),
{
    if sizes.len() > 0 {
        lemma_opened_all(s, sizes.drop_last());
    }
}

/// The next file is opened under the next number, from its start, and the peer is asked where to
/// resume it by that number, its name and its size.
pub proof fn law_opened_file_is_announced(s: SessionForm, size: u64)
    requires
        s.at < s.files.len(),
    ensures
        ({
            let now = opened_form(s, size);
            let file = s.files[s.at as int];
            &&& now.files == s.files
            &&& now.at == s.at + 1
            &&& now.next_file_id == (s.next_file_id + 1) % 0x1_0000_0000_0000_0000
            &&& now.current matches Some(o) && o.file_id == s.next_file_id && o.path == file
                && o.size == size && o.sent == 0 && o.reported == 0 && o.told == 0
            &&& opened_steps(s, size).len() == 1
            &&& opened_steps(s, size)[0] == StepForm::Control(
                WireForm::ResumeQuery {
                    file_id: s.next_file_id,
                    name: path::name_or_spec(file, "file.bin"@),
                    size,
                },
            )
        }),
{
}

/// The stream of a file begins with the file's number, name and size, from its start, and the
/// screen is told that it is on its way.
pub proof fn law_stream_begins_with_the_file(o: OutgoingForm)
    ensures
        head_steps(o).len() == 2,
        head_steps(o)[0] == StepForm::Framed(
            WireForm::FileMeta {
                file_id: o.file_id,
                name: path::name_or_spec(o.path, "file.bin"@),
                size: o.size,
                offset: 0,
            },
        ),
        head_steps(o)[1] == StepForm::Emit(
            EventForm::SendStarted { file_id: o.file_id, path: o.path, size: o.size },
        ),
{
}

/// Every chunk counts, whatever was told before; the screen is told how much is sent after a
/// mebibyte or a tenth of a second, and nothing else happens.
pub proof fn law_every_chunk_counts(o: OutgoingForm, n: u64, now: u64)
    requires
        o.sent + n <= u64::MAX,
    ensures
        ({
            let next = after_chunk(o, n, now);
            let steps = chunk_steps(o, n, now);
            &&& next.sent == o.sent + n
            &&& next.file_id == o.file_id
            &&& next.path == o.path
            &&& next.size == o.size
            &&& if o.sent + n >= o.reported + 1_048_576 || now >= o.told + 100_000_000 {
                &&& next.reported == o.sent + n
                &&& next.told == now
                &&& steps.len() == 1
                &&& steps[0] == StepForm::Emit(
                    EventForm::SendProgress {
                        file_id: o.file_id,
                        bytes_sent: (o.sent + n) as u64,
                        size: o.size,
                    },
                )
            } else {
                &&& next.reported == o.reported
                &&& next.told == o.told
                &&& steps.len() == 0
            }
        }),
{
}

/// A file that is given up loses its stream, and the peer is told by its number; the screen is told
/// where the user canceled it. A file that goes on needs nothing.
pub proof fn law_stopped_file_is_given_up(o: OutgoingForm, outcome: SendOutcome)
    ensures
        ({
            let steps = stop_steps(o, outcome);
            &&& outcome is Completed <==> steps.len() == 0
            &&& !(outcome is Completed) ==> steps.len() >= 2 && steps[0] is Reset && steps[1]
                == StepForm::Control(WireForm::Cancel { file_id: o.file_id })
            &&& outcome is Shutdown ==> steps.len() == 2
            &&& outcome is Canceled ==> steps.len() == 3 && steps[2] == StepForm::Emit(
                EventForm::SendCanceled { file_id: o.file_id, path: o.path },
            )
        }),
{
}

/// At its end a file's stream is closed and the screen is told that it is sent, after what was not
/// told yet of how much is sent.
pub proof fn law_ended_file_is_closed(o: OutgoingForm)
    ensures
        ({
            let steps = end_steps(o);
            &&& steps.len() == (if o.sent > o.reported {
                3nat
            } else {
                2nat
            })
            &&& o.sent > o.reported ==> steps[0] == StepForm::Emit(
                EventForm::SendProgress { file_id: o.file_id, bytes_sent: o.sent, size: o.size },
            )
            &&& steps[steps.len() - 2] is Finish
            &&& steps[steps.len() - 1] == StepForm::Emit(
                EventForm::FileSent { file_id: o.file_id, path: o.path },
            )
        }),
{
}

// ---------------------------------------------------------------- a whole file

/// A file of which chunks were sent, each with its length and its instant.
pub open spec fn after_chunks(o: OutgoingForm, chunks: Seq<(u64, u64)>) -> OutgoingForm
    decreases chunks.len(),
{
    if chunks.len() == 0 {
        o
    } else {
        let (n, now) = chunks.last();
        after_chunk(after_chunks(o, chunks.drop_last()), n, now)
    }
}

/// The steps over the chunks of a file.
pub open spec fn all_chunk_steps(o: OutgoingForm, chunks: Seq<(u64, u64)>) -> Seq<StepForm>
    decreases chunks.len(),
{
    if chunks.len() == 0 {
        Seq::empty()
    } else {
        let (n, now) = chunks.last();
        all_chunk_steps(o, chunks.drop_last()) + chunk_steps(
            after_chunks(o, chunks.drop_last()),
            n,
            now,
        )
    }
}

/// The bytes in chunks.
pub open spec fn bytes_in(chunks: Seq<(u64, u64)>) -> nat
    decreases chunks.len(),
{
    if chunks.len() == 0 {
        0
    } else {
        bytes_in(chunks.drop_last()) + chunks.last().0 as nat
    }
}

/// Whether a step tells that so much of a file is sent.
pub open spec fn tells(step: StepForm, o: OutgoingForm, bytes: nat) -> bool {
    step matches StepForm::Emit(EventForm::SendProgress { file_id, bytes_sent, size }) && file_id
        == o.file_id && size == o.size && bytes_sent == bytes
}

/// However a file is cut into chunks, and however long they take: right before its stream is
/// closed it has been told that all of it is sent, and no step told of more.
pub proof fn law_progress_reaches_total(o: OutgoingForm, chunks: Seq<(u64, u64)>)
    requires
        o.sent == 0,
        o.reported == 0,
        bytes_in(chunks) <= u64::MAX,
    ensures
        after_chunks(o, chunks).sent == bytes_in(chunks),
        ({
            let steps = all_chunk_steps(o, chunks) + end_steps(after_chunks(o, chunks));
            &&& steps.len() >= 2
            &&& steps[steps.len() - 2] is Finish
            &&& bytes_in(chunks) > 0 ==> steps.len() >= 3 && tells(
                steps[steps.len() - 3],
                o,
                bytes_in(chunks),
            )
            &&& forall|i: int, bytes: nat|
                0 <= i < steps.len() && #[trigger] tells(steps[i], o, bytes) ==> bytes <= bytes_in(
                    chunks,
                )
        }),
{
    lemma_chunks(o, chunks);
    let now = after_chunks(o, chunks);
    let first = all_chunk_steps(o, chunks);
    let last = end_steps(now);
    let steps = first + last;
    assert(steps[steps.len() - 2] == last[last.len() - 2]);
    if now.sent > now.reported {
        assert(steps[steps.len() - 3] == last[0]);
    } else if bytes_in(chunks) > 0 {
        assert(steps[steps.len() - 3] == first.last());
    }
    assert forall|i: int, bytes: nat|
        0 <= i < steps.len() && #[trigger] tells(steps[i], o, bytes) implies bytes <= bytes_in(
        chunks,
    ) by {
        if i < first.len() {
            assert(tells(first[i], o, bytes));
        } else {
            assert(steps[i] == last[i - first.len()]);
        }
    }
}

proof fn lemma_chunks(o: OutgoingForm, chunks: Seq<(u64, u64)>)
    requires
        o.sent == 0,
        o.reported == 0,
        bytes_in(chunks) <= u64::MAX,
    ensures
        after_chunks(o, chunks).sent == bytes_in(chunks),
        after_chunks(o, chunks).file_id == o.file_id,
        after_chunks(o, chunks).size == o.size,
        after_chunks(o, chunks).reported <= after_chunks(o, chunks).sent,
        bytes_in(chunks) > 0 && after_chunks(o, chunks).reported == bytes_in(chunks) ==> {
            &&& all_chunk_steps(o, chunks).len() > 0
            &&& tells(all_chunk_steps(o, chunks).last(), o, bytes_in(chunks))
        },
        forall|i: int, bytes: nat|
            0 <= i < all_chunk_steps(o, chunks).len() && #[trigger] tells(
                all_chunk_steps(o, chunks)[i],
                o,
                bytes,
            ) ==> bytes <= bytes_in(chunks),
    decreases chunks.len(),
{
    if chunks.len() > 0 {
        let less = chunks.drop_last();
        lemma_chunks(o, less);
        let mid = after_chunks(o, less);
        let (n, now) = chunks.last();
        let first = all_chunk_steps(o, less);
        let last = chunk_steps(mid, n, now);
        let steps = all_chunk_steps(o, chunks);
        assert(steps == first + last);
        if last.len() > 0 {
            assert(steps.last() == last[0]);
        } else {
            assert(steps =~= first);
        }
        assert forall|i: int, bytes: nat|
            0 <= i < steps.len() && #[trigger] tells(steps[i], o, bytes) implies bytes <= bytes_in(
            chunks,
        ) by {
            if i < first.len() {
                assert(tells(first[i], o, bytes));
            } else {
                assert(steps[i] == last[i - first.len()]);
            }
        }
    }
}

/// Files are read a quarter of a mebibyte at a time.
pub proof fn law_files_are_read_in_pieces()
    ensures
        TRANSFER_BUFFER_SIZE == 256 * 1024,
        PROGRESS_EMIT_BYTES == 1024 * 1024,
        PROGRESS_EMIT_NANOS == 100 * 1_000_000,
{
}

} // verus!
