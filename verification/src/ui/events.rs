//! How the single screen answers to events.

use vstd::prelude::*;

use crate::addr::{IpAddr, Ipv4Addr, Ipv6Addr, SocketAddr, SocketAddrV4, SocketAddrV6};
use crate::net::commands::{EventForm, NetEvent};
use crate::path::{FilePath, PathForm};
use crate::text;
use crate::ui::components;
use crate::ui::components::{ButtonAction, ReceivedClickAction};
use crate::ui::geometry;
use crate::ui::local_ips;
use crate::ui::screen;
use crate::ui::screen::{
    AppState, ConnectStatus, IncomingEntry, IncomingForm, OutgoingEntry, OutgoingForm, ScreenForm,
};
use crate::ui::state;
use crate::ui::state::{IncomingStatus, IpMode, OutgoingStatus, RateSample};

verus! {

// ---------------------------------------------------------------- finding entries

proof fn lemma_first_where_step<T>(s: Seq<T>, p: spec_fn(T) -> bool, i: int)
    requires
        0 <= i < s.len(),
        screen::first_where(s.take(i), p) < 0,
    ensures
        screen::first_where(s.take(i + 1), p) == (if p(s[i]) {
            i
        } else {
            -1
        }),
{
    assert(s.take(i + 1).drop_last() =~= s.take(i));
    assert(s.take(i + 1).last() == s[i]);
}

proof fn lemma_first_where_stays<T>(s: Seq<T>, p: spec_fn(T) -> bool, i: int)
    requires
        0 <= i <= s.len(),
        screen::first_where(s.take(i), p) >= 0,
    ensures
        screen::first_where(s, p) == screen::first_where(s.take(i), p),
        screen::first_where(s, p) < i,
    decreases s.len() - i,
{
    lemma_first_where_bound(s.take(i), p);
    if i < s.len() {
        assert(s.take(i + 1).drop_last() =~= s.take(i));
        lemma_first_where_stays(s, p, i + 1);
    } else {
        assert(s.take(i) =~= s);
    }
}

proof fn lemma_first_where_bound<T>(s: Seq<T>, p: spec_fn(T) -> bool)
    ensures
        -1 <= screen::first_where(s, p) < s.len(),
    decreases s.len(),
{
    if s.len() > 0 {
        lemma_first_where_bound(s.drop_last(), p);
    }
}

/// The first file to be sent with a number, or at a path, as far as these are given.
fn find_outgoing(
    list: &Vec<OutgoingEntry>,
    file_id: Option<u64>,
    path: Option<&FilePath>,
    Ghost(p): Ghost<spec_fn(OutgoingForm) -> bool>,
) -> (r: Option<usize>)
    requires
        forall|e: OutgoingForm| #[trigger]
            p(e) == ((file_id is Some && e.file_id == file_id) || (path matches Some(q)
                && e.path.parts == q@.parts)),
    ensures
        match r {
            Some(i) => i < list@.len() && screen::first_where(screen::outgoing_forms(list@), p)
                == i,
            None => screen::first_where(screen::outgoing_forms(list@), p) < 0,
        },
{
    let ghost s = screen::outgoing_forms(list@);
    let mut i: usize = 0;
    assert(s.take(0) =~= Seq::<OutgoingForm>::empty());
    while i < list.len()
        invariant
            i <= list@.len(),
            s == screen::outgoing_forms(list@),
            screen::first_where(s.take(i as int), p) < 0,
            forall|e: OutgoingForm| #[trigger]
                p(e) == ((file_id is Some && e.file_id == file_id) || (path matches Some(q)
                    && e.path.parts == q@.parts)),
        decreases list@.len() - i,
    {
        proof {
            lemma_first_where_step(s, p, i as int);
            assert(s[i as int] == list@[i as int]@);
            assert(p(s[i as int]) == p(list@[i as int]@));
        }
        let by_id = file_id.is_some() && list[i].file_id == file_id;
        let by_path = match path {
            Some(q) => list[i].path.same(q),
            None => false,
        };
        if by_id || by_path {
            proof {
                lemma_first_where_stays(s, p, i + 1);
            }
            return Some(i);
        }
        i += 1;
    }
    assert(s.take(i as int) =~= s);
    None
}

/// The first file coming in with a number.
fn find_incoming(list: &Vec<IncomingEntry>, file_id: u64) -> (r: Option<usize>)
    ensures
        match r {
            Some(i) => i < list@.len() && screen::first_where(
                screen::incoming_forms(list@),
                screen::coming(file_id),
            ) == i,
            None => screen::first_where(
                screen::incoming_forms(list@),
                screen::coming(file_id),
            ) < 0,
        },
{
    let ghost s = screen::incoming_forms(list@);
    let ghost p = screen::coming(file_id);
    let mut i: usize = 0;
    assert(s.take(0) =~= Seq::<IncomingForm>::empty());
    while i < list.len()
        invariant
            i <= list@.len(),
            s == screen::incoming_forms(list@),
            p == screen::coming(file_id),
            screen::first_where(s.take(i as int), p) < 0,
        decreases list@.len() - i,
    {
        proof {
            lemma_first_where_step(s, p, i as int);
            assert(s[i as int] == list@[i as int]@);
        }
        if list[i].file_id == file_id {
            proof {
                lemma_first_where_stays(s, p, i + 1);
            }
            return Some(i);
        }
        i += 1;
    }
    assert(s.take(i as int) =~= s);
    None
}

fn least(a: u64, b: u64) -> (r: u64)
    ensures
        r == screen::least(a, b),
{
    if a < b {
        a
    } else {
        b
    }
}

fn file_sent(list: &mut Vec<OutgoingEntry>, file_id: u64, path: &FilePath)
    ensures
        screen::outgoing_forms(final(list)@) == screen::first_changed(
            screen::outgoing_forms(old(list)@),
            screen::numbered_or_at(file_id, path@),
            |e: OutgoingForm| screen::sent(e),
        ),
{
    let ghost s = screen::outgoing_forms(list@);
    if let Some(i) = find_outgoing(
        list,
        Some(file_id),
        Some(path),
        Ghost(screen::numbered_or_at(file_id, path@)),
    ) {
        assert(s[i as int] == list@[i as int]@);
        list[i].status = OutgoingStatus::Sent;
        if let Some(size) = list[i].size {
            list[i].sent_bytes = size;
        }
        assert(screen::outgoing_forms(list@) =~= s.update(i as int, screen::sent(s[i as int])));
    }
}

fn send_started(list: &mut Vec<OutgoingEntry>, file_id: u64, path: &FilePath, size: u64)
    ensures
        screen::outgoing_forms(final(list)@) == screen::first_changed(
            screen::outgoing_forms(old(list)@),
            screen::sent_from(path@),
            |e: OutgoingForm| screen::send_started(e, file_id, size),
        ),
{
    let ghost s = screen::outgoing_forms(list@);
    if let Some(i) = find_outgoing(list, None, Some(path), Ghost(screen::sent_from(path@))) {
        assert(s[i as int] == list@[i as int]@);
        list[i].file_id = Some(file_id);
        list[i].size = Some(size);
        list[i].sent_bytes = 0;
        list[i].status = OutgoingStatus::Sending;
        assert(screen::outgoing_forms(list@) =~= s.update(
            i as int,
            screen::send_started(s[i as int], file_id, size),
        ));
    }
}

fn send_progressed(list: &mut Vec<OutgoingEntry>, file_id: u64, bytes_sent: u64, size: u64)
    ensures
        screen::outgoing_forms(final(list)@) == screen::first_changed(
            screen::outgoing_forms(old(list)@),
            screen::numbered(file_id),
            |e: OutgoingForm| screen::send_progressed(e, bytes_sent, size),
        ),
{
    let ghost s = screen::outgoing_forms(list@);
    if let Some(i) = find_outgoing(list, Some(file_id), None, Ghost(screen::numbered(file_id))) {
        assert(s[i as int] == list@[i as int]@);
        list[i].size = Some(size);
        list[i].sent_bytes = least(bytes_sent, size);
        if list[i].status == OutgoingStatus::Pending {
            list[i].status = OutgoingStatus::Sending;
        }
        assert(screen::outgoing_forms(list@) =~= s.update(
            i as int,
            screen::send_progressed(s[i as int], bytes_sent, size),
        ));
    }
}

fn send_canceled(list: &mut Vec<OutgoingEntry>, file_id: u64, path: &FilePath)
    ensures
        screen::outgoing_forms(final(list)@) == screen::first_changed(
            screen::outgoing_forms(old(list)@),
            screen::numbered_or_at(file_id, path@),
            |e: OutgoingForm| OutgoingForm { status: OutgoingStatus::Canceled, ..e },
        ),
{
    let ghost s = screen::outgoing_forms(list@);
    if let Some(i) = find_outgoing(
        list,
        Some(file_id),
        Some(path),
        Ghost(screen::numbered_or_at(file_id, path@)),
    ) {
        assert(s[i as int] == list@[i as int]@);
        list[i].status = OutgoingStatus::Canceled;
        assert(screen::outgoing_forms(list@) =~= s.update(
            i as int,
            OutgoingForm { status: OutgoingStatus::Canceled, ..s[i as int] },
        ));
    }
}

fn file_received(list: &mut Vec<IncomingEntry>, file_id: u64)
    ensures
        screen::incoming_forms(final(list)@) == screen::first_changed(
            screen::incoming_forms(old(list)@),
            screen::coming(file_id),
            |e: IncomingForm| screen::received(e),
        ),
{
    let ghost s = screen::incoming_forms(list@);
    if let Some(i) = find_incoming(list, file_id) {
        assert(s[i as int] == list@[i as int]@);
        list[i].status = IncomingStatus::Done;
        list[i].received_bytes = list[i].size;
        list[i].rate = RateSample { bytes: 0, nanos: 0 };
        list[i].rate_last_at = None;
        assert(screen::incoming_forms(list@) =~= s.update(
            i as int,
            screen::received(s[i as int]),
        ));
    }
}

fn receive_progressed(
    list: &mut Vec<IncomingEntry>,
    file_id: u64,
    bytes_received: u64,
    size: u64,
    now: u64,
)
    ensures
        screen::incoming_forms(final(list)@) == screen::first_changed(
            screen::incoming_forms(old(list)@),
            screen::coming(file_id),
            |e: IncomingForm| screen::receive_progressed(e, bytes_received, size, now),
        ),
{
    let ghost s = screen::incoming_forms(list@);
    if let Some(i) = find_incoming(list, file_id) {
        assert(s[i as int] == list@[i as int]@);
        let new_bytes: u64 = least(bytes_received, size);
        match list[i].rate_last_at {
            Some(last_at) => {
                let elapsed: u64 = if now > last_at {
                    now - last_at
                } else {
                    0
                };
                if elapsed >= screen::RATE_INTERVAL_NANOS {
                    let delta: u64 = if new_bytes > list[i].rate_last_bytes {
                        new_bytes - list[i].rate_last_bytes
                    } else {
                        0
                    };
                    list[i].rate = RateSample { bytes: delta, nanos: elapsed };
                    list[i].rate_last_at = Some(now);
                    list[i].rate_last_bytes = new_bytes;
                }
            },
            None => {
                list[i].rate_last_at = Some(now);
                list[i].rate_last_bytes = new_bytes;
            },
        }
        list[i].size = size;
        list[i].received_bytes = new_bytes;
        if list[i].status == IncomingStatus::Done {
            list[i].status = IncomingStatus::Receiving;
        }
        assert(list@[i as int]@ == screen::receive_progressed(
            s[i as int],
            bytes_received,
            size,
            now,
        ));
        assert(screen::incoming_forms(list@) =~= s.update(i as int, list@[i as int]@));
    }
}

fn receive_canceled(list: &mut Vec<IncomingEntry>, file_id: u64)
    ensures
        screen::incoming_forms(final(list)@) == screen::first_changed(
            screen::incoming_forms(old(list)@),
            screen::coming(file_id),
            |e: IncomingForm| IncomingForm { status: IncomingStatus::Canceled, ..e },
        ),
{
    let ghost s = screen::incoming_forms(list@);
    if let Some(i) = find_incoming(list, file_id) {
        assert(s[i as int] == list@[i as int]@);
        list[i].status = IncomingStatus::Canceled;
        assert(screen::incoming_forms(list@) =~= s.update(
            i as int,
            IncomingForm { status: IncomingStatus::Canceled, ..s[i as int] },
        ));
    }
}

// ---------------------------------------------------------------- news from the network

fn told(
    app: &mut AppState,
    message: String,
    Ghost(now): Ghost<u64>,
    Ghost(around): Ghost<Option<Seq<IpAddr>>>,
)
    ensures
        final(app)@ == screen::after_event(old(app)@, EventForm::Log(message@), now, around),
{
    reveal(screen::after_event);
    let lower = text::to_lower(message.as_str());
    if text::starts_with(lower.as_str(), "stun indisponivel") {
        app.stun_status = Some("stun indisponivel".to_owned());
    } else if text::starts_with(lower.as_str(), "stun erro") {
        app.stun_status = Some("stun falhou".to_owned());
    } else if text::starts_with(lower.as_str(), "endpoint publico") {
        app.stun_status = None;
    }
    app.push_log(message);
}

fn bound(
    app: &mut AppState,
    addr: SocketAddr,
    Ghost(now): Ghost<u64>,
    interfaces: &Option<Vec<IpAddr>>,
)
    ensures
        final(app)@ == screen::after_event(
            old(app)@,
            EventForm::Bound(addr),
            now,
            local_ips::listed(*interfaces),
        ),
{
    reveal(screen::after_event);
    app.bind_addr = addr;
    app.local_ip = local_ips::detect_local_ips(interfaces);
    app.mode = app.mode.fallback(app.local_ip.has_v4(), app.local_ip.has_v6());
    app.public_endpoint = None;
    app.stun_status = Some("stun...".to_owned());
    app.needs_clear = true;
}

fn endpoint_known(
    app: &mut AppState,
    endpoint: SocketAddr,
    Ghost(now): Ghost<u64>,
    Ghost(around): Ghost<Option<Seq<IpAddr>>>,
)
    ensures
        final(app)@ == screen::after_event(old(app)@, EventForm::PublicEndpoint(endpoint), now, around),
{
    reveal(screen::after_event);
    app.public_endpoint = Some(endpoint);
    app.stun_status = None;
    app.push_log(text::joined("endpoint publico ", endpoint.text().as_str()));
}

fn peer_connecting(
    app: &mut AppState,
    addr: SocketAddr,
    Ghost(now): Ghost<u64>,
    Ghost(around): Ghost<Option<Seq<IpAddr>>>,
)
    ensures
        final(app)@ == screen::after_event(old(app)@, EventForm::PeerConnecting(addr), now, around),
{
    reveal(screen::after_event);
    app.connect_status = ConnectStatus::Connecting(addr);
    app.peer_addr = None;
    app.push_log(text::joined("conectando ", addr.text().as_str()));
}

fn peer_connected(
    app: &mut AppState,
    addr: SocketAddr,
    Ghost(now): Ghost<u64>,
    Ghost(around): Ghost<Option<Seq<IpAddr>>>,
)
    ensures
        final(app)@ == screen::after_event(old(app)@, EventForm::PeerConnected(addr), now, around),
{
    reveal(screen::after_event);
    app.peer_addr = Some(addr);
    app.connect_status = ConnectStatus::Connected(addr);
    app.push_log(text::joined("conectado ", addr.text().as_str()));
}

fn peer_timed_out(
    app: &mut AppState,
    addr: SocketAddr,
    Ghost(now): Ghost<u64>,
    Ghost(around): Ghost<Option<Seq<IpAddr>>>,
)
    ensures
        final(app)@ == screen::after_event(old(app)@, EventForm::PeerTimeout(addr), now, around),
{
    reveal(screen::after_event);
    if app.peer_addr == Some(addr) {
        app.peer_addr = None;
    }
    app.connect_status = ConnectStatus::Timeout(addr);
    app.push_log(text::joined("tempo esgotado ", addr.text().as_str()));
}

fn note_sent(
    app: &mut AppState,
    file_id: u64,
    path: FilePath,
    Ghost(now): Ghost<u64>,
    Ghost(around): Ghost<Option<Seq<IpAddr>>>,
)
    ensures
        final(app)@ == screen::after_event(old(app)@, (EventForm::FileSent { file_id, path: path@ }), now, around),
{
    reveal(screen::after_event);
    file_sent(&mut app.selected, file_id, &path);
    app.push_log(text::joined("enviado ", path.text.as_str()));
}

fn note_received(
    app: &mut AppState,
    file_id: u64,
    path: FilePath,
    Ghost(from): Ghost<Option<SocketAddr>>,
    Ghost(now): Ghost<u64>,
    Ghost(around): Ghost<Option<Seq<IpAddr>>>,
)
    ensures
        final(app)@ == screen::after_event(old(app)@, (EventForm::FileReceived { file_id, path: path@, from }), now, around),
{
    reveal(screen::after_event);
    file_received(&mut app.received, file_id);
    app.push_log(text::joined("recebido ", path.text.as_str()));
}

fn note_session(
    app: &mut AppState,
    path: FilePath,
    Ghost(now): Ghost<u64>,
    Ghost(around): Ghost<Option<Seq<IpAddr>>>,
)
    ensures
        final(app)@ == screen::after_event(old(app)@, EventForm::SessionDir(path@), now, around),
{
    reveal(screen::after_event);
    app.push_log(text::joined("diretorio da sessao ", path.text.as_str()));
}

fn note_send_started(
    app: &mut AppState,
    file_id: u64,
    path: FilePath,
    size: u64,
    Ghost(now): Ghost<u64>,
    Ghost(around): Ghost<Option<Seq<IpAddr>>>,
)
    ensures
        final(app)@ == screen::after_event(old(app)@, (EventForm::SendStarted { file_id, path: path@, size }), now, around),
{
    reveal(screen::after_event);
    send_started(&mut app.selected, file_id, &path, size);
}

fn note_send_progress(
    app: &mut AppState,
    file_id: u64,
    bytes_sent: u64,
    size: u64,
    Ghost(now): Ghost<u64>,
    Ghost(around): Ghost<Option<Seq<IpAddr>>>,
)
    ensures
        final(app)@ == screen::after_event(old(app)@, (EventForm::SendProgress { file_id, bytes_sent, size }), now, around),
{
    reveal(screen::after_event);
    send_progressed(&mut app.selected, file_id, bytes_sent, size);
}

fn note_send_canceled(
    app: &mut AppState,
    file_id: u64,
    path: FilePath,
    Ghost(now): Ghost<u64>,
    Ghost(around): Ghost<Option<Seq<IpAddr>>>,
)
    ensures
        final(app)@ == screen::after_event(old(app)@, (EventForm::SendCanceled { file_id, path: path@ }), now, around),
{
    reveal(screen::after_event);
    send_canceled(&mut app.selected, file_id, &path);
    app.push_log(text::joined("cancelado ", path.text.as_str()));
}

fn note_receive_started(
    app: &mut AppState,
    file_id: u64,
    path: FilePath,
    size: u64,
    now: u64,
    Ghost(around): Ghost<Option<Seq<IpAddr>>>,
)
    ensures
        final(app)@ == screen::after_event(
            old(app)@,
            (EventForm::ReceiveStarted { file_id, path: path@, size }),
            now,
            around,
        ),
{
    reveal(screen::after_event);
    let ghost before = app.received@;
    app.received.push(
        IncomingEntry {
            path,
            file_id,
            size,
            received_bytes: 0,
            status: IncomingStatus::Receiving,
            rate: RateSample { bytes: 0, nanos: 0 },
            rate_last_at: Some(now),
            rate_last_bytes: 0,
        },
    );
    assert(screen::incoming_forms(app.received@) =~= screen::incoming_forms(before).push(
        screen::receive_started(file_id, path@, size, now),
    ));
}

fn note_receive_progress(
    app: &mut AppState,
    file_id: u64,
    bytes_received: u64,
    size: u64,
    now: u64,
    Ghost(around): Ghost<Option<Seq<IpAddr>>>,
)
    ensures
        final(app)@ == screen::after_event(
            old(app)@,
            (EventForm::ReceiveProgress { file_id, bytes_received, size }),
            now,
            around,
        ),
{
    reveal(screen::after_event);
    receive_progressed(&mut app.received, file_id, bytes_received, size, now);
}

fn note_receive_canceled(
    app: &mut AppState,
    file_id: u64,
    path: FilePath,
    Ghost(now): Ghost<u64>,
    Ghost(around): Ghost<Option<Seq<IpAddr>>>,
)
    ensures
        final(app)@ == screen::after_event(old(app)@, (EventForm::ReceiveCanceled { file_id, path: path@ }), now, around),
{
    reveal(screen::after_event);
    receive_canceled(&mut app.received, file_id);
    app.push_log(text::joined("recebimento cancelado ", path.text.as_str()));
}

/// Takes news from the network.
pub fn handle_net_event(
    app: &mut AppState,
    event: NetEvent,
    now: u64,
    interfaces: &Option<Vec<IpAddr>>,
)
    ensures
        final(app)@ == screen::after_event(
            old(app)@,
            event@,
            now,
            local_ips::listed(*interfaces),
        ),
{
    let ghost around = local_ips::listed(*interfaces);
    match event {
        NetEvent::Log(message) => told(app, message, Ghost(now), Ghost(around)),
        NetEvent::Bound(addr) => bound(app, addr, Ghost(now), interfaces),
        NetEvent::PublicEndpoint(endpoint) => endpoint_known(
            app,
            endpoint,
            Ghost(now),
            Ghost(around),
        ),
        NetEvent::FileSent { file_id, path } => note_sent(
            app,
            file_id,
            path,
            Ghost(now),
            Ghost(around),
        ),
        NetEvent::FileReceived { file_id, path, from } => note_received(
            app,
            file_id,
            path,
            Ghost(from),
            Ghost(now),
            Ghost(around),
        ),
        NetEvent::SessionDir(path) => note_session(app, path, Ghost(now), Ghost(around)),
        NetEvent::SendStarted { file_id, path, size } => note_send_started(
            app,
            file_id,
            path,
            size,
            Ghost(now),
            Ghost(around),
        ),
        NetEvent::SendProgress { file_id, bytes_sent, size } => note_send_progress(
            app,
            file_id,
            bytes_sent,
            size,
            Ghost(now),
            Ghost(around),
        ),
        NetEvent::SendCanceled { file_id, path } => note_send_canceled(
            app,
            file_id,
            path,
            Ghost(now),
            Ghost(around),
        ),
        NetEvent::ReceiveStarted { file_id, path, size } => note_receive_started(
            app,
            file_id,
            path,
            size,
            now,
            Ghost(around),
        ),
        NetEvent::ReceiveProgress { file_id, bytes_received, size } => note_receive_progress(
            app,
            file_id,
            bytes_received,
            size,
            now,
            Ghost(around),
        ),
        NetEvent::ReceiveCanceled { file_id, path } => note_receive_canceled(
            app,
            file_id,
            path,
            Ghost(now),
            Ghost(around),
        ),
        NetEvent::PeerConnecting(addr) => peer_connecting(app, addr, Ghost(now), Ghost(around)),
        NetEvent::PeerConnected(addr) => peer_connected(app, addr, Ghost(now), Ghost(around)),
        NetEvent::PeerTimeout(addr) => peer_timed_out(app, addr, Ghost(now), Ghost(around)),
        NetEvent::ReceiveFailed { file_id: _, path: _ } => {
            reveal(screen::after_event);
        },
    }
}

/// Whatever news come, the log stays within its bounds, and no file is shown as sent or
/// received beyond its size.
pub proof fn law_news_keep_the_screen_sound(
    s: ScreenForm,
    e: EventForm,
    now: u64,
    interfaces: Option<Seq<IpAddr>>,
)
    requires
        screen::wf(s),
        within_sizes(s),
    ensures
        screen::wf(screen::after_event(s, e, now, interfaces)),
        within_sizes(screen::after_event(s, e, now, interfaces)),
{
    reveal(screen::logged);
    reveal(screen::after_event);
    match e {
        EventForm::FileSent { file_id, path } => {
            lemma_first_where_bound(s.selected, screen::numbered_or_at(file_id, path));
        },
        EventForm::SendStarted { file_id, path, size } => {
            lemma_first_where_bound(s.selected, screen::sent_from(path));
        },
        EventForm::SendProgress { file_id, bytes_sent, size } => {
            lemma_first_where_bound(s.selected, screen::numbered(file_id));
        },
        EventForm::SendCanceled { file_id, path } => {
            lemma_first_where_bound(s.selected, screen::numbered_or_at(file_id, path));
        },
        EventForm::FileReceived { file_id, path, .. } => {
            lemma_first_where_bound(s.received, screen::coming(file_id));
        },
        EventForm::ReceiveProgress { file_id, bytes_received, size } => {
            lemma_first_where_bound(s.received, screen::coming(file_id));
        },
        EventForm::ReceiveCanceled { file_id, path } => {
            lemma_first_where_bound(s.received, screen::coming(file_id));
        },
        _ => {},
    }
}

/// No file is shown as sent or received beyond its size.
pub open spec fn within_sizes(s: ScreenForm) -> bool {
    &&& forall|i: int|
        0 <= i < s.selected.len() ==> ((#[trigger] s.selected[i]).size matches Some(size)
            ==> s.selected[i].sent_bytes <= size)
    &&& forall|i: int|
        0 <= i < s.received.len() ==> (#[trigger] s.received[i]).received_bytes
            <= s.received[i].size
}

// ---------------------------------------------------------------- requests

/// What the screen asks for in answer to an event. Its outcome comes back through one of the
/// functions below.
#[derive(Debug)]
pub enum Request {
    Nothing,
    /// Tell the network to connect: `connect_sent`.
    Connect(SocketAddr),
    /// Tell the network to listen elsewhere: `rebind_sent`.
    Rebind(SocketAddr),
    /// Tell the network to send files: `files_sent`.
    SendFiles(Vec<FilePath>),
    /// Tell the network to stop transfers: `cancel_sent`.
    Cancel,
    /// Put a text on the clipboard: `copied`.
    Copy(String),
    /// Read the clipboard: `pasted`.
    Paste,
    /// Let the user pick files: `picked`.
    PickFiles,
    /// Open a received file, or show it in its folder: `opened`.
    OpenReceived(FilePath, ReceivedClickAction),
}

/// A request as a value of mathematics.
pub enum RequestForm {
    Nothing,
    Connect(SocketAddr),
    Rebind(SocketAddr),
    SendFiles(Seq<PathForm>),
    Cancel,
    Copy(Seq<char>),
    Paste,
    PickFiles,
    OpenReceived(PathForm, ReceivedClickAction),
}

impl View for Request {
    type V = RequestForm;

    open spec fn view(&self) -> RequestForm {
        match *self {
            Request::Nothing => RequestForm::Nothing,
            Request::Connect(addr) => RequestForm::Connect(addr),
            Request::Rebind(addr) => RequestForm::Rebind(addr),
            Request::SendFiles(files) => RequestForm::SendFiles(crate::path::paths(files@)),
            Request::Cancel => RequestForm::Cancel,
            Request::Copy(text) => RequestForm::Copy(text@),
            Request::Paste => RequestForm::Paste,
            Request::PickFiles => RequestForm::PickFiles,
            Request::OpenReceived(path, action) => RequestForm::OpenReceived(path@, action),
        }
    }
}

/// What an answer to an event may need to know: the address that the peer input is without
/// white space at its ends, where it is one, and the machine's addresses.
#[derive(Debug)]
pub struct Surroundings {
    pub input_addr: Option<SocketAddr>,
    pub interfaces: Option<Vec<IpAddr>>,
}

/// The address in the peer input, given what it is without white space at its ends.
pub open spec fn peer_in(input: Seq<char>, parsed: Option<SocketAddr>) -> Option<SocketAddr> {
    if text::trimmed(input).len() == 0 {
        None
    } else {
        parsed
    }
}

/// The address in the peer input, given what it is without white space at its ends.
pub fn parse_peer_addr(input: &str, parsed: Option<SocketAddr>) -> (r: Option<SocketAddr>)
    ensures
        r == peer_in(input@, parsed),
{
    let trimmed = text::trim(input);
    if trimmed.as_str().is_empty() {
        return None;
    }
    parsed
}

/// The screen and the request after the user asked to connect.
pub open spec fn connect_asked(s: ScreenForm, parsed: Option<SocketAddr>) -> (
    ScreenForm,
    RequestForm,
) {
    match peer_in(s.peer_input, parsed) {
        Some(addr) => (s, RequestForm::Connect(addr)),
        None => (screen::logged(s, "endereco do parceiro invalido"@), RequestForm::Nothing),
    }
}

/// Answers to the wish to connect.
pub fn start_connect(app: &mut AppState, parsed: Option<SocketAddr>) -> (r: Request)
    ensures
        (final(app)@, r@) == connect_asked(old(app)@, parsed),
{
    match parse_peer_addr(app.peer_input.as_str(), parsed) {
        Some(addr) => Request::Connect(addr),
        None => {
            app.push_log("endereco do parceiro invalido".to_owned());
            Request::Nothing
        },
    }
}

/// Takes whether the network was told to connect.
pub fn connect_sent(app: &mut AppState, addr: SocketAddr, error: Option<String>)
    ensures
        final(app)@ == match error {
            Some(err) => screen::logged(old(app)@, "erro ao enviar conexao "@ + err@),
            None => ScreenForm {
                connect_status: ConnectStatus::Connecting(addr),
                peer_addr: None,
                ..old(app)@
            },
        },
{
    match error {
        Some(err) => {
            app.push_log(text::joined("erro ao enviar conexao ", err.as_str()));
        },
        None => {
            app.connect_status = ConnectStatus::Connecting(addr);
            app.peer_addr = None;
        },
    }
}

/// The address to listen on for a family: the current one where it is of that family, else any
/// address, at the same port.
pub open spec fn bind_for(current: SocketAddr, mode: IpMode) -> SocketAddr {
    if current.is_ipv4_spec() == (mode is Ipv4) {
        SocketAddr::new_spec(current.ip_spec(), current.port_spec())
    } else if mode is Ipv4 {
        SocketAddr::new_spec(IpAddr::V4(Ipv4Addr::unspecified_spec()), current.port_spec())
    } else {
        SocketAddr::new_spec(IpAddr::V6(Ipv6Addr::unspecified_spec()), current.port_spec())
    }
}

/// The address to listen on for a family.
pub fn bind_for_mode(current: SocketAddr, mode: IpMode) -> (r: SocketAddr)
    ensures
        r == bind_for(current, mode),
{
    let port: u16 = current.port();
    match mode {
        IpMode::Ipv4 => match current.ip() {
            IpAddr::V4(addr) => SocketAddr::new(IpAddr::V4(addr), port),
            IpAddr::V6(_) => SocketAddr::new(IpAddr::V4(Ipv4Addr::unspecified()), port),
        },
        IpMode::Ipv6 => match current.ip() {
            IpAddr::V6(addr) => SocketAddr::new(IpAddr::V6(addr), port),
            IpAddr::V4(_) => SocketAddr::new(IpAddr::V6(Ipv6Addr::unspecified()), port),
        },
    }
}

/// The port stays, and the address is of the family asked for.
pub proof fn law_bind_for_mode(current: SocketAddr, mode: IpMode)
    ensures
        bind_for(current, mode).is_ipv4_spec() == (mode is Ipv4),
        bind_for(current, mode).port_spec() == current.port_spec(),
        bind_for(bind_for(current, mode), mode) == bind_for(current, mode),
{
}

/// The screen and the request after the user chose a family: the connection is given up, and
/// another address is listened on where the current one is not of that family.
pub open spec fn mode_changed(s: ScreenForm, mode: IpMode, interfaces: Option<Seq<IpAddr>>) -> (
    ScreenForm,
    RequestForm,
) {
    if s.mode == mode {
        (s, RequestForm::Nothing)
    } else {
        let chosen = ScreenForm {
            connect_status: ConnectStatus::Idle,
            peer_addr: None,
            public_endpoint: None,
            stun_status: None,
            ..screen::mode_selected(s, mode)
        };
        let bind = bind_for(s.bind_addr, mode);
        if bind == s.bind_addr {
            (chosen, RequestForm::Nothing)
        } else {
            (
                ScreenForm {
                    bind_addr: bind,
                    local_ip: local_ips::chosen(interfaces),
                    ..chosen
                },
                RequestForm::Rebind(bind),
            )
        }
    }
}

/// Answers to the choice of a family.
pub fn handle_mode_change(app: &mut AppState, mode: IpMode, interfaces: &Option<Vec<IpAddr>>) -> (r:
    Request)
    ensures
        (final(app)@, r@) == mode_changed(old(app)@, mode, local_ips::listed(*interfaces)),
{
    reveal(screen::logged);
    if app.mode == mode {
        return Request::Nothing;
    }
    app.select_mode(mode);
    app.connect_status = ConnectStatus::Idle;
    app.peer_addr = None;
    app.public_endpoint = None;
    app.stun_status = None;
    let new_bind = bind_for_mode(app.bind_addr, mode);
    if new_bind != app.bind_addr {
        app.bind_addr = new_bind;
        app.local_ip = local_ips::detect_local_ips(interfaces);
        return Request::Rebind(new_bind);
    }
    Request::Nothing
}

/// Takes whether the network was told to listen elsewhere.
pub fn rebind_sent(app: &mut AppState, error: Option<String>)
    ensures
        final(app)@ == match error {
            Some(err) => screen::logged(old(app)@, "erro ao trocar modo "@ + err@),
            None => old(app)@,
        },
{
    if let Some(err) = error {
        app.push_log(text::joined("erro ao trocar modo ", err.as_str()));
    }
}

/// The paths of the files that wait to be sent.
pub open spec fn pending(s: Seq<OutgoingForm>) -> Seq<PathForm>
    decreases s.len(),
{
    if s.len() == 0 {
        Seq::empty()
    } else if s.last().status is Pending {
        pending(s.drop_last()).push(s.last().path)
    } else {
        pending(s.drop_last())
    }
}

fn pending_files(list: &Vec<OutgoingEntry>) -> (r: Vec<FilePath>)
    ensures
        crate::path::paths(r@) == pending(screen::outgoing_forms(list@)),
{
    let ghost s = screen::outgoing_forms(list@);
    let mut r: Vec<FilePath> = Vec::new();
    let mut i: usize = 0;
    assert(s.take(0) =~= Seq::<OutgoingForm>::empty());
    assert(crate::path::paths(r@) =~= Seq::<PathForm>::empty());
    while i < list.len()
        invariant
            i <= list@.len(),
            s == screen::outgoing_forms(list@),
            crate::path::paths(r@) == pending(s.take(i as int)),
        decreases list@.len() - i,
    {
        assert(s.take(i + 1).drop_last() =~= s.take(i as int));
        assert(s.take(i + 1).last() == list@[i as int]@);
        if list[i].status == OutgoingStatus::Pending {
            let ghost before = r@;
            r.push(list[i].path.copied());
            assert(crate::path::paths(r@) =~= crate::path::paths(before).push(
                list@[i as int]@.path,
            ));
        }
        i += 1;
    }
    assert(s.take(i as int) =~= s);
    r
}

/// The screen and the request after the user asked to send.
pub open spec fn send_asked(s: ScreenForm) -> (ScreenForm, RequestForm) {
    if s.selected.len() == 0 {
        (screen::logged(s, "nenhum arquivo selecionado"@), RequestForm::Nothing)
    } else if pending(s.selected).len() == 0 {
        (screen::logged(s, "nenhum arquivo pendente"@), RequestForm::Nothing)
    } else {
        (s, RequestForm::SendFiles(pending(s.selected)))
    }
}

fn send_pending(app: &mut AppState) -> (r: Request)
    ensures
        (final(app)@, r@) == send_asked(old(app)@),
{
    assert(app@.selected.len() == app.selected@.len());
    if app.selected.len() == 0 {
        app.push_log("nenhum arquivo selecionado".to_owned());
        return Request::Nothing;
    }
    let files = pending_files(&app.selected);
    assert(crate::path::paths(files@).len() == files@.len());
    if files.len() == 0 {
        app.push_log("nenhum arquivo pendente".to_owned());
        return Request::Nothing;
    }
    Request::SendFiles(files)
}

/// Takes whether the network was told to send files.
pub fn files_sent(app: &mut AppState, error: Option<String>)
    ensures
        final(app)@ == match error {
            Some(err) => screen::logged(old(app)@, "erro ao enviar "@ + err@),
            None => old(app)@,
        },
{
    if let Some(err) = error {
        app.push_log(text::joined("erro ao enviar ", err.as_str()));
    }
}

/// Takes whether the network was told to stop transfers.
pub fn cancel_sent(app: &mut AppState, error: Option<String>)
    ensures
        final(app)@ == match error {
            Some(err) => screen::logged(old(app)@, "erro ao cancelar "@ + err@),
            None => old(app)@,
        },
{
    if let Some(err) = error {
        app.push_log(text::joined("erro ao cancelar ", err.as_str()));
    }
}

/// The own address as a peer would type it.
pub open spec fn local_text(ip: IpAddr, port: u16) -> Seq<char> {
    match ip {
        IpAddr::V4(v4) => v4.text_spec() + ":"@ + text::decimal(port as nat),
        IpAddr::V6(v6) => "["@ + v6.text_spec() + "]:"@ + text::decimal(port as nat),
    }
}

/// The screen and the request after the user asked to copy the own address.
pub open spec fn copy_local_asked(s: ScreenForm) -> (ScreenForm, RequestForm) {
    match s.local_ip.for_mode(s.mode) {
        Some(ip) => (s, RequestForm::Copy(local_text(ip, s.bind_addr.port_spec()))),
        None => (screen::logged(s, "ip local nao encontrado"@), RequestForm::Nothing),
    }
}

/// Answers to the wish to copy the own address.
pub fn copy_local_ip(app: &mut AppState) -> (r: Request)
    ensures
        (final(app)@, r@) == copy_local_asked(old(app)@),
{
    match app.current_local_ip() {
        Some(ip) => {
            let port = text::number_text(app.bind_addr.port() as u64);
            match ip {
                IpAddr::V4(v4) => {
                    let mut line = v4.text();
                    line.append(":");
                    line.append(port.as_str());
                    Request::Copy(line)
                },
                IpAddr::V6(v6) => {
                    let mut line = "[".to_owned();
                    line.append(v6.text().as_str());
                    line.append("]:");
                    line.append(port.as_str());
                    Request::Copy(line)
                },
            }
        },
        None => {
            app.push_log("ip local nao encontrado".to_owned());
            Request::Nothing
        },
    }
}

/// The screen and the request after the user asked to copy the public endpoint.
pub open spec fn copy_public_asked(s: ScreenForm) -> (ScreenForm, RequestForm) {
    match state::endpoint_for(s.public_endpoint, s.mode) {
        Some(endpoint) => (s, RequestForm::Copy(endpoint.text_spec())),
        None => (screen::logged(s, "endpoint publico nao encontrado"@), RequestForm::Nothing),
    }
}

/// Answers to the wish to copy the public endpoint.
pub fn copy_public_endpoint(app: &mut AppState) -> (r: Request)
    ensures
        (final(app)@, r@) == copy_public_asked(old(app)@),
{
    match app.current_public_endpoint() {
        Some(endpoint) => Request::Copy(endpoint.text()),
        None => {
            app.push_log("endpoint publico nao encontrado".to_owned());
            Request::Nothing
        },
    }
}

/// Takes whether a text is on the clipboard.
pub fn copied(app: &mut AppState, copy: &str, error: Option<String>)
    ensures
        final(app)@ == match error {
            Some(err) => screen::logged(old(app)@, "erro no clipboard "@ + err@),
            None => screen::logged(old(app)@, "copiado "@ + copy@),
        },
{
    match error {
        Some(err) => app.push_log(text::joined("erro no clipboard ", err.as_str())),
        None => app.push_log(text::joined("copiado ", copy)),
    }
}

/// Whether a character may stand in the peer input when pasted.
pub open spec fn pastable(c: char) -> bool {
    0x20 <= c as u32 && (c as u32) < 0x7f
}

/// The characters of a text that may be pasted.
pub open spec fn pastable_of(s: Seq<char>) -> Seq<char>
    decreases s.len(),
{
    if s.len() == 0 {
        Seq::empty()
    } else if pastable(s.last()) {
        pastable_of(s.drop_last()).push(s.last())
    } else {
        pastable_of(s.drop_last())
    }
}

/// What is pasted of a text: its printable ASCII characters without white space at the ends,
/// as many as the input holds.
pub open spec fn pasted_text(s: Seq<char>) -> Seq<char> {
    let all = pastable_of(text::trimmed(s));
    if all.len() > state::MAX_PEER_INPUT {
        all.take(state::MAX_PEER_INPUT as int)
    } else {
        all
    }
}

fn filter_pasted(s: &str) -> (r: String)
    ensures
        r@ == pasted_text(s@),
{
    let trimmed = text::trim(s);
    let v = text::chars_of(trimmed.as_str());
    let ghost t = text::trimmed(s@);
    let ghost all = pastable_of(t);
    let mut r = String::new();
    let mut count: usize = 0;
    let mut i: usize = 0;
    assert(t.take(0) =~= Seq::<char>::empty());
    while i < v.len() && count < state::MAX_PEER_INPUT
        invariant
            i <= v@.len(),
            v@ == t,
            count <= state::MAX_PEER_INPUT,
            count == r@.len(),
            r@ == pastable_of(t.take(i as int)),
        decreases v@.len() - i,
    {
        assert(t.take(i + 1).drop_last() =~= t.take(i as int));
        let c = v[i];
        if 0x20 <= c as u32 && (c as u32) < 0x7f {
            r.push(c);
            count += 1;
        }
        i += 1;
    }
    proof {
        lemma_pastable_prefix(t, i as int);
        if i == t.len() {
            assert(t.take(i as int) =~= t);
        } else {
            assert(all.take(count as int) =~= r@);
            assert(all.len() == count ==> all.take(count as int) =~= all);
        }
    }
    r
}

proof fn lemma_pastable_prefix(s: Seq<char>, i: int)
    requires
        0 <= i <= s.len(),
    ensures
        pastable_of(s.take(i)).len() <= pastable_of(s).len(),
        pastable_of(s).take(pastable_of(s.take(i)).len() as int) == pastable_of(s.take(i)),
    decreases s.len(),
{
    let n = pastable_of(s.take(i)).len() as int;
    if i == s.len() {
        assert(s.take(i) =~= s);
        assert(pastable_of(s).take(n) =~= pastable_of(s));
    } else {
        let front = s.drop_last();
        lemma_pastable_prefix(front, i);
        assert(front.take(i) =~= s.take(i));
        assert(pastable_of(s).take(n) =~= pastable_of(front).take(n));
    }
}

/// What is pasted fits the input, and every character of it may stand there.
pub proof fn law_paste_fits(s: Seq<char>)
    ensures
        pasted_text(s).len() <= state::MAX_PEER_INPUT,
        forall|i: int| 0 <= i < pasted_text(s).len() ==> pastable(#[trigger] pasted_text(s)[i]),
{
    lemma_pastable_all(text::trimmed(s));
}

proof fn lemma_pastable_all(s: Seq<char>)
    ensures
        forall|i: int| 0 <= i < pastable_of(s).len() ==> pastable(#[trigger] pastable_of(s)[i]),
    decreases s.len(),
{
    if s.len() > 0 {
        let front = pastable_of(s.drop_last());
        lemma_pastable_all(s.drop_last());
        assert forall|i: int| 0 <= i < pastable_of(s).len() implies pastable(
            #[trigger] pastable_of(s)[i],
        ) by {
            if i < front.len() {
                assert(pastable(front[i]));
            }
        }
    }
}

/// Takes what the clipboard held, or why it could not be read.
pub fn pasted(app: &mut AppState, clipboard: Result<String, String>)
    ensures
        final(app)@ == match clipboard {
            Ok(t) => if pasted_text(t@).len() == 0 {
                screen::logged(old(app)@, "clipboard vazio"@)
            } else {
                screen::logged(
                    ScreenForm { peer_input: pasted_text(t@), peer_focus: true, ..old(app)@ },
                    "ip colado"@,
                )
            },
            Err(err) => screen::logged(old(app)@, "erro no clipboard "@ + err@),
        },
{
    match clipboard {
        Ok(t) => {
            let filtered = filter_pasted(t.as_str());
            if filtered.as_str().is_empty() {
                app.push_log("clipboard vazio".to_owned());
            } else {
                app.peer_input = filtered;
                app.peer_focus = true;
                app.push_log("ip colado".to_owned());
            }
        },
        Err(err) => app.push_log(text::joined("erro no clipboard ", err.as_str())),
    }
}

/// A file that waits to be sent.
pub open spec fn waiting(p: PathForm) -> OutgoingForm {
    OutgoingForm {
        path: p,
        file_id: None,
        size: None,
        sent_bytes: 0,
        status: OutgoingStatus::Pending,
    }
}

/// Takes the files that the user picked, if any.
pub fn picked(app: &mut AppState, files: Option<Vec<FilePath>>)
    ensures
        final(app)@ == (ScreenForm {
            selected: match files {
                Some(list) => old(app)@.selected + crate::path::paths(list@).map_values(
                    |p: PathForm| waiting(p),
                ),
                None => old(app)@.selected,
            },
            needs_clear: true,
            ..old(app)@
        }),
{
    if let Some(list) = files {
        let ghost before = app@;
        let ghost added = crate::path::paths(list@).map_values(|p: PathForm| waiting(p));
        let mut i: usize = 0;
        assert(before.selected =~= before.selected + added.take(0));
        while i < list.len()
            invariant
                i <= list@.len(),
                added == crate::path::paths(list@).map_values(|p: PathForm| waiting(p)),
                app@ == (ScreenForm {
                    selected: before.selected + added.take(i as int),
                    ..before
                }),
            decreases list@.len() - i,
        {
            let ghost sofar = app.selected@;
            app.selected.push(
                OutgoingEntry {
                    path: list[i].copied(),
                    file_id: None,
                    size: None,
                    sent_bytes: 0,
                    status: OutgoingStatus::Pending,
                },
            );
            assert(app@.selected =~= screen::outgoing_forms(sofar).push(
                waiting(list@[i as int]@),
            ));
            assert(before.selected + added.take(i + 1) =~= (before.selected + added.take(
                i as int,
            )).push(waiting(list@[i as int]@)));
            i += 1;
        }
        assert(added.take(i as int) =~= added);
    }
    app.needs_clear = true;
}

/// How the opening of a received file went.
#[derive(Debug)]
pub enum OpenOutcome {
    /// The file is not there.
    Missing,
    /// A program was started.
    Started,
    /// No program could be started.
    Failed(String),
}

/// The log line for the opening of a received file.
pub open spec fn opened_line(
    p: PathForm,
    action: ReceivedClickAction,
    outcome: OpenOutcome,
) -> Seq<char> {
    match outcome {
        OpenOutcome::Missing => "arquivo não encontrado "@ + p.text,
        OpenOutcome::Started => match action {
            ReceivedClickAction::Open => "abrindo "@ + p.text,
            ReceivedClickAction::RevealInFolder => "abrindo pasta "@ + p.text,
        },
        OpenOutcome::Failed(err) => match action {
            ReceivedClickAction::Open => "erro ao abrir "@ + p.text + ": "@ + err@,
            ReceivedClickAction::RevealInFolder => "erro ao abrir pasta "@ + p.text + ": "@ + err@,
        },
    }
}

/// Takes how the opening of a received file went.
pub fn opened(
    app: &mut AppState,
    path: &FilePath,
    action: ReceivedClickAction,
    outcome: OpenOutcome,
)
    ensures
        final(app)@ == screen::logged(old(app)@, opened_line(path@, action, outcome)),
{
    let line = match outcome {
        OpenOutcome::Missing => text::joined("arquivo não encontrado ", path.text.as_str()),
        OpenOutcome::Started => match action {
            ReceivedClickAction::Open => text::joined("abrindo ", path.text.as_str()),
            ReceivedClickAction::RevealInFolder => text::joined(
                "abrindo pasta ",
                path.text.as_str(),
            ),
        },
        OpenOutcome::Failed(err) => {
            let mut line = match action {
                ReceivedClickAction::Open => text::joined("erro ao abrir ", path.text.as_str()),
                ReceivedClickAction::RevealInFolder => text::joined(
                    "erro ao abrir pasta ",
                    path.text.as_str(),
                ),
            };
            line.append(": ");
            line.append(err.as_str());
            line
        },
    };
    app.push_log(line);
}

// ---------------------------------------------------------------- buttons

/// The screen and the request after a button was pressed.
pub open spec fn pressed(
    s: ScreenForm,
    action: ButtonAction,
    parsed: Option<SocketAddr>,
    interfaces: Option<Seq<IpAddr>>,
) -> (ScreenForm, RequestForm) {
    match action {
        ButtonAction::ConnectPeer => connect_asked(s, parsed),
        ButtonAction::ProbePeer => (s, RequestForm::Nothing),
        ButtonAction::SelectIpv4 => mode_changed(s, IpMode::Ipv4, interfaces),
        ButtonAction::SelectIpv6 => mode_changed(s, IpMode::Ipv6, interfaces),
        ButtonAction::ToggleMouseMode => (
            ScreenForm { mouse_capture_request: Some(!s.mouse_capture_enabled), ..s },
            RequestForm::Nothing,
        ),
        ButtonAction::CopyLocalIp => copy_local_asked(s),
        ButtonAction::CopyPublicEndpoint => copy_public_asked(s),
        ButtonAction::PastePeerIp => (s, RequestForm::Paste),
        ButtonAction::AddFiles => (s, RequestForm::PickFiles),
        ButtonAction::SendFiles => send_asked(s),
        ButtonAction::CancelTransfers => (s, RequestForm::Cancel),
        ButtonAction::Quit => (ScreenForm { should_quit: true, ..s }, RequestForm::Nothing),
    }
}

/// Answers to a button.
pub fn handle_button_action(
    app: &mut AppState,
    action: ButtonAction,
    around: &Surroundings,
) -> (r: Request)
    ensures
        (final(app)@, r@) == pressed(
            old(app)@,
            action,
            around.input_addr,
            local_ips::listed(around.interfaces),
        ),
{
    match action {
        ButtonAction::ConnectPeer => start_connect(app, around.input_addr),
        ButtonAction::ProbePeer => Request::Nothing,
        ButtonAction::SelectIpv4 => handle_mode_change(app, IpMode::Ipv4, &around.interfaces),
        ButtonAction::SelectIpv6 => handle_mode_change(app, IpMode::Ipv6, &around.interfaces),
        ButtonAction::ToggleMouseMode => {
            app.mouse_capture_request = Some(!app.mouse_capture_enabled);
            Request::Nothing
        },
        ButtonAction::CopyLocalIp => copy_local_ip(app),
        ButtonAction::CopyPublicEndpoint => copy_public_endpoint(app),
        ButtonAction::PastePeerIp => Request::Paste,
        ButtonAction::AddFiles => Request::PickFiles,
        ButtonAction::SendFiles => send_pending(app),
        ButtonAction::CancelTransfers => Request::Cancel,
        ButtonAction::Quit => {
            app.should_quit = true;
            Request::Nothing
        },
    }
}

// ---------------------------------------------------------------- keys

/// A key that the screen knows.
#[derive(Clone, Copy, Debug, PartialEq, Eq, Structural)]
pub enum Key {
    Up,
    Down,
    PageUp,
    PageDown,
    Home,
    End,
    Esc,
    Enter,
    Backspace,
    Char(char),
    Other,
}

/// The screen and the request after a key in the peer input.
pub open spec fn input_key(s: ScreenForm, key: Key, parsed: Option<SocketAddr>) -> (
    ScreenForm,
    RequestForm,
) {
    match key {
        Key::Esc => (ScreenForm { peer_focus: false, ..s }, RequestForm::Nothing),
        Key::Enter => connect_asked(ScreenForm { peer_focus: false, ..s }, parsed),
        Key::Backspace => (
            ScreenForm {
                peer_input: if s.peer_input.len() > 0 {
                    s.peer_input.drop_last()
                } else {
                    s.peer_input
                },
                ..s
            },
            RequestForm::Nothing,
        ),
        Key::Char(c) => (
            ScreenForm {
                peer_input: if (c as u32) < 0x80 && vstd::utf8::encode_utf8(s.peer_input).len()
                    < state::MAX_PEER_INPUT {
                    s.peer_input.push(c)
                } else {
                    s.peer_input
                },
                ..s
            },
            RequestForm::Nothing,
        ),
        _ => (s, RequestForm::Nothing),
    }
}

/// Answers to a key in the peer input.
pub fn handle_peer_input_key(app: &mut AppState, key: Key, parsed: Option<SocketAddr>) -> (r:
    Request)
    ensures
        (final(app)@, r@) == input_key(old(app)@, key, parsed),
{
    match key {
        Key::Esc => {
            app.peer_focus = false;
            Request::Nothing
        },
        Key::Enter => {
            app.peer_focus = false;
            start_connect(app, parsed)
        },
        Key::Backspace => {
            let _ = app.peer_input.pop();
            Request::Nothing
        },
        Key::Char(c) => {
            if (c as u32) < 0x80 && app.peer_input.as_str().as_bytes().len()
                < state::MAX_PEER_INPUT {
                app.peer_input.push(c);
            }
            Request::Nothing
        },
        _ => Request::Nothing,
    }
}

/// How many lines a page key scrolls.
pub open spec fn page(s: ScreenForm) -> int {
    if s.logs_view_height > 1 {
        s.logs_view_height
    } else {
        1
    }
}

/// The screen after a key outside the peer input.
pub open spec fn screen_key(s: ScreenForm, key: Key) -> ScreenForm {
    match key {
        Key::Up => screen::scrolled_up(s, 1),
        Key::Down => screen::scrolled_down(s, 1),
        Key::PageUp => screen::scrolled_up(s, page(s)),
        Key::PageDown => screen::scrolled_down(s, page(s)),
        Key::Home => ScreenForm { logs_scroll: 0, ..s },
        Key::End => ScreenForm { logs_scroll: screen::max_scroll(s), ..s },
        Key::Char(c) => if c == 'm' {
            ScreenForm { mouse_capture_request: Some(!s.mouse_capture_enabled), ..s }
        } else if c == 'q' {
            ScreenForm { should_quit: true, ..s }
        } else {
            s
        },
        Key::Esc => ScreenForm { should_quit: true, ..s },
        _ => s,
    }
}

/// Answers to a key: in the peer input where it has the focus, else on the screen.
pub fn handle_key(app: &mut AppState, key: Key, parsed: Option<SocketAddr>) -> (r: Request)
    requires
        screen::wf(old(app)@),
    ensures
        (final(app)@, r@) == (if old(app)@.peer_focus {
            input_key(old(app)@, key, parsed)
        } else {
            (screen_key(old(app)@, key), RequestForm::Nothing)
        }),
{
    if app.peer_focus {
        return handle_peer_input_key(app, key, parsed);
    }
    let lines: usize = if app.logs_view_height > 1 {
        app.logs_view_height
    } else {
        1
    };
    match key {
        Key::Up => app.scroll_logs_up(1),
        Key::Down => app.scroll_logs_down(1),
        Key::PageUp => app.scroll_logs_up(lines),
        Key::PageDown => app.scroll_logs_down(lines),
        Key::Home => app.scroll_logs_top(),
        Key::End => app.scroll_logs_bottom(),
        Key::Char(c) => {
            if c == 'm' {
                app.mouse_capture_request = Some(!app.mouse_capture_enabled);
            } else if c == 'q' {
                app.should_quit = true;
            }
        },
        Key::Esc => {
            app.should_quit = true;
        },
        _ => {},
    }
    Request::Nothing
}

// ---------------------------------------------------------------- mouse

/// What the mouse did.
#[derive(Clone, Copy, Debug, PartialEq, Eq, Structural)]
pub enum MouseKind {
    Moved,
    ScrollUp,
    ScrollDown,
    LeftDown,
    Other,
}

/// Whether a list of received-file buttons is hit first at a place.
pub open spec fn target_hit(s: ScreenForm, x: u16, y: u16, i: int) -> bool {
    &&& 0 <= i < s.received_click_targets.len()
    &&& s.received_click_targets[i].area.has(x, y)
    &&& forall|k: int|
        0 <= k < i ==> !(#[trigger] s.received_click_targets[k]).area.has(x, y)
}

/// Whether a list of buttons is hit first at a place.
pub open spec fn button_hit(s: ScreenForm, x: u16, y: u16, i: int) -> bool {
    &&& 0 <= i < s.buttons.len()
    &&& s.buttons[i].area.has(x, y)
    &&& forall|k: int| 0 <= k < i ==> !(#[trigger] s.buttons[k]).area.has(x, y)
}

/// Whether a left click does this: it gives the focus to the peer input, or lets go of the mouse
/// over an address, or presses the first button that it hits, those of received files before
/// the others.
pub open spec fn clicked(
    s: ScreenForm,
    x: u16,
    y: u16,
    around: Surroundings,
    now: ScreenForm,
    request: RequestForm,
) -> bool {
    let seen = ScreenForm { last_mouse: Some((x, y)), ..s };
    if s.peer_input_area.has(x, y) {
        now == (ScreenForm { peer_focus: true, ..seen }) && request is Nothing
    } else {
        let left = ScreenForm { peer_focus: false, ..seen };
        if s.local_panel_area.has(x, y) || s.public_panel_area.has(x, y) {
            now == (ScreenForm { mouse_capture_request: Some(false), ..left })
                && request is Nothing
        } else if exists|i: int| target_hit(s, x, y, i) {
            let t = s.received_click_targets[choose|i: int| target_hit(s, x, y, i)];
            now == left && request == RequestForm::OpenReceived(t.path, t.action)
        } else if exists|i: int| button_hit(s, x, y, i) {
            let b = s.buttons[choose|i: int| button_hit(s, x, y, i)];
            (now, request) == pressed(
                left,
                b.action,
                around.input_addr,
                local_ips::listed(around.interfaces),
            )
        } else {
            now == left && request is Nothing
        }
    }
}

fn click(app: &mut AppState, x: u16, y: u16, around: &Surroundings) -> (r: Request)
    ensures
        clicked(old(app)@, x, y, *around, final(app)@, r@),
{
    let ghost s = app@;
    app.last_mouse = Some((x, y));
    if geometry::point_in_rect(x, y, app.peer_input_area) {
        app.peer_focus = true;
        return Request::Nothing;
    }
    app.peer_focus = false;
    if geometry::point_in_rect(x, y, app.local_panel_area) || geometry::point_in_rect(
        x,
        y,
        app.public_panel_area,
    ) {
        app.mouse_capture_request = Some(false);
        return Request::Nothing;
    }
    let target = components::hit_target(&app.received_click_targets, x, y);
    proof {
        let raw = app.received_click_targets@;
        let all = s.received_click_targets;
        assert forall|k: int| 0 <= k < raw.len() implies #[trigger] all[k] == raw[k]@ by {}
        match target {
            Some(i) => {
                assert(target_hit(s, x, y, i as int));
                assert forall|j: int| target_hit(s, x, y, j) implies j == i by {
                    if j < i {
                        assert(!all[j].area.has(x, y));
                    } else if j > i {
                        assert(!all[i as int].area.has(x, y));
                    }
                }
            },
            None => {
                assert forall|j: int| !target_hit(s, x, y, j) by {
                    if 0 <= j < all.len() {
                        assert(!raw[j].area.has(x, y));
                    }
                }
            },
        }
    }
    if let Some(i) = target {
        let t = &app.received_click_targets[i];
        return Request::OpenReceived(t.path.copied(), t.action);
    }
    let button = components::hit_target(&app.buttons, x, y);
    proof {
        let raw = app.buttons@;
        let all = s.buttons;
        assert forall|k: int| 0 <= k < raw.len() implies #[trigger] all[k] == raw[k]@ by {}
        match button {
            Some(i) => {
                assert(button_hit(s, x, y, i as int));
                assert forall|j: int| button_hit(s, x, y, j) implies j == i by {
                    if j < i {
                        assert(!all[j].area.has(x, y));
                    } else if j > i {
                        assert(!all[i as int].area.has(x, y));
                    }
                }
            },
            None => {
                assert forall|j: int| !button_hit(s, x, y, j) by {
                    if 0 <= j < all.len() {
                        assert(!raw[j].area.has(x, y));
                    }
                }
            },
        }
    }
    if let Some(i) = button {
        let action = app.buttons[i].action;
        return handle_button_action(app, action, around);
    }
    Request::Nothing
}

/// Answers to the mouse; nothing happens while the mouse is left to the terminal.
pub fn handle_mouse_event(
    app: &mut AppState,
    kind: MouseKind,
    x: u16,
    y: u16,
    around: &Surroundings,
) -> (r: Request)
    requires
        screen::wf(old(app)@),
    ensures
        !old(app)@.mouse_capture_enabled ==> final(app)@ == old(app)@ && r@ is Nothing,
        old(app)@.mouse_capture_enabled ==> match kind {
            MouseKind::Moved => r@ is Nothing && final(app)@ == (ScreenForm {
                last_mouse: Some((x, y)),
                ..old(app)@
            }),
            MouseKind::ScrollUp => r@ is Nothing && final(app)@ == (if old(app)@.logs_area.has(
                x,
                y,
            ) {
                screen::scrolled_up(old(app)@, 3)
            } else {
                old(app)@
            }),
            MouseKind::ScrollDown => r@ is Nothing && final(app)@ == (if old(app)@.logs_area.has(
                x,
                y,
            ) {
                screen::scrolled_down(old(app)@, 3)
            } else {
                old(app)@
            }),
            MouseKind::LeftDown => clicked(old(app)@, x, y, *around, final(app)@, r@),
            MouseKind::Other => r@ is Nothing && final(app)@ == old(app)@,
        },
{
    if !app.mouse_capture_enabled {
        return Request::Nothing;
    }
    match kind {
        MouseKind::Moved => {
            app.last_mouse = Some((x, y));
            Request::Nothing
        },
        MouseKind::ScrollUp => {
            if geometry::point_in_rect(x, y, app.logs_area) {
                app.scroll_logs_up(3);
            }
            Request::Nothing
        },
        MouseKind::ScrollDown => {
            if geometry::point_in_rect(x, y, app.logs_area) {
                app.scroll_logs_down(3);
            }
            Request::Nothing
        },
        MouseKind::LeftDown => click(app, x, y, around),
        MouseKind::Other => Request::Nothing,
    }
}

/// Takes that the mouse was captured or let go.
pub fn mouse_capture_set(app: &mut AppState, enabled: bool)
    ensures
        final(app)@ == screen::logged(
            ScreenForm {
                mouse_capture_request: None,
                mouse_capture_enabled: enabled,
                ..old(app)@
            },
            if enabled {
                "mouse capturado: cliques habilitados (pressione 'm' para liberar seleção)"@
            } else {
                "mouse livre: selecione o texto no terminal (pressione 'm' para voltar)"@
            },
        ),
{
    app.mouse_capture_request = None;
    app.mouse_capture_enabled = enabled;
    if enabled {
        app.push_log(
            "mouse capturado: cliques habilitados (pressione 'm' para liberar seleção)".to_owned(),
        );
    } else {
        app.push_log(
            "mouse livre: selecione o texto no terminal (pressione 'm' para voltar)".to_owned(),
        );
    }
}

// ---------------------------------------------------------------- laws

/// Whoever asks to connect is connected to the address that the input is; where it is none, or
/// nothing but white space, the log tells so and nothing is asked of the network.
pub proof fn law_connecting_takes_the_input(s: ScreenForm, addr: SocketAddr)
    ensures
        text::trimmed(s.peer_input).len() > 0 ==> connect_asked(s, Some(addr)) == (
            s,
            RequestForm::Connect(addr),
        ),
        text::trimmed(s.peer_input).len() == 0 ==> connect_asked(s, Some(addr)) == (
            screen::logged(s, "endereco do parceiro invalido"@),
            RequestForm::Nothing,
        ),
        connect_asked(s, None) == (
            screen::logged(s, "endereco do parceiro invalido"@),
            RequestForm::Nothing,
        ),
{
}

/// An address of the family asked for is kept, without what a socket adds; else any address of that
/// family is listened on, at the same port.
pub proof fn law_address_is_kept_in_its_family(
    a: Ipv4Addr,
    b: Ipv6Addr,
    port: u16,
    flowinfo: u32,
    scope_id: u32,
)
    ensures
        ({
            let four = SocketAddr::V4(SocketAddrV4 { ip: a, port });
            let six = SocketAddr::V6(SocketAddrV6 { ip: b, port, flowinfo, scope_id });
            &&& bind_for(four, IpMode::Ipv4) == four
            &&& bind_for(six, IpMode::Ipv6) == SocketAddr::V6(
                SocketAddrV6 { ip: b, port, flowinfo: 0, scope_id: 0 },
            )
            &&& bind_for(six, IpMode::Ipv4) == SocketAddr::V4(
                SocketAddrV4 { ip: Ipv4Addr { a: 0, b: 0, c: 0, d: 0 }, port },
            )
            &&& bind_for(four, IpMode::Ipv6) == SocketAddr::V6(
                SocketAddrV6 {
                    ip: Ipv6Addr { s0: 0, s1: 0, s2: 0, s3: 0, s4: 0, s5: 0, s6: 0, s7: 0 },
                    port,
                    flowinfo: 0,
                    scope_id: 0,
                },
            )
        }),
{
}

/// Choosing the other family gives up the connection and what is known of the public endpoint; where
/// the address listened on is not of that family, another is listened on at the same port, and the
/// machine's addresses are looked up again. Choosing the same one does nothing.
pub proof fn law_family_change_starts_anew(
    s: ScreenForm,
    mode: IpMode,
    interfaces: Option<Seq<IpAddr>>,
)
    ensures
        ({
            let (now, request) = mode_changed(s, mode, interfaces);
            let other = screen::mode_selected(s, mode);
            let bind = bind_for(s.bind_addr, mode);
            &&& s.mode == mode ==> now == s && request is Nothing
            &&& s.mode != mode && bind == s.bind_addr ==> request is Nothing && now == (
            ScreenForm {
                connect_status: ConnectStatus::Idle,
                peer_addr: None,
                public_endpoint: None,
                stun_status: None,
                ..other
            })
            &&& s.mode != mode && bind != s.bind_addr ==> request == RequestForm::Rebind(bind)
                && now == (ScreenForm {
                connect_status: ConnectStatus::Idle,
                peer_addr: None,
                public_endpoint: None,
                stun_status: None,
                bind_addr: bind,
                local_ip: local_ips::chosen(interfaces),
                ..other
            })
        }),
{
}

/// The files that wait are those of the list that wait, each of them, in its order.
pub proof fn law_every_waiting_file_is_pending(s: Seq<OutgoingForm>)
    ensures
        pending(s) == s.filter(|e: OutgoingForm| e.status is Pending).map_values(
            |e: OutgoingForm| e.path,
        ),
    decreases s.len(),
{
    let p = |e: OutgoingForm| e.status is Pending;
    let path = |e: OutgoingForm| e.path;
    reveal(Seq::filter);
    if s.len() > 0 {
        law_every_waiting_file_is_pending(s.drop_last());
        if p(s.last()) {
            assert(s.drop_last().filter(p).push(s.last()).map_values(path)
                =~= s.drop_last().filter(p).map_values(path).push(s.last().path));
        }
    } else {
        assert(s.filter(p).map_values(path) =~= Seq::empty());
    }
}

/// Whoever asks to send sends all files that wait and no other; where none is listed, or none waits,
/// the log tells which, and nothing is asked of the network. The list stays as it is.
pub proof fn law_waiting_files_are_sent(s: ScreenForm)
    ensures
        ({
            let files = s.selected.filter(|e: OutgoingForm| e.status is Pending).map_values(
                |e: OutgoingForm| e.path,
            );
            &&& s.selected.len() == 0 ==> send_asked(s) == (
                screen::logged(s, "nenhum arquivo selecionado"@),
                RequestForm::Nothing,
            )
            &&& s.selected.len() > 0 && files.len() == 0 ==> send_asked(s) == (
                screen::logged(s, "nenhum arquivo pendente"@),
                RequestForm::Nothing,
            )
            &&& files.len() > 0 ==> send_asked(s) == (s, RequestForm::SendFiles(files))
        }),
{
    law_every_waiting_file_is_pending(s.selected);
    reveal(Seq::filter);
}

/// The own address is copied with the port listened on, an address of the later family in brackets;
/// where the machine has none of the family, the log tells so.
pub proof fn law_own_address_is_copied(s: ScreenForm, a: Ipv4Addr, b: Ipv6Addr)
    ensures
        s.mode is Ipv4 && s.local_ip.v4 == Some(a) ==> copy_local_asked(s) == (
            s,
            RequestForm::Copy(
                a.text_spec() + ":"@ + text::decimal(s.bind_addr.port_spec() as nat),
            ),
        ),
        s.mode is Ipv6 && s.local_ip.v6 == Some(b) ==> copy_local_asked(s) == (
            s,
            RequestForm::Copy(
                "["@ + b.text_spec() + "]:"@ + text::decimal(s.bind_addr.port_spec() as nat),
            ),
        ),
        (s.mode is Ipv4 && s.local_ip.v4 is None) || (s.mode is Ipv6 && s.local_ip.v6 is None)
            ==> copy_local_asked(s) == (
            screen::logged(s, "ip local nao encontrado"@),
            RequestForm::Nothing,
        ),
{
}

/// The public endpoint is copied where it is of the family chosen; where it is not, or none is known,
/// the log tells so.
pub proof fn law_public_endpoint_is_copied(s: ScreenForm, endpoint: SocketAddr)
    ensures
        s.public_endpoint == Some(endpoint) && endpoint.is_ipv4_spec() == (s.mode is Ipv4)
            ==> copy_public_asked(s) == (s, RequestForm::Copy(endpoint.text_spec())),
        s.public_endpoint is None || s.public_endpoint == Some(endpoint)
            && endpoint.is_ipv4_spec() != (s.mode is Ipv4) ==> copy_public_asked(s) == (
            screen::logged(s, "endpoint publico nao encontrado"@),
            RequestForm::Nothing,
        ),
{
}

/// What is pasted are the printable ASCII characters of the text without white space at its ends, in
/// their order, the first hundred and twenty of them.
pub proof fn law_printable_characters_are_pasted(s: Seq<char>)
    ensures
        ({
            let all = text::trimmed(s).filter(|c: char| 32 <= c as u32 && c as u32 <= 126);
            &&& all.len() <= 120 ==> pasted_text(s) == all
            &&& all.len() > 120 ==> pasted_text(s) == all.take(120)
        }),
{
    lemma_pastable_is_filter(text::trimmed(s));
}

proof fn lemma_pastable_is_filter(s: Seq<char>)
    ensures
        pastable_of(s) == s.filter(|c: char| 32 <= c as u32 && c as u32 <= 126),
    decreases s.len(),
{
    reveal(Seq::filter);
    if s.len() > 0 {
        lemma_pastable_is_filter(s.drop_last());
    }
}

/// A file that was picked waits: it has no number and no size yet, and nothing of it is sent.
pub proof fn law_picked_files_wait(p: PathForm)
    ensures
        waiting(p).path == p,
        waiting(p).file_id is None,
        waiting(p).size is None,
        waiting(p).sent_bytes == 0,
        waiting(p).status is Pending,
{
}

/// The log tells whether a file was opened or shown in its folder, with its path, that it is not
/// there, or why it could not be.
pub proof fn law_opening_is_told(p: PathForm, action: ReceivedClickAction, outcome: OpenOutcome)
    ensures
        outcome is Missing ==> opened_line(p, action, outcome) == "arquivo não encontrado "@
            + p.text,
        outcome is Started && action is Open ==> opened_line(p, action, outcome) == "abrindo "@
            + p.text,
        outcome is Started && action is RevealInFolder ==> opened_line(p, action, outcome)
            == "abrindo pasta "@ + p.text,
        outcome is Failed && action is Open ==> opened_line(p, action, outcome)
            == "erro ao abrir "@ + p.text + ": "@ + outcome->Failed_0@,
        outcome is Failed && action is RevealInFolder ==> opened_line(p, action, outcome)
            == "erro ao abrir pasta "@ + p.text + ": "@ + outcome->Failed_0@,
{
}

/// Each button asks for what it is named after, and changes no more of the screen than that.
pub proof fn law_buttons_do_what_they_say(
    s: ScreenForm,
    parsed: Option<SocketAddr>,
    interfaces: Option<Seq<IpAddr>>,
)
    ensures
        pressed(s, ButtonAction::ConnectPeer, parsed, interfaces) == connect_asked(s, parsed),
        pressed(s, ButtonAction::ProbePeer, parsed, interfaces) == (s, RequestForm::Nothing),
        pressed(s, ButtonAction::SelectIpv4, parsed, interfaces) == mode_changed(
            s,
            IpMode::Ipv4,
            interfaces,
        ),
        pressed(s, ButtonAction::SelectIpv6, parsed, interfaces) == mode_changed(
            s,
            IpMode::Ipv6,
            interfaces,
        ),
        s.mouse_capture_enabled ==> pressed(s, ButtonAction::ToggleMouseMode, parsed, interfaces)
            == (
            ScreenForm { mouse_capture_request: Some(false), ..s },
            RequestForm::Nothing,
        ),
        !s.mouse_capture_enabled ==> pressed(s, ButtonAction::ToggleMouseMode, parsed, interfaces)
            == (ScreenForm { mouse_capture_request: Some(true), ..s }, RequestForm::Nothing),
        pressed(s, ButtonAction::CopyLocalIp, parsed, interfaces) == copy_local_asked(s),
        pressed(s, ButtonAction::CopyPublicEndpoint, parsed, interfaces) == copy_public_asked(s),
        pressed(s, ButtonAction::PastePeerIp, parsed, interfaces) == (s, RequestForm::Paste),
        pressed(s, ButtonAction::AddFiles, parsed, interfaces) == (s, RequestForm::PickFiles),
        pressed(s, ButtonAction::SendFiles, parsed, interfaces) == send_asked(s),
        pressed(s, ButtonAction::CancelTransfers, parsed, interfaces) == (s, RequestForm::Cancel),
        pressed(s, ButtonAction::Quit, parsed, interfaces) == (
            ScreenForm { should_quit: true, ..s },
            RequestForm::Nothing,
        ),
{
}

/// In the input an ASCII character is written while the text has fewer than a hundred and twenty
/// bytes, the erasing key takes the last one, the entering key connects and leaves the input, the
/// escaping key only leaves it, and no other key does anything.
pub proof fn law_keys_write_the_input(
    s: ScreenForm,
    key: Key,
    parsed: Option<SocketAddr>,
    c: char,
)
    ensures
        input_key(s, Key::Esc, parsed) == (
            ScreenForm { peer_focus: false, ..s },
            RequestForm::Nothing,
        ),
        input_key(s, Key::Enter, parsed) == connect_asked(
            ScreenForm { peer_focus: false, ..s },
            parsed,
        ),
        s.peer_input.len() > 0 ==> input_key(s, Key::Backspace, parsed) == (
            ScreenForm { peer_input: s.peer_input.take(s.peer_input.len() - 1), ..s },
            RequestForm::Nothing,
        ),
        s.peer_input.len() == 0 ==> input_key(s, Key::Backspace, parsed) == (
            s,
            RequestForm::Nothing,
        ),
        c as u32 <= 127 && vstd::utf8::encode_utf8(s.peer_input).len() < 120 ==> input_key(
            s,
            Key::Char(c),
            parsed,
        ) == (ScreenForm { peer_input: s.peer_input.push(c), ..s }, RequestForm::Nothing),
        c as u32 > 127 || vstd::utf8::encode_utf8(s.peer_input).len() >= 120 ==> input_key(
            s,
            Key::Char(c),
            parsed,
        ) == (s, RequestForm::Nothing),
        !(key is Esc || key is Enter || key is Backspace || key is Char) ==> input_key(
            s,
            key,
            parsed,
        ) == (s, RequestForm::Nothing),
{
    if s.peer_input.len() > 0 {
        assert(s.peer_input.drop_last() =~= s.peer_input.take(s.peer_input.len() - 1));
    }
}

/// Outside the input the arrows scroll the log by a line, the page keys by as many lines as it shows,
/// the others go to its ends; `m` asks for the mouse or lets go of it, `q` and the escaping key quit,
/// and no other key does anything.
pub proof fn law_keys_move_the_screen(s: ScreenForm, key: Key, c: char)
    requires
        screen::wf(s),
    ensures
        ({
            let end = if s.logs.len() > s.logs_view_height {
                s.logs.len() - s.logs_view_height
            } else {
                0
            };
            let page = if s.logs_view_height > 1 {
                s.logs_view_height
            } else {
                1
            };
            &&& screen_key(s, Key::Up) == screen::scrolled_up(s, 1)
            &&& screen_key(s, Key::Down) == screen::scrolled_down(s, 1)
            &&& screen_key(s, Key::PageUp) == screen::scrolled_up(s, page)
            &&& screen_key(s, Key::PageDown) == screen::scrolled_down(s, page)
            &&& screen_key(s, Key::Home) == (ScreenForm { logs_scroll: 0, ..s })
            &&& screen_key(s, Key::End) == (ScreenForm { logs_scroll: end, ..s })
            &&& s.mouse_capture_enabled ==> screen_key(s, Key::Char('m')) == (ScreenForm {
                mouse_capture_request: Some(false),
                ..s
            })
            &&& !s.mouse_capture_enabled ==> screen_key(s, Key::Char('m')) == (ScreenForm {
                mouse_capture_request: Some(true),
                ..s
            })
            &&& screen_key(s, Key::Char('q')) == (ScreenForm { should_quit: true, ..s })
            &&& screen_key(s, Key::Esc) == (ScreenForm { should_quit: true, ..s })
            &&& c != 'm' && c != 'q' ==> screen_key(s, Key::Char(c)) == s
            &&& screen_key(s, Key::Enter) == s
            &&& screen_key(s, Key::Backspace) == s
            &&& screen_key(s, Key::Other) == s
        }),
{
}

/// A click is taken by the input before the addresses, by these before the buttons of received files,
/// and by these before the other buttons; of two that overlap, the earlier one takes it. Only a click
/// into the input leaves the focus there.
pub proof fn law_clicks_hit_the_first(
    s: ScreenForm,
    x: u16,
    y: u16,
    around: Surroundings,
    now: ScreenForm,
    request: RequestForm,
    i: int,
)
    requires
        clicked(s, x, y, around, now, request),
    ensures
        ({
            let inside = |r: geometry::Rect|
                r.x <= x && x < r.x + r.width && r.y <= y && y < r.y + r.height;
            let input = inside(s.peer_input_area);
            let panel = inside(s.local_panel_area) || inside(s.public_panel_area);
            let left = ScreenForm { peer_focus: false, last_mouse: Some((x, y)), ..s };
            let no_target = forall|k: int|
                0 <= k < s.received_click_targets.len() ==> !inside(
                    (#[trigger] s.received_click_targets[k]).area,
                );
            let no_button = forall|k: int|
                0 <= k < s.buttons.len() ==> !inside((#[trigger] s.buttons[k]).area);
            &&& input ==> request is Nothing && now == (ScreenForm {
                peer_focus: true,
                last_mouse: Some((x, y)),
                ..s
            })
            &&& !input && panel ==> request is Nothing && now == (ScreenForm {
                mouse_capture_request: Some(false),
                ..left
            })
            &&& !input && !panel && 0 <= i < s.received_click_targets.len() && inside(
                s.received_click_targets[i].area,
            ) && (forall|k: int|
                0 <= k < i ==> !inside((#[trigger] s.received_click_targets[k]).area)) ==> now
                == left && request == RequestForm::OpenReceived(
                s.received_click_targets[i].path,
                s.received_click_targets[i].action,
            )
            &&& !input && !panel && no_target && 0 <= i < s.buttons.len() && inside(
                s.buttons[i].area,
            ) && (forall|k: int| 0 <= k < i ==> !inside((#[trigger] s.buttons[k]).area)) ==> (
                now,
                request,
            ) == pressed(
                left,
                s.buttons[i].action,
                around.input_addr,
                local_ips::listed(around.interfaces),
            )
            &&& !input && !panel && no_target && no_button ==> now == left && request is Nothing
        }),
{
    let inside = |r: geometry::Rect|
        r.x <= x && x < r.x + r.width && r.y <= y && y < r.y + r.height;
    assert forall|r: geometry::Rect| #[trigger] inside(r) == r.has(x, y) by {}
    assert(s.peer_input_area.has(x, y) == inside(s.peer_input_area));
    assert(s.local_panel_area.has(x, y) == inside(s.local_panel_area));
    assert(s.public_panel_area.has(x, y) == inside(s.public_panel_area));
    let targets = s.received_click_targets;
    assert forall|k: int| 0 <= k < targets.len() implies (#[trigger] targets[k]).area.has(x, y)
        == inside(targets[k].area) by {}
    assert forall|k: int| 0 <= k < s.buttons.len() implies (#[trigger] s.buttons[k]).area.has(x, y)
        == inside(s.buttons[k].area) by {}
    if exists|j: int| target_hit(s, x, y, j) {
        let j = choose|j: int| target_hit(s, x, y, j);
        assert(target_hit(s, x, y, j));
        assert(inside(targets[j].area));
        if 0 <= i < targets.len() && inside(targets[i].area) {
            if i < j {
                assert(!targets[i].area.has(x, y));
            }
            if j < i {
                assert(inside(targets[j].area));
            }
        }
    } else {
        if 0 <= i < targets.len() && inside(targets[i].area) && (forall|k: int|
            0 <= k < i ==> !inside((#[trigger] targets[k]).area)) {
            assert(target_hit(s, x, y, i));
        }
    }
    if exists|j: int| button_hit(s, x, y, j) {
        let j = choose|j: int| button_hit(s, x, y, j);
        assert(button_hit(s, x, y, j));
        assert(inside(s.buttons[j].area));
        if 0 <= i < s.buttons.len() && i < j {
            assert(!s.buttons[i].area.has(x, y));
        }
    } else {
        if 0 <= i < s.buttons.len() && inside(s.buttons[i].area) && (forall|k: int|
            0 <= k < i ==> !inside((#[trigger] s.buttons[k]).area)) {
            assert(button_hit(s, x, y, i));
        }
    }
}

} // verus!
