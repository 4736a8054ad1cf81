//! The single screen: its state, and what events do to it.

use vstd::prelude::*;

use crate::addr::{IpAddr, SocketAddr};
use crate::net::commands::EventForm;
use crate::path::{FilePath, PathForm};
use crate::text;
use crate::ui::components;
use crate::ui::components::{Button, ButtonForm, ReceivedClickTarget, TargetForm};
use crate::ui::geometry;
use crate::ui::geometry::Rect;
use crate::ui::local_ips;
use crate::ui::state;
use crate::ui::state::{IncomingStatus, IpMode, LocalIps, OutgoingStatus, RateSample};

verus! {

/// Nanoseconds between two measurements of a rate.
pub const RATE_INTERVAL_NANOS: u64 = 250_000_000;

// ---------------------------------------------------------------- state

/// How the connection stands.
#[derive(Clone, Copy, Debug, PartialEq, Eq, Structural)]
pub enum ConnectStatus {
    Idle,
    Connecting(SocketAddr),
    Connected(SocketAddr),
    Timeout(SocketAddr),
}

impl ConnectStatus {
    /// The words for the status.
    pub open spec fn words(self) -> Seq<char> {
        match self {
            ConnectStatus::Idle => "aguardando"@,
            ConnectStatus::Connecting(addr) => "conectando "@ + addr.text_spec(),
            ConnectStatus::Connected(addr) => "conectado "@ + addr.text_spec(),
            ConnectStatus::Timeout(addr) => "tempo esgotado "@ + addr.text_spec(),
        }
    }

    /// The words for the status.
    pub fn label(&self) -> (r: String)
        ensures
            r@ == self.words(),
    {
        match self {
            ConnectStatus::Idle => "aguardando".to_owned(),
            ConnectStatus::Connecting(addr) => text::joined("conectando ", addr.text().as_str()),
            ConnectStatus::Connected(addr) => text::joined("conectado ", addr.text().as_str()),
            ConnectStatus::Timeout(addr) => text::joined("tempo esgotado ", addr.text().as_str()),
        }
    }
}

/// A file to be sent.
#[derive(Debug)]
pub struct OutgoingEntry {
    pub path: FilePath,
    pub file_id: Option<u64>,
    pub size: Option<u64>,
    pub sent_bytes: u64,
    pub status: OutgoingStatus,
}

/// A file that is coming in. Times are nanoseconds of a clock that never goes back.
#[derive(Debug)]
pub struct IncomingEntry {
    pub path: FilePath,
    pub file_id: u64,
    pub size: u64,
    pub received_bytes: u64,
    pub status: IncomingStatus,
    pub rate: RateSample,
    pub rate_last_at: Option<u64>,
    pub rate_last_bytes: u64,
}

/// The screen.
#[derive(Debug)]
pub struct AppState {
    pub bind_addr: SocketAddr,
    pub peer_addr: Option<SocketAddr>,
    pub peer_input: String,
    pub peer_focus: bool,
    pub mode: IpMode,
    pub connect_status: ConnectStatus,
    pub local_ip: LocalIps,
    pub public_endpoint: Option<SocketAddr>,
    pub stun_status: Option<String>,
    pub mouse_capture_enabled: bool,
    pub mouse_capture_request: Option<bool>,
    pub local_panel_area: Rect,
    pub public_panel_area: Rect,
    pub received_click_targets: Vec<ReceivedClickTarget>,
    pub selected: Vec<OutgoingEntry>,
    pub received: Vec<IncomingEntry>,
    pub logs: Vec<String>,
    /// Lines that are not yet in the log file.
    pub unsaved_logs: Vec<String>,
    pub logs_scroll: usize,
    pub logs_view_height: usize,
    pub logs_area: Rect,
    pub buttons: Vec<Button>,
    pub peer_input_area: Rect,
    pub last_mouse: Option<(u16, u16)>,
    pub needs_clear: bool,
    pub should_quit: bool,
}

/// A file to be sent as a value of mathematics.
pub struct OutgoingForm {
    pub path: PathForm,
    pub file_id: Option<u64>,
    pub size: Option<u64>,
    pub sent_bytes: u64,
    pub status: OutgoingStatus,
}

/// A file that is coming in as a value of mathematics.
pub struct IncomingForm {
    pub path: PathForm,
    pub file_id: u64,
    pub size: u64,
    pub received_bytes: u64,
    pub status: IncomingStatus,
    pub rate: RateSample,
    pub rate_last_at: Option<u64>,
    pub rate_last_bytes: u64,
}

/// The screen as a value of mathematics.
pub struct ScreenForm {
    pub bind_addr: SocketAddr,
    pub peer_addr: Option<SocketAddr>,
    pub peer_input: Seq<char>,
    pub peer_focus: bool,
    pub mode: IpMode,
    pub connect_status: ConnectStatus,
    pub local_ip: LocalIps,
    pub public_endpoint: Option<SocketAddr>,
    pub stun_status: Option<Seq<char>>,
    pub mouse_capture_enabled: bool,
    pub mouse_capture_request: Option<bool>,
    pub local_panel_area: Rect,
    pub public_panel_area: Rect,
    pub received_click_targets: Seq<TargetForm>,
    pub selected: Seq<OutgoingForm>,
    pub received: Seq<IncomingForm>,
    pub logs: Seq<Seq<char>>,
    pub unsaved_logs: Seq<Seq<char>>,
    pub logs_scroll: int,
    pub logs_view_height: int,
    pub logs_area: Rect,
    pub buttons: Seq<ButtonForm>,
    pub peer_input_area: Rect,
    pub last_mouse: Option<(u16, u16)>,
    pub needs_clear: bool,
    pub should_quit: bool,
}

impl View for OutgoingEntry {
    type V = OutgoingForm;

    open spec fn view(&self) -> OutgoingForm {
        OutgoingForm {
            path: self.path@,
            file_id: self.file_id,
            size: self.size,
            sent_bytes: self.sent_bytes,
            status: self.status,
        }
    }
}

impl View for IncomingEntry {
    type V = IncomingForm;

    open spec fn view(&self) -> IncomingForm {
        IncomingForm {
            path: self.path@,
            file_id: self.file_id,
            size: self.size,
            received_bytes: self.received_bytes,
            status: self.status,
            rate: self.rate,
            rate_last_at: self.rate_last_at,
            rate_last_bytes: self.rate_last_bytes,
        }
    }
}

/// The files to be sent of a list.
pub open spec fn outgoing_forms(v: Seq<OutgoingEntry>) -> Seq<OutgoingForm> {
    v.map_values(|e: OutgoingEntry| e@)
}

/// The files that are coming in of a list.
pub open spec fn incoming_forms(v: Seq<IncomingEntry>) -> Seq<IncomingForm> {
    v.map_values(|e: IncomingEntry| e@)
}

impl View for AppState {
    type V = ScreenForm;

    open spec fn view(&self) -> ScreenForm {
        ScreenForm {
            bind_addr: self.bind_addr,
            peer_addr: self.peer_addr,
            peer_input: self.peer_input@,
            peer_focus: self.peer_focus,
            mode: self.mode,
            connect_status: self.connect_status,
            local_ip: self.local_ip,
            public_endpoint: self.public_endpoint,
            stun_status: text::text_in(self.stun_status),
            mouse_capture_enabled: self.mouse_capture_enabled,
            mouse_capture_request: self.mouse_capture_request,
            local_panel_area: self.local_panel_area,
            public_panel_area: self.public_panel_area,
            received_click_targets: components::target_forms(self.received_click_targets@),
            selected: outgoing_forms(self.selected@),
            received: incoming_forms(self.received@),
            logs: text::texts(self.logs@),
            unsaved_logs: text::texts(self.unsaved_logs@),
            logs_scroll: self.logs_scroll as int,
            logs_view_height: self.logs_view_height as int,
            logs_area: self.logs_area,
            buttons: components::button_forms(self.buttons@),
            peer_input_area: self.peer_input_area,
            last_mouse: self.last_mouse,
            needs_clear: self.needs_clear,
            should_quit: self.should_quit,
        }
    }
}

/// The screen at the start; a peer given at the start is being connected to.
pub open spec fn at_start(
    bind_addr: SocketAddr,
    peer_addr: Option<SocketAddr>,
    local_ip: LocalIps,
) -> ScreenForm {
    ScreenForm {
        bind_addr,
        peer_addr: None,
        peer_input: match peer_addr {
            Some(addr) => addr.text_spec(),
            None => Seq::empty(),
        },
        peer_focus: false,
        mode: (if bind_addr.is_ipv4_spec() {
            IpMode::Ipv4
        } else {
            IpMode::Ipv6
        }).fallback_spec(local_ip.v4 is Some, local_ip.v6 is Some),
        connect_status: match peer_addr {
            Some(addr) => ConnectStatus::Connecting(addr),
            None => ConnectStatus::Idle,
        },
        local_ip,
        public_endpoint: None,
        stun_status: None,
        mouse_capture_enabled: true,
        mouse_capture_request: None,
        local_panel_area: geometry::no_rect(),
        public_panel_area: geometry::no_rect(),
        received_click_targets: Seq::empty(),
        selected: Seq::empty(),
        received: Seq::empty(),
        logs: Seq::empty(),
        unsaved_logs: Seq::empty(),
        logs_scroll: 0,
        logs_view_height: 0,
        logs_area: geometry::no_rect(),
        buttons: Seq::empty(),
        peer_input_area: geometry::no_rect(),
        last_mouse: None,
        needs_clear: false,
        should_quit: false,
    }
}

// ---------------------------------------------------------------- log

/// How far the log can be scrolled.
pub open spec fn max_scroll(s: ScreenForm) -> int {
    if s.logs.len() > s.logs_view_height {
        s.logs.len() - s.logs_view_height
    } else {
        0
    }
}

/// The log not scrolled beyond its end; at its end where it is to stick there.
pub open spec fn settled(s: ScreenForm, stick: bool) -> ScreenForm {
    ScreenForm {
        logs_scroll: if stick || s.logs_scroll > max_scroll(s) {
            max_scroll(s)
        } else {
            s.logs_scroll
        },
        ..s
    }
}

/// The newest lines, as many as are kept.
pub open spec fn kept(lines: Seq<Seq<char>>) -> Seq<Seq<char>> {
    if lines.len() > state::MAX_LOGS {
        lines.skip(lines.len() - state::MAX_LOGS)
    } else {
        lines
    }
}

/// The screen after a log line more: the oldest lines go, and a log at its end stays there.
#[verifier::opaque]
pub open spec fn logged(s: ScreenForm, line: Seq<char>) -> ScreenForm {
    let lines = s.logs.push(line);
    let dropped = lines.len() - kept(lines).len();
    settled(
        ScreenForm {
            logs: kept(lines),
            unsaved_logs: s.unsaved_logs.push(line),
            logs_scroll: if s.logs_scroll > dropped {
                s.logs_scroll - dropped
            } else {
                0
            },
            ..s
        },
        s.logs_scroll == max_scroll(s),
    )
}

/// A screen whose log is within its bounds.
pub open spec fn wf(s: ScreenForm) -> bool {
    &&& s.logs.len() <= state::MAX_LOGS
    &&& 0 <= s.logs_scroll <= s.logs.len()
    &&& 0 <= s.logs_view_height <= u16::MAX
}

/// The log stays within its bounds, ends with the newest line, and where it was at its end it
/// is there again; the files stay as they are.
pub proof fn law_log_is_bounded(s: ScreenForm, line: Seq<char>)
    requires
        wf(s),
    ensures
        wf(logged(s, line)),
        logged(s, line).logs.last() == line,
        logged(s, line).logs_scroll <= max_scroll(logged(s, line)),
        s.logs_scroll == max_scroll(s) ==> logged(s, line).logs_scroll == max_scroll(
            logged(s, line),
        ),
        logged(s, line).selected == s.selected,
        logged(s, line).received == s.received,
{
    reveal(logged);
}

impl AppState {
    /// The screen at the start.
    pub fn new(
        bind_addr: SocketAddr,
        peer_addr: Option<SocketAddr>,
        interfaces: &Option<Vec<IpAddr>>,
    ) -> (r: AppState)
        ensures
            r@ == at_start(
                bind_addr,
                peer_addr,
                local_ips::chosen(local_ips::listed(*interfaces)),
            ),
            wf(r@),
    {
        let (peer_input, connect_status) = match peer_addr {
            Some(addr) => (addr.text(), ConnectStatus::Connecting(addr)),
            None => (String::new(), ConnectStatus::Idle),
        };
        let local_ip = local_ips::detect_local_ips(interfaces);
        let mode = if bind_addr.is_ipv4() {
            IpMode::Ipv4
        } else {
            IpMode::Ipv6
        };
        let mode = mode.fallback(local_ip.has_v4(), local_ip.has_v6());
        let r = AppState {
            bind_addr,
            peer_addr: None,
            peer_input,
            peer_focus: false,
            mode,
            connect_status,
            local_ip,
            public_endpoint: None,
            stun_status: None,
            mouse_capture_enabled: true,
            mouse_capture_request: None,
            local_panel_area: Rect::empty(),
            public_panel_area: Rect::empty(),
            received_click_targets: Vec::new(),
            selected: Vec::new(),
            received: Vec::new(),
            logs: Vec::new(),
            unsaved_logs: Vec::new(),
            logs_scroll: 0,
            logs_view_height: 0,
            logs_area: Rect::empty(),
            buttons: Vec::new(),
            peer_input_area: Rect::empty(),
            last_mouse: None,
            needs_clear: false,
            should_quit: false,
        };
        proof {
            let s = at_start(
                bind_addr,
                peer_addr,
                local_ips::chosen(local_ips::listed(*interfaces)),
            );
            assert(r@.peer_input =~= s.peer_input);
            assert(r@.received_click_targets =~= s.received_click_targets);
            assert(r@.selected =~= s.selected);
            assert(r@.received =~= s.received);
            assert(r@.logs =~= s.logs);
            assert(r@.unsaved_logs =~= s.unsaved_logs);
            assert(r@.buttons =~= s.buttons);
        }
        r
    }

    /// Adds a line to the log; only the newest lines are kept, and a log at its end stays there.
    pub fn push_log(&mut self, message: String)
        ensures
            final(self)@ == logged(old(self)@, message@),
    {
        reveal(logged);
        let ghost before = self@;
        let was_at_bottom = self.logs_scroll == self.max_logs_scroll();
        self.unsaved_logs.push(message.as_str().to_owned());
        assert(self@.unsaved_logs =~= before.unsaved_logs.push(message@));
        self.logs.push(message);
        let ghost lines = text::texts(self.logs@);
        assert(lines =~= before.logs.push(message@));
        if self.logs.len() > state::MAX_LOGS {
            let excess: usize = self.logs.len() - state::MAX_LOGS;
            let newest = self.logs.split_off(excess);
            assert(text::texts(newest@) =~= kept(lines));
            self.logs = newest;
            self.logs_scroll = if self.logs_scroll > excess {
                self.logs_scroll - excess
            } else {
                0
            };
        }
        let max: usize = self.max_logs_scroll();
        if was_at_bottom || self.logs_scroll > max {
            self.logs_scroll = max;
        }
    }

    /// How far the log can be scrolled.
    pub fn max_logs_scroll(&self) -> (r: usize)
        ensures
            r == max_scroll(self@),
    {
        if self.logs.len() > self.logs_view_height {
            self.logs.len() - self.logs_view_height
        } else {
            0
        }
    }

    /// Takes the number of lines that have room.
    pub fn set_logs_view_height(&mut self, height: usize)
        ensures
            final(self)@ == settled(
                ScreenForm { logs_view_height: height as int, ..old(self)@ },
                false,
            ),
    {
        self.logs_view_height = height;
        let max: usize = self.max_logs_scroll();
        if self.logs_scroll > max {
            self.logs_scroll = max;
        }
    }

    /// Scrolls the log up.
    pub fn scroll_logs_up(&mut self, lines: usize)
        ensures
            final(self)@ == scrolled_up(old(self)@, lines as int),
    {
        self.logs_scroll = if self.logs_scroll > lines {
            self.logs_scroll - lines
        } else {
            0
        };
    }

    /// Scrolls the log down, not beyond its end.
    pub fn scroll_logs_down(&mut self, lines: usize)
        requires
            old(self).logs_scroll + lines <= usize::MAX,
        ensures
            final(self)@ == scrolled_down(old(self)@, lines as int),
    {
        let max: usize = self.max_logs_scroll();
        let target: usize = self.logs_scroll + lines;
        self.logs_scroll = if target < max {
            target
        } else {
            max
        };
    }

    /// Scrolls the log to its beginning.
    pub fn scroll_logs_top(&mut self)
        ensures
            final(self)@ == (ScreenForm { logs_scroll: 0, ..old(self)@ }),
    {
        self.logs_scroll = 0;
    }

    /// Scrolls the log to its end.
    pub fn scroll_logs_bottom(&mut self)
        ensures
            final(self)@ == (ScreenForm { logs_scroll: max_scroll(old(self)@), ..old(self)@ }),
    {
        self.logs_scroll = self.max_logs_scroll();
    }

    /// Whether the machine has an address of a family.
    pub fn mode_supported(&self, mode: IpMode) -> (r: bool)
        ensures
            r == (self.local_ip.for_mode(mode) is Some),
    {
        match mode {
            IpMode::Ipv4 => self.local_ip.has_v4(),
            IpMode::Ipv6 => self.local_ip.has_v6(),
        }
    }

    /// Chooses a family; that the machine has no address of it goes to the log.
    pub fn select_mode(&mut self, mode: IpMode)
        ensures
            final(self)@ == mode_selected(old(self)@, mode),
    {
        if self.mode != mode {
            self.mode = mode;
            if !self.mode_supported(mode) {
                let mut line = "modo ".to_owned();
                line.append(mode.label());
                line.append(" sem ip local");
                self.push_log(line);
            }
            self.needs_clear = true;
        }
    }

    /// The machine's address of the chosen family.
    pub fn current_local_ip(&self) -> (r: Option<IpAddr>)
        ensures
            r == self.local_ip.for_mode(self.mode),
    {
        self.local_ip.current_for_mode(self.mode)
    }

    /// The public endpoint, where it is of the chosen family.
    pub fn current_public_endpoint(&self) -> (r: Option<SocketAddr>)
        ensures
            r == state::endpoint_for(self.public_endpoint, self.mode),
    {
        match self.public_endpoint {
            Some(endpoint) => {
                if endpoint.is_ipv4() == (self.mode == IpMode::Ipv4) {
                    Some(endpoint)
                } else {
                    None
                }
            },
            None => None,
        }
    }
}

/// The log scrolled up.
pub open spec fn scrolled_up(s: ScreenForm, lines: int) -> ScreenForm {
    ScreenForm {
        logs_scroll: if s.logs_scroll > lines {
            s.logs_scroll - lines
        } else {
            0
        },
        ..s
    }
}

/// The log scrolled down, not beyond its end.
pub open spec fn scrolled_down(s: ScreenForm, lines: int) -> ScreenForm {
    settled(ScreenForm { logs_scroll: s.logs_scroll + lines, ..s }, false)
}

/// The screen after a family was chosen.
pub open spec fn mode_selected(s: ScreenForm, mode: IpMode) -> ScreenForm {
    if s.mode == mode {
        s
    } else {
        let chosen = ScreenForm { mode, ..s };
        let told = if s.local_ip.for_mode(mode) is Some {
            chosen
        } else {
            logged(chosen, "modo "@ + mode.name() + " sem ip local"@)
        };
        ScreenForm { needs_clear: true, ..told }
    }
}

// ---------------------------------------------------------------- news from the network

/// The place of the first item with a property; -1 where there is none.
pub open spec fn first_where<T>(s: Seq<T>, p: spec_fn(T) -> bool) -> int
    decreases s.len(),
{
    if s.len() == 0 {
        -1
    } else if first_where(s.drop_last(), p) >= 0 {
        first_where(s.drop_last(), p)
    } else if p(s.last()) {
        s.len() - 1
    } else {
        -1
    }
}

/// A list with its first item that has a property changed.
pub open spec fn first_changed<T>(
    s: Seq<T>,
    p: spec_fn(T) -> bool,
    change: spec_fn(T) -> T,
) -> Seq<T> {
    let i = first_where(s, p);
    if i >= 0 {
        s.update(i, change(s[i]))
    } else {
        s
    }
}

/// Files to be sent with a number or a path.
pub open spec fn numbered_or_at(file_id: u64, p: PathForm) -> spec_fn(OutgoingForm) -> bool {
    |e: OutgoingForm| e.file_id == Some(file_id) || e.path.parts == p.parts
}

/// Files to be sent at a path.
pub open spec fn sent_from(p: PathForm) -> spec_fn(OutgoingForm) -> bool {
    |e: OutgoingForm| e.path.parts == p.parts
}

/// Files to be sent with a number.
pub open spec fn numbered(file_id: u64) -> spec_fn(OutgoingForm) -> bool {
    |e: OutgoingForm| e.file_id == Some(file_id)
}

/// Files coming in with a number.
pub open spec fn coming(file_id: u64) -> spec_fn(IncomingForm) -> bool {
    |e: IncomingForm| e.file_id == file_id
}

/// A file that is sent.
pub open spec fn sent(e: OutgoingForm) -> OutgoingForm {
    OutgoingForm {
        status: OutgoingStatus::Sent,
        sent_bytes: match e.size {
            Some(size) => size,
            None => e.sent_bytes,
        },
        ..e
    }
}

/// A file that is on its way.
pub open spec fn send_started(e: OutgoingForm, file_id: u64, size: u64) -> OutgoingForm {
    OutgoingForm {
        file_id: Some(file_id),
        size: Some(size),
        sent_bytes: 0,
        status: OutgoingStatus::Sending,
        ..e
    }
}

/// The smaller of two numbers.
pub open spec fn least(a: u64, b: u64) -> u64 {
    if a < b {
        a
    } else {
        b
    }
}

/// A file of which so much is sent.
pub open spec fn send_progressed(e: OutgoingForm, bytes_sent: u64, size: u64) -> OutgoingForm {
    OutgoingForm {
        size: Some(size),
        sent_bytes: least(bytes_sent, size),
        status: if e.status is Pending {
            OutgoingStatus::Sending
        } else {
            e.status
        },
        ..e
    }
}

/// A file that has come in.
pub open spec fn received(e: IncomingForm) -> IncomingForm {
    IncomingForm {
        status: IncomingStatus::Done,
        received_bytes: e.size,
        rate: RateSample { bytes: 0, nanos: 0 },
        rate_last_at: None,
        ..e
    }
}

/// A file that begins to come in.
pub open spec fn receive_started(file_id: u64, p: PathForm, size: u64, now: u64) -> IncomingForm {
    IncomingForm {
        path: p,
        file_id,
        size,
        received_bytes: 0,
        status: IncomingStatus::Receiving,
        rate: RateSample { bytes: 0, nanos: 0 },
        rate_last_at: Some(now),
        rate_last_bytes: 0,
    }
}

/// A file of which so much has come in; its rate is measured anew where the last measurement
/// is old enough.
pub open spec fn receive_progressed(
    e: IncomingForm,
    bytes_received: u64,
    size: u64,
    now: u64,
) -> IncomingForm {
    let new_bytes = least(bytes_received, size);
    let measured = match e.rate_last_at {
        Some(last_at) => {
            let elapsed = if now > last_at {
                (now - last_at) as u64
            } else {
                0
            };
            if elapsed >= RATE_INTERVAL_NANOS {
                IncomingForm {
                    rate: RateSample {
                        bytes: (if new_bytes > e.rate_last_bytes {
                            new_bytes - e.rate_last_bytes
                        } else {
                            0
                        }) as u64,
                        nanos: elapsed,
                    },
                    rate_last_at: Some(now),
                    rate_last_bytes: new_bytes,
                    ..e
                }
            } else {
                e
            }
        },
        None => IncomingForm { rate_last_at: Some(now), rate_last_bytes: new_bytes, ..e },
    };
    IncomingForm {
        size,
        received_bytes: new_bytes,
        status: if e.status is Done {
            IncomingStatus::Receiving
        } else {
            e.status
        },
        ..measured
    }
}

/// What a log line of the network says of the public endpoint.
pub open spec fn stun_told(before: Option<Seq<char>>, message: Seq<char>) -> Option<Seq<char>> {
    let lower = text::lowered(message);
    if text::begins(lower, "stun indisponivel"@) {
        Some("stun indisponivel"@)
    } else if text::begins(lower, "stun erro"@) {
        Some("stun falhou"@)
    } else if text::begins(lower, "endpoint publico"@) {
        None
    } else {
        before
    }
}

/// The screen after news from the network.
#[verifier::opaque]
pub open spec fn after_event(
    s: ScreenForm,
    e: EventForm,
    now: u64,
    interfaces: Option<Seq<IpAddr>>,
) -> ScreenForm {
    match e {
        EventForm::Log(message) => logged(
            ScreenForm { stun_status: stun_told(s.stun_status, message), ..s },
            message,
        ),
        EventForm::Bound(addr) => {
            let local_ip = local_ips::chosen(interfaces);
            ScreenForm {
                bind_addr: addr,
                local_ip,
                mode: s.mode.fallback_spec(local_ip.v4 is Some, local_ip.v6 is Some),
                public_endpoint: None,
                stun_status: Some("stun..."@),
                needs_clear: true,
                ..s
            }
        },
        EventForm::PublicEndpoint(endpoint) => logged(
            ScreenForm { public_endpoint: Some(endpoint), stun_status: None, ..s },
            "endpoint publico "@ + endpoint.text_spec(),
        ),
        EventForm::FileSent { file_id, path } => logged(
            ScreenForm {
                selected: first_changed(
                    s.selected,
                    numbered_or_at(file_id, path),
                    |e: OutgoingForm| sent(e),
                ),
                ..s
            },
            "enviado "@ + path.text,
        ),
        EventForm::FileReceived { file_id, path, .. } => logged(
            ScreenForm {
                received: first_changed(
                    s.received,
                    coming(file_id),
                    |e: IncomingForm| received(e),
                ),
                ..s
            },
            "recebido "@ + path.text,
        ),
        EventForm::SessionDir(path) => logged(s, "diretorio da sessao "@ + path.text),
        EventForm::SendStarted { file_id, path, size } => ScreenForm {
            selected: first_changed(
                s.selected,
                sent_from(path),
                |e: OutgoingForm| send_started(e, file_id, size),
            ),
            ..s
        },
        EventForm::SendProgress { file_id, bytes_sent, size } => ScreenForm {
            selected: first_changed(
                s.selected,
                numbered(file_id),
                |e: OutgoingForm| send_progressed(e, bytes_sent, size),
            ),
            ..s
        },
        EventForm::SendCanceled { file_id, path } => logged(
            ScreenForm {
                selected: first_changed(
                    s.selected,
                    numbered_or_at(file_id, path),
                    |e: OutgoingForm| OutgoingForm { status: OutgoingStatus::Canceled, ..e },
                ),
                ..s
            },
            "cancelado "@ + path.text,
        ),
        EventForm::ReceiveStarted { file_id, path, size } => ScreenForm {
            received: s.received.push(receive_started(file_id, path, size, now)),
            ..s
        },
        EventForm::ReceiveProgress { file_id, bytes_received, size } => ScreenForm {
            received: first_changed(
                s.received,
                coming(file_id),
                |e: IncomingForm| receive_progressed(e, bytes_received, size, now),
            ),
            ..s
        },
        EventForm::ReceiveCanceled { file_id, path } => logged(
            ScreenForm {
                received: first_changed(
                    s.received,
                    coming(file_id),
                    |e: IncomingForm| IncomingForm { status: IncomingStatus::Canceled, ..e },
                ),
                ..s
            },
            "recebimento cancelado "@ + path.text,
        ),
        EventForm::PeerConnecting(addr) => logged(
            ScreenForm {
                connect_status: ConnectStatus::Connecting(addr),
                peer_addr: None,
                ..s
            },
            "conectando "@ + addr.text_spec(),
        ),
        EventForm::PeerConnected(addr) => logged(
            ScreenForm {
                peer_addr: Some(addr),
                connect_status: ConnectStatus::Connected(addr),
                ..s
            },
            "conectado "@ + addr.text_spec(),
        ),
        EventForm::PeerTimeout(addr) => logged(
            ScreenForm {
                peer_addr: if s.peer_addr == Some(addr) {
                    None
                } else {
                    s.peer_addr
                },
                connect_status: ConnectStatus::Timeout(addr),
                ..s
            },
            "tempo esgotado "@ + addr.text_spec(),
        ),
        EventForm::ReceiveFailed { .. } => s,
    }
}

// ---------------------------------------------------------------- laws

/// A line is put at the end of the log, and noted for the file. A full log loses its oldest line. A
/// log that was scrolled to its end stays there, one that was not keeps showing the same lines as far
/// as they are kept. Nothing else on the screen changes.
pub proof fn law_lines_are_logged(s: ScreenForm, line: Seq<char>)
    requires
        wf(s),
    ensures
        ({
            let now = logged(s, line);
            let full = s.logs.len() == 200;
            let end = if s.logs.len() > s.logs_view_height {
                s.logs.len() - s.logs_view_height
            } else {
                0
            };
            let new_end = if now.logs.len() > s.logs_view_height {
                now.logs.len() - s.logs_view_height
            } else {
                0
            };
            &&& !full ==> now.logs == s.logs.push(line)
            &&& full ==> now.logs == s.logs.skip(1).push(line)
            &&& now.unsaved_logs == s.unsaved_logs.push(line)
            &&& s.logs_scroll == end ==> now.logs_scroll == new_end
            &&& s.logs_scroll < end && !full ==> now.logs_scroll == s.logs_scroll
            &&& s.logs_scroll < end && full && s.logs_scroll > 0 ==> now.logs_scroll
                == s.logs_scroll - 1
            &&& s.logs_scroll < end && full && s.logs_scroll == 0 ==> now.logs_scroll == 0
            &&& now == (ScreenForm {
                logs: now.logs,
                unsaved_logs: now.unsaved_logs,
                logs_scroll: now.logs_scroll,
                ..s
            })
        }),
{
    reveal(logged);
    let lines = s.logs.push(line);
    if s.logs.len() == 200 {
        assert(lines.skip(1) =~= s.logs.skip(1).push(line));
    }
}

/// A log is scrolled by the lines asked for, up to its start and its end, and nothing else changes.
pub proof fn law_log_is_scrolled(s: ScreenForm, lines: int)
    requires
        wf(s),
        0 <= lines,
    ensures
        ({
            let (up, down) = (scrolled_up(s, lines), scrolled_down(s, lines));
            let end = if s.logs.len() > s.logs_view_height {
                s.logs.len() - s.logs_view_height
            } else {
                0
            };
            &&& lines <= s.logs_scroll ==> up.logs_scroll == s.logs_scroll - lines
            &&& lines > s.logs_scroll ==> up.logs_scroll == 0
            &&& s.logs_scroll + lines <= end ==> down.logs_scroll == s.logs_scroll + lines
            &&& s.logs_scroll + lines > end ==> down.logs_scroll == end
            &&& max_scroll(s) == end
            &&& up == (ScreenForm { logs_scroll: up.logs_scroll, ..s })
            &&& down == (ScreenForm { logs_scroll: down.logs_scroll, ..s })
        }),
{
}

/// A screen is settled where it is scrolled to its end, or stays where it is within the log.
pub proof fn law_log_is_settled(s: ScreenForm, stick: bool)
    requires
        wf(s),
    ensures
        ({
            let now = settled(s, stick);
            let end = if s.logs.len() > s.logs_view_height {
                s.logs.len() - s.logs_view_height
            } else {
                0
            };
            &&& stick || s.logs_scroll >= end ==> now.logs_scroll == end
            &&& !stick && s.logs_scroll <= end ==> now.logs_scroll == s.logs_scroll
            &&& now == (ScreenForm { logs_scroll: now.logs_scroll, ..s })
        }),
{
}

/// A screen begins with nothing but its addresses: a peer that was given is being connected to and
/// stands in the input, and the family is that of the address listened on, where the machine has it.
pub proof fn law_screen_begins_empty(
    bind_addr: SocketAddr,
    peer_addr: Option<SocketAddr>,
    local_ip: LocalIps,
)
    ensures
        ({
            let s = at_start(bind_addr, peer_addr, local_ip);
            &&& s.bind_addr == bind_addr
            &&& s.local_ip == local_ip
            &&& peer_addr is None ==> s.connect_status is Idle && s.peer_input.len() == 0
            &&& peer_addr is Some ==> s.connect_status == ConnectStatus::Connecting(peer_addr->0)
                && s.peer_input == peer_addr->0.text_spec()
            &&& s.peer_addr is None
            &&& s.public_endpoint is None
            &&& s.stun_status is None
            &&& bind_addr.is_ipv4_spec() && local_ip.v4 is Some ==> s.mode is Ipv4
            &&& !bind_addr.is_ipv4_spec() && local_ip.v6 is Some ==> s.mode is Ipv6
            &&& local_ip.v4 is Some && local_ip.v6 is None ==> s.mode is Ipv4
            &&& local_ip.v4 is None ==> s.mode is Ipv6
            &&& s.mouse_capture_enabled
            &&& s.mouse_capture_request is None
            &&& !s.peer_focus && !s.needs_clear && !s.should_quit
            &&& s.selected.len() == 0 && s.received.len() == 0
            &&& s.logs.len() == 0 && s.unsaved_logs.len() == 0
            &&& s.logs_scroll == 0
            &&& s.buttons.len() == 0 && s.received_click_targets.len() == 0
            &&& s.last_mouse is None
        }),
{
}

/// Choosing the family that is chosen does nothing; choosing the other one has the screen cleared,
/// and tells where the machine has no address of it.
pub proof fn law_family_is_chosen(s: ScreenForm, mode: IpMode)
    ensures
        s.mode == mode ==> mode_selected(s, mode) == s,
        s.mode != mode ==> {
            let ip = if mode is Ipv4 {
                s.local_ip.v4 is Some
            } else {
                s.local_ip.v6 is Some
            };
            let chosen = ScreenForm { mode, ..s };
            let line = "modo "@ + (if mode is Ipv4 {
                "IPv4"@
            } else {
                "IPv6"@
            }) + " sem ip local"@;
            &&& ip ==> mode_selected(s, mode) == (ScreenForm { needs_clear: true, ..chosen })
            &&& !ip ==> mode_selected(s, mode) == (ScreenForm {
                needs_clear: true,
                ..logged(chosen, line)
            })
        },
{
}

/// The first item with a property is changed and no other; where none has it, nothing is.
pub proof fn law_first_is_changed<T>(
    s: Seq<T>,
    p: spec_fn(T) -> bool,
    change: spec_fn(T) -> T,
    i: int,
)
    ensures
        0 <= i < s.len() && p(s[i]) && (forall|k: int| 0 <= k < i ==> !p(#[trigger] s[k]))
            ==> first_changed(s, p, change) == s.update(i, change(s[i])),
        (forall|k: int| 0 <= k < s.len() ==> !p(#[trigger] s[k])) ==> first_changed(s, p, change)
            == s,
{
    if 0 <= i < s.len() && p(s[i]) && (forall|k: int| 0 <= k < i ==> !p(#[trigger] s[k])) {
        lemma_first_is(s, p, i);
    }
    if forall|k: int| 0 <= k < s.len() ==> !p(#[trigger] s[k]) {
        lemma_none_is(s, p);
    }
}

proof fn lemma_none_is<T>(s: Seq<T>, p: spec_fn(T) -> bool)
    requires
        forall|k: int| 0 <= k < s.len() ==> !p(#[trigger] s[k]),
    ensures
        first_where(s, p) == -1,
    decreases s.len(),
{
    if s.len() > 0 {
        let less = s.drop_last();
        assert forall|k: int| 0 <= k < less.len() implies !p(#[trigger] less[k]) by {
            assert(less[k] == s[k]);
        }
        lemma_none_is(less, p);
        assert(s.last() == s[s.len() - 1]);
    }
}

proof fn lemma_first_is<T>(s: Seq<T>, p: spec_fn(T) -> bool, i: int)
    requires
        0 <= i < s.len(),
        p(s[i]),
        forall|k: int| 0 <= k < i ==> !p(#[trigger] s[k]),
    ensures
        first_where(s, p) == i,
    decreases s.len(),
{
    let less = s.drop_last();
    if i == s.len() - 1 {
        assert forall|k: int| 0 <= k < less.len() implies !p(#[trigger] less[k]) by {
            assert(less[k] == s[k]);
        }
        lemma_none_is(less, p);
    } else {
        assert forall|k: int| 0 <= k < i implies !p(#[trigger] less[k]) by {
            assert(less[k] == s[k]);
        }
        assert(less[i] == s[i]);
        lemma_first_is(less, p, i);
    }
}

/// A file that begins to be sent is the first at its path, whatever it was before: it gets its number
/// and size, with nothing sent. The other files stay, and so does the rest of the screen.
pub proof fn law_send_start_is_shown(
    s: ScreenForm,
    file_id: u64,
    path: PathForm,
    size: u64,
    now: u64,
    interfaces: Option<Seq<IpAddr>>,
    i: int,
)
    ensures
        ({
            let e = EventForm::SendStarted { file_id, path, size };
            let after = after_event(s, e, now, interfaces);
            &&& 0 <= i < s.selected.len() && s.selected[i].path.parts == path.parts && (forall|
                k: int,
            |
                0 <= k < i ==> (#[trigger] s.selected[k]).path.parts != path.parts) ==> after == (
            ScreenForm {
                selected: s.selected.update(
                    i,
                    OutgoingForm {
                        path: s.selected[i].path,
                        file_id: Some(file_id),
                        size: Some(size),
                        sent_bytes: 0,
                        status: OutgoingStatus::Sending,
                    },
                ),
                ..s
            })
            &&& (forall|k: int|
                0 <= k < s.selected.len() ==> (#[trigger] s.selected[k]).path.parts != path.parts)
                ==> after == s
        }),
{
    reveal(after_event);
    law_first_is_changed(
        s.selected,
        sent_from(path),
        |e: OutgoingForm| send_started(e, file_id, size),
        i,
    );
}

/// How much of a file is sent is shown on the first file with its number, up to the size told; a file
/// that waited is on its way from then on, and one that was settled stays so.
pub proof fn law_send_progress_is_shown(
    s: ScreenForm,
    file_id: u64,
    bytes_sent: u64,
    size: u64,
    now: u64,
    interfaces: Option<Seq<IpAddr>>,
    i: int,
)
    ensures
        ({
            let e = EventForm::SendProgress { file_id, bytes_sent, size };
            let after = after_event(s, e, now, interfaces);
            let was = s.selected[i];
            &&& 0 <= i < s.selected.len() && was.file_id == Some(file_id) && (forall|k: int|
                0 <= k < i ==> (#[trigger] s.selected[k]).file_id != Some(file_id)) ==> after == (
            ScreenForm {
                selected: s.selected.update(
                    i,
                    OutgoingForm {
                        path: was.path,
                        file_id: Some(file_id),
                        size: Some(size),
                        sent_bytes: if bytes_sent <= size {
                            bytes_sent
                        } else {
                            size
                        },
                        status: if was.status is Pending {
                            OutgoingStatus::Sending
                        } else {
                            was.status
                        },
                    },
                ),
                ..s
            })
            &&& (forall|k: int|
                0 <= k < s.selected.len() ==> (#[trigger] s.selected[k]).file_id != Some(file_id))
                ==> after == s
        }),
{
    reveal(after_event);
    law_first_is_changed(
        s.selected,
        numbered(file_id),
        |e: OutgoingForm| send_progressed(e, bytes_sent, size),
        i,
    );
}

/// A file that is sent, or canceled, is the first with its number or at its path: a sent one shows all
/// of its bytes. The log tells it, whether the file is listed or not.
pub proof fn law_send_end_is_shown(
    s: ScreenForm,
    file_id: u64,
    path: PathForm,
    now: u64,
    interfaces: Option<Seq<IpAddr>>,
    i: int,
)
    ensures
        ({
            let sent_now = after_event(
                s,
                EventForm::FileSent { file_id, path },
                now,
                interfaces,
            );
            let canceled_now = after_event(
                s,
                EventForm::SendCanceled { file_id, path },
                now,
                interfaces,
            );
            let was = s.selected[i];
            &&& 0 <= i < s.selected.len() && (was.file_id == Some(file_id) || was.path.parts
                == path.parts) && (forall|k: int|
                0 <= k < i ==> (#[trigger] s.selected[k]).file_id != Some(file_id)
                    && s.selected[k].path.parts != path.parts) ==> {
                &&& sent_now == logged(
                    ScreenForm {
                        selected: s.selected.update(
                            i,
                            OutgoingForm {
                                status: OutgoingStatus::Sent,
                                sent_bytes: if was.size is Some {
                                    was.size->0
                                } else {
                                    was.sent_bytes
                                },
                                ..was
                            },
                        ),
                        ..s
                    },
                    "enviado "@ + path.text,
                )
                &&& canceled_now == logged(
                    ScreenForm {
                        selected: s.selected.update(
                            i,
                            OutgoingForm { status: OutgoingStatus::Canceled, ..was },
                        ),
                        ..s
                    },
                    "cancelado "@ + path.text,
                )
            }
            &&& (forall|k: int|
                0 <= k < s.selected.len() ==> (#[trigger] s.selected[k]).file_id != Some(file_id)
                    && s.selected[k].path.parts != path.parts) ==> {
                &&& sent_now == logged(s, "enviado "@ + path.text)
                &&& canceled_now == logged(s, "cancelado "@ + path.text)
            }
        }),
{
    reveal(after_event);
    law_first_is_changed(
        s.selected,
        numbered_or_at(file_id, path),
        |e: OutgoingForm| sent(e),
        i,
    );
    law_first_is_changed(
        s.selected,
        numbered_or_at(file_id, path),
        |e: OutgoingForm| OutgoingForm { status: OutgoingStatus::Canceled, ..e },
        i,
    );
}

/// A file that begins to come in is listed last, with its number, path and size and nothing
/// received; the files before it stay.
pub proof fn law_receive_start_is_shown(
    s: ScreenForm,
    file_id: u64,
    path: PathForm,
    size: u64,
    now: u64,
    interfaces: Option<Seq<IpAddr>>,
)
    ensures
        ({
            let e = EventForm::ReceiveStarted { file_id, path, size };
            let after = after_event(s, e, now, interfaces);
            let last = after.received.last();
            &&& after.received == s.received.push(last)
            &&& last.path == path && last.file_id == file_id && last.size == size
            &&& last.received_bytes == 0 && last.status is Receiving
            &&& last.rate.bytes == 0 && last.rate_last_at == Some(now) && last.rate_last_bytes == 0
            &&& after == (ScreenForm { received: after.received, ..s })
        }),
{
    reveal(after_event);
}

/// How much of a file has come in is shown on the first file with its number, up to the size told; one
/// that was done comes in again. Its rate is measured over at least a quarter of a second, from the
/// bytes that came since it was last measured.
pub proof fn law_receive_progress_is_shown(
    s: ScreenForm,
    file_id: u64,
    bytes_received: u64,
    size: u64,
    now: u64,
    interfaces: Option<Seq<IpAddr>>,
    i: int,
)
    requires
        0 <= i < s.received.len(),
        s.received[i].file_id == file_id,
        forall|k: int| 0 <= k < i ==> (#[trigger] s.received[k]).file_id != file_id,
    ensures
        ({
            let e = EventForm::ReceiveProgress { file_id, bytes_received, size };
            let after = after_event(s, e, now, interfaces);
            let was = s.received[i];
            let is = after.received[i];
            let shown = if bytes_received <= size {
                bytes_received
            } else {
                size
            };
            &&& after == (ScreenForm { received: s.received.update(i, is), ..s })
            &&& is.path == was.path && is.file_id == file_id
            &&& is.size == size
            &&& is.received_bytes == shown
            &&& was.status is Done ==> is.status is Receiving
            &&& !(was.status is Done) ==> is.status == was.status
            &&& was.rate_last_at is None ==> is.rate == was.rate && is.rate_last_at == Some(now)
                && is.rate_last_bytes == shown
            &&& was.rate_last_at is Some && now < was.rate_last_at->0 + 250_000_000 ==> is.rate
                == was.rate && is.rate_last_at == was.rate_last_at && is.rate_last_bytes
                == was.rate_last_bytes
            &&& was.rate_last_at is Some && now >= was.rate_last_at->0 + 250_000_000 ==> {
                &&& is.rate.nanos == now - was.rate_last_at->0
                &&& shown >= was.rate_last_bytes ==> is.rate.bytes == shown - was.rate_last_bytes
                &&& shown < was.rate_last_bytes ==> is.rate.bytes == 0
                &&& is.rate_last_at == Some(now)
                &&& is.rate_last_bytes == shown
            }
        }),
{
    reveal(after_event);
    law_first_is_changed(
        s.received,
        coming(file_id),
        |e: IncomingForm| receive_progressed(e, bytes_received, size, now),
        i,
    );
}

/// A file that has come in, or is canceled, is the first with its number: one that has come in shows
/// all of its bytes and no rate. The log tells its path, whether the file is listed or not.
pub proof fn law_receive_end_is_shown(
    s: ScreenForm,
    file_id: u64,
    path: PathForm,
    from: Option<SocketAddr>,
    now: u64,
    interfaces: Option<Seq<IpAddr>>,
    i: int,
)
    ensures
        ({
            let done = after_event(
                s,
                EventForm::FileReceived { file_id, path, from },
                now,
                interfaces,
            );
            let canceled = after_event(
                s,
                EventForm::ReceiveCanceled { file_id, path },
                now,
                interfaces,
            );
            let was = s.received[i];
            &&& 0 <= i < s.received.len() && was.file_id == file_id && (forall|k: int|
                0 <= k < i ==> (#[trigger] s.received[k]).file_id != file_id) ==> {
                &&& done == logged(
                    ScreenForm {
                        received: s.received.update(
                            i,
                            IncomingForm {
                                status: IncomingStatus::Done,
                                received_bytes: was.size,
                                rate: RateSample { bytes: 0, nanos: 0 },
                                rate_last_at: None,
                                ..was
                            },
                        ),
                        ..s
                    },
                    "recebido "@ + path.text,
                )
                &&& canceled == logged(
                    ScreenForm {
                        received: s.received.update(
                            i,
                            IncomingForm { status: IncomingStatus::Canceled, ..was },
                        ),
                        ..s
                    },
                    "recebimento cancelado "@ + path.text,
                )
            }
            &&& (forall|k: int|
                0 <= k < s.received.len() ==> (#[trigger] s.received[k]).file_id != file_id) ==> {
                &&& done == logged(s, "recebido "@ + path.text)
                &&& canceled == logged(s, "recebimento cancelado "@ + path.text)
            }
        }),
{
    reveal(after_event);
    law_first_is_changed(s.received, coming(file_id), |e: IncomingForm| received(e), i);
    law_first_is_changed(
        s.received,
        coming(file_id),
        |e: IncomingForm| IncomingForm { status: IncomingStatus::Canceled, ..e },
        i,
    );
}

/// News of files that are not listed change no file, and a file that could not be kept changes
/// nothing.
pub proof fn law_unknown_files_change_nothing(
    s: ScreenForm,
    file_id: u64,
    path: PathForm,
    bytes: u64,
    size: u64,
    now: u64,
    interfaces: Option<Seq<IpAddr>>,
)
    ensures
        (forall|k: int| 0 <= k < s.received.len() ==> (#[trigger] s.received[k]).file_id != file_id)
            ==> after_event(
            s,
            EventForm::ReceiveProgress { file_id, bytes_received: bytes, size },
            now,
            interfaces,
        ) == s,
        after_event(s, EventForm::ReceiveFailed { file_id, path }, now, interfaces) == s,
        after_event(s, EventForm::SessionDir(path), now, interfaces) == logged(
            s,
            "diretorio da sessao "@ + path.text,
        ),
{
    reveal(after_event);
    law_first_is_changed(
        s.received,
        coming(file_id),
        |e: IncomingForm| receive_progressed(e, bytes, size, now),
        0,
    );
}

/// The connection is shown as the network tells it: one that is being made has no peer, one that
/// stands has the peer, and one that timed out loses its peer where it was the one. The log tells
/// each with the address.
pub proof fn law_connection_is_shown(
    s: ScreenForm,
    addr: SocketAddr,
    now: u64,
    interfaces: Option<Seq<IpAddr>>,
)
    ensures
        after_event(s, EventForm::PeerConnecting(addr), now, interfaces) == logged(
            ScreenForm {
                connect_status: ConnectStatus::Connecting(addr),
                peer_addr: None,
                ..s
            },
            "conectando "@ + addr.text_spec(),
        ),
        after_event(s, EventForm::PeerConnected(addr), now, interfaces) == logged(
            ScreenForm {
                connect_status: ConnectStatus::Connected(addr),
                peer_addr: Some(addr),
                ..s
            },
            "conectado "@ + addr.text_spec(),
        ),
        s.peer_addr == Some(addr) ==> after_event(
            s,
            EventForm::PeerTimeout(addr),
            now,
            interfaces,
        ) == logged(
            ScreenForm { connect_status: ConnectStatus::Timeout(addr), peer_addr: None, ..s },
            "tempo esgotado "@ + addr.text_spec(),
        ),
        s.peer_addr != Some(addr) ==> after_event(
            s,
            EventForm::PeerTimeout(addr),
            now,
            interfaces,
        ) == logged(
            ScreenForm { connect_status: ConnectStatus::Timeout(addr), ..s },
            "tempo esgotado "@ + addr.text_spec(),
        ),
{
    reveal(after_event);
}

/// The address listened on is shown with the machine's addresses as they are then, and the public
/// endpoint is asked for anew; where it is told it is shown, and nothing more is said of the search.
pub proof fn law_endpoints_are_shown(
    s: ScreenForm,
    addr: SocketAddr,
    now: u64,
    interfaces: Option<Seq<IpAddr>>,
)
    ensures
        ({
            let bound = after_event(s, EventForm::Bound(addr), now, interfaces);
            let ips = local_ips::chosen(interfaces);
            &&& bound == (ScreenForm {
                bind_addr: addr,
                local_ip: ips,
                mode: bound.mode,
                public_endpoint: None,
                stun_status: Some("stun..."@),
                needs_clear: true,
                ..s
            })
            &&& s.mode is Ipv4 && ips.v4 is Some ==> bound.mode is Ipv4
            &&& s.mode is Ipv6 && ips.v6 is Some ==> bound.mode is Ipv6
            &&& ips.v4 is Some && ips.v6 is None ==> bound.mode is Ipv4
            &&& ips.v4 is None ==> bound.mode is Ipv6
        }),
        after_event(s, EventForm::PublicEndpoint(addr), now, interfaces) == logged(
            ScreenForm { public_endpoint: Some(addr), stun_status: None, ..s },
            "endpoint publico "@ + addr.text_spec(),
        ),
{
    reveal(after_event);
}

/// A line of the network is logged as it is; what it begins with tells how the search for the public
/// endpoint stands, in capitals or not, and any other line leaves that as it was.
pub proof fn law_lines_tell_of_the_search(
    s: ScreenForm,
    message: Seq<char>,
    now: u64,
    interfaces: Option<Seq<IpAddr>>,
)
    ensures
        ({
            let lower = text::lowered(message);
            let told = stun_told(s.stun_status, message);
            &&& after_event(s, EventForm::Log(message), now, interfaces) == logged(
                ScreenForm { stun_status: told, ..s },
                message,
            )
            &&& text::begins(lower, "stun indisponivel"@) ==> told == Some("stun indisponivel"@)
            &&& text::begins(lower, "stun erro"@) ==> told == Some("stun falhou"@)
            &&& text::begins(lower, "endpoint publico"@) ==> told is None
            &&& !text::begins(lower, "stun indisponivel"@) && !text::begins(lower, "stun erro"@)
                && !text::begins(lower, "endpoint publico"@) ==> told == s.stun_status
        }),
{
    reveal(after_event);
    reveal_strlit("stun indisponivel");
    reveal_strlit("stun erro");
    reveal_strlit("endpoint publico");
    let lower = text::lowered(message);
    if text::begins(lower, "stun indisponivel"@) {
        assert(lower.subrange(0, 17)[5] == 'i');
    }
    if text::begins(lower, "stun erro"@) {
        assert(lower.subrange(0, 9)[5] == 'e');
        assert(lower.subrange(0, 9)[0] == 's');
    }
    if text::begins(lower, "endpoint publico"@) {
        assert(lower.subrange(0, 16)[0] == 'e');
    }
    if text::begins(lower, "stun indisponivel"@) {
        assert(lower.subrange(0, 17)[0] == 's');
    }
}

/// Each state of the connection has its own words, with the address.
pub proof fn law_connection_has_words(addr: SocketAddr)
    ensures
        ConnectStatus::Idle.words() == "aguardando"@,
        ConnectStatus::Connecting(addr).words() == "conectando "@ + addr.text_spec(),
        ConnectStatus::Connected(addr).words() == "conectado "@ + addr.text_spec(),
        ConnectStatus::Timeout(addr).words() == "tempo esgotado "@ + addr.text_spec(),
{
}

} // verus!
