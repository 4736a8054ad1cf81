//! The state of the screen with tabs: transfers, downloads and events.

use vstd::prelude::*;

use crate::addr::{IpAddr, Ipv4Addr, Ipv6Addr, SocketAddr};
use crate::order;
use crate::path::{FilePath, PathForm};
use crate::text;
use crate::ui::components::{Button, ReceivedClickTarget};
use crate::ui::geometry;
use crate::ui::geometry::Rect;
use crate::ui::history;
use crate::ui::history::{DownloadForm, DownloadPeer, FoundFile, HistoryView};
use crate::ui::local_ips;

verus! {

/// The longest text for a peer.
pub const MAX_PEER_INPUT: usize = 120;

/// The lines of the log that are kept.
pub const MAX_LOGS: usize = 200;

/// The longest text to search the log for.
pub const MAX_LOG_QUERY: usize = 120;

/// The cells of a progress bar.
pub const PROGRESS_BAR_WIDTH: usize = 16;

/// The button that opens a received file.
pub const RECEIVED_OPEN_BUTTON_TEXT: &'static str = " Abrir ";

/// The button that shows a received file in its folder.
pub const RECEIVED_FOLDER_BUTTON_TEXT: &'static str = " Pasta ";

/// The file that the log is kept in.
pub const LOG_FILE_PATH: &'static str = "p2p_logs.txt";

/// The directory of received files.
pub const DOWNLOADS_DIR: &'static str = "received";

/// The index of who sent which file.
pub const DOWNLOAD_META_FILE: &'static str = ".download_meta.json";

/// Nanoseconds in which a download counts as recent: seven days.
pub const RECENT_NANOS: i128 = 604_800_000_000_000;

/// Bytes from which on a download counts as large.
pub const LARGE_BYTES: u64 = 50_000_000;

// ---------------------------------------------------------------- choices

/// A page of the screen.
#[derive(Clone, Copy, Debug, PartialEq, Eq, Structural)]
pub enum ActiveTab {
    Transfers,
    Downloads,
    Events,
}

impl ActiveTab {
    /// The page that follows.
    pub open spec fn next_spec(self) -> ActiveTab {
        match self {
            ActiveTab::Transfers => ActiveTab::Downloads,
            ActiveTab::Downloads => ActiveTab::Events,
            ActiveTab::Events => ActiveTab::Transfers,
        }
    }

    /// The page that follows.
    pub fn next(self) -> (r: ActiveTab)
        ensures
            r == self.next_spec(),
    {
        match self {
            ActiveTab::Transfers => ActiveTab::Downloads,
            ActiveTab::Downloads => ActiveTab::Events,
            ActiveTab::Events => ActiveTab::Transfers,
        }
    }
}

/// How grave a log line is.
#[derive(Clone, Copy, Debug, PartialEq, Eq, Structural)]
pub enum LogLevel {
    Info,
    Warn,
    Error,
}

impl LogLevel {
    /// The word for the level.
    pub fn label(self) -> (r: &'static str)
        ensures
            r@ == match self {
                LogLevel::Info => "INFO"@,
                LogLevel::Warn => "WARN"@,
                LogLevel::Error => "ERRO"@,
            },
    {
        match self {
            LogLevel::Info => "INFO",
            LogLevel::Warn => "WARN",
            LogLevel::Error => "ERRO",
        }
    }
}

/// Which log lines are shown.
#[derive(Clone, Copy, Debug, PartialEq, Eq, Structural)]
pub enum LogLevelFilter {
    All,
    Info,
    Warn,
    Error,
}

impl LogLevelFilter {
    /// The filter that follows.
    pub open spec fn next_spec(self) -> LogLevelFilter {
        match self {
            LogLevelFilter::All => LogLevelFilter::Info,
            LogLevelFilter::Info => LogLevelFilter::Warn,
            LogLevelFilter::Warn => LogLevelFilter::Error,
            LogLevelFilter::Error => LogLevelFilter::All,
        }
    }

    /// The filter that follows.
    pub fn next(self) -> (r: LogLevelFilter)
        ensures
            r == self.next_spec(),
    {
        match self {
            LogLevelFilter::All => LogLevelFilter::Info,
            LogLevelFilter::Info => LogLevelFilter::Warn,
            LogLevelFilter::Warn => LogLevelFilter::Error,
            LogLevelFilter::Error => LogLevelFilter::All,
        }
    }

    /// Whether lines of a level are shown.
    pub open spec fn shows(self, level: LogLevel) -> bool {
        match self {
            LogLevelFilter::All => true,
            LogLevelFilter::Info => level is Info,
            LogLevelFilter::Warn => level is Warn,
            LogLevelFilter::Error => level is Error,
        }
    }

    /// Whether lines of a level are shown.
    pub fn matches(self, level: LogLevel) -> (r: bool)
        ensures
            r == self.shows(level),
    {
        match self {
            LogLevelFilter::All => true,
            LogLevelFilter::Info => matches!(level, LogLevel::Info),
            LogLevelFilter::Warn => matches!(level, LogLevel::Warn),
            LogLevelFilter::Error => matches!(level, LogLevel::Error),
        }
    }

    /// The word for the filter.
    pub fn label(self) -> (r: &'static str)
        ensures
            r@ == match self {
                LogLevelFilter::All => "todos"@,
                LogLevelFilter::Info => "info"@,
                LogLevelFilter::Warn => "warn"@,
                LogLevelFilter::Error => "erro"@,
            },
    {
        match self {
            LogLevelFilter::All => "todos",
            LogLevelFilter::Info => "info",
            LogLevelFilter::Warn => "warn",
            LogLevelFilter::Error => "erro",
        }
    }
}

/// Which downloads are shown.
#[derive(Clone, Copy, Debug, PartialEq, Eq, Structural)]
pub enum HistoryFilter {
    All,
    FromPeer,
    Recent,
    Large,
    Media,
    Docs,
}

impl HistoryFilter {
    /// The filter that follows.
    pub open spec fn next_spec(self) -> HistoryFilter {
        match self {
            HistoryFilter::All => HistoryFilter::FromPeer,
            HistoryFilter::FromPeer => HistoryFilter::Recent,
            HistoryFilter::Recent => HistoryFilter::Large,
            HistoryFilter::Large => HistoryFilter::Media,
            HistoryFilter::Media => HistoryFilter::Docs,
            HistoryFilter::Docs => HistoryFilter::All,
        }
    }

    /// The filter that follows.
    pub fn next(self) -> (r: HistoryFilter)
        ensures
            r == self.next_spec(),
    {
        match self {
            HistoryFilter::All => HistoryFilter::FromPeer,
            HistoryFilter::FromPeer => HistoryFilter::Recent,
            HistoryFilter::Recent => HistoryFilter::Large,
            HistoryFilter::Large => HistoryFilter::Media,
            HistoryFilter::Media => HistoryFilter::Docs,
            HistoryFilter::Docs => HistoryFilter::All,
        }
    }

    /// The word for the filter.
    pub fn label(self) -> (r: &'static str)
        ensures
            r@ == match self {
                HistoryFilter::All => "todos"@,
                HistoryFilter::FromPeer => "do peer"@,
                HistoryFilter::Recent => "recentes"@,
                HistoryFilter::Large => "grandes"@,
                HistoryFilter::Media => "midia"@,
                HistoryFilter::Docs => "docs"@,
            },
    {
        match self {
            HistoryFilter::All => "todos",
            HistoryFilter::FromPeer => "do peer",
            HistoryFilter::Recent => "recentes",
            HistoryFilter::Large => "grandes",
            HistoryFilter::Media => "midia",
            HistoryFilter::Docs => "docs",
        }
    }
}

/// Going from page to page and from filter to filter comes round to the start, and not before
/// every other one was met.
pub proof fn law_choices_come_round(tab: ActiveTab, logs: LogLevelFilter, history: HistoryFilter)
    ensures
        tab.next_spec().next_spec().next_spec() == tab,
        tab.next_spec() != tab,
        tab.next_spec().next_spec() != tab,
        logs.next_spec().next_spec().next_spec().next_spec() == logs,
        logs.next_spec() != logs,
        logs.next_spec().next_spec() != logs,
        logs.next_spec().next_spec().next_spec() != logs,
        history.next_spec().next_spec().next_spec().next_spec().next_spec().next_spec() == history,
        history.next_spec() != history,
        history.next_spec().next_spec() != history,
        history.next_spec().next_spec().next_spec() != history,
        history.next_spec().next_spec().next_spec().next_spec() != history,
        history.next_spec().next_spec().next_spec().next_spec().next_spec() != history,
{
}

/// A family of addresses.
#[derive(Clone, Copy, Debug, PartialEq, Eq, Structural)]
pub enum IpMode {
    Ipv4,
    Ipv6,
}

impl IpMode {
    /// This family where the machine has it, else the other one; IPv6 where it has none.
    pub open spec fn fallback_spec(self, has_v4: bool, has_v6: bool) -> IpMode {
        if self is Ipv4 && has_v4 {
            IpMode::Ipv4
        } else if self is Ipv6 && has_v6 {
            IpMode::Ipv6
        } else if has_v4 {
            IpMode::Ipv4
        } else {
            IpMode::Ipv6
        }
    }

    /// This family where the machine has it, else the other one.
    pub fn fallback(self, has_v4: bool, has_v6: bool) -> (r: IpMode)
        ensures
            r == self.fallback_spec(has_v4, has_v6),
    {
        match self {
            IpMode::Ipv4 if has_v4 => IpMode::Ipv4,
            IpMode::Ipv6 if has_v6 => IpMode::Ipv6,
            _ => {
                if has_v4 {
                    IpMode::Ipv4
                } else {
                    IpMode::Ipv6
                }
            },
        }
    }

    /// The name of the family.
    pub open spec fn name(self) -> Seq<char> {
        match self {
            IpMode::Ipv4 => "IPv4"@,
            IpMode::Ipv6 => "IPv6"@,
        }
    }

    /// The name of the family.
    pub fn label(self) -> (r: &'static str)
        ensures
            r@ == self.name(),
    {
        match self {
            IpMode::Ipv4 => "IPv4",
            IpMode::Ipv6 => "IPv6",
        }
    }
}

/// The family fallen back on is one that the machine has, where it has any; and a family that
/// it has is kept.
pub proof fn law_fallback_is_supported(mode: IpMode, has_v4: bool, has_v6: bool)
    ensures
        has_v4 || has_v6 ==> match mode.fallback_spec(has_v4, has_v6) {
            IpMode::Ipv4 => has_v4,
            IpMode::Ipv6 => has_v6,
        },
        (match mode {
            IpMode::Ipv4 => has_v4,
            IpMode::Ipv6 => has_v6,
        }) ==> mode.fallback_spec(has_v4, has_v6) == mode,
{
}

/// The machine's own addresses, one of each family.
#[derive(Clone, Copy, Debug, PartialEq, Eq, Structural)]
pub struct LocalIps {
    pub v4: Option<Ipv4Addr>,
    pub v6: Option<Ipv6Addr>,
}

impl LocalIps {
    /// Whether there is an IPv4 address.
    pub fn has_v4(&self) -> (r: bool)
        ensures
            r == (self.v4 is Some),
    {
        self.v4.is_some()
    }

    /// Whether there is an IPv6 address.
    pub fn has_v6(&self) -> (r: bool)
        ensures
            r == (self.v6 is Some),
    {
        self.v6.is_some()
    }

    /// The address of a family.
    pub open spec fn for_mode(self, mode: IpMode) -> Option<IpAddr> {
        match mode {
            IpMode::Ipv4 => match self.v4 {
                Some(ip) => Some(IpAddr::V4(ip)),
                None => None,
            },
            IpMode::Ipv6 => match self.v6 {
                Some(ip) => Some(IpAddr::V6(ip)),
                None => None,
            },
        }
    }

    /// The address of a family.
    pub fn current_for_mode(&self, mode: IpMode) -> (r: Option<IpAddr>)
        ensures
            r == self.for_mode(mode),
    {
        match mode {
            IpMode::Ipv4 => match self.v4 {
                Some(ip) => Some(IpAddr::V4(ip)),
                None => None,
            },
            IpMode::Ipv6 => match self.v6 {
                Some(ip) => Some(IpAddr::V6(ip)),
                None => None,
            },
        }
    }
}

/// How the connection stands.
#[derive(Clone, Copy, Debug, PartialEq, Eq, Structural)]
pub enum ConnectStatus {
    Idle,
    Connecting(SocketAddr),
    Connected(SocketAddr),
    Disconnected(SocketAddr),
    Timeout(SocketAddr),
}

impl ConnectStatus {
    /// The words for the status.
    pub open spec fn words(self) -> Seq<char> {
        match self {
            ConnectStatus::Idle => "aguardando"@,
            ConnectStatus::Connecting(addr) => "conectando "@ + addr.text_spec(),
            ConnectStatus::Connected(addr) => "conectado "@ + addr.text_spec(),
            ConnectStatus::Disconnected(addr) => "desconectado "@ + addr.text_spec(),
            ConnectStatus::Timeout(addr) => "tempo esgotado "@ + addr.text_spec(),
        }
    }

    /// The words for the status.
    pub fn label(&self) -> (r: String)
        ensures
            r@ == self.words(),
    {
        match self {
            ConnectStatus::Idle => "aguardando".to_owned(),
            ConnectStatus::Connecting(addr) => text::joined("conectando ", addr.text().as_str()),
            ConnectStatus::Connected(addr) => text::joined("conectado ", addr.text().as_str()),
            ConnectStatus::Disconnected(addr) => text::joined(
                "desconectado ",
                addr.text().as_str(),
            ),
            ConnectStatus::Timeout(addr) => text::joined("tempo esgotado ", addr.text().as_str()),
        }
    }
}

/// What a probe of a peer showed.
#[derive(Debug)]
pub struct ProbeStatus {
    pub peer: SocketAddr,
    pub message: String,
    pub ok: Option<bool>,
}

/// A line of the log.
#[derive(Debug)]
pub struct LogEntry {
    pub level: LogLevel,
    pub message: String,
}

/// A rate: so many bytes in so many nanoseconds.
#[derive(Clone, Copy, Debug, PartialEq, Eq, Structural)]
pub struct RateSample {
    pub bytes: u64,
    pub nanos: u64,
}

/// A file to be sent.
#[derive(Debug)]
pub struct OutgoingEntry {
    pub path: FilePath,
    pub file_id: Option<u64>,
    pub size: Option<u64>,
    pub sent_bytes: u64,
    pub rate: RateSample,
    pub rate_last_at: Option<u64>,
    pub rate_last_bytes: u64,
    pub status: OutgoingStatus,
}

/// A file among the downloads. Times are nanoseconds since the Unix epoch.
#[derive(Debug)]
pub struct DownloadEntry {
    pub path: FilePath,
    pub name: String,
    pub size: u64,
    pub modified: Option<i128>,
    pub kind: DownloadKind,
    pub from_peer: Option<String>,
}

/// What kind of file a download is.
#[derive(Clone, Copy, Debug, PartialEq, Eq, Structural)]
pub enum DownloadKind {
    Document,
    Media,
    Archive,
    Binary,
    Other,
}

impl DownloadKind {
    /// The word for the kind.
    pub fn label(self) -> (r: &'static str)
        ensures
            r@ == match self {
                DownloadKind::Document => "doc"@,
                DownloadKind::Media => "midia"@,
                DownloadKind::Archive => "pacote"@,
                DownloadKind::Binary => "binario"@,
                DownloadKind::Other => "outro"@,
            },
    {
        match self {
            DownloadKind::Document => "doc",
            DownloadKind::Media => "midia",
            DownloadKind::Archive => "pacote",
            DownloadKind::Binary => "binario",
            DownloadKind::Other => "outro",
        }
    }
}

/// How far a file to be sent has come.
#[derive(Clone, Copy, Debug, PartialEq, Eq, Structural)]
pub enum OutgoingStatus {
    Pending,
    Sending,
    Sent,
    Canceled,
}

impl OutgoingStatus {
    /// The word for the status.
    pub open spec fn word(self) -> Seq<char> {
        match self {
            OutgoingStatus::Pending => "pendente"@,
            OutgoingStatus::Sending => "enviando"@,
            OutgoingStatus::Sent => "enviado"@,
            OutgoingStatus::Canceled => "cancelado"@,
        }
    }

    /// The word for the status.
    pub fn label(self) -> (r: &'static str)
        ensures
            r@ == self.word(),
    {
        match self {
            OutgoingStatus::Pending => "pendente",
            OutgoingStatus::Sending => "enviando",
            OutgoingStatus::Sent => "enviado",
            OutgoingStatus::Canceled => "cancelado",
        }
    }
}

/// A file that is coming in.
#[derive(Debug)]
pub struct IncomingEntry {
    pub path: FilePath,
    pub file_id: u64,
    pub size: u64,
    pub received_bytes: u64,
    pub status: IncomingStatus,
    pub rate: RateSample,
    pub rate_started_at: Option<u64>,
}

/// How far a file that is coming in has come.
#[derive(Clone, Copy, Debug, PartialEq, Eq, Structural)]
pub enum IncomingStatus {
    Receiving,
    Done,
    Canceled,
}

impl IncomingStatus {
    /// The word for the status.
    pub open spec fn word(self) -> Seq<char> {
        match self {
            IncomingStatus::Receiving => "recebendo"@,
            IncomingStatus::Done => "recebido"@,
            IncomingStatus::Canceled => "cancelado"@,
        }
    }

    /// The word for the status.
    pub fn label(self) -> (r: &'static str)
        ensures
            r@ == self.word(),
    {
        match self {
            IncomingStatus::Receiving => "recebendo",
            IncomingStatus::Done => "recebido",
            IncomingStatus::Canceled => "cancelado",
        }
    }
}

// ---------------------------------------------------------------- log

/// A log line as a value of mathematics.
pub struct LogForm {
    pub level: LogLevel,
    pub message: Seq<char>,
}

impl View for LogEntry {
    type V = LogForm;

    open spec fn view(&self) -> LogForm {
        LogForm { level: self.level, message: self.message@ }
    }
}

impl LogEntry {
    /// A copy of the line.
    pub fn copied(&self) -> (r: LogEntry)
        ensures
            r@ == self@,
    {
        LogEntry { level: self.level, message: self.message.as_str().to_owned() }
    }
}

/// The lines of a list.
pub open spec fn log_forms(v: Seq<LogEntry>) -> Seq<LogForm> {
    v.map_values(|e: LogEntry| e@)
}

/// The log and the part of it that is shown.
pub struct LogView {
    pub lines: Seq<LogForm>,
    pub filter: LogLevelFilter,
    pub query_lower: Seq<char>,
    pub scroll: int,
    pub height: int,
}

/// Whether a line is among those that can be shown.
pub open spec fn log_shown(e: LogForm, filter: LogLevelFilter, query_lower: Seq<char>) -> bool {
    filter.shows(e.level) && (query_lower.len() == 0 || text::occurs(
        text::lowered(e.message),
        query_lower,
    ))
}

/// The places of the lines that can be shown.
pub open spec fn logs_shown(
    lines: Seq<LogForm>,
    filter: LogLevelFilter,
    query_lower: Seq<char>,
) -> Seq<int>
    decreases lines.len(),
{
    if lines.len() == 0 {
        Seq::empty()
    } else if log_shown(lines.last(), filter, query_lower) {
        logs_shown(lines.drop_last(), filter, query_lower).push(lines.len() - 1)
    } else {
        logs_shown(lines.drop_last(), filter, query_lower)
    }
}

/// How far the log can be scrolled.
pub open spec fn max_scroll(v: LogView) -> int {
    let count = logs_shown(v.lines, v.filter, v.query_lower).len() as int;
    if count > v.height {
        count - v.height
    } else {
        0
    }
}

/// The log at its end where it is to stick there, else not scrolled beyond its end.
pub open spec fn settled(v: LogView, stick: bool) -> LogView {
    LogView {
        scroll: if stick || v.scroll > max_scroll(v) {
            max_scroll(v)
        } else {
            v.scroll
        },
        ..v
    }
}

/// The last lines of a log, as many as are kept.
pub open spec fn kept(lines: Seq<LogForm>) -> Seq<LogForm> {
    if lines.len() > MAX_LOGS {
        lines.skip(lines.len() - MAX_LOGS)
    } else {
        lines
    }
}

/// The log after a line more: the oldest lines go, and a log at its end stays there.
pub open spec fn logged(v: LogView, line: LogForm) -> LogView {
    let lines = v.lines.push(line);
    let dropped = lines.len() - kept(lines).len();
    settled(
        LogView {
            lines: kept(lines),
            scroll: if v.scroll > dropped {
                v.scroll - dropped
            } else {
                0
            },
            ..v
        },
        v.scroll == max_scroll(v),
    )
}

/// The log never grows beyond what is kept, always ends with the newest line, and is never
/// scrolled beyond its end.
pub proof fn law_log_is_bounded(v: LogView, line: LogForm)
    requires
        v.scroll >= 0,
        v.height >= 0,
    ensures
        logged(v, line).lines.len() <= MAX_LOGS,
        logged(v, line).lines.last() == line,
        0 <= logged(v, line).scroll <= max_scroll(logged(v, line)),
        v.scroll == max_scroll(v) ==> logged(v, line).scroll == max_scroll(logged(v, line)),
{
}

// ---------------------------------------------------------------- screen

/// What a look below the downloads found.
#[derive(Debug)]
pub enum HistoryScan {
    /// There is no such directory.
    Missing,
    /// The files, the index of senders, and the last error where a directory could not be
    /// read.
    Found { files: Vec<FoundFile>, index: Vec<DownloadPeer>, error: Option<String> },
}

/// The screen with tabs.
#[derive(Debug)]
pub struct AppState {
    pub bind_addr: SocketAddr,
    pub peer_addr: Option<SocketAddr>,
    pub peer_label: Option<String>,
    pub peer_input: String,
    pub peer_focus: bool,
    pub active_tab: ActiveTab,
    pub mode: IpMode,
    pub connect_status: ConnectStatus,
    pub probe_status: Option<ProbeStatus>,
    pub local_ip: LocalIps,
    pub public_endpoint: Option<SocketAddr>,
    pub stun_status: Option<String>,
    pub mouse_capture_enabled: bool,
    pub mouse_capture_request: Option<bool>,
    pub received_click_targets: Vec<ReceivedClickTarget>,
    pub selected: Vec<OutgoingEntry>,
    pub received: Vec<IncomingEntry>,
    pub logs: Vec<LogEntry>,
    /// Lines that are not yet in the log file.
    pub unsaved_logs: Vec<LogEntry>,
    pub log_filter: LogLevelFilter,
    pub log_query: String,
    pub log_query_lower: String,
    pub log_search_focus: bool,
    pub logs_scroll: usize,
    pub logs_view_height: usize,
    pub logs_area: Rect,
    pub history_area: Rect,
    pub history_view_height: usize,
    pub history_scroll: usize,
    pub history_entries: Vec<DownloadEntry>,
    pub history_filter: HistoryFilter,
    pub history_query: String,
    pub history_query_lower: String,
    pub history_search_focus: bool,
    pub history_status: Option<String>,
    pub buttons: Vec<Button>,
    pub peer_input_area: Rect,
    pub last_mouse: Option<(u16, u16)>,
    pub needs_clear: bool,
    pub should_quit: bool,
}

/// What the filter of downloads needs to know besides the screen: the time, and the address
/// that the peer input is where it is one.
#[derive(Clone, Copy, Debug)]
pub struct HistoryContext {
    pub now: i128,
    pub input_addr: Option<SocketAddr>,
}

/// The words for a missing downloads directory.
pub open spec fn missing_downloads() -> Seq<char> {
    "pasta 'received' não encontrada"@
}

/// Whether the entries and the status are what a look below the downloads makes of them.
pub open spec fn scanned(
    scan: HistoryScan,
    entries: Seq<DownloadForm>,
    status: Option<Seq<char>>,
) -> bool {
    match scan {
        HistoryScan::Missing => entries.len() == 0 && status == Some(missing_downloads()),
        HistoryScan::Found { files, index, error } => {
            &&& order::stably_sorted(
                history::downloads(
                    history::found_forms(files@),
                    history::index_of(index@),
                ),
                entries,
                history::time_key(),
                history::newest_first(),
            )
            &&& status == text::text_in(error)
        },
    }
}

/// The downloads without those at a path.
pub open spec fn without_path(s: Seq<DownloadForm>, p: PathForm) -> Seq<DownloadForm>
    decreases s.len(),
{
    if s.len() == 0 {
        Seq::empty()
    } else if s.last().path.parts == p.parts {
        without_path(s.drop_last(), p)
    } else {
        without_path(s.drop_last(), p).push(s.last())
    }
}

impl AppState {
    /// The log and the part of it that is shown.
    pub open spec fn log_view(self) -> LogView {
        LogView {
            lines: log_forms(self.logs@),
            filter: self.log_filter,
            query_lower: self.log_query_lower@,
            scroll: self.logs_scroll as int,
            height: self.logs_view_height as int,
        }
    }

    /// Whether nothing but the log differs from another state.
    pub open spec fn same_but_log(self, other: AppState) -> bool {
        self == (AppState {
            logs: self.logs,
            unsaved_logs: self.unsaved_logs,
            log_filter: self.log_filter,
            log_query: self.log_query,
            log_query_lower: self.log_query_lower,
            logs_scroll: self.logs_scroll,
            logs_view_height: self.logs_view_height,
            ..other
        })
    }

    /// Whether the screen is that at the start, but for the downloads.
    pub open spec fn fresh(
        self,
        bind_addr: SocketAddr,
        peer_addr: Option<SocketAddr>,
        peer_label: Option<Seq<char>>,
        local_ip: LocalIps,
    ) -> bool {
        &&& self.bind_addr == bind_addr
        &&& self.peer_addr is None
        &&& text::text_in(self.peer_label) == peer_label
        &&& match peer_addr {
            Some(addr) => self.peer_input@ == addr.text_spec() && self.connect_status
                == ConnectStatus::Connecting(addr),
            None => self.peer_input@.len() == 0 && self.connect_status == ConnectStatus::Idle,
        }
        &&& !self.peer_focus
        &&& self.active_tab == ActiveTab::Transfers
        &&& self.local_ip == local_ip
        &&& self.mode == (if bind_addr.is_ipv4_spec() {
            IpMode::Ipv4
        } else {
            IpMode::Ipv6
        }).fallback_spec(local_ip.v4 is Some, local_ip.v6 is Some)
        &&& self.probe_status is None
        &&& self.public_endpoint is None
        &&& self.stun_status is None
        &&& self.mouse_capture_enabled
        &&& self.mouse_capture_request is None
        &&& self.received_click_targets@.len() == 0
        &&& self.selected@.len() == 0
        &&& self.received@.len() == 0
        &&& self.log_view() == (LogView {
            lines: Seq::empty(),
            filter: LogLevelFilter::All,
            query_lower: Seq::empty(),
            scroll: 0,
            height: 0,
        })
        &&& self.unsaved_logs@.len() == 0
        &&& self.log_query@.len() == 0
        &&& !self.log_search_focus
        &&& self.logs_area == geometry::no_rect()
        &&& self.history_area == geometry::no_rect()
        &&& self.history_view_height == 0
        &&& self.history_scroll == 0
        &&& self.history_filter == HistoryFilter::All
        &&& self.history_query@.len() == 0
        &&& self.history_query_lower@.len() == 0
        &&& !self.history_search_focus
        &&& self.buttons@.len() == 0
        &&& self.peer_input_area == geometry::no_rect()
        &&& self.last_mouse is None
        &&& !self.needs_clear
        &&& !self.should_quit
    }

    /// The screen at the start; a peer given at the start is being connected to.
    pub fn new(
        bind_addr: SocketAddr,
        peer_addr: Option<SocketAddr>,
        peer_label: Option<String>,
        interfaces: &Option<Vec<IpAddr>>,
        scan: HistoryScan,
    ) -> (r: AppState)
        ensures
            r.fresh(
                bind_addr,
                peer_addr,
                text::text_in(peer_label),
                local_ips::chosen(local_ips::listed(*interfaces)),
            ),
            scanned(
                scan,
                history::forms(r.history_entries@),
                text::text_in(r.history_status),
            ),
    {
        let (peer_input, connect_status) = match peer_addr {
            Some(addr) => (addr.text(), ConnectStatus::Connecting(addr)),
            None => (String::new(), ConnectStatus::Idle),
        };
        let local_ip = local_ips::detect_local_ips(interfaces);
        let mode = if bind_addr.is_ipv4() {
            IpMode::Ipv4
        } else {
            IpMode::Ipv6
        };
        let mode = mode.fallback(local_ip.has_v4(), local_ip.has_v6());
        let mut app = AppState {
            bind_addr,
            peer_addr: None,
            peer_label,
            peer_input,
            peer_focus: false,
            active_tab: ActiveTab::Transfers,
            mode,
            connect_status,
            probe_status: None,
            local_ip,
            public_endpoint: None,
            stun_status: None,
            mouse_capture_enabled: true,
            mouse_capture_request: None,
            received_click_targets: Vec::new(),
            selected: Vec::new(),
            received: Vec::new(),
            logs: Vec::new(),
            unsaved_logs: Vec::new(),
            log_filter: LogLevelFilter::All,
            log_query: String::new(),
            log_query_lower: String::new(),
            log_search_focus: false,
            logs_scroll: 0,
            logs_view_height: 0,
            logs_area: Rect::empty(),
            history_area: Rect::empty(),
            history_view_height: 0,
            history_scroll: 0,
            history_entries: Vec::new(),
            history_filter: HistoryFilter::All,
            history_query: String::new(),
            history_query_lower: String::new(),
            history_search_focus: false,
            history_status: None,
            buttons: Vec::new(),
            peer_input_area: Rect::empty(),
            last_mouse: None,
            needs_clear: false,
            should_quit: false,
        };
        assert(app.log_view().lines =~= Seq::<LogForm>::empty());
        assert(app.log_view().query_lower =~= Seq::<char>::empty());
        app.refresh_history(scan);
        app
    }

    /// Takes the focus from all inputs.
    pub fn clear_focus(&mut self)
        ensures
            *final(self) == (AppState {
                peer_focus: false,
                log_search_focus: false,
                history_search_focus: false,
                ..*old(self)
            }),
    {
        self.peer_focus = false;
        self.log_search_focus = false;
        self.history_search_focus = false;
    }

    /// Goes to a page.
    pub fn set_active_tab(&mut self, tab: ActiveTab)
        ensures
            *final(self) == (if old(self).active_tab == tab {
                *old(self)
            } else {
                AppState {
                    active_tab: tab,
                    peer_focus: false,
                    log_search_focus: false,
                    history_search_focus: false,
                    needs_clear: true,
                    ..*old(self)
                }
            }),
    {
        if self.active_tab != tab {
            self.active_tab = tab;
            self.clear_focus();
            self.needs_clear = true;
        }
    }

    /// Takes what a look below the downloads found: the newest first, from the top.
    pub fn refresh_history(&mut self, scan: HistoryScan)
        ensures
            *final(self) == (AppState {
                history_entries: final(self).history_entries,
                history_status: final(self).history_status,
                history_scroll: final(self).history_scroll,
                ..*old(self)
            }),
            final(self).history_scroll == (if scan is Missing {
                old(self).history_scroll
            } else {
                0
            }),
            scanned(
                scan,
                history::forms(final(self).history_entries@),
                text::text_in(final(self).history_status),
            ),
    {
        match scan {
            HistoryScan::Missing => {
                self.history_entries = Vec::new();
                self.history_status = Some("pasta 'received' não encontrada".to_owned());
            },
            HistoryScan::Found { files, index, error } => {
                self.history_entries = history::collect_downloads(files, &index);
                self.history_status = error;
                self.history_scroll = 0;
            },
        }
    }

    /// Puts a download on top, in place of an older one at its path. Where its sender could not
    /// be noted, the error goes to the log.
    pub fn push_history_entry(
        &mut self,
        file: FoundFile,
        from_peer: Option<String>,
        store_error: Option<String>,
        level: LogLevel,
    )
        ensures
            *final(self) == (AppState {
                history_entries: final(self).history_entries,
                logs: final(self).logs,
                unsaved_logs: final(self).unsaved_logs,
                logs_scroll: final(self).logs_scroll,
                ..*old(self)
            }),
            history::forms(final(self).history_entries@) == seq![
                history::download_of(file@, text::text_in(from_peer)),
            ] + without_path(history::forms(old(self).history_entries@), file@.path),
            match store_error {
                Some(err) => {
                    let line = LogForm {
                        level,
                        message: "erro ao salvar historico de downloads: "@ + err@,
                    };
                    &&& final(self).log_view() == logged(old(self).log_view(), line)
                    &&& log_forms(final(self).unsaved_logs@) == log_forms(
                        old(self).unsaved_logs@,
                    ).push(line)
                },
                None => {
                    &&& final(self).logs == old(self).logs
                    &&& final(self).logs_scroll == old(self).logs_scroll
                    &&& final(self).unsaved_logs == old(self).unsaved_logs
                },
            },
    {
        if let Some(err) = store_error {
            self.push_log_with_level(
                level,
                text::joined("erro ao salvar historico de downloads: ", err.as_str()),
            );
        }
        let ghost p = file@.path;
        let ghost s = history::forms(self.history_entries@);
        let size: usize = self.history_entries.len();
        let mut old_entries: Vec<DownloadEntry> = Vec::new();
        old_entries.append(&mut self.history_entries);
        let mut rest: Vec<DownloadEntry> = Vec::new();
        let mut n: usize = 0;
        assert(s.take(0) =~= Seq::<DownloadForm>::empty());
        assert(history::forms(rest@) =~= Seq::<DownloadForm>::empty());
        assert(history::forms(old_entries@) =~= s.skip(0));
        while n < size
            invariant
                n <= size,
                size == s.len(),
                p == file@.path,
                history::forms(old_entries@) == s.skip(n as int),
                history::forms(rest@) == without_path(s.take(n as int), p),
            decreases size - n,
        {
            let ghost left = old_entries@;
            assert(history::forms(left).len() == left.len());
            let entry = old_entries.remove(0);
            assert(entry@ == history::forms(left)[0]);
            assert(history::forms(old_entries@) =~= history::forms(left).skip(1));
            assert(history::forms(old_entries@) =~= s.skip(n + 1));
            assert(s.take(n + 1).drop_last() =~= s.take(n as int));
            assert(s.take(n + 1).last() == entry@);
            if !entry.path.same(&file.path) {
                let ghost before = rest@;
                rest.push(entry);
                assert(history::forms(rest@) =~= history::forms(before).push(entry@));
            }
            n += 1;
        }
        assert(s.take(size as int) =~= s);
        let entry = history::download_entry(file, from_peer);
        let ghost tail = history::forms(rest@);
        rest.insert(0, entry);
        assert(history::forms(rest@) =~= seq![entry@] + tail);
        self.history_entries = rest;
    }

    /// Adds a line to the log; only the newest lines are kept, and a log at its end stays there.
    pub fn push_log_with_level(&mut self, level: LogLevel, message: String)
        ensures
            final(self).same_but_log(*old(self)),
            final(self).log_query == old(self).log_query,
            final(self).log_query_lower == old(self).log_query_lower,
            final(self).log_view() == logged(
                old(self).log_view(),
                (LogForm { level, message: message@ }),
            ),
            log_forms(final(self).unsaved_logs@) == log_forms(old(self).unsaved_logs@).push(
                (LogForm { level, message: message@ }),
            ),
    {
        let ghost before = self.log_view();
        let ghost unsaved = self.unsaved_logs@;
        let was_at_bottom = self.logs_scroll == self.max_logs_scroll();
        let entry = LogEntry { level, message };
        self.unsaved_logs.push(entry.copied());
        assert(log_forms(self.unsaved_logs@) =~= log_forms(unsaved).push(entry@));
        self.logs.push(entry);
        let ghost lines = log_forms(self.logs@);
        assert(lines =~= before.lines.push(entry@));
        if self.logs.len() > MAX_LOGS {
            let excess: usize = self.logs.len() - MAX_LOGS;
            let newest = self.logs.split_off(excess);
            assert(log_forms(newest@) =~= kept(lines));
            self.logs = newest;
            self.logs_scroll = if self.logs_scroll > excess {
                self.logs_scroll - excess
            } else {
                0
            };
        }
        self.adjust_logs_scroll(was_at_bottom);
    }

    /// How far the log can be scrolled.
    pub fn max_logs_scroll(&self) -> (r: usize)
        ensures
            r == max_scroll(self.log_view()),
    {
        let count: usize = self.visible_logs_len();
        if count > self.logs_view_height {
            count - self.logs_view_height
        } else {
            0
        }
    }

    /// Takes the number of lines that have room.
    pub fn set_logs_view_height(&mut self, height: usize)
        ensures
            *final(self) == (AppState {
                logs_view_height: height,
                logs_scroll: final(self).logs_scroll,
                ..*old(self)
            }),
            final(self).log_view() == settled(
                LogView { height: height as int, ..old(self).log_view() },
                false,
            ),
    {
        self.logs_view_height = height;
        self.adjust_logs_scroll(false);
    }

    /// Chooses which lines are shown; a log at its end stays there.
    pub fn set_log_filter(&mut self, filter: LogLevelFilter)
        ensures
            *final(self) == (AppState {
                log_filter: filter,
                logs_scroll: final(self).logs_scroll,
                ..*old(self)
            }),
            final(self).log_view() == (if old(self).log_filter == filter {
                old(self).log_view()
            } else {
                settled(
                    LogView { filter, ..old(self).log_view() },
                    old(self).logs_scroll == max_scroll(old(self).log_view()),
                )
            }),
    {
        if self.log_filter != filter {
            let stick_to_bottom = self.logs_scroll == self.max_logs_scroll();
            self.log_filter = filter;
            self.adjust_logs_scroll(stick_to_bottom);
        }
    }

    /// Goes to the next filter of lines.
    pub fn cycle_log_filter(&mut self)
        ensures
            *final(self) == (AppState {
                log_filter: old(self).log_filter.next_spec(),
                logs_scroll: final(self).logs_scroll,
                ..*old(self)
            }),
            final(self).log_view() == settled(
                LogView { filter: old(self).log_filter.next_spec(), ..old(self).log_view() },
                old(self).logs_scroll == max_scroll(old(self).log_view()),
            ),
    {
        let next = self.log_filter.next();
        self.set_log_filter(next);
    }

    /// Searches the lines; a log at its end stays there.
    pub fn set_log_query(&mut self, query: String)
        ensures
            *final(self) == (AppState {
                log_query: query,
                log_query_lower: final(self).log_query_lower,
                logs_scroll: final(self).logs_scroll,
                ..*old(self)
            }),
            final(self).log_view() == settled(
                LogView { query_lower: text::lowered(query@), ..old(self).log_view() },
                old(self).logs_scroll == max_scroll(old(self).log_view()),
            ),
    {
        let stick_to_bottom = self.logs_scroll == self.max_logs_scroll();
        self.log_query_lower = text::to_lower(query.as_str());
        self.log_query = query;
        self.adjust_logs_scroll(stick_to_bottom);
    }

    /// Scrolls the log to its end where it is to stick there, else back to its end.
    pub fn adjust_logs_scroll(&mut self, stick_to_bottom: bool)
        ensures
            *final(self) == (AppState { logs_scroll: final(self).logs_scroll, ..*old(self) }),
            final(self).log_view() == settled(old(self).log_view(), stick_to_bottom),
    {
        let max: usize = self.max_logs_scroll();
        if stick_to_bottom || self.logs_scroll > max {
            self.logs_scroll = max;
        }
    }

    /// How many lines can be shown.
    pub fn visible_logs_len(&self) -> (r: usize)
        ensures
            r == logs_shown(
                log_forms(self.logs@),
                self.log_filter,
                self.log_query_lower@,
            ).len(),
    {
        let shown = self.visible_logs();
        shown.len()
    }

    /// The places of the lines that can be shown.
    pub fn visible_logs(&self) -> (r: Vec<usize>)
        ensures
            r@.map_values(|i: usize| i as int) == logs_shown(
                log_forms(self.logs@),
                self.log_filter,
                self.log_query_lower@,
            ),
    {
        let ghost all = log_forms(self.logs@);
        let ghost filter = self.log_filter;
        let ghost query = self.log_query_lower@;
        let mut r: Vec<usize> = Vec::new();
        let mut i: usize = 0;
        assert(all.take(0) =~= Seq::<LogForm>::empty());
        assert(r@.map_values(|i: usize| i as int) =~= Seq::<int>::empty());
        while i < self.logs.len()
            invariant
                i <= self.logs@.len(),
                all == log_forms(self.logs@),
                filter == self.log_filter,
                query == self.log_query_lower@,
                r@.map_values(|i: usize| i as int) == logs_shown(
                    all.take(i as int),
                    filter,
                    query,
                ),
            decreases self.logs@.len() - i,
        {
            assert(all.take(i + 1).drop_last() =~= all.take(i as int));
            assert(all.take(i + 1).last() == self.logs@[i as int]@);
            if self.log_matches(&self.logs[i]) {
                let ghost before = r@;
                r.push(i);
                assert(r@.map_values(|i: usize| i as int) =~= before.map_values(
                    |i: usize| i as int,
                ).push(i as int));
            }
            i += 1;
        }
        assert(all.take(i as int) =~= all);
        r
    }

    /// Whether a line is among those that can be shown.
    pub fn log_matches(&self, entry: &LogEntry) -> (r: bool)
        ensures
            r == log_shown(entry@, self.log_filter, self.log_query_lower@),
    {
        self.log_filter.matches(entry.level) && (self.log_query_lower.as_str().is_empty()
            || text::contains(
            text::to_lower(entry.message.as_str()).as_str(),
            self.log_query_lower.as_str(),
        ))
    }

    /// The text that downloads of the current peer are filtered by.
    pub open spec fn peer_key(self, context: HistoryContext) -> Option<Seq<char>> {
        match self.peer_addr {
            Some(addr) => Some(addr.text_spec()),
            None => match context.input_addr {
                Some(addr) => Some(addr.text_spec()),
                None => None,
            },
        }
    }

    /// What the filter of downloads goes by.
    pub open spec fn history_view(self, context: HistoryContext) -> HistoryView {
        HistoryView {
            filter: self.history_filter,
            query_lower: self.history_query_lower@,
            peer: self.peer_key(context),
            now: context.now,
        }
    }

    /// The places of the downloads that are shown.
    pub open spec fn history_shown(self, context: HistoryContext) -> Seq<int> {
        history::shown(history::forms(self.history_entries@), self.history_view(context))
    }

    /// How far the downloads can be scrolled.
    pub open spec fn history_limit(self, context: HistoryContext) -> int {
        let count = self.history_shown(context).len() as int;
        if count > self.history_view_height {
            count - self.history_view_height
        } else {
            0
        }
    }

    /// A place in the downloads, not beyond their end.
    pub open spec fn history_clamped(self, context: HistoryContext, scroll: int) -> int {
        if scroll < self.history_limit(context) {
            scroll
        } else {
            self.history_limit(context)
        }
    }

    /// The places of the downloads that are shown.
    pub fn filtered_history(&self, context: HistoryContext) -> (r: Vec<usize>)
        ensures
            r@.map_values(|i: usize| i as int) == self.history_shown(context),
            forall|k: int|
                0 <= k < r@.len() ==> #[trigger] r@[k] < self.history_entries@.len(),
    {
        let peer = match self.peer_addr {
            Some(addr) => Some(addr.text()),
            None => match context.input_addr {
                Some(addr) => Some(addr.text()),
                None => None,
            },
        };
        history::shown_downloads(
            &self.history_entries,
            self.history_filter,
            self.history_query_lower.as_str(),
            &peer,
            context.now,
        )
    }

    fn clamp_history(&mut self, context: HistoryContext)
        ensures
            *final(self) == (AppState {
                history_scroll: old(self).history_clamped(
                    context,
                    old(self).history_scroll as int,
                ) as usize,
                ..*old(self)
            }),
    {
        let max: usize = self.max_history_scroll(context);
        if self.history_scroll > max {
            self.history_scroll = max;
        }
    }

    /// Searches the downloads.
    pub fn set_history_query(&mut self, query: String, context: HistoryContext)
        ensures
            *final(self) == (AppState {
                history_query: query,
                history_query_lower: final(self).history_query_lower,
                history_scroll: final(self).history_scroll,
                ..*old(self)
            }),
            final(self).history_query_lower@ == text::lowered(query@),
            final(self).history_scroll == final(self).history_clamped(
                context,
                old(self).history_scroll as int,
            ),
    {
        self.history_query_lower = text::to_lower(query.as_str());
        self.history_query = query;
        self.clamp_history(context);
    }

    /// Goes to the next filter of downloads.
    pub fn cycle_history_filter(&mut self, context: HistoryContext)
        ensures
            *final(self) == (AppState {
                history_filter: old(self).history_filter.next_spec(),
                history_scroll: final(self).history_scroll,
                ..*old(self)
            }),
            final(self).history_scroll == final(self).history_clamped(
                context,
                old(self).history_scroll as int,
            ),
    {
        self.history_filter = self.history_filter.next();
        self.clamp_history(context);
    }

    /// How far the downloads can be scrolled.
    pub fn max_history_scroll(&self, context: HistoryContext) -> (r: usize)
        ensures
            r == self.history_limit(context),
    {
        let count: usize = self.filtered_history(context).len();
        if count > self.history_view_height {
            count - self.history_view_height
        } else {
            0
        }
    }

    /// Takes the number of downloads that have room.
    pub fn set_history_view_height(&mut self, height: usize, context: HistoryContext)
        ensures
            *final(self) == (AppState {
                history_view_height: height,
                history_scroll: final(self).history_scroll,
                ..*old(self)
            }),
            final(self).history_scroll == final(self).history_clamped(
                context,
                old(self).history_scroll as int,
            ),
    {
        self.history_view_height = height;
        self.clamp_history(context);
    }

    /// Scrolls the downloads up.
    pub fn scroll_history_up(&mut self, lines: usize)
        ensures
            *final(self) == (AppState {
                history_scroll: (if old(self).history_scroll > lines {
                    old(self).history_scroll - lines
                } else {
                    0
                }) as usize,
                ..*old(self)
            }),
    {
        self.history_scroll = if self.history_scroll > lines {
            self.history_scroll - lines
        } else {
            0
        };
    }

    /// Scrolls the downloads down, not beyond their end.
    pub fn scroll_history_down(&mut self, lines: usize, context: HistoryContext)
        requires
            old(self).history_scroll + lines <= usize::MAX,
        ensures
            *final(self) == (AppState {
                history_scroll: old(self).history_clamped(
                    context,
                    old(self).history_scroll + lines,
                ) as usize,
                ..*old(self)
            }),
    {
        let max: usize = self.max_history_scroll(context);
        let target: usize = self.history_scroll + lines;
        self.history_scroll = if target < max {
            target
        } else {
            max
        };
    }

    /// Scrolls the log up.
    pub fn scroll_logs_up(&mut self, lines: usize)
        ensures
            *final(self) == (AppState {
                logs_scroll: (if old(self).logs_scroll > lines {
                    old(self).logs_scroll - lines
                } else {
                    0
                }) as usize,
                ..*old(self)
            }),
    {
        self.logs_scroll = if self.logs_scroll > lines {
            self.logs_scroll - lines
        } else {
            0
        };
    }

    /// Scrolls the log down, not beyond its end.
    pub fn scroll_logs_down(&mut self, lines: usize)
        requires
            old(self).logs_scroll + lines <= usize::MAX,
        ensures
            *final(self) == (AppState { logs_scroll: final(self).logs_scroll, ..*old(self) }),
            final(self).log_view() == settled(
                LogView { scroll: old(self).logs_scroll + lines, ..old(self).log_view() },
                false,
            ),
    {
        let max: usize = self.max_logs_scroll();
        let target: usize = self.logs_scroll + lines;
        self.logs_scroll = if target < max {
            target
        } else {
            max
        };
    }

    /// Scrolls the log to its beginning.
    pub fn scroll_logs_top(&mut self)
        ensures
            *final(self) == (AppState { logs_scroll: 0, ..*old(self) }),
    {
        self.logs_scroll = 0;
    }

    /// Scrolls the log to its end.
    pub fn scroll_logs_bottom(&mut self)
        ensures
            *final(self) == (AppState {
                logs_scroll: max_scroll(old(self).log_view()) as usize,
                ..*old(self)
            }),
    {
        self.logs_scroll = self.max_logs_scroll();
    }

    /// Whether the machine has an address of a family.
    pub open spec fn supports(self, mode: IpMode) -> bool {
        self.local_ip.for_mode(mode) is Some
    }

    /// Whether the machine has an address of a family.
    pub fn mode_supported(&self, mode: IpMode) -> (r: bool)
        ensures
            r == self.supports(mode),
    {
        match mode {
            IpMode::Ipv4 => self.local_ip.has_v4(),
            IpMode::Ipv6 => self.local_ip.has_v6(),
        }
    }

    /// Chooses a family; that the machine has no address of it goes to the log.
    pub fn select_mode(&mut self, mode: IpMode, level: LogLevel)
        ensures
            old(self).mode == mode ==> *final(self) == *old(self),
            old(self).mode != mode ==> *final(self) == (AppState {
                mode,
                needs_clear: true,
                logs: final(self).logs,
                logs_scroll: final(self).logs_scroll,
                unsaved_logs: final(self).unsaved_logs,
                ..*old(self)
            }),
            old(self).mode != mode && old(self).supports(mode) ==> final(self).logs == old(
                self,
            ).logs && final(self).logs_scroll == old(self).logs_scroll
                && final(self).unsaved_logs == old(self).unsaved_logs,
            old(self).mode != mode && !old(self).supports(mode) ==> {
                let line = LogForm { level, message: "modo "@ + mode.name() + " sem ip local"@ };
                &&& final(self).log_view() == logged(old(self).log_view(), line)
                &&& log_forms(final(self).unsaved_logs@) == log_forms(
                    old(self).unsaved_logs@,
                ).push(line)
            },
    {
        if self.mode != mode {
            self.mode = mode;
            if !self.mode_supported(mode) {
                let mut line = "modo ".to_owned();
                line.append(mode.label());
                line.append(" sem ip local");
                self.push_log_with_level(level, line);
            }
            self.needs_clear = true;
        }
    }

    /// The name of the chosen family.
    pub fn mode_label(&self) -> (r: &'static str)
        ensures
            r@ == self.mode.name(),
    {
        self.mode.label()
    }

    /// The machine's address of the chosen family.
    pub fn current_local_ip(&self) -> (r: Option<IpAddr>)
        ensures
            r == self.local_ip.for_mode(self.mode),
    {
        self.local_ip.current_for_mode(self.mode)
    }

    /// The public endpoint, where it is of the chosen family.
    pub fn current_public_endpoint(&self) -> (r: Option<SocketAddr>)
        ensures
            r == endpoint_for(self.public_endpoint, self.mode),
    {
        match self.public_endpoint {
            Some(endpoint) => {
                if endpoint.is_ipv4() == (self.mode == IpMode::Ipv4) {
                    Some(endpoint)
                } else {
                    None
                }
            },
            None => None,
        }
    }
}

/// An endpoint, where it is of a family.
pub open spec fn endpoint_for(endpoint: Option<SocketAddr>, mode: IpMode) -> Option<SocketAddr> {
    match endpoint {
        Some(addr) => if addr.is_ipv4_spec() == (mode is Ipv4) {
            Some(addr)
        } else {
            None
        },
        None => None,
    }
}

// ---------------------------------------------------------------- laws

/// The tabs, and the filters of the log and of the history, follow one another in their order.
pub proof fn law_choices_follow_in_order()
    ensures
        ActiveTab::Transfers.next_spec() is Downloads,
        ActiveTab::Downloads.next_spec() is Events,
        ActiveTab::Events.next_spec() is Transfers,
        LogLevelFilter::All.next_spec() is Info,
        LogLevelFilter::Info.next_spec() is Warn,
        LogLevelFilter::Warn.next_spec() is Error,
        LogLevelFilter::Error.next_spec() is All,
        HistoryFilter::All.next_spec() is FromPeer,
        HistoryFilter::FromPeer.next_spec() is Recent,
        HistoryFilter::Recent.next_spec() is Large,
        HistoryFilter::Large.next_spec() is Media,
        HistoryFilter::Media.next_spec() is Docs,
        HistoryFilter::Docs.next_spec() is All,
{
}

/// A line is shown where the filter is of its level or of all, and where its text in lower case holds
/// the text looked for, if any.
pub proof fn law_log_filters_show_their_level(
    e: LogForm,
    filter: LogLevelFilter,
    query_lower: Seq<char>,
)
    ensures
        ({
            let level = filter is All || (filter is Info && e.level is Info) || (filter is Warn
                && e.level is Warn) || (filter is Error && e.level is Error);
            let found = query_lower.len() == 0 || text::occurs(
                text::lowered(e.message),
                query_lower,
            );
            log_shown(e, filter, query_lower) <==> level && found
        }),
{
}

/// The lines that are shown are all of those that the filter shows, in the order of the log.
pub proof fn law_all_that_the_log_filter_shows(
    lines: Seq<LogForm>,
    filter: LogLevelFilter,
    query_lower: Seq<char>,
    k: int,
)
    ensures
        logs_shown(lines, filter, query_lower).contains(k) <==> 0 <= k < lines.len() && log_shown(
            lines[k],
            filter,
            query_lower,
        ),
        forall|a: int, b: int|
            0 <= a < b < logs_shown(lines, filter, query_lower).len() ==> (#[trigger] logs_shown(
                lines,
                filter,
                query_lower,
            )[a]) < (#[trigger] logs_shown(lines, filter, query_lower)[b]),
{
    lemma_logs_shown(lines, filter, query_lower);
}

proof fn lemma_logs_shown(lines: Seq<LogForm>, filter: LogLevelFilter, query_lower: Seq<char>)
    ensures
        forall|k: int| #[trigger]
            logs_shown(lines, filter, query_lower).contains(k) ==> 0 <= k < lines.len()
                && log_shown(lines[k], filter, query_lower),
        forall|k: int| 0 <= k < lines.len()
            && log_shown(lines[k], filter, query_lower) ==> #[trigger] logs_shown(lines, filter, query_lower).contains(k),
        forall|a: int, b: int|
            0 <= a < b < logs_shown(lines, filter, query_lower).len() ==> (#[trigger] logs_shown(lines, filter, query_lower)[a]) < (#[trigger] logs_shown(lines, filter, query_lower)[b]),
    decreases lines.len(),
{
    let all = logs_shown(lines, filter, query_lower);
    if lines.len() > 0 {
        let less = lines.drop_last();
        lemma_logs_shown(less, filter, query_lower);
        let before = logs_shown(less, filter, query_lower);
        assert forall|k: int| #[trigger] all.contains(k) implies 0 <= k < lines.len()
            && log_shown(lines[k], filter, query_lower) by {
            let a = choose|a: int| 0 <= a < all.len() && all[a] == k;
            if a < before.len() {
                assert(before[a] == k);
                assert(before.contains(k));
                assert(less[k] == lines[k]);
            }
        }
        assert forall|k: int| 0 <= k < lines.len()
            && log_shown(lines[k], filter, query_lower) implies #[trigger] all.contains(
            k,
        ) by {
            if k < less.len() {
                assert(less[k] == lines[k]);
                assert(before.contains(k));
                let a = choose|a: int| 0 <= a < before.len() && before[a] == k;
                assert(all[a] == k);
            } else {
                assert(all[all.len() - 1] == k);
            }
        }
        assert forall|a: int, b: int| 0 <= a < b < all.len() implies (#[trigger] all[a]) < (
        #[trigger] all[b]) by {
            assert(all[a] == before[a]);
            assert(before.contains(before[a]));
            if b < before.len() {
                assert(all[b] == before[b]);
            }
        }
    }
}

/// A line is put at the end of the log; a full log loses its oldest line. A log that was scrolled to
/// the end of what is shown stays there; one that was not moves with its lines, within what is shown.
pub proof fn law_lines_are_logged(v: LogView, line: LogForm)
    requires
        v.lines.len() <= 200,
        v.scroll >= 0,
        v.height >= 0,
    ensures
        ({
            let now = logged(v, line);
            let was = logs_shown(v.lines, v.filter, v.query_lower).len();
            let is = logs_shown(now.lines, v.filter, v.query_lower).len();
            let end = if was > v.height {
                was - v.height
            } else {
                0
            };
            let new_end = if is > v.height {
                is - v.height
            } else {
                0
            };
            let moved = if v.lines.len() == 200 && v.scroll > 0 {
                v.scroll - 1
            } else {
                v.scroll
            };
            &&& v.lines.len() < 200 ==> now.lines == v.lines.push(line)
            &&& v.lines.len() == 200 ==> now.lines == v.lines.skip(1).push(line)
            &&& v.scroll == end ==> now.scroll == new_end
            &&& v.scroll != end && moved <= new_end ==> now.scroll == moved
            &&& v.scroll != end && moved > new_end ==> now.scroll == new_end
            &&& now.filter == v.filter && now.query_lower == v.query_lower && now.height == v.height
            &&& max_scroll(v) == end
        }),
{
    if v.lines.len() == 200 {
        assert(v.lines.push(line).skip(1) =~= v.lines.skip(1).push(line));
    }
}

/// The log is settled at the end of what is shown where it is to stick there or is beyond it, and
/// stays where it is elsewhere.
pub proof fn law_log_is_settled(v: LogView, stick: bool)
    ensures
        stick || v.scroll > max_scroll(v) ==> settled(v, stick) == (LogView {
            scroll: max_scroll(v),
            ..v
        }),
        !stick && v.scroll <= max_scroll(v) ==> settled(v, stick) == v,
{
}

/// A family is kept where the machine has an address of it; else the earlier family is taken where it
/// has one of that, and the later one where it has not.
pub proof fn law_family_falls_back(mode: IpMode, has_v4: bool, has_v6: bool)
    ensures
        mode is Ipv4 && has_v4 ==> mode.fallback_spec(has_v4, has_v6) is Ipv4,
        mode is Ipv6 && has_v6 ==> mode.fallback_spec(has_v4, has_v6) is Ipv6,
        mode is Ipv6 && !has_v6 && has_v4 ==> mode.fallback_spec(has_v4, has_v6) is Ipv4,
        !has_v4 ==> mode.fallback_spec(has_v4, has_v6) is Ipv6,
{
}

/// The own address and the public endpoint of a family are those of that family, where there are.
pub proof fn law_addresses_are_of_the_family(
    ips: LocalIps,
    a: Ipv4Addr,
    b: Ipv6Addr,
    endpoint: SocketAddr,
    mode: IpMode,
)
    ensures
        ips.v4 == Some(a) ==> ips.for_mode(IpMode::Ipv4) == Some(IpAddr::V4(a)),
        ips.v6 == Some(b) ==> ips.for_mode(IpMode::Ipv6) == Some(IpAddr::V6(b)),
        ips.v4 is None ==> ips.for_mode(IpMode::Ipv4) is None,
        ips.v6 is None ==> ips.for_mode(IpMode::Ipv6) is None,
        endpoint_for(None, mode) is None,
        (endpoint is V4) == (mode is Ipv4) ==> endpoint_for(Some(endpoint), mode) == Some(endpoint),
        (endpoint is V4) != (mode is Ipv4) ==> endpoint_for(Some(endpoint), mode) is None,
{
}

/// Each state of the connection and of a file has its own words.
pub proof fn law_states_have_words(addr: SocketAddr)
    ensures
        ConnectStatus::Idle.words() == "aguardando"@,
        ConnectStatus::Connecting(addr).words() == "conectando "@ + addr.text_spec(),
        ConnectStatus::Connected(addr).words() == "conectado "@ + addr.text_spec(),
        ConnectStatus::Disconnected(addr).words() == "desconectado "@ + addr.text_spec(),
        ConnectStatus::Timeout(addr).words() == "tempo esgotado "@ + addr.text_spec(),
        OutgoingStatus::Pending.word() == "pendente"@,
        OutgoingStatus::Sending.word() == "enviando"@,
        OutgoingStatus::Sent.word() == "enviado"@,
        OutgoingStatus::Canceled.word() == "cancelado"@,
        IncomingStatus::Receiving.word() == "recebendo"@,
        IncomingStatus::Done.word() == "recebido"@,
        IncomingStatus::Canceled.word() == "cancelado"@,
        IpMode::Ipv4.name() == "IPv4"@,
        IpMode::Ipv6.name() == "IPv6"@,
{
}

/// The history holds the files that were found, the newest first, and what could not be read is told;
/// without the directory it is empty, and that is told.
pub proof fn law_history_is_what_was_found(
    scan: HistoryScan,
    entries: Seq<DownloadForm>,
    status: Option<Seq<char>>,
    i: int,
    j: int,
    time: Option<i128>,
)
    requires
        scanned(scan, entries, status),
    ensures
        scan is Missing ==> entries.len() == 0 && status == Some(
            "pasta 'received' não encontrada"@,
        ),
        scan is Found ==> {
            let found = history::downloads(
                history::found_forms(scan->files@),
                history::index_of(scan->index@),
            );
            &&& entries.len() == found.len()
            &&& scan->error is Some ==> status == Some(scan->error->0@)
            &&& scan->error is None ==> status is None
            &&& 0 <= i < j < entries.len() && entries[j].modified is Some ==> entries[i].modified
                is Some && entries[i].modified->0 >= entries[j].modified->0
            &&& entries.filter(|d: DownloadForm| d.modified == time) == found.filter(
                |d: DownloadForm| d.modified == time,
            )
        },
{
    if scan is Found {
        let found = history::downloads(
            history::found_forms(scan->files@),
            history::index_of(scan->index@),
        );
        order::law_sorting_keeps_the_items(
            found,
            entries,
            history::time_key(),
            history::newest_first(),
            i,
            j,
            time,
            |d: DownloadForm| d.modified == time,
        );
        if 0 <= i < j < entries.len() {
            assert(!history::newest_first()(
                history::time_key()(entries[j]),
                history::time_key()(entries[i]),
            ));
        }
    }
}

/// A file that was removed is gone from the history, and no other is.
pub proof fn law_only_the_file_is_removed(s: Seq<DownloadForm>, p: PathForm)
    ensures
        without_path(s, p) == s.filter(|d: DownloadForm| d.path.parts != p.parts),
    decreases s.len(),
{
    reveal(Seq::filter);
    if s.len() > 0 {
        law_only_the_file_is_removed(s.drop_last(), p);
    }
}

impl AppState {
    /// The peer whose files are asked for is the one connected to, else the one in the input.
    pub proof fn law_peer_of_the_history(self, context: HistoryContext, addr: SocketAddr)
        ensures
            self.peer_addr == Some(addr) ==> self.peer_key(context) == Some(addr.text_spec()),
            self.peer_addr is None && context.input_addr == Some(addr) ==> self.peer_key(context)
                == Some(addr.text_spec()),
            self.peer_addr is None && context.input_addr is None ==> self.peer_key(context) is None,
            self.history_view(context).filter == self.history_filter,
            self.history_view(context).query_lower == self.history_query_lower@,
            self.history_view(context).peer == self.peer_key(context),
            self.history_view(context).now == context.now,
    {
    }

    /// The history is scrolled no further than to its last page.
    pub proof fn law_history_is_scrolled_within(self, context: HistoryContext, scroll: int)
        ensures
            ({
                let count = history::shown(
                    history::forms(self.history_entries@),
                    self.history_view(context),
                ).len();
                let end = if count > self.history_view_height {
                    count - self.history_view_height
                } else {
                    0
                };
                &&& self.history_limit(context) == end
                &&& scroll <= end ==> self.history_clamped(context, scroll) == scroll
                &&& scroll > end ==> self.history_clamped(context, scroll) == end
            }),
    {
    }

    /// A family can be chosen where the machine has an address of it.
    pub proof fn law_supported_families(self)
        ensures
            self.supports(IpMode::Ipv4) <==> self.local_ip.v4 is Some,
            self.supports(IpMode::Ipv6) <==> self.local_ip.v6 is Some,
    {
    }

    /// A screen begins with nothing but its addresses: a peer that was given is being connected to and
    /// stands in the input.
    pub proof fn law_screen_begins_empty(
        self,
        bind_addr: SocketAddr,
        peer_addr: Option<SocketAddr>,
        peer_label: Option<Seq<char>>,
        local_ip: LocalIps,
    )
        requires
            self.fresh(bind_addr, peer_addr, peer_label, local_ip),
        ensures
            self.bind_addr == bind_addr,
            self.peer_addr is None,
            peer_addr is Some ==> self.peer_input@ == peer_addr->0.text_spec()
                && self.connect_status == ConnectStatus::Connecting(peer_addr->0),
            peer_addr is None ==> self.peer_input@.len() == 0 && self.connect_status is Idle,
            self.active_tab is Transfers,
            self.local_ip == local_ip,
            bind_addr is V4 && local_ip.v4 is Some ==> self.mode is Ipv4,
            bind_addr is V6 && local_ip.v6 is Some ==> self.mode is Ipv6,
            bind_addr is V6 && local_ip.v6 is None && local_ip.v4 is Some ==> self.mode is Ipv4,
            local_ip.v4 is None ==> self.mode is Ipv6,
            self.probe_status is None && self.public_endpoint is None && self.stun_status is None,
            self.mouse_capture_enabled && self.mouse_capture_request is None,
            self.selected@.len() == 0 && self.received@.len() == 0 && self.logs@.len() == 0,
            self.unsaved_logs@.len() == 0 && self.buttons@.len() == 0,
            self.log_filter is All && self.history_filter is All,
            self.logs_scroll == 0 && self.history_scroll == 0,
            !self.peer_focus && !self.log_search_focus && !self.history_search_focus,
            !self.needs_clear && !self.should_quit,
    {
        let lines = self.log_view().lines;
        assert(lines.len() == 0);
        assert(lines.len() == self.logs@.len());
    }
}

impl AppState {
    /// Two screens that differ in their log alone have everything else in common.
    pub proof fn law_only_the_log_differs(self, other: AppState)
        requires
            self.same_but_log(other),
        ensures
            self.bind_addr == other.bind_addr,
            self.peer_addr == other.peer_addr,
            self.peer_label == other.peer_label,
            self.peer_input == other.peer_input,
            self.peer_focus == other.peer_focus,
            self.active_tab == other.active_tab,
            self.mode == other.mode,
            self.connect_status == other.connect_status,
            self.probe_status == other.probe_status,
            self.local_ip == other.local_ip,
            self.public_endpoint == other.public_endpoint,
            self.stun_status == other.stun_status,
            self.mouse_capture_enabled == other.mouse_capture_enabled,
            self.mouse_capture_request == other.mouse_capture_request,
            self.received_click_targets == other.received_click_targets,
            self.selected == other.selected,
            self.received == other.received,
            self.log_search_focus == other.log_search_focus,
            self.logs_area == other.logs_area,
            self.history_area == other.history_area,
            self.history_view_height == other.history_view_height,
            self.history_scroll == other.history_scroll,
            self.history_entries == other.history_entries,
            self.history_filter == other.history_filter,
            self.history_query == other.history_query,
            self.history_query_lower == other.history_query_lower,
            self.history_search_focus == other.history_search_focus,
            self.history_status == other.history_status,
            self.buttons == other.buttons,
            self.peer_input_area == other.peer_input_area,
            self.last_mouse == other.last_mouse,
            self.needs_clear == other.needs_clear,
            self.should_quit == other.should_quit,
    {
    }

    /// The log as it is shown.
    pub proof fn law_log_as_shown(self, i: int)
        ensures
            self.log_view().lines.len() == self.logs@.len(),
            0 <= i < self.logs@.len() ==> self.log_view().lines[i].message == self.logs@[i].message@
                && self.log_view().lines[i].level == self.logs@[i].level,
            self.log_view().filter == self.log_filter,
            self.log_view().query_lower == self.log_query_lower@,
            self.log_view().scroll == self.logs_scroll,
            self.log_view().height == self.logs_view_height,
    {
    }
}

/// The limits of the screen.
pub proof fn law_limits_of_the_screen()
    ensures
        MAX_PEER_INPUT == 120,
        MAX_LOGS == 200,
        MAX_LOG_QUERY == 120,
        PROGRESS_BAR_WIDTH == 16,
        RECENT_NANOS == 7 * 24 * 60 * 60 * 1_000_000_000,
        LARGE_BYTES == 50_000_000,
        RECEIVED_OPEN_BUTTON_TEXT@ == " Abrir "@,
        RECEIVED_FOLDER_BUTTON_TEXT@ == " Pasta "@,
        LOG_FILE_PATH@ == "p2p_logs.txt"@,
        DOWNLOADS_DIR@ == "received"@,
        DOWNLOAD_META_FILE@ == ".download_meta.json"@,
{
}

} // verus!
