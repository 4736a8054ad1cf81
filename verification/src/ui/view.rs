//! What the single screen shows, as a list of widgets in the order in which to paint them.

use vstd::prelude::*;

use crate::addr::SocketAddr;
use crate::double;
use crate::path;
use crate::path::FilePath;
use crate::text;
use crate::ui::components;
use crate::ui::components::{
    Button, ButtonAction, ButtonForm, ReceivedClickAction, ReceivedClickTarget, TargetForm,
};
use crate::ui::geometry;
use crate::ui::geometry::{Axis, Rect, Share};
use crate::ui::screen;
use crate::ui::screen::{
    AppState, ConnectStatus, IncomingEntry, IncomingForm, OutgoingEntry, OutgoingForm, ScreenForm,
};
use crate::ui::state;
use crate::ui::state::{IncomingStatus, IpMode, OutgoingStatus, RateSample};
use crate::ui::style;
use crate::ui::style::{Rgb, TextStyle, Theme};

verus! {

// ---------------------------------------------------------------- widgets

/// A piece of text in one style.
#[derive(Debug)]
pub struct StyledSpan {
    pub text: String,
    pub style: TextStyle,
}

/// A piece of text in one style as a value of mathematics.
pub struct SpanForm {
    pub text: Seq<char>,
    pub style: TextStyle,
}

impl View for StyledSpan {
    type V = SpanForm;

    open spec fn view(&self) -> SpanForm {
        SpanForm { text: self.text@, style: self.style }
    }
}

/// The pieces of a line.
pub open spec fn span_forms(v: Seq<StyledSpan>) -> Seq<SpanForm> {
    v.map_values(|s: StyledSpan| s@)
}

/// A line of text.
#[derive(Debug)]
pub struct TextLine {
    pub spans: Vec<StyledSpan>,
}

impl View for TextLine {
    type V = Seq<SpanForm>;

    open spec fn view(&self) -> Seq<SpanForm> {
        span_forms(self.spans@)
    }
}

/// The lines of a list.
pub open spec fn line_forms(v: Seq<TextLine>) -> Seq<Seq<SpanForm>> {
    v.map_values(|l: TextLine| l@)
}

/// Something to paint.
#[derive(Debug)]
pub enum Widget {
    /// A ground without text.
    Ground { area: Rect, color: Rgb },
    /// A box with a rounded border, perhaps a title, and one line.
    Panel {
        area: Rect,
        title: Option<StyledSpan>,
        border: Rgb,
        ground: Rgb,
        style: TextStyle,
        centered: bool,
        line: TextLine,
    },
    /// A box with a rounded border, a title, and lines.
    List { area: Rect, heading: StyledSpan, border: Rgb, ground: Rgb, items: Vec<TextLine> },
}

/// Something to paint as a value of mathematics.
pub enum WidgetForm {
    Ground { area: Rect, color: Rgb },
    Panel {
        area: Rect,
        title: Option<SpanForm>,
        border: Rgb,
        ground: Rgb,
        style: TextStyle,
        centered: bool,
        line: Seq<SpanForm>,
    },
    List { area: Rect, heading: SpanForm, border: Rgb, ground: Rgb, items: Seq<Seq<SpanForm>> },
}

impl View for Widget {
    type V = WidgetForm;

    open spec fn view(&self) -> WidgetForm {
        match *self {
            Widget::Ground { area, color } => WidgetForm::Ground { area, color },
            Widget::Panel {
                area,
                title,
                border,
                ground,
                style,
                centered,
                line,
            } => WidgetForm::Panel {
                area,
                title: match title {
                    Some(t) => Some(t@),
                    None => None,
                },
                border,
                ground,
                style,
                centered,
                line: line@,
            },
            Widget::List { area, heading, border, ground, items } => WidgetForm::List {
                area,
                heading: heading@,
                border,
                ground,
                items: line_forms(items@),
            },
        }
    }
}

/// The widgets of a list.
pub open spec fn widget_forms(v: Seq<Widget>) -> Seq<WidgetForm> {
    v.map_values(|w: Widget| w@)
}

fn span(text: String, style: TextStyle) -> (r: StyledSpan)
    ensures
        r@ == (SpanForm { text: text@, style }),
{
    StyledSpan { text, style }
}

fn raw(text: &str) -> (r: StyledSpan)
    ensures
        r@ == (SpanForm { text: text@, style: style::plain() }),
{
    StyledSpan { text: text.to_owned(), style: style::style_of(None, None, false, false) }
}

fn inked(text: String, fg: Rgb) -> (r: StyledSpan)
    ensures
        r@ == (SpanForm { text: text@, style: style::inked(fg) }),
{
    StyledSpan { text, style: style::style_of(Some(fg), None, false, false) }
}

fn bold(text: String, fg: Rgb) -> (r: StyledSpan)
    ensures
        r@ == (SpanForm { text: text@, style: style::bold_inked(fg) }),
{
    StyledSpan { text, style: style::style_of(Some(fg), None, true, false) }
}

fn line1(a: StyledSpan) -> (r: TextLine)
    ensures
        r@ == seq![a@],
{
    let mut spans: Vec<StyledSpan> = Vec::new();
    spans.push(a);
    let r = TextLine { spans };
    assert(r@ =~= seq![a@]);
    r
}

fn line2(a: StyledSpan, b: StyledSpan) -> (r: TextLine)
    ensures
        r@ == seq![a@, b@],
{
    let mut spans: Vec<StyledSpan> = Vec::new();
    spans.push(a);
    spans.push(b);
    let r = TextLine { spans };
    assert(r@ =~= seq![a@, b@]);
    r
}

/// A title.
pub open spec fn title_form(theme: Theme, title: Seq<char>) -> SpanForm {
    SpanForm { text: title, style: style::bold_inked(theme.text) }
}

/// A box with a title.
pub open spec fn titled(theme: Theme, area: Rect, title: Seq<char>, line: Seq<SpanForm>) -> WidgetForm {
    WidgetForm::Panel {
        area,
        title: Some(title_form(theme, title)),
        border: theme.border,
        ground: theme.panel,
        style: style::plain(),
        centered: false,
        line,
    }
}

fn titled_panel(theme: Theme, area: Rect, title: &str, line: TextLine) -> (r: Widget)
    ensures
        r@ == titled(theme, area, title@, line@),
{
    Widget::Panel {
        area,
        title: Some(bold(title.to_owned(), theme.text)),
        border: theme.border,
        ground: theme.panel,
        style: style::style_of(None, None, false, false),
        centered: false,
        line,
    }
}

/// A button.
pub open spec fn button_form(theme: Theme, area: Rect, label: Seq<char>, style: TextStyle) -> WidgetForm {
    WidgetForm::Panel {
        area,
        title: None,
        border: theme.border,
        ground: theme.panel,
        style,
        centered: true,
        line: seq![SpanForm { text: label, style: style::plain() }],
    }
}

fn button_widget(theme: Theme, area: Rect, label: &str, style: TextStyle) -> (r: Widget)
    ensures
        r@ == button_form(theme, area, label@, style),
{
    Widget::Panel {
        area,
        title: None,
        border: theme.border,
        ground: theme.panel,
        style,
        centered: true,
        line: line1(raw(label)),
    }
}

/// A list with a title.
pub open spec fn list_form(
    theme: Theme,
    area: Rect,
    title: Seq<char>,
    items: Seq<Seq<SpanForm>>,
) -> WidgetForm {
    WidgetForm::List {
        area,
        heading: title_form(theme, title),
        border: theme.border,
        ground: theme.panel,
        items,
    }
}

fn list_widget(theme: Theme, area: Rect, title: &str, items: Vec<TextLine>) -> (r: Widget)
    ensures
        r@ == list_form(theme, area, title@, line_forms(items@)),
{
    Widget::List {
        area,
        heading: bold(title.to_owned(), theme.text),
        border: theme.border,
        ground: theme.panel,
        items,
    }
}

// ---------------------------------------------------------------- figures

/// The unit that a number of bytes is shown in: its place among B, KB, MB, GB and TB.
pub open spec fn unit_of(bytes: u64) -> int {
    if bytes < 0x400 {
        0
    } else if bytes < 0x10_0000 {
        1
    } else if bytes < 0x4000_0000 {
        2
    } else if bytes < 0x100_0000_0000 {
        3
    } else {
        4
    }
}

/// The unit that a number of bytes is shown in.
pub fn byte_unit(bytes: u64) -> (r: usize)
    ensures
        r == unit_of(bytes),
{
    if bytes < 0x400 {
        0
    } else if bytes < 0x10_0000 {
        1
    } else if bytes < 0x4000_0000 {
        2
    } else if bytes < 0x100_0000_0000 {
        3
    } else {
        4
    }
}

/// The name of a unit of bytes.
pub open spec fn unit_name(unit: int) -> Seq<char> {
    if unit == 0 {
        "B"@
    } else if unit == 1 {
        "KB"@
    } else if unit == 2 {
        "MB"@
    } else if unit == 3 {
        "GB"@
    } else {
        "TB"@
    }
}

/// Tenths as a number with one decimal.
pub open spec fn tenths_text(tenths: nat) -> Seq<char> {
    text::decimal(tenths / 10) + "."@ + text::decimal(tenths % 10)
}

fn format_tenths(tenths: u128) -> (r: String)
    requires
        tenths <= 10 * 0x8000_0000_0000_0000,
    ensures
        r@ == tenths_text(tenths as nat),
{
    let mut r = text::number_text((tenths / 10) as u64);
    r.append(".");
    r.append(text::number_text((tenths % 10) as u64).as_str());
    r
}

/// A number of bytes as text: in its unit, with one decimal where the unit is not the byte.
pub open spec fn bytes_text(bytes: u64) -> Seq<char> {
    (if unit_of(bytes) == 0 {
        text::decimal(bytes as nat)
    } else {
        tenths_text(double::scaled_tenths(bytes as nat, unit_of(bytes) as nat))
    }) + " "@ + unit_name(unit_of(bytes))
}

/// A number of bytes as text.
pub fn format_bytes(bytes: u64) -> (r: String)
    ensures
        r@ == bytes_text(bytes),
{
    let unit: usize = byte_unit(bytes);
    let mut r = if unit == 0 {
        text::number_text(bytes)
    } else {
        format_tenths(double::scaled_tenths_of(bytes, unit as u32))
    };
    r.append(" ");
    let name = if unit == 0 {
        "B"
    } else if unit == 1 {
        "KB"
    } else if unit == 2 {
        "MB"
    } else if unit == 3 {
        "GB"
    } else {
        "TB"
    };
    r.append(name);
    r
}

/// What is done of a file and its size as text; no more is shown than the size.
pub open spec fn done_text(bytes: u64, size: u64) -> Seq<char> {
    bytes_text(if bytes < size {
        bytes
    } else {
        size
    }) + " / "@ + bytes_text(size)
}

fn format_done(bytes: u64, size: u64) -> (r: String)
    ensures
        r@ == done_text(bytes, size),
{
    let done: u64 = if bytes < size {
        bytes
    } else {
        size
    };
    let mut r = format_bytes(done);
    r.append(" / ");
    r.append(format_bytes(size).as_str());
    r
}

/// The rate at which a file comes in as text: millions of bits per second.
pub open spec fn rate_text(rate: RateSample) -> Seq<char> {
    tenths_text(double::rate_tenths(rate.bytes as nat, rate.nanos as nat)) + " Mbps"@
}

fn format_rate(rate: RateSample) -> (r: String)
    requires
        rate.bytes > 0,
    ensures
        r@ == rate_text(rate),
{
    let mut r = format_tenths(double::rate_tenths_of(rate.bytes, rate.nanos));
    r.append(" Mbps");
    r
}

/// A character many times over.
pub open spec fn repeated(c: char, n: int) -> Seq<char> {
    Seq::new(n as nat, |i: int| c)
}

fn push_repeated(r: &mut String, c: char, n: usize)
    ensures
        final(r)@ == old(r)@ + repeated(c, n as int),
{
    let ghost start = r@;
    let mut i: usize = 0;
    assert(r@ =~= start + repeated(c, 0));
    while i < n
        invariant
            i <= n,
            r@ == start + repeated(c, i as int),
        decreases n - i,
    {
        r.push(c);
        assert(r@ =~= start + repeated(c, i + 1));
        i += 1;
    }
}

/// How many cells of a bar are full.
pub open spec fn full_cells(bytes: u64, size: u64, width: nat) -> nat {
    let full = double::share(bytes as nat, size as nat, width);
    if size == 0 {
        0
    } else if full < width {
        full
    } else {
        width
    }
}

/// A progress bar.
pub open spec fn bar(bytes: u64, size: u64, width: nat) -> Seq<char> {
    let full = full_cells(bytes, size, width);
    "["@ + repeated('█', full as int) + repeated('░', width - full) + "]"@
}

/// The percentage next to a bar.
pub open spec fn shown_percent(bytes: u64, size: u64) -> nat {
    if size == 0 {
        0
    } else {
        double::share(bytes as nat, size as nat, 100)
    }
}

/// A progress bar and the percentage next to it; a file without bytes shows none.
pub fn progress_bar(bytes: u64, size: u64, width: usize) -> (r: (String, u64))
    ensures
        r.0@ == bar(bytes, size, width as nat),
        r.1 == shown_percent(bytes, size),
        r.1 <= 100,
{
    let mut full: usize = 0;
    let mut percent: u64 = 0;
    if size > 0 {
        let cells: u128 = double::share_of(bytes, size, width as u64);
        full = if cells < width as u128 {
            cells as usize
        } else {
            width
        };
        proof {
            double::law_the_whole_is_shared(bytes as nat, size as nat, 100);
        }
        percent = double::share_of(bytes, size, 100) as u64;
    }
    let mut text = "[".to_owned();
    push_repeated(&mut text, '█', full);
    push_repeated(&mut text, '░', width - full);
    text.append("]");
    (text, percent)
}

/// A progress bar is as wide as it should be, whatever is done.
pub proof fn law_bar_width(bytes: u64, size: u64, width: nat)
    ensures
        bar(bytes, size, width).len() == width + 2,
{
    reveal_strlit("[");
    reveal_strlit("]");
}

/// A file without bytes shows no progress; one that is done shows a full bar and 100 percent;
/// none shows more.
pub proof fn law_progress_ends_at_the_full_bar(bytes: u64, size: u64, width: nat)
    requires
        width < double::WHOLE,
    ensures
        full_cells(bytes, size, width) <= width,
        shown_percent(bytes, size) <= 100,
        size == 0 ==> full_cells(bytes, size, width) == 0 && shown_percent(bytes, size) == 0,
        size > 0 && bytes >= size ==> full_cells(bytes, size, width) == width && shown_percent(
            bytes,
            size,
        ) == 100,
{
    if size > 0 {
        double::law_the_whole_is_shared(bytes as nat, size as nat, width);
        double::law_the_whole_is_shared(bytes as nat, size as nat, 100);
    }
}

/// Neither the bar nor the percentage falls as bytes come.
pub proof fn law_progress_never_falls(bytes: u64, more: u64, size: u64, width: nat)
    requires
        bytes <= more,
    ensures
        full_cells(bytes, size, width) <= full_cells(more, size, width),
        shown_percent(bytes, size) <= shown_percent(more, size),
{
    if size > 0 {
        double::law_shares_never_fall(bytes as nat, more as nat, size as nat, width);
        double::law_shares_never_fall(bytes as nat, more as nat, size as nat, 100);
    }
}

/// The last characters of a text.
pub open spec fn tail(s: Seq<char>, n: int) -> Seq<char> {
    s.skip(s.len() - n)
}

/// A text cut to `max` characters: its end, with dots in front where there is room for them.
pub open spec fn cut(s: Seq<char>, max: int) -> Seq<char> {
    if s.len() <= max {
        s
    } else if max <= 3 {
        tail(s, max)
    } else {
        "..."@ + tail(s, max - 3)
    }
}

/// A text cut to `max` characters: its end, with dots in front where there is room for them.
pub fn truncate_keep_end(s: &str, max: usize) -> (r: String)
    ensures
        r@ == cut(s@, max as int),
{
    let v = text::chars_of(s);
    let size: usize = v.len();
    if size <= max {
        return s.to_owned();
    }
    if max <= 3 {
        let r = text::string_of(&v, size - max, size);
        assert(r@ =~= tail(s@, max as int));
        return r;
    }
    let end = text::string_of(&v, size - (max - 3), size);
    assert(end@ =~= tail(s@, max - 3));
    text::joined("...", end.as_str())
}

/// A cut text fits, and one that fits is not cut.
pub proof fn law_cut_fits(s: Seq<char>, max: int)
    requires
        0 <= max,
    ensures
        cut(s, max).len() <= max,
        s.len() <= max ==> cut(s, max) == s,
        s.len() > max ==> cut(s, max).len() == max,
{
    reveal_strlit("...");
}

// ---------------------------------------------------------------- files to be sent

/// The colour of a status.
pub open spec fn outgoing_color(theme: Theme, status: OutgoingStatus) -> Rgb {
    match status {
        OutgoingStatus::Pending => theme.info,
        OutgoingStatus::Sending => theme.warn,
        OutgoingStatus::Sent => theme.ok,
        OutgoingStatus::Canceled => theme.danger,
    }
}

/// The colour of a status.
pub fn outgoing_status_color(theme: Theme, status: OutgoingStatus) -> (r: Rgb)
    ensures
        r == outgoing_color(theme, status),
{
    match status {
        OutgoingStatus::Pending => theme.info,
        OutgoingStatus::Sending => theme.warn,
        OutgoingStatus::Sent => theme.ok,
        OutgoingStatus::Canceled => theme.danger,
    }
}

/// The line of a file to be sent.
pub open spec fn outgoing_line(theme: Theme, e: OutgoingForm) -> Seq<SpanForm> {
    let color = outgoing_color(theme, e.status);
    let status = SpanForm { text: e.status.word() + " "@, style: style::bold_inked(color) };
    let name = SpanForm { text: e.path.text, style: style::inked(theme.text) };
    match e.size {
        Some(size) => seq![
            status,
            SpanForm {
                text: bar(e.sent_bytes, size, state::PROGRESS_BAR_WIDTH as nat),
                style: style::inked(color),
            },
            SpanForm {
                text: " "@ + done_text(e.sent_bytes, size) + " ("@ + text::decimal(
                    shown_percent(e.sent_bytes, size),
                ) + "%) "@,
                style: style::inked(theme.muted),
            },
            name,
        ],
        None => seq![status, name],
    }
}

/// The line of a file to be sent.
pub fn render_outgoing_item(theme: Theme, entry: &OutgoingEntry) -> (r: TextLine)
    ensures
        r@ == outgoing_line(theme, entry@),
{
    let color = outgoing_status_color(theme, entry.status);
    let mut spans: Vec<StyledSpan> = Vec::new();
    spans.push(bold(text::joined(entry.status.label(), " "), color));
    if let Some(size) = entry.size {
        let (bar_text, percent) = progress_bar(
            entry.sent_bytes,
            size,
            state::PROGRESS_BAR_WIDTH,
        );
        spans.push(inked(bar_text, color));
        let mut info = " ".to_owned();
        info.append(format_done(entry.sent_bytes, size).as_str());
        info.append(" (");
        info.append(text::number_text(percent).as_str());
        info.append("%) ");
        spans.push(inked(info, theme.muted));
    }
    spans.push(inked(entry.path.text.as_str().to_owned(), theme.text));
    let r = TextLine { spans };
    assert(r@ =~= outgoing_line(theme, entry@));
    r
}

// ---------------------------------------------------------------- files coming in

/// The colour of a status.
pub open spec fn incoming_color(theme: Theme, status: IncomingStatus) -> Rgb {
    match status {
        IncomingStatus::Receiving => theme.warn,
        IncomingStatus::Done => theme.ok,
        IncomingStatus::Canceled => theme.danger,
    }
}

/// The colour of a status.
pub fn incoming_status_color(theme: Theme, status: IncomingStatus) -> (r: Rgb)
    ensures
        r == incoming_color(theme, status),
{
    match status {
        IncomingStatus::Receiving => theme.warn,
        IncomingStatus::Done => theme.ok,
        IncomingStatus::Canceled => theme.danger,
    }
}

/// The sign of a status.
pub open spec fn incoming_icon(status: IncomingStatus) -> Seq<char> {
    match status {
        IncomingStatus::Receiving => "↓"@,
        IncomingStatus::Done => "✓"@,
        IncomingStatus::Canceled => "×"@,
    }
}

/// What stands at the right end of the first line of a file coming in: its size and, while it
/// comes in, its rate, as far as there is something to show.
pub open spec fn incoming_meta(e: IncomingForm) -> Seq<char> {
    let has_rate = e.status is Receiving && e.rate.bytes > 0;
    if e.size > 0 && has_rate {
        bytes_text(e.size) + " · "@ + rate_text(e.rate)
    } else if e.size > 0 {
        bytes_text(e.size)
    } else if has_rate {
        rate_text(e.rate)
    } else {
        Seq::empty()
    }
}

/// What is left of a width.
pub open spec fn left_over(width: int, taken: int) -> int {
    if width > taken {
        width - taken
    } else {
        0
    }
}

/// What the first line of a file coming in holds besides its name: the bars, the sign, the
/// status, what stands at the right end, and the spaces between them.
pub open spec fn reserved(e: IncomingForm) -> int {
    let meta = incoming_meta(e);
    (4 + e.status.word().len() + 1 + 2 + (if meta.len() == 0 {
        0
    } else {
        1 + meta.len()
    })) as int
}

/// The room for the name of a file coming in.
pub open spec fn name_room(e: IncomingForm, width: int) -> int {
    left_over(width, reserved(e))
}

/// The left end of the first line of a file coming in: its bar, sign and status.
pub open spec fn info_left(theme: Theme, e: IncomingForm) -> Seq<SpanForm> {
    let color = incoming_color(theme, e.status);
    let blank = SpanForm { text: " "@, style: style::plain() };
    seq![
        SpanForm { text: "│"@, style: style::bold_inked(color) },
        blank,
        SpanForm { text: incoming_icon(e.status), style: style::bold_inked(color) },
        blank,
        SpanForm { text: e.status.word(), style: style::bold_inked(color) },
        blank,
    ]
}

/// The middle of the first line of a file coming in: its name, with blanks up to a width.
pub open spec fn info_name(theme: Theme, e: IncomingForm, room: int) -> Seq<SpanForm> {
    let name = cut(path::title_of(e.path), room);
    seq![
        SpanForm { text: name, style: style::bold_inked(theme.text) },
        SpanForm { text: repeated(' ', room - name.len()), style: style::plain() },
    ]
}

/// The right end of the first line of a file coming in: its size and rate, and a bar.
pub open spec fn info_right(theme: Theme, meta: Seq<char>) -> Seq<SpanForm> {
    let blank = SpanForm { text: " "@, style: style::plain() };
    (if meta.len() == 0 {
        Seq::empty()
    } else {
        seq![blank, SpanForm { text: meta, style: style::bold_inked(theme.muted) }]
    }) + seq![blank, SpanForm { text: "│"@, style: style::inked(theme.border) }]
}

/// The first line of a file coming in.
#[verifier::opaque]
pub open spec fn incoming_info(theme: Theme, e: IncomingForm, list: Rect) -> Seq<SpanForm> {
    let width = geometry::inner(list).width as int;
    if width == 0 {
        Seq::empty()
    } else {
        info_left(theme, e) + info_name(theme, e, name_room(e, width)) + info_right(
            theme,
            incoming_meta(e),
        )
    }
}

fn minus(a: usize, b: usize) -> (r: usize)
    ensures
        r == left_over(a as int, b as int),
{
    if a > b {
        a - b
    } else {
        0
    }
}

fn incoming_meta_text(entry: &IncomingEntry) -> (r: String)
    ensures
        r@ == incoming_meta(entry@),
{
    let has_rate = entry.status == IncomingStatus::Receiving && entry.rate.bytes > 0;
    if entry.size > 0 {
        let mut r = format_bytes(entry.size);
        if has_rate {
            r.append(" · ");
            r.append(format_rate(entry.rate).as_str());
        }
        r
    } else if has_rate {
        format_rate(entry.rate)
    } else {
        let r = String::new();
        assert(r@ =~= Seq::<char>::empty());
        r
    }
}

/// The first line of a file coming in.
pub fn render_incoming_info_line(
    theme: Theme,
    entry: &IncomingEntry,
    list_area: Rect,
) -> (r: TextLine)
    ensures
        r@ == incoming_info(theme, entry@, list_area),
{
    proof {
        reveal(incoming_info);
    }
    let color = incoming_status_color(theme, entry.status);
    let available: usize = geometry::inner_block_area(list_area).width as usize;
    let mut spans: Vec<StyledSpan> = Vec::new();
    if available == 0 {
        let r = TextLine { spans };
        assert(r@ =~= Seq::<SpanForm>::empty());
        return r;
    }
    let status_label = entry.status.label();
    let icon = match entry.status {
        IncomingStatus::Receiving => "↓",
        IncomingStatus::Done => "✓",
        IncomingStatus::Canceled => "×",
    };
    let meta = incoming_meta_text(entry);
    let meta_len: usize = meta.as_str().unicode_len();
    let mut room: usize = minus(available, 7);
    room = minus(room, status_label.unicode_len());
    if meta_len > 0 {
        room = minus(room, 1);
        room = minus(room, meta_len);
    }
    assert(room == name_room(entry@, available as int));
    let name = truncate_keep_end(entry.path.title().as_str(), room);
    proof {
        law_cut_fits(path::title_of(entry@.path), room as int);
    }
    let name_len: usize = name.as_str().unicode_len();
    let mut filler = String::new();
    push_repeated(&mut filler, ' ', room - name_len);
    assert(filler@ =~= repeated(' ', room - name_len));
    spans.push(bold("│".to_owned(), color));
    spans.push(raw(" "));
    spans.push(bold(icon.to_owned(), color));
    spans.push(raw(" "));
    spans.push(bold(status_label.to_owned(), color));
    spans.push(raw(" "));
    spans.push(bold(name, theme.text));
    spans.push(span(filler, style::style_of(None, None, false, false)));
    if meta_len > 0 {
        spans.push(raw(" "));
        spans.push(bold(meta, theme.muted));
    }
    spans.push(raw(" "));
    spans.push(inked("│".to_owned(), theme.border));
    let r = TextLine { spans };
    assert(r@ =~= incoming_info(theme, entry@, list_area));
    r
}

/// The cells that spans take in a row, one for each character.
pub open spec fn line_width(spans: Seq<SpanForm>) -> int
    decreases spans.len(),
{
    if spans.len() == 0 {
        0
    } else {
        line_width(spans.drop_last()) + spans.last().text.len()
    }
}

proof fn lemma_line_width(a: Seq<SpanForm>, b: Seq<SpanForm>)
    ensures
        line_width(a + b) == line_width(a) + line_width(b),
    decreases b.len(),
{
    if b.len() == 0 {
        assert(a + b =~= a);
    } else {
        assert((a + b).drop_last() =~= a + b.drop_last());
        lemma_line_width(a, b.drop_last());
    }
}

proof fn lemma_left_width(theme: Theme, e: IncomingForm)
    ensures
        line_width(info_left(theme, e)) == 5 + e.status.word().len(),
{
    reveal_strlit("│");
    reveal_strlit(" ");
    reveal_strlit("↓");
    reveal_strlit("✓");
    reveal_strlit("×");
    let line = info_left(theme, e);
    let first = seq![line[0], line[1], line[2]];
    let second = seq![line[3], line[4], line[5]];
    reveal_with_fuel(line_width, 4);
    assert(line =~= first + second);
    lemma_line_width(first, second);
}

proof fn lemma_name_width(theme: Theme, e: IncomingForm, room: int)
    requires
        0 <= room,
    ensures
        line_width(info_name(theme, e, room)) == room,
{
    law_cut_fits(path::title_of(e.path), room);
    reveal_with_fuel(line_width, 3);
}

proof fn lemma_right_width(theme: Theme, meta: Seq<char>)
    ensures
        line_width(info_right(theme, meta)) == 2 + (if meta.len() == 0 {
            0
        } else {
            1 + meta.len()
        }),
{
    reveal_strlit("│");
    reveal_strlit(" ");
    reveal_with_fuel(line_width, 3);
    let blank = SpanForm { text: " "@, style: style::plain() };
    let end = seq![blank, SpanForm { text: "│"@, style: style::inked(theme.border) }];
    let shown = if meta.len() == 0 {
        Seq::empty()
    } else {
        seq![blank, SpanForm { text: meta, style: style::bold_inked(theme.muted) }]
    };
    lemma_line_width(shown, end);
}

/// The first line of a file coming in fills its row, whatever the file is called, wherever the
/// row has room for the rest of the line.
pub proof fn law_info_line_fills_row(theme: Theme, e: IncomingForm, list: Rect)
    requires
        reserved(e) <= geometry::inner(list).width,
    ensures
        line_width(incoming_info(theme, e, list)) == geometry::inner(list).width,
{
    reveal(incoming_info);
    let room = name_room(e, geometry::inner(list).width as int);
    let (left, name, right) = (
        info_left(theme, e),
        info_name(theme, e, room),
        info_right(theme, incoming_meta(e)),
    );
    lemma_left_width(theme, e);
    lemma_name_width(theme, e, room);
    lemma_right_width(theme, incoming_meta(e));
    lemma_line_width(left, name);
    lemma_line_width(left + name, right);
}

/// Whether the buttons of a received file are shown.
pub open spec fn actions_shown(e: IncomingForm, present: bool, list: Rect, row: int) -> bool {
    &&& e.status is Done
    &&& present
    &&& geometry::open_button(list, row).width > 0
    &&& geometry::folder_button(list, row).width > 0
}

/// The bytes and the percentage of a file coming in.
pub open spec fn incoming_numbers(e: IncomingForm) -> Seq<char> {
    " "@ + done_text(e.received_bytes, e.size) + " ("@ + text::decimal(
        shown_percent(e.received_bytes, e.size),
    ) + "%)"@
}

/// The second line of a file coming in: its progress, and the buttons at the right end.
#[verifier::opaque]
pub open spec fn incoming_actions(
    theme: Theme,
    e: IncomingForm,
    present: bool,
    list: Rect,
    row: int,
    hover: Option<(u16, u16)>,
) -> Seq<SpanForm> {
    let width = geometry::inner(list).width as int;
    let color = incoming_color(theme, e.status);
    let shown = actions_shown(e, present, list, row);
    let progress = bar(e.received_bytes, e.size, state::PROGRESS_BAR_WIDTH as nat);
    let numbers = incoming_numbers(e);
    let blank = SpanForm { text: " "@, style: style::plain() };
    seq![
        SpanForm { text: "  "@, style: style::inked(theme.muted) },
        SpanForm { text: progress, style: style::inked(color) },
        SpanForm { text: numbers, style: style::inked(theme.muted) },
        SpanForm {
            text: repeated(
                ' ',
                left_over(
                    width,
                    "  "@.len() + progress.len() + numbers.len() + (if shown {
                        1 + geometry::OPEN_WIDTH + 1 + geometry::FOLDER_WIDTH
                    } else {
                        0
                    }),
                ),
            ),
            style: style::plain(),
        },
    ] + (if shown {
        seq![
            blank,
            SpanForm {
                text: " Abrir "@,
                style: style::bold_on(
                    theme.bg,
                    if geometry::pointed(hover, geometry::open_button(list, row)) {
                        theme.accent
                    } else {
                        theme.ok
                    },
                ),
            },
            blank,
            SpanForm {
                text: " Pasta "@,
                style: style::bold_on(
                    theme.bg,
                    if geometry::pointed(hover, geometry::folder_button(list, row)) {
                        theme.accent
                    } else {
                        theme.info
                    },
                ),
            },
        ]
    } else {
        Seq::empty()
    })
}

/// The buttons of a received file are drawn where a click hits them, wherever the row has room
/// for the whole line.
pub proof fn law_buttons_are_where_they_are_drawn(
    theme: Theme,
    e: IncomingForm,
    present: bool,
    list: Rect,
    row: int,
    hover: Option<(u16, u16)>,
)
    requires
        actions_shown(e, present, list, row),
        0 <= row,
        36 + incoming_numbers(e).len() <= geometry::inner(list).width,
    ensures
        ({
            let line = incoming_actions(theme, e, present, list, row, hover);
            let left = geometry::inner(list).x;
            let open = geometry::open_button(list, row);
            let folder = geometry::folder_button(list, row);
            &&& line.len() == 8
            &&& line[5].text == " Abrir "@
            &&& left + line_width(line.take(5)) == open.x
            &&& line[5].text.len() == open.width
            &&& line[7].text == " Pasta "@
            &&& left + line_width(line.take(7)) == folder.x
            &&& line[7].text.len() == folder.width
        }),
{
    reveal_strlit(" ");
    reveal_strlit("  ");
    reveal_strlit(" Abrir ");
    reveal_strlit(" Pasta ");
    reveal(incoming_actions);
    reveal_with_fuel(line_width, 9);
    law_bar_width(e.received_bytes, e.size, state::PROGRESS_BAR_WIDTH as nat);
    let line = incoming_actions(theme, e, present, list, row, hover);
    assert(line.len() == 8);
    let five = line.take(5);
    assert(five =~= seq![line[0], line[1], line[2], line[3], line[4]]);
    assert(line.take(7) =~= five + seq![line[5], line[6]]);
    lemma_line_width(five, seq![line[5], line[6]]);
    assert(line_width(seq![line[5], line[6]]) == 8);
    assert(line_width(five) == geometry::inner(list).width - 15);
}

/// The second line of a file coming in.
pub fn render_incoming_action_line(
    theme: Theme,
    entry: &IncomingEntry,
    list_area: Rect,
    row: usize,
    hover: Option<(u16, u16)>,
    present: bool,
) -> (r: TextLine)
    ensures
        r@ == incoming_actions(theme, entry@, present, list_area, row as int, hover),
{
    proof {
        reveal(incoming_actions);
    }
    let color = incoming_status_color(theme, entry.status);
    let available: usize = geometry::inner_block_area(list_area).width as usize;
    let open_rect = geometry::received_open_button_rect(list_area, row);
    let folder_rect = geometry::received_folder_button_rect(list_area, row);
    let shown = entry.status == IncomingStatus::Done && present && open_rect.width > 0
        && folder_rect.width > 0;
    let (bar_text, percent) = progress_bar(
        entry.received_bytes,
        entry.size,
        state::PROGRESS_BAR_WIDTH,
    );
    let mut info = " ".to_owned();
    info.append(format_done(entry.received_bytes, entry.size).as_str());
    info.append(" (");
    info.append(text::number_text(percent).as_str());
    info.append("%)");
    let mut room: usize = minus(available, "  ".unicode_len());
    room = minus(room, bar_text.as_str().unicode_len());
    room = minus(room, info.as_str().unicode_len());
    if shown {
        room = minus(room, 16);
    }
    let mut filler = String::new();
    push_repeated(&mut filler, ' ', room);
    assert(filler@ =~= repeated(' ', room as int));
    let mut spans: Vec<StyledSpan> = Vec::new();
    spans.push(inked("  ".to_owned(), theme.muted));
    spans.push(inked(bar_text, color));
    spans.push(inked(info, theme.muted));
    spans.push(span(filler, style::style_of(None, None, false, false)));
    if shown {
        let open_bg = if geometry::is_pointed(hover, open_rect) {
            theme.accent
        } else {
            theme.ok
        };
        let folder_bg = if geometry::is_pointed(hover, folder_rect) {
            theme.accent
        } else {
            theme.info
        };
        spans.push(raw(" "));
        spans.push(
            span(
                " Abrir ".to_owned(),
                style::style_of(Some(theme.bg), Some(open_bg), true, false),
            ),
        );
        spans.push(raw(" "));
        spans.push(
            span(
                " Pasta ".to_owned(),
                style::style_of(Some(theme.bg), Some(folder_bg), true, false),
            ),
        );
    }
    let r = TextLine { spans };
    assert(r@ =~= incoming_actions(theme, entry@, present, list_area, row as int, hover));
    r
}

/// How many files coming in have room in a list, two lines each.
pub fn max_received_entries_for_area(list_area: Rect) -> (r: usize)
    ensures
        r == geometry::inner(list_area).height / 2,
{
    (geometry::inner_block_area(list_area).height / 2) as usize
}

/// How many files coming in are shown: as many as there is room for, at most twenty.
pub open spec fn shown_count(count: nat, list: Rect) -> int {
    let room = geometry::inner(list).height as int / 2;
    let limit = if room < 20 {
        room
    } else {
        20
    };
    if count < limit {
        count as int
    } else {
        limit
    }
}

/// The lines of the files coming in, the newest first.
pub open spec fn incoming_lines(
    theme: Theme,
    list: Seq<IncomingForm>,
    present: Seq<bool>,
    area: Rect,
    hover: Option<(u16, u16)>,
    n: int,
) -> Seq<Seq<SpanForm>>
    decreases n,
{
    if n <= 0 {
        Seq::empty()
    } else {
        let i = list.len() - n;
        incoming_lines(theme, list, present, area, hover, n - 1).push(
            incoming_info(theme, list[i], area),
        ).push(
            incoming_actions(theme, list[i], present[i], area, (n - 1) * 2 + 1, hover),
        )
    }
}

/// The buttons of the received files that are shown, the newest first: of each that is there,
/// the one that opens it and the one that shows it in its folder.
pub open spec fn received_targets(
    list: Seq<IncomingForm>,
    present: Seq<bool>,
    area: Rect,
    n: int,
) -> Seq<TargetForm>
    decreases n,
{
    if n <= 0 {
        Seq::empty()
    } else {
        let i = list.len() - n;
        let before = received_targets(list, present, area, n - 1);
        let row = (n - 1) * 2 + 1;
        if list[i].status is Done && present[i] && geometry::buttons_fit(area, row) {
            before.push(
                TargetForm {
                    area: geometry::open_button(area, row),
                    path: list[i].path,
                    action: ReceivedClickAction::Open,
                },
            ).push(
                TargetForm {
                    area: geometry::folder_button(area, row),
                    path: list[i].path,
                    action: ReceivedClickAction::RevealInFolder,
                },
            )
        } else {
            before
        }
    }
}

fn shown_entries(count: usize, list_area: Rect) -> (r: usize)
    ensures
        r == shown_count(count as nat, list_area),
        r <= count,
        r <= 20,
{
    let room: usize = max_received_entries_for_area(list_area);
    let limit: usize = if room < 20 {
        room
    } else {
        20
    };
    if count < limit {
        count
    } else {
        limit
    }
}

fn render_incoming(
    theme: Theme,
    list: &Vec<IncomingEntry>,
    present: &Vec<bool>,
    area: Rect,
    hover: Option<(u16, u16)>,
) -> (r: Vec<TextLine>)
    requires
        present@.len() == list@.len(),
    ensures
        line_forms(r@) == incoming_lines(
            theme,
            screen::incoming_forms(list@),
            present@,
            area,
            hover,
            shown_count(list@.len(), area),
        ),
{
    let count: usize = shown_entries(list.len(), area);
    let ghost all = screen::incoming_forms(list@);
    let mut r: Vec<TextLine> = Vec::new();
    let mut n: usize = 0;
    assert(line_forms(r@) =~= Seq::<Seq<SpanForm>>::empty());
    while n < count
        invariant
            n <= count <= list@.len(),
            count <= 20,
            present@.len() == list@.len(),
            all == screen::incoming_forms(list@),
            line_forms(r@) == incoming_lines(theme, all, present@, area, hover, n as int),
        decreases count - n,
    {
        let i: usize = list.len() - 1 - n;
        assert(all[i as int] == list@[i as int]@);
        let ghost before = r@;
        let info = render_incoming_info_line(theme, &list[i], area);
        let actions = render_incoming_action_line(
            theme,
            &list[i],
            area,
            n * 2 + 1,
            hover,
            present[i],
        );
        r.push(info);
        r.push(actions);
        assert(line_forms(r@) =~= line_forms(before).push(info@).push(actions@));
        n += 1;
    }
    r
}

fn push_targets(r: &mut Vec<ReceivedClickTarget>, path: &FilePath, open: Rect, folder: Rect)
    ensures
        components::target_forms(final(r)@) == components::target_forms(old(r)@).push(
            TargetForm { area: open, path: path@, action: ReceivedClickAction::Open },
        ).push(
            TargetForm { area: folder, path: path@, action: ReceivedClickAction::RevealInFolder },
        ),
{
    let ghost before = r@;
    r.push(
        ReceivedClickTarget {
            area: open,
            path: path.copied(),
            action: ReceivedClickAction::Open,
        },
    );
    r.push(
        ReceivedClickTarget {
            area: folder,
            path: path.copied(),
            action: ReceivedClickAction::RevealInFolder,
        },
    );
    assert(components::target_forms(r@) =~= components::target_forms(before).push(
        r@[before.len() as int]@,
    ).push(r@[before.len() as int + 1]@));
}

/// The buttons of the received files that are shown.
pub fn build_received_click_targets(
    list: &Vec<IncomingEntry>,
    present: &Vec<bool>,
    area: Rect,
) -> (r: Vec<ReceivedClickTarget>)
    requires
        present@.len() == list@.len(),
    ensures
        components::target_forms(r@) == received_targets(
            screen::incoming_forms(list@),
            present@,
            area,
            shown_count(list@.len(), area),
        ),
{
    let count: usize = shown_entries(list.len(), area);
    let ghost all = screen::incoming_forms(list@);
    let mut r: Vec<ReceivedClickTarget> = Vec::new();
    let mut n: usize = 0;
    assert(components::target_forms(r@) =~= Seq::<TargetForm>::empty());
    while n < count
        invariant
            n <= count <= list@.len(),
            count <= 20,
            present@.len() == list@.len(),
            all == screen::incoming_forms(list@),
            components::target_forms(r@) == received_targets(all, present@, area, n as int),
        decreases count - n,
    {
        let i: usize = list.len() - 1 - n;
        assert(all[i as int] == list@[i as int]@);
        let row: usize = n * 2 + 1;
        let open_rect = geometry::received_open_button_rect(area, row);
        let folder_rect = geometry::received_folder_button_rect(area, row);
        if list[i].status == IncomingStatus::Done && present[i] && open_rect.width > 0 {
            push_targets(&mut r, &list[i].path, open_rect, folder_rect);
        }
        n += 1;
    }
    r
}

// ---------------------------------------------------------------- connection

/// Where the parts of the connection panel stand.
#[derive(Clone, Copy, Debug)]
pub struct PanelAreas {
    pub ipv4: Rect,
    pub ipv6: Rect,
    pub mouse: Rect,
    pub input: Rect,
    pub paste: Rect,
    pub connect: Rect,
    pub local: Rect,
    pub copy: Rect,
    pub public: Rect,
    pub copy_public: Rect,
    pub status: Rect,
}

/// The colour of a status.
pub open spec fn connect_color(theme: Theme, status: ConnectStatus) -> Rgb {
    match status {
        ConnectStatus::Idle => theme.info,
        ConnectStatus::Connecting(_) => theme.warn,
        ConnectStatus::Connected(_) => theme.ok,
        ConnectStatus::Timeout(_) => theme.warn,
    }
}

/// The colour of a status.
pub fn status_color(theme: Theme, status: &ConnectStatus) -> (r: Rgb)
    ensures
        r == connect_color(theme, *status),
{
    match status {
        ConnectStatus::Idle => theme.info,
        ConnectStatus::Connecting(_) => theme.warn,
        ConnectStatus::Connected(_) => theme.ok,
        ConnectStatus::Timeout(_) => theme.warn,
    }
}

/// The label of the button that toggles the mouse.
pub open spec fn mouse_label(captured: bool) -> Seq<char> {
    if captured {
        "Copy[M]"@
    } else {
        "Static[M]"@
    }
}

/// The label of the button that connects.
pub open spec fn connect_label(status: ConnectStatus) -> Seq<char> {
    match status {
        ConnectStatus::Connecting(_) => "Conectando"@,
        ConnectStatus::Connected(_) => "Reconectar"@,
        ConnectStatus::Timeout(_) => "Tentar"@,
        ConnectStatus::Idle => "Conectar"@,
    }
}

/// The text in the peer input: an example where it is empty.
pub open spec fn input_text(s: ScreenForm) -> Seq<char> {
    if s.peer_input.len() > 0 {
        s.peer_input
    } else if s.mode is Ipv4 {
        "ex: 192.0.2.10:12345"@
    } else {
        "ex: [2001:db8::1]:12345"@
    }
}

/// The style of the peer input.
pub open spec fn input_style(theme: Theme, s: ScreenForm) -> TextStyle {
    if s.peer_focus {
        style::bold_on(theme.text, Rgb { r: 30, g: 35, b: 45 })
    } else if s.peer_input.len() == 0 {
        style::inked(theme.muted)
    } else {
        style::inked(theme.text)
    }
}

/// The own address as shown.
pub open spec fn local_ip_text(s: ScreenForm) -> Seq<char> {
    match s.local_ip.for_mode(s.mode) {
        Some(ip) => ip.text_spec(),
        None => "nao encontrado"@,
    }
}

/// The public endpoint as shown: itself, else what is known of its discovery.
pub open spec fn public_text(s: ScreenForm) -> Seq<char> {
    match state::endpoint_for(s.public_endpoint, s.mode) {
        Some(addr) => addr.text_spec(),
        None => match s.stun_status {
            Some(status) => status,
            None => "aguardando STUN"@,
        },
    }
}

/// A word in front, and a value.
pub open spec fn labelled(theme: Theme, label: Seq<char>, value: Seq<char>) -> Seq<SpanForm> {
    seq![
        SpanForm { text: label, style: style::inked(theme.muted) },
        SpanForm { text: value, style: style::bold_inked(theme.text) },
    ]
}

/// The peer as shown.
pub open spec fn peer_text(s: ScreenForm) -> Seq<char> {
    match s.peer_addr {
        Some(addr) => addr.text_spec(),
        None => "none"@,
    }
}

/// The status line: own address, peer, and the status on a ground of its colour.
pub open spec fn status_line(theme: Theme, s: ScreenForm) -> Seq<SpanForm> {
    seq![
        SpanForm { text: "local "@, style: style::inked(theme.muted) },
        SpanForm { text: s.bind_addr.text_spec(), style: style::inked(theme.text) },
        SpanForm { text: "   "@, style: style::inked(theme.muted) },
        SpanForm { text: "parceiro "@, style: style::inked(theme.muted) },
        SpanForm { text: peer_text(s), style: style::inked(theme.text) },
        SpanForm { text: "   "@, style: style::inked(theme.muted) },
        SpanForm {
            text: " "@ + s.connect_status.words() + " "@,
            style: style::bold_on(theme.bg, connect_color(theme, s.connect_status)),
        },
    ]
}

/// The peer input: a box whose border shows the focus.
pub open spec fn input_form(theme: Theme, s: ScreenForm, area: Rect) -> WidgetForm {
    WidgetForm::Panel {
        area,
        title: Some(title_form(theme, "ip do parceiro"@)),
        border: if s.peer_focus {
            theme.accent
        } else {
            theme.border
        },
        ground: theme.panel,
        style: input_style(theme, s),
        centered: false,
        line: seq![SpanForm { text: input_text(s), style: style::plain() }],
    }
}

/// The widgets of the connection panel.
pub open spec fn panel_widgets(theme: Theme, s: ScreenForm, a: PanelAreas) -> Seq<WidgetForm> {
    let hover = s.last_mouse;
    seq![
        button_form(
            theme,
            a.ipv4,
            "IPv4"@,
            style::mode_button(
                theme,
                s.mode is Ipv4,
                geometry::pointed(hover, a.ipv4),
                s.local_ip.v4 is Some,
            ),
        ),
        button_form(
            theme,
            a.ipv6,
            "IPv6"@,
            style::mode_button(
                theme,
                s.mode is Ipv6,
                geometry::pointed(hover, a.ipv6),
                s.local_ip.v6 is Some,
            ),
        ),
        button_form(
            theme,
            a.mouse,
            mouse_label(s.mouse_capture_enabled),
            style::mode_button(
                theme,
                !s.mouse_capture_enabled,
                geometry::pointed(hover, a.mouse),
                true,
            ),
        ),
        input_form(theme, s, a.input),
        button_form(
            theme,
            a.paste,
            "Colar"@,
            style::button(theme, theme.info, geometry::pointed(hover, a.paste), true),
        ),
        button_form(
            theme,
            a.connect,
            connect_label(s.connect_status),
            style::primary_button(theme, geometry::pointed(hover, a.connect)),
        ),
        titled(theme, a.local, "local"@, labelled(theme, "meu ip: "@, local_ip_text(s))),
        button_form(
            theme,
            a.copy,
            "Copiar"@,
            style::button(
                theme,
                theme.accent,
                geometry::pointed(hover, a.copy),
                s.local_ip.for_mode(s.mode) is Some,
            ),
        ),
        titled(theme, a.public, "publico"@, labelled(theme, "publico: "@, public_text(s))),
        button_form(
            theme,
            a.copy_public,
            "Copiar pub"@,
            style::button(
                theme,
                theme.info,
                geometry::pointed(hover, a.copy_public),
                state::endpoint_for(s.public_endpoint, s.mode) is Some,
            ),
        ),
        titled(theme, a.status, "status"@, status_line(theme, s)),
    ]
}

/// The buttons of the connection panel, in the order in which a click looks for them.
pub open spec fn panel_buttons(s: ScreenForm, a: PanelAreas) -> Seq<ButtonForm> {
    seq![
        ButtonForm { label: "IPv4"@, area: a.ipv4, action: ButtonAction::SelectIpv4 },
        ButtonForm { label: "IPv6"@, area: a.ipv6, action: ButtonAction::SelectIpv6 },
        ButtonForm {
            label: mouse_label(s.mouse_capture_enabled),
            area: a.mouse,
            action: ButtonAction::ToggleMouseMode,
        },
        ButtonForm {
            label: connect_label(s.connect_status),
            area: a.connect,
            action: ButtonAction::ConnectPeer,
        },
        ButtonForm { label: "Colar"@, area: a.paste, action: ButtonAction::PastePeerIp },
        ButtonForm { label: "Copiar"@, area: a.copy, action: ButtonAction::CopyLocalIp },
        ButtonForm {
            label: "Copiar pub"@,
            area: a.copy_public,
            action: ButtonAction::CopyPublicEndpoint,
        },
    ]
}

fn mouse_mode_label(captured: bool) -> (r: &'static str)
    ensures
        r@ == mouse_label(captured),
{
    if captured {
        "Copy[M]"
    } else {
        "Static[M]"
    }
}

fn connect_button_label(status: &ConnectStatus) -> (r: &'static str)
    ensures
        r@ == connect_label(*status),
{
    match status {
        ConnectStatus::Connecting(_) => "Conectando",
        ConnectStatus::Connected(_) => "Reconectar",
        ConnectStatus::Timeout(_) => "Tentar",
        ConnectStatus::Idle => "Conectar",
    }
}

fn labelled_line(theme: Theme, label: &str, value: String) -> (r: TextLine)
    ensures
        r@ == labelled(theme, label@, value@),
{
    line2(inked(label.to_owned(), theme.muted), bold(value, theme.text))
}

fn input_widget(theme: Theme, app: &AppState, area: Rect) -> (r: Widget)
    ensures
        r@ == input_form(theme, app@, area),
{
    let empty = app.peer_input.as_str().is_empty();
    let shown = if !empty {
        app.peer_input.as_str().to_owned()
    } else if app.mode == IpMode::Ipv4 {
        "ex: 192.0.2.10:12345".to_owned()
    } else {
        "ex: [2001:db8::1]:12345".to_owned()
    };
    let style = if app.peer_focus {
        style::style_of(Some(theme.text), Some(Rgb { r: 30, g: 35, b: 45 }), true, false)
    } else if empty {
        style::style_of(Some(theme.muted), None, false, false)
    } else {
        style::style_of(Some(theme.text), None, false, false)
    };
    let border = if app.peer_focus {
        theme.accent
    } else {
        theme.border
    };
    Widget::Panel {
        area,
        title: Some(bold("ip do parceiro".to_owned(), theme.text)),
        border,
        ground: theme.panel,
        style,
        centered: false,
        line: line1(raw(shown.as_str())),
    }
}

fn status_widget(theme: Theme, app: &AppState, area: Rect) -> (r: Widget)
    ensures
        r@ == titled(theme, area, "status"@, status_line(theme, app@)),
{
    let peer = match app.peer_addr {
        Some(addr) => addr.text(),
        None => "none".to_owned(),
    };
    let mut chip = " ".to_owned();
    chip.append(app.connect_status.label().as_str());
    chip.append(" ");
    let color = status_color(theme, &app.connect_status);
    let mut spans: Vec<StyledSpan> = Vec::new();
    spans.push(inked("local ".to_owned(), theme.muted));
    spans.push(inked(app.bind_addr.text(), theme.text));
    spans.push(inked("   ".to_owned(), theme.muted));
    spans.push(inked("parceiro ".to_owned(), theme.muted));
    spans.push(inked(peer, theme.text));
    spans.push(inked("   ".to_owned(), theme.muted));
    spans.push(span(chip, style::style_of(Some(theme.bg), Some(color), true, false)));
    let line = TextLine { spans };
    assert(line@ =~= status_line(theme, app@));
    titled_panel(theme, area, "status", line)
}

fn mode_widgets(theme: Theme, app: &AppState, a: &PanelAreas, out: &mut Vec<Widget>)
    ensures
        widget_forms(final(out)@) == widget_forms(old(out)@) + panel_widgets(theme, app@, *a).take(
            3,
        ),
{
    let hover = app.last_mouse;
    let ghost before = out@;
    out.push(
        button_widget(
            theme,
            a.ipv4,
            "IPv4",
            style::mode_button_style(
                theme,
                app.mode == IpMode::Ipv4,
                geometry::is_pointed(hover, a.ipv4),
                app.mode_supported(IpMode::Ipv4),
            ),
        ),
    );
    out.push(
        button_widget(
            theme,
            a.ipv6,
            "IPv6",
            style::mode_button_style(
                theme,
                app.mode == IpMode::Ipv6,
                geometry::is_pointed(hover, a.ipv6),
                app.mode_supported(IpMode::Ipv6),
            ),
        ),
    );
    out.push(
        button_widget(
            theme,
            a.mouse,
            mouse_mode_label(app.mouse_capture_enabled),
            style::mode_button_style(
                theme,
                !app.mouse_capture_enabled,
                geometry::is_pointed(hover, a.mouse),
                true,
            ),
        ),
    );
    assert(widget_forms(out@) =~= widget_forms(before) + panel_widgets(theme, app@, *a).take(3));
}

fn peer_widgets(theme: Theme, app: &AppState, a: &PanelAreas, out: &mut Vec<Widget>)
    ensures
        widget_forms(final(out)@) == widget_forms(old(out)@) + panel_widgets(
            theme,
            app@,
            *a,
        ).subrange(3, 6),
{
    let hover = app.last_mouse;
    let ghost before = out@;
    out.push(input_widget(theme, app, a.input));
    out.push(
        button_widget(
            theme,
            a.paste,
            "Colar",
            style::button_style(theme, theme.info, geometry::is_pointed(hover, a.paste), true),
        ),
    );
    out.push(
        button_widget(
            theme,
            a.connect,
            connect_button_label(&app.connect_status),
            style::primary_button_style(theme, geometry::is_pointed(hover, a.connect)),
        ),
    );
    assert(widget_forms(out@) =~= widget_forms(before) + panel_widgets(theme, app@, *a).subrange(
        3,
        6,
    ));
}

fn own_widgets(theme: Theme, app: &AppState, a: &PanelAreas, out: &mut Vec<Widget>)
    ensures
        widget_forms(final(out)@) == widget_forms(old(out)@) + panel_widgets(
            theme,
            app@,
            *a,
        ).subrange(6, 11),
{
    let hover = app.last_mouse;
    let ghost before = out@;
    let local = match app.current_local_ip() {
        Some(ip) => ip.text(),
        None => "nao encontrado".to_owned(),
    };
    let public = match app.current_public_endpoint() {
        Some(addr) => addr.text(),
        None => match &app.stun_status {
            Some(status) => status.as_str().to_owned(),
            None => "aguardando STUN".to_owned(),
        },
    };
    out.push(titled_panel(theme, a.local, "local", labelled_line(theme, "meu ip: ", local)));
    out.push(
        button_widget(
            theme,
            a.copy,
            "Copiar",
            style::button_style(
                theme,
                theme.accent,
                geometry::is_pointed(hover, a.copy),
                app.current_local_ip().is_some(),
            ),
        ),
    );
    out.push(titled_panel(theme, a.public, "publico", labelled_line(theme, "publico: ", public)));
    out.push(
        button_widget(
            theme,
            a.copy_public,
            "Copiar pub",
            style::button_style(
                theme,
                theme.info,
                geometry::is_pointed(hover, a.copy_public),
                app.current_public_endpoint().is_some(),
            ),
        ),
    );
    out.push(status_widget(theme, app, a.status));
    assert(widget_forms(out@) =~= widget_forms(before) + panel_widgets(theme, app@, *a).subrange(
        6,
        11,
    ));
}

fn button(label: &str, area: Rect, action: ButtonAction) -> (r: Button)
    ensures
        r@ == (ButtonForm { label: label@, area, action }),
{
    Button { label: label.to_owned(), area, action }
}

fn connection_buttons(app: &AppState, a: &PanelAreas) -> (r: Vec<Button>)
    ensures
        components::button_forms(r@) == panel_buttons(app@, *a),
{
    let mut r: Vec<Button> = Vec::new();
    r.push(button("IPv4", a.ipv4, ButtonAction::SelectIpv4));
    r.push(button("IPv6", a.ipv6, ButtonAction::SelectIpv6));
    r.push(
        button(
            mouse_mode_label(app.mouse_capture_enabled),
            a.mouse,
            ButtonAction::ToggleMouseMode,
        ),
    );
    r.push(
        button(connect_button_label(&app.connect_status), a.connect, ButtonAction::ConnectPeer),
    );
    r.push(button("Colar", a.paste, ButtonAction::PastePeerIp));
    r.push(button("Copiar", a.copy, ButtonAction::CopyLocalIp));
    r.push(button("Copiar pub", a.copy_public, ButtonAction::CopyPublicEndpoint));
    assert(components::button_forms(r@) =~= panel_buttons(app@, *a));
    r
}

/// Shows the connection panel: its widgets are added, its buttons given back, and the places of
/// the own address, the public endpoint and the peer input noted.
pub fn render_connection_panel(
    app: &mut AppState,
    a: &PanelAreas,
    theme: Theme,
    out: &mut Vec<Widget>,
) -> (r: Vec<Button>)
    ensures
        final(app)@ == (ScreenForm {
            local_panel_area: a.local,
            public_panel_area: a.public,
            peer_input_area: a.input,
            ..old(app)@
        }),
        widget_forms(final(out)@) == widget_forms(old(out)@) + panel_widgets(theme, old(app)@, *a),
        components::button_forms(r@) == panel_buttons(old(app)@, *a),
{
    let ghost before = widget_forms(out@);
    let ghost all = panel_widgets(theme, app@, *a);
    mode_widgets(theme, app, a, out);
    peer_widgets(theme, app, a, out);
    own_widgets(theme, app, a, out);
    assert(widget_forms(out@) =~= before + all) by {
        assert(all =~= all.take(3) + all.subrange(3, 6) + all.subrange(6, 11));
    }
    let buttons = connection_buttons(app, a);
    app.local_panel_area = a.local;
    app.public_panel_area = a.public;
    app.peer_input_area = a.input;
    buttons
}

// ---------------------------------------------------------------- buttons below

/// Where the buttons below stand.
#[derive(Clone, Copy, Debug)]
pub struct RowAreas {
    pub add: Rect,
    pub send: Rect,
    pub cancel: Rect,
    pub quit: Rect,
}

/// Whether a file waits to be sent.
pub open spec fn any_pending(list: Seq<OutgoingForm>) -> bool {
    exists|i: int| 0 <= i < list.len() && (#[trigger] list[i]).status is Pending
}

fn has_pending(list: &Vec<OutgoingEntry>) -> (r: bool)
    ensures
        r == any_pending(screen::outgoing_forms(list@)),
{
    let ghost all = screen::outgoing_forms(list@);
    let mut i: usize = 0;
    while i < list.len()
        invariant
            i <= list@.len(),
            all == screen::outgoing_forms(list@),
            forall|k: int| 0 <= k < i ==> !((#[trigger] all[k]).status is Pending),
        decreases list@.len() - i,
    {
        assert(all[i as int] == list@[i as int]@);
        if list[i].status == OutgoingStatus::Pending {
            assert(all[i as int].status is Pending);
            return true;
        }
        i += 1;
    }
    false
}

/// The widgets of the buttons below.
pub open spec fn row_widgets(theme: Theme, s: ScreenForm, a: RowAreas) -> Seq<WidgetForm> {
    let hover = s.last_mouse;
    seq![
        button_form(
            theme,
            a.add,
            "Adicionar"@,
            style::button(theme, theme.accent, geometry::pointed(hover, a.add), true),
        ),
        button_form(
            theme,
            a.send,
            "Enviar"@,
            style::button(
                theme,
                theme.ok,
                geometry::pointed(hover, a.send),
                any_pending(s.selected),
            ),
        ),
        button_form(
            theme,
            a.cancel,
            "Cancelar"@,
            style::button(theme, theme.warn, geometry::pointed(hover, a.cancel), true),
        ),
        button_form(
            theme,
            a.quit,
            "Sair"@,
            style::button(theme, theme.danger, geometry::pointed(hover, a.quit), true),
        ),
    ]
}

/// The buttons below.
pub open spec fn row_buttons(a: RowAreas) -> Seq<ButtonForm> {
    seq![
        ButtonForm { label: "Adicionar"@, area: a.add, action: ButtonAction::AddFiles },
        ButtonForm { label: "Enviar"@, area: a.send, action: ButtonAction::SendFiles },
        ButtonForm { label: "Cancelar"@, area: a.cancel, action: ButtonAction::CancelTransfers },
        ButtonForm { label: "Sair"@, area: a.quit, action: ButtonAction::Quit },
    ]
}

/// Shows the buttons below: their widgets are added, the buttons given back.
pub fn render_buttons(app: &AppState, a: &RowAreas, theme: Theme, out: &mut Vec<Widget>) -> (r: Vec<
    Button,
>)
    ensures
        widget_forms(final(out)@) == widget_forms(old(out)@) + row_widgets(theme, app@, *a),
        components::button_forms(r@) == row_buttons(*a),
{
    let hover = app.last_mouse;
    let ghost before = out@;
    out.push(
        button_widget(
            theme,
            a.add,
            "Adicionar",
            style::button_style(theme, theme.accent, geometry::is_pointed(hover, a.add), true),
        ),
    );
    out.push(
        button_widget(
            theme,
            a.send,
            "Enviar",
            style::button_style(
                theme,
                theme.ok,
                geometry::is_pointed(hover, a.send),
                has_pending(&app.selected),
            ),
        ),
    );
    out.push(
        button_widget(
            theme,
            a.cancel,
            "Cancelar",
            style::button_style(theme, theme.warn, geometry::is_pointed(hover, a.cancel), true),
        ),
    );
    out.push(
        button_widget(
            theme,
            a.quit,
            "Sair",
            style::button_style(theme, theme.danger, geometry::is_pointed(hover, a.quit), true),
        ),
    );
    assert(widget_forms(out@) =~= widget_forms(before) + row_widgets(theme, app@, *a));
    let mut r: Vec<Button> = Vec::new();
    r.push(button("Adicionar", a.add, ButtonAction::AddFiles));
    r.push(button("Enviar", a.send, ButtonAction::SendFiles));
    r.push(button("Cancelar", a.cancel, ButtonAction::CancelTransfers));
    r.push(button("Sair", a.quit, ButtonAction::Quit));
    assert(components::button_forms(r@) =~= row_buttons(*a));
    r
}

// ---------------------------------------------------------------- screen

/// Where the parts of the screen stand.
#[derive(Clone, Copy, Debug)]
pub struct ScreenAreas {
    pub whole: Rect,
    pub panel: PanelAreas,
    pub outgoing: Rect,
    pub incoming: Rect,
    pub logs: Rect,
    pub row: RowAreas,
}

/// The lines of the files to be sent.
pub open spec fn outgoing_lines(theme: Theme, list: Seq<OutgoingForm>) -> Seq<Seq<SpanForm>> {
    list.map_values(|e: OutgoingForm| outgoing_line(theme, e))
}

fn render_outgoing(theme: Theme, list: &Vec<OutgoingEntry>) -> (r: Vec<TextLine>)
    ensures
        line_forms(r@) == outgoing_lines(theme, screen::outgoing_forms(list@)),
{
    let ghost all = outgoing_lines(theme, screen::outgoing_forms(list@));
    let mut r: Vec<TextLine> = Vec::new();
    let mut i: usize = 0;
    assert(line_forms(r@) =~= all.take(0));
    while i < list.len()
        invariant
            i <= list@.len(),
            all == outgoing_lines(theme, screen::outgoing_forms(list@)),
            line_forms(r@) == all.take(i as int),
        decreases list@.len() - i,
    {
        let ghost before = r@;
        let line = render_outgoing_item(theme, &list[i]);
        r.push(line);
        assert(line_forms(r@) =~= line_forms(before).push(line@));
        assert(all.take(i + 1) =~= all.take(i as int).push(all[i as int]));
        i += 1;
    }
    assert(all.take(i as int) =~= all);
    r
}

/// The screen with the log's place and height noted.
pub open spec fn logs_placed(s: ScreenForm, area: Rect) -> ScreenForm {
    screen::settled(
        ScreenForm {
            logs_area: area,
            logs_view_height: left_over(area.height as int, 2),
            ..s
        },
        false,
    )
}

/// The lines of the log that are shown: from where it is scrolled to, as many as have room.
pub open spec fn log_lines(theme: Theme, s: ScreenForm) -> Seq<Seq<SpanForm>> {
    let end = if s.logs_scroll + s.logs_view_height < s.logs.len() {
        s.logs_scroll + s.logs_view_height
    } else {
        s.logs.len() as int
    };
    Seq::new(
        (end - s.logs_scroll) as nat,
        |i: int|
            seq![
                SpanForm {
                    text: s.logs[s.logs_scroll + i],
                    style: style::inked(style::log_color(theme, s.logs[s.logs_scroll + i])),
                },
            ],
    )
}

fn render_logs(theme: Theme, app: &AppState) -> (r: Vec<TextLine>)
    requires
        screen::wf(app@),
    ensures
        line_forms(r@) == log_lines(theme, app@),
{
    let ghost all = log_lines(theme, app@);
    assert(app@.logs.len() == app.logs@.len());
    let start: usize = app.logs_scroll;
    let end: usize = if app.logs_view_height < app.logs.len() - start {
        start + app.logs_view_height
    } else {
        app.logs.len()
    };
    let mut r: Vec<TextLine> = Vec::new();
    let mut i: usize = start;
    assert(line_forms(r@) =~= all.take(0));
    while i < end
        invariant
            start <= i <= end <= app.logs@.len(),
            start == app@.logs_scroll,
            all == log_lines(theme, app@),
            all.len() == end - start,
            line_forms(r@) == all.take(i - start),
        decreases end - i,
    {
        let ghost before = r@;
        let line = app.logs[i].as_str();
        assert(app@.logs[i as int] == line@);
        let item = line1(span(line.to_owned(), style::log_style(theme, line)));
        r.push(item);
        assert(line_forms(r@) =~= line_forms(before).push(item@));
        assert(item@ =~= all[i - start]);
        assert(all.take(i + 1 - start) =~= all.take(i - start).push(all[i - start]));
        i += 1;
    }
    assert(all.take(end - start) =~= all);
    r
}

/// The screen after it was shown: the places of its parts and the buttons are noted, and the log
/// is scrolled to where there is something to show.
pub open spec fn shown_screen(
    s: ScreenForm,
    a: ScreenAreas,
    present: Seq<bool>,
) -> ScreenForm {
    ScreenForm {
        local_panel_area: a.panel.local,
        public_panel_area: a.panel.public,
        peer_input_area: a.panel.input,
        received_click_targets: received_targets(
            s.received,
            present,
            a.incoming,
            shown_count(s.received.len(), a.incoming),
        ),
        buttons: panel_buttons(s, a.panel) + row_buttons(a.row),
        ..logs_placed(s, a.logs)
    }
}

/// The widgets of the screen.
pub open spec fn screen_widgets(
    theme: Theme,
    s: ScreenForm,
    a: ScreenAreas,
    present: Seq<bool>,
) -> Seq<WidgetForm> {
    seq![WidgetForm::Ground { area: a.whole, color: theme.bg }] + panel_widgets(theme, s, a.panel)
        + seq![
        list_form(
            theme,
            a.outgoing,
            "arquivos (saída)"@,
            outgoing_lines(theme, s.selected),
        ),
        list_form(
            theme,
            a.incoming,
            "recebendo (entrada)"@,
            incoming_lines(
                theme,
                s.received,
                present,
                a.incoming,
                s.last_mouse,
                shown_count(s.received.len(), a.incoming),
            ),
        ),
        list_form(theme, a.logs, "eventos"@, log_lines(theme, logs_placed(s, a.logs))),
    ] + row_widgets(theme, s, a.row)
}

/// Shows the screen in given places; `present` says which of the received files are there.
pub fn draw_screen(
    app: &mut AppState,
    a: &ScreenAreas,
    present: &Vec<bool>,
) -> (r: Vec<Widget>)
    requires
        screen::wf(old(app)@),
        present@.len() == old(app).received@.len(),
    ensures
        final(app)@ == shown_screen(old(app)@, *a, present@),
        screen::wf(final(app)@),
        widget_forms(r@) == screen_widgets(
            style::dark(),
            old(app)@,
            *a,
            present@,
        ),
{
    let theme = Theme::default_dark();
    let ghost s = app@;
    let mut out: Vec<Widget> = Vec::new();
    out.push(Widget::Ground { area: a.whole, color: theme.bg });
    assert(widget_forms(out@) =~= seq![WidgetForm::Ground { area: a.whole, color: theme.bg }]);
    let mut buttons = render_connection_panel(app, &a.panel, theme, &mut out);
    let ghost w2 = widget_forms(out@);
    let outgoing = render_outgoing(theme, &app.selected);
    out.push(list_widget(theme, a.outgoing, "arquivos (saída)", outgoing));
    let incoming = render_incoming(theme, &app.received, present, a.incoming, app.last_mouse);
    out.push(list_widget(theme, a.incoming, "recebendo (entrada)", incoming));
    app.received_click_targets = build_received_click_targets(
        &app.received,
        present,
        a.incoming,
    );
    app.logs_area = a.logs;
    let height: usize = minus(a.logs.height as usize, 2);
    app.set_logs_view_height(height);
    let ghost placed = logs_placed(s, a.logs);
    assert(app@.logs == placed.logs && app@.logs_scroll == placed.logs_scroll
        && app@.logs_view_height == placed.logs_view_height);
    let lines = render_logs(theme, app);
    assert(log_lines(theme, app@) =~= log_lines(theme, placed));
    out.push(list_widget(theme, a.logs, "eventos", lines));
    let ghost three = seq![
        list_form(
            theme,
            a.outgoing,
            "arquivos (saída)"@,
            outgoing_lines(theme, s.selected),
        ),
        list_form(
            theme,
            a.incoming,
            "recebendo (entrada)"@,
            incoming_lines(
                theme,
                s.received,
                present@,
                a.incoming,
                s.last_mouse,
                shown_count(s.received.len(), a.incoming),
            ),
        ),
        list_form(theme, a.logs, "eventos"@, log_lines(theme, placed)),
    ];
    assert(widget_forms(out@) =~= w2 + three);
    let mut below = render_buttons(app, &a.row, theme, &mut out);
    let ghost first = buttons@;
    let ghost second = below@;
    buttons.append(&mut below);
    assert(components::button_forms(buttons@) =~= components::button_forms(first)
        + components::button_forms(second));
    app.buttons = buttons;
    out
}

// ---------------------------------------------------------------- places

/// The rectangles that the connection panel is divided into.
pub struct PanelParts {
    pub rows: Seq<Rect>,
    pub modes: Seq<Rect>,
    pub corner: Seq<Rect>,
    pub top: Seq<Rect>,
    pub own: Seq<Rect>,
    pub public: Seq<Rect>,
}

/// Whether the connection panel may be divided like this: five rows; in the first the families
/// and, in the right corner, the mouse; then the peer input, the own address, the public
/// endpoint, each with its buttons; then the status.
pub open spec fn panel_divided(area: Rect, p: PanelParts) -> bool {
    &&& geometry::divides(
        area,
        Axis::Vertical,
        seq![
            Share::Length(3),
            Share::Length(4),
            Share::Length(3),
            Share::Length(3),
            Share::Length(3),
        ],
        p.rows,
    )
    &&& geometry::divides(
        p.rows[0],
        Axis::Horizontal,
        seq![Share::Length(10), Share::Length(10), Share::Min(0)],
        p.modes,
    )
    &&& geometry::divides(
        p.modes[2],
        Axis::Horizontal,
        seq![Share::Min(0), Share::Length(12)],
        p.corner,
    )
    &&& geometry::divides(
        p.rows[1],
        Axis::Horizontal,
        seq![Share::Min(20), Share::Length(12), Share::Length(14)],
        p.top,
    )
    &&& geometry::divides(
        p.rows[2],
        Axis::Horizontal,
        seq![Share::Min(20), Share::Length(12)],
        p.own,
    )
    &&& geometry::divides(
        p.rows[3],
        Axis::Horizontal,
        seq![Share::Min(20), Share::Length(12)],
        p.public,
    )
}

/// The places of the parts of a divided connection panel.
pub open spec fn panel_places(p: PanelParts) -> PanelAreas {
    PanelAreas {
        ipv4: p.modes[0],
        ipv6: p.modes[1],
        mouse: p.corner[1],
        input: p.top[0],
        paste: p.top[1],
        connect: p.top[2],
        local: p.own[0],
        copy: p.own[1],
        public: p.public[0],
        copy_public: p.public[1],
        status: p.rows[4],
    }
}

/// Whether every part of the connection panel lies within a rectangle.
pub open spec fn panel_within(area: Rect, a: PanelAreas) -> bool {
    &&& area.covers(a.ipv4)
    &&& area.covers(a.ipv6)
    &&& area.covers(a.mouse)
    &&& area.covers(a.input)
    &&& area.covers(a.paste)
    &&& area.covers(a.connect)
    &&& area.covers(a.local)
    &&& area.covers(a.copy)
    &&& area.covers(a.public)
    &&& area.covers(a.copy_public)
    &&& area.covers(a.status)
}

/// The rectangles that the screen is divided into.
pub struct ScreenParts {
    pub bands: Seq<Rect>,
    pub body: Seq<Rect>,
    pub right: Seq<Rect>,
    pub panel: PanelParts,
    pub row: Seq<Rect>,
}

/// Whether the screen may be divided like this: the connection panel, the lists and the buttons
/// below each other; the files to be sent on the left, the files coming in and the log on the
/// right.
pub open spec fn screen_divided(whole: Rect, p: ScreenParts) -> bool {
    let halves = seq![Share::Percentage(52), Share::Percentage(48)];
    &&& geometry::divides(
        whole,
        Axis::Vertical,
        seq![Share::Length(16), Share::Min(6), Share::Length(3)],
        p.bands,
    )
    &&& panel_divided(p.bands[0], p.panel)
    &&& geometry::divides(p.bands[1], Axis::Horizontal, halves, p.body)
    &&& geometry::divides(p.body[1], Axis::Vertical, halves, p.right)
    &&& geometry::divides(
        p.bands[2],
        Axis::Horizontal,
        seq![
            Share::Length(12),
            Share::Length(12),
            Share::Length(12),
            Share::Length(10),
            Share::Min(0),
        ],
        p.row,
    )
}

/// The places of the parts of a divided screen.
pub open spec fn screen_places(whole: Rect, p: ScreenParts) -> ScreenAreas {
    ScreenAreas {
        whole,
        panel: panel_places(p.panel),
        outgoing: p.body[0],
        incoming: p.right[0],
        logs: p.right[1],
        row: RowAreas { add: p.row[0], send: p.row[1], cancel: p.row[2], quit: p.row[3] },
    }
}

/// Whether every part of the screen lies within it.
pub open spec fn screen_within(a: ScreenAreas) -> bool {
    &&& panel_within(a.whole, a.panel)
    &&& a.whole.covers(a.outgoing)
    &&& a.whole.covers(a.incoming)
    &&& a.whole.covers(a.logs)
    &&& a.whole.covers(a.row.add)
    &&& a.whole.covers(a.row.send)
    &&& a.whole.covers(a.row.cancel)
    &&& a.whole.covers(a.row.quit)
}

fn split2(area: Rect, axis: Axis, a: Share, b: Share) -> (r: Vec<Rect>)
    ensures
        geometry::divides(area, axis, seq![a, b], r@),
{
    let mut shares: Vec<Share> = Vec::new();
    shares.push(a);
    shares.push(b);
    assert(shares@ =~= seq![a, b]);
    geometry::split_area(area, axis, &shares)
}

fn split3(area: Rect, axis: Axis, a: Share, b: Share, c: Share) -> (r: Vec<Rect>)
    ensures
        geometry::divides(area, axis, seq![a, b, c], r@),
{
    let mut shares: Vec<Share> = Vec::new();
    shares.push(a);
    shares.push(b);
    shares.push(c);
    assert(shares@ =~= seq![a, b, c]);
    geometry::split_area(area, axis, &shares)
}

fn split5(area: Rect, axis: Axis, a: Share, b: Share, c: Share, d: Share, e: Share) -> (r: Vec<
    Rect,
>)
    ensures
        geometry::divides(area, axis, seq![a, b, c, d, e], r@),
{
    let mut shares: Vec<Share> = Vec::new();
    shares.push(a);
    shares.push(b);
    shares.push(c);
    shares.push(d);
    shares.push(e);
    assert(shares@ =~= seq![a, b, c, d, e]);
    geometry::split_area(area, axis, &shares)
}

/// Finds the places of the parts of the connection panel.
pub fn panel_areas(area: Rect) -> (r: PanelAreas)
    ensures
        panel_within(area, r),
        exists|p: PanelParts| #[trigger] panel_divided(area, p) && r == panel_places(p),
{
    let rows = split5(
        area,
        Axis::Vertical,
        Share::Length(3),
        Share::Length(4),
        Share::Length(3),
        Share::Length(3),
        Share::Length(3),
    );
    let modes = split3(
        rows[0],
        Axis::Horizontal,
        Share::Length(10),
        Share::Length(10),
        Share::Min(0),
    );
    let corner = split2(modes[2], Axis::Horizontal, Share::Min(0), Share::Length(12));
    let top = split3(
        rows[1],
        Axis::Horizontal,
        Share::Min(20),
        Share::Length(12),
        Share::Length(14),
    );
    let own = split2(rows[2], Axis::Horizontal, Share::Min(20), Share::Length(12));
    let public = split2(rows[3], Axis::Horizontal, Share::Min(20), Share::Length(12));
    proof {
        let p = PanelParts {
            rows: rows@,
            modes: modes@,
            corner: corner@,
            top: top@,
            own: own@,
            public: public@,
        };
        assert(panel_divided(area, p));
        assert(area.covers(rows@[0]) && area.covers(rows@[1]) && area.covers(rows@[2])
            && area.covers(rows@[3]) && area.covers(rows@[4]));
        assert(rows@[0].covers(modes@[0]) && rows@[0].covers(modes@[1]) && rows@[0].covers(
            modes@[2],
        ));
        assert(modes@[2].covers(corner@[1]));
    }
    PanelAreas {
        ipv4: modes[0],
        ipv6: modes[1],
        mouse: corner[1],
        input: top[0],
        paste: top[1],
        connect: top[2],
        local: own[0],
        copy: own[1],
        public: public[0],
        copy_public: public[1],
        status: rows[4],
    }
}

/// Finds the places of the parts of the screen.
pub fn screen_areas(whole: Rect) -> (r: ScreenAreas)
    ensures
        r.whole == whole,
        screen_within(r),
        exists|p: ScreenParts| #[trigger] screen_divided(whole, p) && r == screen_places(whole, p),
{
    let bands = split3(
        whole,
        Axis::Vertical,
        Share::Length(16),
        Share::Min(6),
        Share::Length(3),
    );
    let panel = panel_areas(bands[0]);
    let body = split2(
        bands[1],
        Axis::Horizontal,
        Share::Percentage(52),
        Share::Percentage(48),
    );
    let right = split2(body[1], Axis::Vertical, Share::Percentage(52), Share::Percentage(48));
    let row = split5(
        bands[2],
        Axis::Horizontal,
        Share::Length(12),
        Share::Length(12),
        Share::Length(12),
        Share::Length(10),
        Share::Min(0),
    );
    proof {
        let q = choose|q: PanelParts| #[trigger]
            panel_divided(bands@[0], q) && panel == panel_places(q);
        let p = ScreenParts {
            bands: bands@,
            body: body@,
            right: right@,
            panel: q,
            row: row@,
        };
        assert(screen_divided(whole, p));
        assert(whole.covers(bands@[0]) && whole.covers(bands@[1]) && whole.covers(bands@[2]));
        assert(bands@[1].covers(body@[0]) && bands@[1].covers(body@[1]));
    }
    ScreenAreas {
        whole,
        panel,
        outgoing: body[0],
        incoming: right[0],
        logs: right[1],
        row: RowAreas { add: row[0], send: row[1], cancel: row[2], quit: row[3] },
    }
}

/// Whether the parts that hold the buttons come one behind the other wherever the screen is
/// divided.
pub open spec fn buttons_in_turn(p: ScreenParts) -> bool {
    &&& geometry::in_turn(Axis::Vertical, p.bands)
    &&& geometry::in_turn(Axis::Vertical, p.panel.rows)
    &&& geometry::in_turn(Axis::Horizontal, p.panel.modes)
    &&& geometry::in_turn(Axis::Horizontal, p.panel.top)
    &&& geometry::in_turn(Axis::Horizontal, p.row)
}

/// No two buttons of the screen share a cell, wherever the parts come one behind the other.
pub proof fn law_buttons_apart(
    s: ScreenForm,
    whole: Rect,
    p: ScreenParts,
    i: int,
    j: int,
    x: u16,
    y: u16,
)
    requires
        screen_divided(whole, p),
        buttons_in_turn(p),
        0 <= i < j < 11,
    ensures
        ({
            let a = screen_places(whole, p);
            let buttons = panel_buttons(s, a.panel) + row_buttons(a.row);
            &&& buttons.len() == 11
            &&& !(buttons[i].area.has(x, y) && buttons[j].area.has(x, y))
        }),
{
    let a = screen_places(whole, p);
    let panel = panel_buttons(s, a.panel);
    let row = row_buttons(a.row);
    let buttons = panel + row;
    let rows = p.panel.rows;
    let modes = p.panel.modes;
    assert(p.bands[0].y + p.bands[0].height <= p.bands[2].y);
    assert(rows[0].y + rows[0].height <= rows[1].y);
    assert(rows[1].y + rows[1].height <= rows[2].y);
    assert(rows[2].y + rows[2].height <= rows[3].y);
    assert(modes[0].x + modes[0].width <= modes[1].x);
    assert(modes[1].x + modes[1].width <= modes[2].x);
    assert(modes[2].covers(a.panel.mouse));
    assert(p.panel.top[1].x + p.panel.top[1].width <= p.panel.top[2].x);
    if i < 7 {
        assert(buttons[i] == panel[i]);
        assert(p.bands[0].covers(rows[0]) && p.bands[0].covers(rows[1]) && p.bands[0].covers(
            rows[2],
        ) && p.bands[0].covers(rows[3]));
        assert(p.bands[0].covers(panel[i].area));
    } else {
        assert(buttons[i] == row[i - 7]);
        assert(row[i - 7].area == p.row[i - 7]);
    }
    if j < 7 {
        assert(buttons[j] == panel[j]);
    } else {
        assert(buttons[j] == row[j - 7]);
        assert(row[j - 7].area == p.row[j - 7]);
        assert(p.bands[2].covers(p.row[j - 7]));
    }
}

/// Shows the screen in a terminal of this size, in places that it may be divided into; `present`
/// says which of the received files are there.
pub fn draw_ui(
    app: &mut AppState,
    whole: Rect,
    present: &Vec<bool>,
) -> (r: Vec<Widget>)
    requires
        screen::wf(old(app)@),
        present@.len() == old(app).received@.len(),
    ensures
        screen::wf(final(app)@),
        exists|p: ScreenParts| #[trigger]
            screen_divided(whole, p) && screen_within(screen_places(whole, p)) && final(app)@
                == shown_screen(old(app)@, screen_places(whole, p), present@)
                && widget_forms(r@) == screen_widgets(
                style::dark(),
                old(app)@,
                screen_places(whole, p),
                present@,
            ),
{
    let areas = screen_areas(whole);
    draw_screen(app, &areas, present)
}

// ---------------------------------------------------------------- laws

/// Fewer bytes than a kilobyte are told one by one, more of them in the largest of four units that
/// they fill, with a digit behind the point.
pub proof fn law_bytes_are_told_in_their_unit(bytes: u64)
    ensures
        bytes < 1024 ==> bytes_text(bytes) == text::decimal(bytes as nat) + " "@ + "B"@,
        1024 <= bytes < 1048576 ==> bytes_text(bytes) == tenths_text(
            double::scaled_tenths(bytes as nat, 1),
        ) + " "@ + "KB"@,
        1048576 <= bytes < 1073741824 ==> bytes_text(bytes) == tenths_text(
            double::scaled_tenths(bytes as nat, 2),
        ) + " "@ + "MB"@,
        1073741824 <= bytes < 1099511627776 ==> bytes_text(bytes) == tenths_text(
            double::scaled_tenths(bytes as nat, 3),
        ) + " "@ + "GB"@,
        1099511627776 <= bytes ==> bytes_text(bytes) == tenths_text(
            double::scaled_tenths(bytes as nat, 4),
        ) + " "@ + "TB"@,
{
}

/// Tenths are told by the whole and one digit behind a point.
pub proof fn law_tenths_are_told(whole: nat, digit: nat)
    requires
        digit < 10,
    ensures
        tenths_text(10 * whole + digit) == text::decimal(whole) + "."@ + text::decimal(digit),
{
}

/// What is done is told beside the size, and never as more than it.
pub proof fn law_done_is_told_beside_the_size(bytes: u64, size: u64)
    ensures
        bytes <= size ==> done_text(bytes, size) == bytes_text(bytes) + " / "@ + bytes_text(size),
        bytes > size ==> done_text(bytes, size) == bytes_text(size) + " / "@ + bytes_text(size),
{
}

/// A rate is told in megabits each second.
pub proof fn law_rates_are_told(bytes: u64, nanos: u64)
    ensures
        rate_text(RateSample { bytes, nanos }) == tenths_text(
            double::rate_tenths(bytes as nat, nanos as nat),
        ) + " Mbps"@,
{
}

/// The bar stands in brackets, its full cells before its empty ones.
pub proof fn law_bar_is_filled_from_the_left(bytes: u64, size: u64, width: nat, i: int)
    requires
        0 <= i < width,
    ensures
        ({
            let full = full_cells(bytes, size, width);
            let b = bar(bytes, size, width);
            &&& b.len() == width + 2
            &&& b[0] == '[' && b[width + 1int] == ']'
            &&& i < full ==> b[i + 1] == '█'
            &&& i >= full ==> b[i + 1] == '░'
        }),
{
    reveal_strlit("[");
    reveal_strlit("]");
}

/// The full cells are the share of the width, and the percentage that of a hundred; of nothing both
/// are none.
pub proof fn law_progress_is_the_share(bytes: u64, size: u64, width: nat)
    requires
        width < 0x20_0000_0000_0000,
    ensures
        size > 0 ==> full_cells(bytes, size, width) == double::share(
            bytes as nat,
            size as nat,
            width,
        ),
        size > 0 ==> shown_percent(bytes, size) == double::share(bytes as nat, size as nat, 100),
        size == 0 ==> full_cells(bytes, size, width) == 0 && shown_percent(bytes, size) == 0,
{
    if size > 0 {
        double::law_the_whole_is_shared(bytes as nat, size as nat, width);
    }
}

/// A text that is too long keeps its end, behind three dots where there is room for more than these.
pub proof fn law_long_texts_keep_their_end(s: Seq<char>, max: int)
    requires
        0 <= max < s.len(),
    ensures
        max <= 3 ==> cut(s, max) == s.subrange(s.len() - max, s.len() as int),
        max > 3 ==> cut(s, max) == "..."@ + s.subrange(s.len() - max + 3, s.len() as int),
{
    assert(tail(s, max) =~= s.subrange(s.len() - max, s.len() as int));
    if max > 3 {
        assert(tail(s, max - 3) =~= s.subrange(s.len() - max + 3, s.len() as int));
    }
}

/// Each state of a file has its colour, and one of its own that comes in has a sign.
pub proof fn law_states_have_their_colour(theme: Theme)
    ensures
        outgoing_color(theme, OutgoingStatus::Pending) == theme.info,
        outgoing_color(theme, OutgoingStatus::Sending) == theme.warn,
        outgoing_color(theme, OutgoingStatus::Sent) == theme.ok,
        outgoing_color(theme, OutgoingStatus::Canceled) == theme.danger,
        incoming_color(theme, IncomingStatus::Receiving) == theme.warn,
        incoming_color(theme, IncomingStatus::Done) == theme.ok,
        incoming_color(theme, IncomingStatus::Canceled) == theme.danger,
        incoming_icon(IncomingStatus::Receiving) == "↓"@,
        incoming_icon(IncomingStatus::Done) == "✓"@,
        incoming_icon(IncomingStatus::Canceled) == "×"@,
{
}

/// A file to be sent is shown by its state and path, and between them, once its size is known, by a
/// bar of sixteen cells, what is done of it, and the percentage.
pub proof fn law_outgoing_files_are_shown(theme: Theme, e: OutgoingForm)
    ensures
        ({
            let line = outgoing_line(theme, e);
            let color = outgoing_color(theme, e.status);
            &&& line[0].text == e.status.word() + " "@ && line[0].style == style::bold_inked(color)
            &&& line.last().text == e.path.text && line.last().style == style::inked(theme.text)
            &&& e.size is None ==> line.len() == 2
            &&& e.size is Some ==> line.len() == 4
            &&& e.size is Some ==> line[1].text == bar(e.sent_bytes, e.size->0, 16)
                && line[1].style == style::inked(color)
            &&& e.size is Some ==> line[2].text == " "@ + done_text(e.sent_bytes, e.size->0)
                + " ("@ + text::decimal(shown_percent(e.sent_bytes, e.size->0)) + "%) "@
                && line[2].style == style::inked(theme.muted)
        }),
{
}

/// Of a file that comes in its size is told where it has one, and its rate while it comes in and one
/// was measured.
pub proof fn law_size_and_rate_are_told(e: IncomingForm)
    ensures
        ({
            let rated = e.status is Receiving && e.rate.bytes > 0;
            &&& e.size > 0 && rated ==> incoming_meta(e) == bytes_text(e.size) + " · "@ + rate_text(
                e.rate,
            )
            &&& e.size > 0 && !rated ==> incoming_meta(e) == bytes_text(e.size)
            &&& e.size == 0 && rated ==> incoming_meta(e) == rate_text(e.rate)
            &&& e.size == 0 && !rated ==> incoming_meta(e).len() == 0
        }),
{
}

/// A file that comes in is shown by its sign and state at the left, its size and rate at the right,
/// and its name between them, cut to the room that is left and filled up to it.
#[verifier::spinoff_prover]
pub proof fn law_incoming_files_are_shown(theme: Theme, e: IncomingForm, list: Rect)
    ensures
        ({
            let line = incoming_info(theme, e, list);
            let width = geometry::inner(list).width as int;
            let meta = incoming_meta(e);
            let color = incoming_color(theme, e.status);
            let taken = 7 + e.status.word().len() + (if meta.len() == 0 {
                0
            } else {
                1 + meta.len() as int
            });
            let room = if width > taken {
                width - taken
            } else {
                0
            };
            &&& width == 0 ==> line.len() == 0
            &&& width > 0 ==> line[0].text == "│"@ && line[0].style == style::bold_inked(color)
            &&& width > 0 ==> line[1].text == " "@ && line[3].text == " "@ && line[5].text == " "@
            &&& width > 0 ==> line[2].text == incoming_icon(e.status) && line[2].style
                == style::bold_inked(color)
            &&& width > 0 ==> line[4].text == e.status.word() && line[4].style
                == style::bold_inked(color)
            &&& width > 0 ==> line[6].text == cut(path::title_of(e.path), room) && line[6].style
                == style::bold_inked(theme.text)
            &&& width > 0 ==> line[7].text.len() == room - line[6].text.len() && (forall|k: int|
                0 <= k < line[7].text.len() ==> #[trigger] line[7].text[k] == ' ')
            &&& width > 0 && meta.len() == 0 ==> line.len() == 10
            &&& width > 0 && meta.len() > 0 ==> line.len() == 12 && line[8].text == " "@
                && line[9].text == meta && line[9].style == style::bold_inked(theme.muted)
            &&& width > 0 ==> line[line.len() - 2].text == " "@ && line.last().text == "│"@
                && line.last().style == style::inked(theme.border)
        }),
{
    reveal(incoming_info);
    let width = geometry::inner(list).width as int;
    let room = name_room(e, width);
    if width > 0 {
        law_cut_fits(path::title_of(e.path), room);
        let left = info_left(theme, e);
        let name = info_name(theme, e, room);
        let right = info_right(theme, incoming_meta(e));
        let line = incoming_info(theme, e, list);
        assert(left.len() == 6 && name.len() == 2);
        assert(line =~= left + name + right);
        assert(line[6] == name[0] && line[7] == name[1]);
        assert(incoming_meta(e).len() > 0 ==> line[8] == right[0] && line[9] == right[1]);
    }
}

/// The buttons of a file are shown once it has come in, is there, and has room for them.
pub proof fn law_buttons_are_shown_when_done(
    e: IncomingForm,
    present: bool,
    list: Rect,
    row: int,
)
    ensures
        ({
            let l = geometry::inner(list);
            let fit = l.width > 15 && 0 <= row < l.height && l.x + l.width <= 65535 && l.y + row
                <= 65535;
            actions_shown(e, present, list, row) <==> e.status is Done && present && fit
        }),
{
}

/// Below its name a file shows a bar of sixteen cells, what is done of it, and its buttons at the
/// right end, each filled, in the accent where it is pointed at.
#[verifier::spinoff_prover]
pub proof fn law_progress_is_shown_below(
    theme: Theme,
    e: IncomingForm,
    present: bool,
    list: Rect,
    row: int,
    hover: Option<(u16, u16)>,
)
    ensures
        ({
            let line = incoming_actions(theme, e, present, list, row, hover);
            let width = geometry::inner(list).width as int;
            let color = incoming_color(theme, e.status);
            let numbers = " "@ + done_text(e.received_bytes, e.size) + " ("@ + text::decimal(
                shown_percent(e.received_bytes, e.size),
            ) + "%)"@;
            let shown = actions_shown(e, present, list, row);
            let taken = 20 + numbers.len() + (if shown {
                16int
            } else {
                0
            });
            let open = geometry::open_button(list, row);
            let folder = geometry::folder_button(list, row);
            &&& line[0].text == "  "@ && line[0].style == style::inked(theme.muted)
            &&& line[1].text == bar(e.received_bytes, e.size, 16) && line[1].style == style::inked(
                color,
            )
            &&& line[2].text == numbers && line[2].style == style::inked(theme.muted)
            &&& width > taken ==> line[3].text.len() == width - taken
            &&& width <= taken ==> line[3].text.len() == 0
            &&& forall|k: int| 0 <= k < line[3].text.len() ==> #[trigger] line[3].text[k] == ' '
            &&& !shown ==> line.len() == 4
            &&& shown ==> line.len() == 8 && line[4].text == " "@ && line[6].text == " "@
                && line[5].text == " Abrir "@ && line[7].text == " Pasta "@
            &&& shown && geometry::pointed(hover, open) ==> line[5].style == style::bold_on(
                theme.bg,
                theme.accent,
            )
            &&& shown && !geometry::pointed(hover, open) ==> line[5].style == style::bold_on(
                theme.bg,
                theme.ok,
            )
            &&& shown && geometry::pointed(hover, folder) ==> line[7].style == style::bold_on(
                theme.bg,
                theme.accent,
            )
            &&& shown && !geometry::pointed(hover, folder) ==> line[7].style == style::bold_on(
                theme.bg,
                theme.info,
            )
        }),
{
    reveal(incoming_actions);
    reveal_strlit("  ");
    law_bar_width(e.received_bytes, e.size, 16);
}

/// Of the files that come in as many are shown as have two rows each, and twenty at most.
pub proof fn law_files_have_two_rows(count: nat, list: Rect)
    ensures
        ({
            let n = shown_count(count, list);
            let height = geometry::inner(list).height;
            &&& 0 <= n <= count && n <= 20 && 2 * n <= height
            &&& n == count || n == 20 || 2 * n + 2 > height
        }),
{
}

/// The newest file is shown first, its name above its progress; the older ones follow.
pub proof fn law_newest_files_are_shown_first(
    theme: Theme,
    list: Seq<IncomingForm>,
    present: Seq<bool>,
    area: Rect,
    hover: Option<(u16, u16)>,
    n: int,
    j: int,
)
    requires
        0 <= n <= list.len(),
    ensures
        ({
            let lines = incoming_lines(theme, list, present, area, hover, n);
            &&& lines.len() == 2 * n
            &&& 0 <= j < n ==> lines[2 * j] == incoming_info(theme, list[list.len() - 1 - j], area)
            &&& 0 <= j < n ==> lines[2 * j + 1] == incoming_actions(
                theme,
                list[list.len() - 1 - j],
                present[list.len() - 1 - j],
                area,
                2 * j + 1,
                hover,
            )
        }),
    decreases n,
{
    if n > 0 {
        law_newest_files_are_shown_first(theme, list, present, area, hover, n - 1, j);
    }
}

/// A file that has come in and is there can be opened, and shown in its folder, where its buttons
/// stand; no other can.
pub proof fn law_files_can_be_opened_where_shown(
    list: Seq<IncomingForm>,
    present: Seq<bool>,
    area: Rect,
    n: int,
    j: int,
)
    requires
        0 <= n <= list.len(),
    ensures
        received_targets(list, present, area, 0).len() == 0,
        0 <= j < n ==> {
            let e = list[list.len() - 1 - j];
            let row = 2 * j + 1;
            let before = received_targets(list, present, area, j);
            let now = received_targets(list, present, area, j + 1);
            let l = geometry::inner(area);
            let fit = l.width > 15 && row < l.height && l.x + l.width <= 65535 && l.y + row
                <= 65535;
            let can = e.status is Done && present[list.len() - 1 - j] && fit;
            &&& can ==> now == before + seq![
                TargetForm {
                    area: geometry::open_button(area, row),
                    path: e.path,
                    action: ReceivedClickAction::Open,
                },
                TargetForm {
                    area: geometry::folder_button(area, row),
                    path: e.path,
                    action: ReceivedClickAction::RevealInFolder,
                },
            ]
            &&& !can ==> now == before
        },
{
    if 0 <= j < n {
        let e = list[list.len() - 1 - j];
        let row = 2 * j + 1;
        let before = received_targets(list, present, area, j);
        let open = TargetForm {
            area: geometry::open_button(area, row),
            path: e.path,
            action: ReceivedClickAction::Open,
        };
        let folder = TargetForm {
            area: geometry::folder_button(area, row),
            path: e.path,
            action: ReceivedClickAction::RevealInFolder,
        };
        assert(before.push(open).push(folder) =~= before + seq![open, folder]);
    }
}

/// The connection has its colour and the button its label by how it stands; the mouse button tells
/// what it does.
pub proof fn law_connection_is_coloured(theme: Theme, addr: SocketAddr)
    ensures
        connect_color(theme, ConnectStatus::Idle) == theme.info,
        connect_color(theme, ConnectStatus::Connecting(addr)) == theme.warn,
        connect_color(theme, ConnectStatus::Connected(addr)) == theme.ok,
        connect_color(theme, ConnectStatus::Timeout(addr)) == theme.warn,
        connect_label(ConnectStatus::Idle) == "Conectar"@,
        connect_label(ConnectStatus::Connecting(addr)) == "Conectando"@,
        connect_label(ConnectStatus::Connected(addr)) == "Reconectar"@,
        connect_label(ConnectStatus::Timeout(addr)) == "Tentar"@,
        mouse_label(true) == "Copy[M]"@,
        mouse_label(false) == "Static[M]"@,
{
}

/// The input shows what was typed, else an example of the family; it stands out while it has the
/// focus.
pub proof fn law_input_is_shown(theme: Theme, s: ScreenForm)
    ensures
        s.peer_input.len() > 0 ==> input_text(s) == s.peer_input,
        s.peer_input.len() == 0 && s.mode is Ipv4 ==> input_text(s) == "ex: 192.0.2.10:12345"@,
        s.peer_input.len() == 0 && s.mode is Ipv6 ==> input_text(s) == "ex: [2001:db8::1]:12345"@,
        s.peer_focus ==> input_style(theme, s) == style::bold_on(
            theme.text,
            Rgb { r: 30, g: 35, b: 45 },
        ),
        !s.peer_focus && s.peer_input.len() == 0 ==> input_style(theme, s) == style::inked(
            theme.muted,
        ),
        !s.peer_focus && s.peer_input.len() > 0 ==> input_style(theme, s) == style::inked(
            theme.text,
        ),
{
}

/// The own address, the public one and the peer's are shown where they are known, the first two of
/// the family chosen; of the public one else how the search for it stands.
pub proof fn law_addresses_are_shown(s: ScreenForm, addr: SocketAddr)
    ensures
        s.mode is Ipv4 && s.local_ip.v4 is Some ==> local_ip_text(s)
            == s.local_ip.v4->0.text_spec(),
        s.mode is Ipv6 && s.local_ip.v6 is Some ==> local_ip_text(s)
            == s.local_ip.v6->0.text_spec(),
        (s.mode is Ipv4 && s.local_ip.v4 is None) || (s.mode is Ipv6 && s.local_ip.v6 is None)
            ==> local_ip_text(s) == "nao encontrado"@,
        s.public_endpoint == Some(addr) && (addr is V4) == (s.mode is Ipv4) ==> public_text(s)
            == addr.text_spec(),
        (s.public_endpoint is None || s.public_endpoint == Some(addr) && (addr is V4) != (s.mode
            is Ipv4)) && s.stun_status is Some ==> public_text(s) == s.stun_status->0,
        (s.public_endpoint is None || s.public_endpoint == Some(addr) && (addr is V4) != (s.mode
            is Ipv4)) && s.stun_status is None ==> public_text(s) == "aguardando STUN"@,
        s.peer_addr == Some(addr) ==> peer_text(s) == addr.text_spec(),
        s.peer_addr is None ==> peer_text(s) == "none"@,
{
}

/// The line of the status shows the address listened on, the peer, and how the connection stands, in
/// its colour.
pub proof fn law_status_is_shown(theme: Theme, s: ScreenForm)
    ensures
        ({
            let line = status_line(theme, s);
            &&& line.len() == 7
            &&& line[0].text == "local "@ && line[1].text == s.bind_addr.text_spec()
            &&& line[2].text == "   "@ && line[3].text == "parceiro "@ && line[4].text == peer_text(
                s,
            )
            &&& line[5].text == "   "@ && line[6].text == " "@ + s.connect_status.words() + " "@
            &&& line[6].style == style::bold_on(theme.bg, connect_color(theme, s.connect_status))
            &&& line[1].style == style::inked(theme.text) && line[4].style == style::inked(
                theme.text,
            )
            &&& line[0].style == style::inked(theme.muted) && line[2].style == style::inked(
                theme.muted,
            ) && line[3].style == style::inked(theme.muted) && line[5].style == style::inked(
                theme.muted,
            )
        }),
{
}

/// A box has the border and the ground of the theme, and its title in bold; a button has its label in
/// its middle, and no title; the input has the border of the accent while it has the focus.
pub proof fn law_boxes_are_drawn(
    theme: Theme,
    s: ScreenForm,
    area: Rect,
    label: Seq<char>,
    value: Seq<char>,
    look: TextStyle,
    line: Seq<SpanForm>,
    items: Seq<Seq<SpanForm>>,
)
    ensures
        title_form(theme, label) == (SpanForm {
            text: label,
            style: style::bold_inked(theme.text),
        }),
        titled(theme, area, label, line) == (WidgetForm::Panel {
            area,
            title: Some(title_form(theme, label)),
            border: theme.border,
            ground: theme.panel,
            style: style::plain(),
            centered: false,
            line,
        }),
        button_form(theme, area, label, look) == (WidgetForm::Panel {
            area,
            title: None,
            border: theme.border,
            ground: theme.panel,
            style: look,
            centered: true,
            line: seq![SpanForm { text: label, style: style::plain() }],
        }),
        list_form(theme, area, label, items) == (WidgetForm::List {
            area,
            heading: title_form(theme, label),
            border: theme.border,
            ground: theme.panel,
            items,
        }),
        input_form(theme, s, area) == (WidgetForm::Panel {
            area,
            title: Some(title_form(theme, "ip do parceiro"@)),
            border: if s.peer_focus {
                theme.accent
            } else {
                theme.border
            },
            ground: theme.panel,
            style: input_style(theme, s),
            centered: false,
            line: seq![SpanForm { text: input_text(s), style: style::plain() }],
        }),
        labelled(theme, label, value) == seq![
            SpanForm { text: label, style: style::inked(theme.muted) },
            SpanForm { text: value, style: style::bold_inked(theme.text) },
        ],
{
}

/// Each button of the panel stands where it is drawn, under the label that it is drawn with, and does
/// what it says.
pub proof fn law_panel_buttons_are_where_drawn(theme: Theme, s: ScreenForm, a: PanelAreas)
    ensures
        ({
            let b = panel_buttons(s, a);
            let w = panel_widgets(theme, s, a);
            let drawn = |k: int, area: Rect, label: Seq<char>|
                w[k] is Panel && w[k]->Panel_area == area && w[k]->Panel_line.len() == 1
                    && w[k]->Panel_line[0].text == label;
            &&& b.len() == 7 && w.len() == 11
            &&& b[0].action is SelectIpv4 && b[0].label == "IPv4"@ && drawn(
                0,
                b[0].area,
                b[0].label,
            ) && b[0].area == a.ipv4
            &&& b[1].action is SelectIpv6 && b[1].label == "IPv6"@ && drawn(
                1,
                b[1].area,
                b[1].label,
            ) && b[1].area == a.ipv6
            &&& b[2].action is ToggleMouseMode && b[2].label == mouse_label(s.mouse_capture_enabled)
                && drawn(2, b[2].area, b[2].label) && b[2].area == a.mouse
            &&& b[3].action is ConnectPeer && b[3].label == connect_label(s.connect_status)
                && drawn(5, b[3].area, b[3].label) && b[3].area == a.connect
            &&& b[4].action is PastePeerIp && b[4].label == "Colar"@ && drawn(
                4,
                b[4].area,
                b[4].label,
            ) && b[4].area == a.paste
            &&& b[5].action is CopyLocalIp && b[5].label == "Copiar"@ && drawn(
                7,
                b[5].area,
                b[5].label,
            ) && b[5].area == a.copy
            &&& b[6].action is CopyPublicEndpoint && b[6].label == "Copiar pub"@ && drawn(
                9,
                b[6].area,
                b[6].label,
            ) && b[6].area == a.copy_public
        }),
{
}

/// The buttons of the panel show what is chosen, what can be done, and where the mouse is; the boxes
/// beside them show the input, the addresses and the status.
pub proof fn law_panel_shows_the_state(theme: Theme, s: ScreenForm, a: PanelAreas)
    ensures
        ({
            let w = panel_widgets(theme, s, a);
            let at = |r: Rect| geometry::pointed(s.last_mouse, r);
            &&& w[0]->Panel_style == style::mode_button(
                theme,
                s.mode is Ipv4,
                at(a.ipv4),
                s.local_ip.v4 is Some,
            )
            &&& w[1]->Panel_style == style::mode_button(
                theme,
                s.mode is Ipv6,
                at(a.ipv6),
                s.local_ip.v6 is Some,
            )
            &&& w[2]->Panel_style == style::mode_button(
                theme,
                !s.mouse_capture_enabled,
                at(a.mouse),
                true,
            )
            &&& w[3] == input_form(theme, s, a.input)
            &&& w[4]->Panel_style == style::button(theme, theme.info, at(a.paste), true)
            &&& w[5]->Panel_style == style::primary_button(theme, at(a.connect))
            &&& w[6] == titled(
                theme,
                a.local,
                "local"@,
                labelled(theme, "meu ip: "@, local_ip_text(s)),
            )
            &&& w[7]->Panel_style == style::button(
                theme,
                theme.accent,
                at(a.copy),
                (s.mode is Ipv4 && s.local_ip.v4 is Some) || (s.mode is Ipv6 && s.local_ip.v6
                    is Some),
            )
            &&& w[8] == titled(
                theme,
                a.public,
                "publico"@,
                labelled(theme, "publico: "@, public_text(s)),
            )
            &&& w[9]->Panel_style == style::button(
                theme,
                theme.info,
                at(a.copy_public),
                s.public_endpoint is Some && (s.public_endpoint->0 is V4) == (s.mode is Ipv4),
            )
            &&& w[10] == titled(theme, a.status, "status"@, status_line(theme, s))
        }),
{
}

/// The buttons of the row stand where they are drawn and do what they say; files can be sent while one
/// waits.
pub proof fn law_row_buttons_are_where_drawn(theme: Theme, s: ScreenForm, a: RowAreas)
    ensures
        ({
            let b = row_buttons(a);
            let w = row_widgets(theme, s, a);
            let at = |r: Rect| geometry::pointed(s.last_mouse, r);
            &&& b == seq![
                ButtonForm { label: "Adicionar"@, area: a.add, action: ButtonAction::AddFiles },
                ButtonForm { label: "Enviar"@, area: a.send, action: ButtonAction::SendFiles },
                ButtonForm {
                    label: "Cancelar"@,
                    area: a.cancel,
                    action: ButtonAction::CancelTransfers,
                },
                ButtonForm { label: "Sair"@, area: a.quit, action: ButtonAction::Quit },
            ]
            &&& w.len() == 4
            &&& w[0] == button_form(
                theme,
                a.add,
                "Adicionar"@,
                style::button(theme, theme.accent, at(a.add), true),
            )
            &&& w[1] == button_form(
                theme,
                a.send,
                "Enviar"@,
                style::button(theme, theme.ok, at(a.send), any_pending(s.selected)),
            )
            &&& w[2] == button_form(
                theme,
                a.cancel,
                "Cancelar"@,
                style::button(theme, theme.warn, at(a.cancel), true),
            )
            &&& w[3] == button_form(
                theme,
                a.quit,
                "Sair"@,
                style::button(theme, theme.danger, at(a.quit), true),
            )
        }),
{
}

/// A file waits where one of the list does.
pub proof fn law_one_waiting_file_is_enough(list: Seq<OutgoingForm>, i: int)
    ensures
        0 <= i < list.len() && list[i].status is Pending ==> any_pending(list),
        (forall|k: int| 0 <= k < list.len() ==> !((#[trigger] list[k]).status is Pending))
            ==> !any_pending(list),
{
}

/// The log shows as many lines as it has rows within its frame, from the one scrolled to, each in its
/// colour.
pub proof fn law_log_shows_its_lines(theme: Theme, s: ScreenForm, area: Rect, i: int)
    requires
        screen::wf(s),
    ensures
        ({
            let placed = logs_placed(s, area);
            let height = if area.height > 2 {
                area.height - 2
            } else {
                0
            };
            let end = if s.logs.len() > height {
                s.logs.len() - height
            } else {
                0
            };
            let first = if s.logs_scroll < end {
                s.logs_scroll
            } else {
                end
            };
            let lines = log_lines(theme, placed);
            &&& placed == (ScreenForm {
                logs_area: area,
                logs_view_height: height,
                logs_scroll: first,
                ..s
            })
            &&& s.logs.len() >= height ==> lines.len() == height
            &&& s.logs.len() < height ==> lines.len() == s.logs.len()
            &&& 0 <= i < lines.len() ==> lines[i] == seq![
                SpanForm {
                    text: s.logs[first + i],
                    style: style::inked(style::log_color(theme, s.logs[first + i])),
                },
            ]
        }),
{
}

/// Once drawn, the screen knows where its boxes and its buttons are, and nothing else of it changes.
pub proof fn law_drawn_screen_knows_its_places(s: ScreenForm, a: ScreenAreas, present: Seq<bool>)
    ensures
        ({
            let now = shown_screen(s, a, present);
            let placed = logs_placed(s, a.logs);
            &&& now.local_panel_area == a.panel.local
            &&& now.public_panel_area == a.panel.public
            &&& now.peer_input_area == a.panel.input
            &&& now.buttons == panel_buttons(s, a.panel) + row_buttons(a.row)
            &&& now.received_click_targets == received_targets(
                s.received,
                present,
                a.incoming,
                shown_count(s.received.len(), a.incoming),
            )
            &&& now == (ScreenForm {
                local_panel_area: now.local_panel_area,
                public_panel_area: now.public_panel_area,
                peer_input_area: now.peer_input_area,
                received_click_targets: now.received_click_targets,
                buttons: now.buttons,
                logs_area: placed.logs_area,
                logs_view_height: placed.logs_view_height,
                logs_scroll: placed.logs_scroll,
                ..s
            })
        }),
{
}

/// The screen is drawn on its ground: the panel, the files that go out and those that come in, the
/// log, and the row of buttons.
#[verifier::spinoff_prover]
pub proof fn law_screen_is_drawn(
    theme: Theme,
    s: ScreenForm,
    a: ScreenAreas,
    present: Seq<bool>,
    i: int,
)
    ensures
        ({
            let w = screen_widgets(theme, s, a, present);
            &&& w.len() == 19
            &&& w[0] == (WidgetForm::Ground { area: a.whole, color: theme.bg })
            &&& 0 <= i < 11 ==> w[1 + i] == panel_widgets(theme, s, a.panel)[i]
            &&& w[12] == list_form(
                theme,
                a.outgoing,
                "arquivos (saída)"@,
                s.selected.map_values(|e: OutgoingForm| outgoing_line(theme, e)),
            )
            &&& w[13] == list_form(
                theme,
                a.incoming,
                "recebendo (entrada)"@,
                incoming_lines(
                    theme,
                    s.received,
                    present,
                    a.incoming,
                    s.last_mouse,
                    shown_count(s.received.len(), a.incoming),
                ),
            )
            &&& w[14] == list_form(
                theme,
                a.logs,
                "eventos"@,
                log_lines(theme, logs_placed(s, a.logs)),
            )
            &&& 0 <= i < 4 ==> w[15 + i] == row_widgets(theme, s, a.row)[i]
        }),
{
    assert(outgoing_lines(theme, s.selected) =~= s.selected.map_values(
        |e: OutgoingForm| outgoing_line(theme, e),
    ));
}

/// The panel has five rows; the families and the mouse share the first, the input, the pasting and the
/// connecting the second, the addresses with their copying the next two, and the status the last.
pub proof fn law_panel_has_five_rows(area: Rect, p: PanelParts)
    requires
        panel_divided(area, p),
    ensures
        ({
            let a = panel_places(p);
            let len = |n: u16| Share::Length(n);
            &&& geometry::may_split(
                area,
                Axis::Vertical,
                seq![len(3), len(4), len(3), len(3), len(3)],
                p.rows,
            )
            &&& geometry::may_split(
                p.rows[0],
                Axis::Horizontal,
                seq![len(10), len(10), Share::Min(0)],
                p.modes,
            )
            &&& geometry::may_split(
                p.modes[2],
                Axis::Horizontal,
                seq![Share::Min(0), len(12)],
                p.corner,
            )
            &&& geometry::may_split(
                p.rows[1],
                Axis::Horizontal,
                seq![Share::Min(20), len(12), len(14)],
                p.top,
            )
            &&& geometry::may_split(
                p.rows[2],
                Axis::Horizontal,
                seq![Share::Min(20), len(12)],
                p.own,
            )
            &&& geometry::may_split(
                p.rows[3],
                Axis::Horizontal,
                seq![Share::Min(20), len(12)],
                p.public,
            )
            &&& a.ipv4 == p.modes[0] && a.ipv6 == p.modes[1] && a.mouse == p.corner[1]
            &&& a.input == p.top[0] && a.paste == p.top[1] && a.connect == p.top[2]
            &&& a.local == p.own[0] && a.copy == p.own[1]
            &&& a.public == p.public[0] && a.copy_public == p.public[1]
            &&& a.status == p.rows[4]
        }),
{
}

/// The panel is above, the row of buttons below; between them the files that go out stand left, and
/// right of them those that come in above the log.
pub proof fn law_screen_has_three_bands(whole: Rect, p: ScreenParts)
    requires
        screen_divided(whole, p),
    ensures
        ({
            let a = screen_places(whole, p);
            let len = |n: u16| Share::Length(n);
            let halves = seq![Share::Percentage(52), Share::Percentage(48)];
            &&& geometry::may_split(
                whole,
                Axis::Vertical,
                seq![len(16), Share::Min(6), len(3)],
                p.bands,
            )
            &&& panel_divided(p.bands[0], p.panel)
            &&& geometry::may_split(p.bands[1], Axis::Horizontal, halves, p.body)
            &&& geometry::may_split(p.body[1], Axis::Vertical, halves, p.right)
            &&& geometry::may_split(
                p.bands[2],
                Axis::Horizontal,
                seq![len(12), len(12), len(12), len(10), Share::Min(0)],
                p.row,
            )
            &&& a.whole == whole && a.panel == panel_places(p.panel)
            &&& a.outgoing == p.body[0] && a.incoming == p.right[0] && a.logs == p.right[1]
            &&& a.row.add == p.row[0] && a.row.send == p.row[1] && a.row.cancel == p.row[2]
                && a.row.quit == p.row[3]
        }),
{
}

/// What lies within the screen is each of its places, and those of its panel.
pub proof fn law_places_lie_within(area: Rect, p: PanelAreas, a: ScreenAreas)
    requires
        panel_within(area, p),
        screen_within(a),
    ensures
        area.covers(p.ipv4),
        area.covers(p.ipv6),
        area.covers(p.mouse),
        area.covers(p.input),
        area.covers(p.paste),
        area.covers(p.connect),
        area.covers(p.local),
        area.covers(p.copy),
        area.covers(p.public),
        area.covers(p.copy_public),
        area.covers(p.status),
        a.whole.covers(a.panel.ipv4),
        a.whole.covers(a.panel.ipv6),
        a.whole.covers(a.panel.mouse),
        a.whole.covers(a.panel.input),
        a.whole.covers(a.panel.paste),
        a.whole.covers(a.panel.connect),
        a.whole.covers(a.panel.local),
        a.whole.covers(a.panel.copy),
        a.whole.covers(a.panel.public),
        a.whole.covers(a.panel.copy_public),
        a.whole.covers(a.panel.status),
        a.whole.covers(a.outgoing),
        a.whole.covers(a.incoming),
        a.whole.covers(a.logs),
        a.whole.covers(a.row.add),
        a.whole.covers(a.row.send),
        a.whole.covers(a.row.cancel),
        a.whole.covers(a.row.quit),
{
}

} // verus!
