//! Colours and text styles.

use vstd::prelude::*;

use crate::text;

verus! {

/// A colour.
#[derive(Clone, Copy, Debug, PartialEq, Eq, Structural)]
pub struct Rgb {
    pub r: u8,
    pub g: u8,
    pub b: u8,
}

/// How text looks.
#[derive(Clone, Copy, Debug, PartialEq, Eq, Structural)]
pub struct TextStyle {
    pub fg: Option<Rgb>,
    pub bg: Option<Rgb>,
    pub bold: bool,
    pub dim: bool,
}

/// The colours of the screen.
#[derive(Clone, Copy, Debug, PartialEq, Eq, Structural)]
pub struct Theme {
    pub bg: Rgb,
    pub panel: Rgb,
    pub border: Rgb,
    pub text: Rgb,
    pub muted: Rgb,
    pub accent: Rgb,
    pub info: Rgb,
    pub ok: Rgb,
    pub warn: Rgb,
    pub danger: Rgb,
}

/// The dark theme.
pub open spec fn dark() -> Theme {
    Theme {
        bg: Rgb { r: 12, g: 14, b: 18 },
        panel: Rgb { r: 18, g: 21, b: 27 },
        border: Rgb { r: 45, g: 52, b: 65 },
        text: Rgb { r: 230, g: 233, b: 240 },
        muted: Rgb { r: 150, g: 158, b: 172 },
        accent: Rgb { r: 99, g: 179, b: 237 },
        info: Rgb { r: 130, g: 170, b: 255 },
        ok: Rgb { r: 120, g: 210, b: 160 },
        warn: Rgb { r: 240, g: 200, b: 120 },
        danger: Rgb { r: 240, g: 120, b: 120 },
    }
}

impl Theme {
    /// The dark theme.
    pub fn default_dark() -> (r: Theme)
        ensures
            r == dark(),
    {
        Theme {
            bg: Rgb { r: 12, g: 14, b: 18 },
            panel: Rgb { r: 18, g: 21, b: 27 },
            border: Rgb { r: 45, g: 52, b: 65 },
            text: Rgb { r: 230, g: 233, b: 240 },
            muted: Rgb { r: 150, g: 158, b: 172 },
            accent: Rgb { r: 99, g: 179, b: 237 },
            info: Rgb { r: 130, g: 170, b: 255 },
            ok: Rgb { r: 120, g: 210, b: 160 },
            warn: Rgb { r: 240, g: 200, b: 120 },
            danger: Rgb { r: 240, g: 120, b: 120 },
        }
    }
}

/// No colours, no weight.
pub open spec fn plain() -> TextStyle {
    TextStyle { fg: None, bg: None, bold: false, dim: false }
}

/// A colour for the letters.
pub open spec fn inked(fg: Rgb) -> TextStyle {
    TextStyle { fg: Some(fg), bg: None, bold: false, dim: false }
}

/// A colour for bold letters.
pub open spec fn bold_inked(fg: Rgb) -> TextStyle {
    TextStyle { fg: Some(fg), bg: None, bold: true, dim: false }
}

/// Bold letters on a ground.
pub open spec fn bold_on(fg: Rgb, bg: Rgb) -> TextStyle {
    TextStyle { fg: Some(fg), bg: Some(bg), bold: true, dim: false }
}

/// Dim letters on a ground.
pub open spec fn dim_on(fg: Rgb, bg: Rgb) -> TextStyle {
    TextStyle { fg: Some(fg), bg: Some(bg), bold: false, dim: true }
}

/// A style.
pub fn style_of(fg: Option<Rgb>, bg: Option<Rgb>, bold: bool, dim: bool) -> (r: TextStyle)
    ensures
        r == (TextStyle { fg, bg, bold, dim }),
{
    TextStyle { fg, bg, bold, dim }
}

/// The style of a button.
pub open spec fn button(theme: Theme, accent: Rgb, hover: bool, enabled: bool) -> TextStyle {
    if !enabled {
        dim_on(theme.muted, theme.panel)
    } else if hover {
        bold_on(theme.bg, accent)
    } else {
        bold_on(accent, theme.panel)
    }
}

/// The style of a button.
pub fn button_style(theme: Theme, accent: Rgb, hover: bool, enabled: bool) -> (r: TextStyle)
    ensures
        r == button(theme, accent, hover, enabled),
{
    if !enabled {
        style_of(Some(theme.muted), Some(theme.panel), false, true)
    } else if hover {
        style_of(Some(theme.bg), Some(accent), true, false)
    } else {
        style_of(Some(accent), Some(theme.panel), true, false)
    }
}

/// The style of a button that stands for a mode.
pub open spec fn mode_button(theme: Theme, active: bool, hover: bool, enabled: bool) -> TextStyle {
    if active {
        bold_on(theme.bg, if enabled { theme.ok } else { theme.warn })
    } else {
        button(theme, theme.info, hover, enabled)
    }
}

/// The style of a button that stands for a mode.
pub fn mode_button_style(theme: Theme, active: bool, hover: bool, enabled: bool) -> (r: TextStyle)
    ensures
        r == mode_button(theme, active, hover, enabled),
{
    if active {
        if enabled {
            return style_of(Some(theme.bg), Some(theme.ok), true, false);
        }
        return style_of(Some(theme.bg), Some(theme.warn), true, false);
    }
    button_style(theme, theme.info, hover, enabled)
}

/// The ground of the main button at rest.
pub open spec fn primary_ground() -> Rgb {
    Rgb { r: 26, g: 30, b: 38 }
}

/// The style of the main button.
pub open spec fn primary_button(theme: Theme, hover: bool) -> TextStyle {
    if hover {
        bold_on(theme.bg, theme.accent)
    } else {
        bold_on(theme.text, primary_ground())
    }
}

/// The style of the main button.
pub fn primary_button_style(theme: Theme, hover: bool) -> (r: TextStyle)
    ensures
        r == primary_button(theme, hover),
{
    if hover {
        style_of(Some(theme.bg), Some(theme.accent), true, false)
    } else {
        style_of(Some(theme.text), Some(Rgb { r: 26, g: 30, b: 38 }), true, false)
    }
}

/// The colour of a log line, by the words in it without regard to case.
pub open spec fn log_color(theme: Theme, line: Seq<char>) -> Rgb {
    let lower = text::lowered(line);
    if text::occurs(lower, "erro"@) {
        theme.danger
    } else if text::occurs(lower, "cancel"@) {
        theme.warn
    } else if text::occurs(lower, "timeout"@) || text::occurs(lower, "esgotado"@) {
        theme.warn
    } else if text::occurs(lower, "conectado"@) || text::occurs(lower, "enviado"@)
        || text::occurs(lower, "recebido"@) {
        theme.ok
    } else if text::occurs(lower, "conectando"@) {
        theme.warn
    } else {
        theme.text
    }
}

/// The style of a log line.
pub fn log_style(theme: Theme, line: &str) -> (r: TextStyle)
    ensures
        r == inked(log_color(theme, line@)),
{
    let lower = text::to_lower(line);
    let l = lower.as_str();
    let color = if text::contains(l, "erro") {
        theme.danger
    } else if text::contains(l, "cancel") {
        theme.warn
    } else if text::contains(l, "timeout") || text::contains(l, "esgotado") {
        theme.warn
    } else if text::contains(l, "conectado") || text::contains(l, "enviado") || text::contains(
        l,
        "recebido",
    ) {
        theme.ok
    } else if text::contains(l, "conectando") {
        theme.warn
    } else {
        theme.text
    };
    style_of(Some(color), None, false, false)
}

// ---------------------------------------------------------------- laws

/// A button that cannot be pressed is dim; one that is pointed at is filled with its colour, any other
/// is written in it. One that stands for the family chosen is filled, in the colour of a fault where
/// the machine has no address of it.
pub proof fn law_buttons_show_their_state(theme: Theme, accent: Rgb, hover: bool)
    ensures
        button(theme, accent, hover, false) == (TextStyle {
            fg: Some(theme.muted),
            bg: Some(theme.panel),
            bold: false,
            dim: true,
        }),
        button(theme, accent, true, true) == (TextStyle {
            fg: Some(theme.bg),
            bg: Some(accent),
            bold: true,
            dim: false,
        }),
        button(theme, accent, false, true) == (TextStyle {
            fg: Some(accent),
            bg: Some(theme.panel),
            bold: true,
            dim: false,
        }),
        mode_button(theme, true, hover, true) == (TextStyle {
            fg: Some(theme.bg),
            bg: Some(theme.ok),
            bold: true,
            dim: false,
        }),
        mode_button(theme, true, hover, false) == (TextStyle {
            fg: Some(theme.bg),
            bg: Some(theme.warn),
            bold: true,
            dim: false,
        }),
        mode_button(theme, false, hover, false) == button(theme, theme.info, hover, false),
        mode_button(theme, false, hover, true) == button(theme, theme.info, hover, true),
        primary_button(theme, true) == (TextStyle {
            fg: Some(theme.bg),
            bg: Some(theme.accent),
            bold: true,
            dim: false,
        }),
        primary_button(theme, false) == (TextStyle {
            fg: Some(theme.text),
            bg: Some(Rgb { r: 26, g: 30, b: 38 }),
            bold: true,
            dim: false,
        }),
{
}

/// Text is written in its colour, bold where it is to be.
pub proof fn law_text_is_written_in_its_colour(fg: Rgb, bg: Rgb)
    ensures
        plain() == (TextStyle { fg: None, bg: None, bold: false, dim: false }),
        inked(fg) == (TextStyle { fg: Some(fg), bg: None, bold: false, dim: false }),
        bold_inked(fg) == (TextStyle { fg: Some(fg), bg: None, bold: true, dim: false }),
        bold_on(fg, bg) == (TextStyle { fg: Some(fg), bg: Some(bg), bold: true, dim: false }),
        dim_on(fg, bg) == (TextStyle { fg: Some(fg), bg: Some(bg), bold: false, dim: true }),
{
}

/// A line of the log has the colour of what it tells, in capitals or not: an error before all, then a
/// cancellation or a timeout, then a success, then an attempt; any other has that of text.
pub proof fn law_log_lines_have_their_colour(theme: Theme, line: Seq<char>)
    ensures
        ({
            let l = text::lowered(line);
            let error = text::occurs(l, "erro"@);
            let given_up = text::occurs(l, "cancel"@) || text::occurs(l, "timeout"@)
                || text::occurs(l, "esgotado"@);
            let done = text::occurs(l, "conectado"@) || text::occurs(l, "enviado"@)
                || text::occurs(l, "recebido"@);
            let trying = text::occurs(l, "conectando"@);
            &&& error ==> log_color(theme, line) == theme.danger
            &&& !error && given_up ==> log_color(theme, line) == theme.warn
            &&& !error && !given_up && done ==> log_color(theme, line) == theme.ok
            &&& !error && !given_up && !done && trying ==> log_color(theme, line) == theme.warn
            &&& !error && !given_up && !done && !trying ==> log_color(theme, line) == theme.text
        }),
{
}

/// The colours of the dark theme.
pub proof fn law_dark_colours()
    ensures
        dark().bg == (Rgb { r: 12, g: 14, b: 18 }),
        dark().panel == (Rgb { r: 18, g: 21, b: 27 }),
        dark().border == (Rgb { r: 45, g: 52, b: 65 }),
        dark().text == (Rgb { r: 230, g: 233, b: 240 }),
        dark().muted == (Rgb { r: 150, g: 158, b: 172 }),
        dark().accent == (Rgb { r: 99, g: 179, b: 237 }),
        dark().info == (Rgb { r: 130, g: 170, b: 255 }),
        dark().ok == (Rgb { r: 120, g: 210, b: 160 }),
        dark().warn == (Rgb { r: 240, g: 200, b: 120 }),
        dark().danger == (Rgb { r: 240, g: 120, b: 120 }),
{
}

} // verus!
