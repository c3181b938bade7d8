//! Terminal geometry, colors and the decisions around the emulator:
//! the xterm palette, default-color resolution, text-area size reports,
//! cell styles, and which actions the emulator's events call for.

use vstd::prelude::*;

verus! {

/// Lines of scrollback kept by the emulator.
pub const SCROLLBACK_HISTORY_LINES: usize = 10000;

/// The emulator's smallest grid: two columns, one line.
pub const MIN_COLUMNS: usize = 2;

pub const MIN_SCREEN_LINES: usize = 1;

/// Size of the local terminal grid.
#[derive(Clone, Copy, Debug, PartialEq, Eq, Structural)]
pub struct TerminalSize {
    pub columns: usize,
    pub rows: usize,
    pub pixel_width: u32,
    pub pixel_height: u32,
}

impl TerminalSize {
    /// A grid the emulator accepts.
    pub fn is_valid(self) -> (b: bool)
        ensures
            b == (self.columns >= MIN_COLUMNS && self.rows >= MIN_SCREEN_LINES),
    {
        self.columns >= MIN_COLUMNS && self.rows >= MIN_SCREEN_LINES
    }

    pub fn total_lines(&self) -> (r: usize)
        ensures
            r == self.rows,
    {
        self.rows
    }

    pub fn screen_lines(&self) -> (r: usize)
        ensures
            r == self.rows,
    {
        self.rows
    }

    pub fn columns(&self) -> (r: usize)
        ensures
            r == self.columns,
    {
        self.columns
    }
}

/// A 24-bit color.
#[derive(Clone, Copy, Debug, PartialEq, Eq, Structural)]
pub struct RgbColor {
    pub red: u8,
    pub green: u8,
    pub blue: u8,
}

impl RgbColor {
    pub fn new(red: u8, green: u8, blue: u8) -> (r: Self)
        ensures
            r == (RgbColor { red, green, blue }),
    {
        RgbColor { red, green, blue }
    }
}

/// Shorthand for a color in specifications.
pub open spec fn rgb(red: u8, green: u8, blue: u8) -> RgbColor {
    RgbColor { red, green, blue }
}

/// The default colors of a terminal.
#[derive(Clone, Copy, Debug, PartialEq, Eq)]
pub struct TerminalColors {
    pub foreground: RgbColor,
    pub background: RgbColor,
    pub cursor: RgbColor,
    pub ansi: [RgbColor; 16],
}

/// The built-in dark palette's sixteen ANSI colors.
pub open spec fn default_ansi(i: int) -> RgbColor {
    if i == 0 {
        rgb(0x1b, 0x1d, 0x23)
    } else if i == 1 {
        rgb(0xe0, 0x6c, 0x75)
    } else if i == 2 {
        rgb(0x98, 0xc3, 0x79)
    } else if i == 3 {
        rgb(0xe5, 0xc0, 0x7b)
    } else if i == 4 {
        rgb(0x61, 0xaf, 0xef)
    } else if i == 5 {
        rgb(0xc6, 0x78, 0xdd)
    } else if i == 6 {
        rgb(0x56, 0xb6, 0xc2)
    } else if i == 7 {
        rgb(0xab, 0xb2, 0xbf)
    } else if i == 8 {
        rgb(0x5c, 0x63, 0x70)
    } else if i == 9 {
        rgb(0xff, 0x7b, 0x86)
    } else if i == 10 {
        rgb(0xb3, 0xe9, 0x8c)
    } else if i == 11 {
        rgb(0xff, 0xd6, 0x8a)
    } else if i == 12 {
        rgb(0x76, 0xc7, 0xff)
    } else if i == 13 {
        rgb(0xd9, 0x9b, 0xff)
    } else if i == 14 {
        rgb(0x70, 0xe1, 0xed)
    } else {
        rgb(0xf5, 0xf7, 0xfa)
    }
}

impl Default for TerminalColors {
    /// The built-in dark palette.
    fn default() -> (r: Self)
        ensures
            r.foreground == rgb(0xe6, 0xe8, 0xeb),
            r.background == rgb(0x11, 0x13, 0x18),
            r.cursor == rgb(0xe6, 0xe8, 0xeb),
            forall|i: int| 0 <= i < 16 ==> #[trigger] r.ansi@[i] == default_ansi(i),
    {
        let r = TerminalColors {
            foreground: RgbColor::new(0xe6, 0xe8, 0xeb),
            background: RgbColor::new(0x11, 0x13, 0x18),
            cursor: RgbColor::new(0xe6, 0xe8, 0xeb),
            ansi: [
                RgbColor::new(0x1b, 0x1d, 0x23),
                RgbColor::new(0xe0, 0x6c, 0x75),
                RgbColor::new(0x98, 0xc3, 0x79),
                RgbColor::new(0xe5, 0xc0, 0x7b),
                RgbColor::new(0x61, 0xaf, 0xef),
                RgbColor::new(0xc6, 0x78, 0xdd),
                RgbColor::new(0x56, 0xb6, 0xc2),
                RgbColor::new(0xab, 0xb2, 0xbf),
                RgbColor::new(0x5c, 0x63, 0x70),
                RgbColor::new(0xff, 0x7b, 0x86),
                RgbColor::new(0xb3, 0xe9, 0x8c),
                RgbColor::new(0xff, 0xd6, 0x8a),
                RgbColor::new(0x76, 0xc7, 0xff),
                RgbColor::new(0xd9, 0x9b, 0xff),
                RgbColor::new(0x70, 0xe1, 0xed),
                RgbColor::new(0xf5, 0xf7, 0xfa),
            ],
        };
        assert forall|i: int| 0 <= i < 16 implies #[trigger] r.ansi@[i] == default_ansi(i) by {}
        r
    }
}

/// How one cell is drawn.
#[derive(Clone, Copy, Debug, PartialEq, Eq, Structural)]
pub struct CellRenderStyle {
    pub foreground: RgbColor,
    pub background: RgbColor,
    pub bold: bool,
    pub italic: bool,
    pub underline: bool,
    pub strikeout: bool,
    pub hidden: bool,
    pub wide: bool,
    pub wide_spacer: bool,
}

/// The attribute flags of a cell that matter for drawing.
#[derive(Clone, Copy, Debug, Default, PartialEq, Eq, Structural)]
pub struct CellFlags {
    pub bold: bool,
    pub italic: bool,
    pub underline: bool,
    pub double_underline: bool,
    pub undercurl: bool,
    pub strikeout: bool,
    pub hidden: bool,
    pub inverse: bool,
    pub wide_char: bool,
    pub wide_char_spacer: bool,
}

/// The style of a cell from its flags and its resolved colors; inverse
/// video swaps foreground and background.
pub fn cell_style(flags: CellFlags, foreground: RgbColor, background: RgbColor) -> (r: CellRenderStyle)
    ensures
        r.foreground == (if flags.inverse { background } else { foreground }),
        r.background == (if flags.inverse { foreground } else { background }),
        r.bold == flags.bold,
        r.italic == flags.italic,
        r.underline == (flags.underline || flags.double_underline || flags.undercurl),
        r.strikeout == flags.strikeout,
        r.hidden == flags.hidden,
        r.wide == flags.wide_char,
        r.wide_spacer == flags.wide_char_spacer,
{
    let (fg, bg) = if flags.inverse {
        (background, foreground)
    } else {
        (foreground, background)
    };
    CellRenderStyle {
        foreground: fg,
        background: bg,
        bold: flags.bold,
        italic: flags.italic,
        underline: flags.underline || flags.double_underline || flags.undercurl,
        strikeout: flags.strikeout,
        hidden: flags.hidden,
        wide: flags.wide_char,
        wide_spacer: flags.wide_char_spacer,
    }
}

/// What the emulator needs done after it consumed output.
#[derive(Clone, Debug, PartialEq, Eq)]
pub enum TerminalAction {
    /// Bytes to send back to the remote side (query replies).
    WriteBack(Vec<u8>),
    Bell,
    Wakeup,
}

/// Why a terminal operation failed.
#[derive(Clone, Copy, Debug, PartialEq, Eq, Structural)]
pub enum TerminalError {
    InvalidSize,
}

impl TerminalError {
    /// The user-facing description.
    pub fn message(&self) -> (r: String)
        ensures
            r@ == "invalid terminal size"@,
    {
        String::from_str("invalid terminal size")
    }
}

/// Which half of a cell a pointer is over.
#[derive(Clone, Copy, Debug, PartialEq, Eq, Structural)]
pub enum CellSide {
    Left,
    Right,
}

/// The 16 standard xterm colors.
pub open spec fn xterm_ansi(i: int) -> RgbColor {
    if i == 0 {
        rgb(0x00, 0x00, 0x00)
    } else if i == 1 {
        rgb(0xcd, 0x00, 0x00)
    } else if i == 2 {
        rgb(0x00, 0xcd, 0x00)
    } else if i == 3 {
        rgb(0xcd, 0xcd, 0x00)
    } else if i == 4 {
        rgb(0x00, 0x00, 0xee)
    } else if i == 5 {
        rgb(0xcd, 0x00, 0xcd)
    } else if i == 6 {
        rgb(0x00, 0xcd, 0xcd)
    } else if i == 7 {
        rgb(0xe5, 0xe5, 0xe5)
    } else if i == 8 {
        rgb(0x7f, 0x7f, 0x7f)
    } else if i == 9 {
        rgb(0xff, 0x00, 0x00)
    } else if i == 10 {
        rgb(0x00, 0xff, 0x00)
    } else if i == 11 {
        rgb(0xff, 0xff, 0x00)
    } else if i == 12 {
        rgb(0x5c, 0x5c, 0xff)
    } else if i == 13 {
        rgb(0xff, 0x00, 0xff)
    } else if i == 14 {
        rgb(0x00, 0xff, 0xff)
    } else {
        rgb(0xff, 0xff, 0xff)
    }
}

/// A level of the 6x6x6 color cube.
pub open spec fn cube_level(k: int) -> u8 {
    if k == 0 {
        0
    } else {
        (55 + 40 * k) as u8
    }
}

/// The xterm 256-color palette: 16 standard colors, the 6x6x6 cube, then
/// 24 grays from 8 to 238 in steps of 10.
pub open spec fn xterm_palette(index: int) -> RgbColor {
    if index < 16 {
        xterm_ansi(index)
    } else if index < 232 {
        let offset = index - 16;
        rgb(cube_level(offset / 36), cube_level((offset / 6) % 6), cube_level(offset % 6))
    } else {
        let value = (8 + (index - 232) * 10) as u8;
        rgb(value, value, value)
    }
}

/// A level of the color cube.
fn cube(k: usize) -> (r: u8)
    requires
        k < 6,
    ensures
        r == cube_level(k as int),
{
    if k == 0 {
        0
    } else {
        (55 + 40 * k) as u8
    }
}

/// The xterm color at `index`.
pub fn xterm_color(index: usize) -> (r: RgbColor)
    requires
        index <= 255,
    ensures
        r == xterm_palette(index as int),
{
    if index < 16 {
        let ansi: [RgbColor; 16] = [
            RgbColor::new(0x00, 0x00, 0x00),
            RgbColor::new(0xcd, 0x00, 0x00),
            RgbColor::new(0x00, 0xcd, 0x00),
            RgbColor::new(0xcd, 0xcd, 0x00),
            RgbColor::new(0x00, 0x00, 0xee),
            RgbColor::new(0xcd, 0x00, 0xcd),
            RgbColor::new(0x00, 0xcd, 0xcd),
            RgbColor::new(0xe5, 0xe5, 0xe5),
            RgbColor::new(0x7f, 0x7f, 0x7f),
            RgbColor::new(0xff, 0x00, 0x00),
            RgbColor::new(0x00, 0xff, 0x00),
            RgbColor::new(0xff, 0xff, 0x00),
            RgbColor::new(0x5c, 0x5c, 0xff),
            RgbColor::new(0xff, 0x00, 0xff),
            RgbColor::new(0x00, 0xff, 0xff),
            RgbColor::new(0xff, 0xff, 0xff),
        ];
        ansi[index]
    } else if index < 232 {
        let offset = index - 16;
        RgbColor::new(cube(offset / 36), cube((offset / 6) % 6), cube(offset % 6))
    } else {
        let value = (8 + (index - 232) * 10) as u8;
        RgbColor::new(value, value, value)
    }
}

/// Number of entries in the emulator's color table (256 indexed colors and
/// the named foreground, background, cursor, dim and bright entries).
pub const COLOR_COUNT: usize = 269;

/// The color shown for palette entry `index` when the program has not set
/// it: the ANSI colors of the defaults, the xterm palette, then the named
/// entries (foreground 256, 259 to 267; background 257, 268; cursor 258;
/// anything beyond the table: background).
pub open spec fn default_palette_color(defaults: TerminalColors, index: int) -> RgbColor {
    if 0 <= index <= 15 {
        defaults.ansi@[index]
    } else if 16 <= index <= 255 {
        xterm_palette(index)
    } else if index == 256 || index == 267 {
        defaults.foreground
    } else if index == 257 || index == 268 {
        defaults.background
    } else if index == 258 {
        defaults.cursor
    } else if 259 <= index <= 266 {
        defaults.foreground
    } else {
        defaults.background
    }
}

/// The color of palette entry `index`: the one the program set (`dynamic`,
/// only consulted inside the table) or else the default.
pub fn palette_color(defaults: &TerminalColors, index: usize, dynamic: Option<RgbColor>) -> (r: RgbColor)
    ensures
        r == (if index < COLOR_COUNT && dynamic is Some {
            dynamic->Some_0
        } else {
            default_palette_color(*defaults, index as int)
        }),
{
    if index < COLOR_COUNT {
        if let Some(color) = dynamic {
            return color;
        }
    }
    if index <= 15 {
        defaults.ansi[index]
    } else if index <= 255 {
        xterm_color(index)
    } else if index == 256 || index == 267 {
        defaults.foreground
    } else if index == 257 || index == 268 {
        defaults.background
    } else if index == 258 {
        defaults.cursor
    } else if 259 <= index && index <= 266 {
        defaults.foreground
    } else {
        defaults.background
    }
}

/// The text-area size reported to programs (cells and cell pixels).
#[derive(Clone, Copy, Debug, PartialEq, Eq, Structural)]
pub struct WindowCells {
    pub num_lines: u16,
    pub num_cols: u16,
    pub cell_width: u16,
    pub cell_height: u16,
}

/// `x` saturated to `u16`.
pub open spec fn saturate_u16(x: int) -> u16 {
    if x > u16::MAX {
        u16::MAX
    } else {
        x as u16
    }
}

/// The number saturated to `u16`.
fn to_u16_saturating(x: usize) -> (r: u16)
    ensures
        r == saturate_u16(x as int),
{
    if x > 65535 {
        65535
    } else {
        x as u16
    }
}

/// The text-area report for a grid: the grid in cells, and the pixel size
/// of one cell (pixels divided by the cell count taken as `u32`).
pub fn window_cells(size: TerminalSize) -> (r: WindowCells)
    requires
        size.columns as u32 != 0,
        size.rows as u32 != 0,
    ensures
        r.num_lines == saturate_u16(size.rows as int),
        r.num_cols == saturate_u16(size.columns as int),
        r.cell_width == saturate_u16((size.pixel_width / (size.columns as u32)) as int),
        r.cell_height == saturate_u16((size.pixel_height / (size.rows as u32)) as int),
{
    let columns = to_u16_saturating(size.columns);
    let rows = to_u16_saturating(size.rows);
    let cell_width = size.pixel_width / (size.columns as u32);
    let cell_height = size.pixel_height / (size.rows as u32);
    WindowCells {
        num_lines: rows,
        num_cols: columns,
        cell_width: to_u16_saturating(cell_width as usize),
        cell_height: to_u16_saturating(cell_height as usize),
    }
}

/// A pointer position clamped into the visible grid.
pub fn clamp_to_grid(size: TerminalSize, row: usize, column: usize) -> (r: (usize, usize))
    requires
        size.rows >= 1,
        size.columns >= 1,
    ensures
        r.0 == (if row < size.rows { row } else { (size.rows - 1) as usize }),
        r.1 == (if column < size.columns { column } else { (size.columns - 1) as usize }),
{
    let r = if row < size.rows {
        row
    } else {
        size.rows - 1
    };
    let c = if column < size.columns {
        column
    } else {
        size.columns - 1
    };
    (r, c)
}

/// An event raised by the emulator while it consumed output, with any
/// reply text already formatted.
#[derive(Clone, Debug, PartialEq, Eq)]
pub enum TerminalEvent {
    /// Text the emulator writes back to the remote side.
    PtyWrite(String),
    /// The reply to a color query.
    ColorReply(String),
    /// The reply to a text-area size query.
    TextAreaReply(String),
    Bell,
    Wakeup,
    /// Title, clipboard, cursor and exit events: nothing to do.
    Ignored,
}

/// The abstract content of an action.
pub enum ActionView {
    WriteBack(Seq<u8>),
    Bell,
    Wakeup,
}

impl View for TerminalAction {
    type V = ActionView;

    open spec fn view(&self) -> ActionView {
        match self {
            TerminalAction::WriteBack(bytes) => ActionView::WriteBack(bytes@),
            TerminalAction::Bell => ActionView::Bell,
            TerminalAction::Wakeup => ActionView::Wakeup,
        }
    }
}

/// The action one event calls for, if any: replies are written back as
/// their UTF-8 bytes.
pub open spec fn event_action(e: TerminalEvent) -> Option<ActionView> {
    match e {
        TerminalEvent::PtyWrite(t) => Some(ActionView::WriteBack(vstd::utf8::encode_utf8(t@))),
        TerminalEvent::ColorReply(t) => Some(ActionView::WriteBack(vstd::utf8::encode_utf8(t@))),
        TerminalEvent::TextAreaReply(t) => Some(ActionView::WriteBack(vstd::utf8::encode_utf8(t@))),
        TerminalEvent::Bell => Some(ActionView::Bell),
        TerminalEvent::Wakeup => Some(ActionView::Wakeup),
        TerminalEvent::Ignored => None,
    }
}

/// The actions of a run of events, in order.
pub open spec fn event_actions(events: Seq<TerminalEvent>) -> Seq<ActionView>
    decreases events.len(),
{
    if events.len() == 0 {
        seq![]
    } else {
        let rest = event_actions(events.drop_last());
        match event_action(events.last()) {
            Some(a) => rest.push(a),
            None => rest,
        }
    }
}

/// The actions after consuming output: those of the events, plus a final
/// `Wakeup` when some output was consumed and no event asked for one.
pub open spec fn output_actions(events: Seq<TerminalEvent>, consumed_output: bool) -> Seq<ActionView> {
    let actions = event_actions(events);
    if consumed_output && !actions.contains(ActionView::Wakeup) {
        actions.push(ActionView::Wakeup)
    } else {
        actions
    }
}

/// The bytes of a string.
fn string_bytes(s: &String) -> (r: Vec<u8>)
    ensures
        r@ == vstd::utf8::encode_utf8(s@),
{
    let bytes = s.as_str().as_bytes();
    let mut r: Vec<u8> = Vec::new();
    let mut i: usize = 0;
    while i < bytes.len()
        invariant
            i <= bytes@.len(),
            r@ == bytes@.take(i as int),
        decreases bytes.len() - i,
    {
        r.push(bytes[i]);
        i = i + 1;
        assert(r@ =~= bytes@.take(i as int));
    }
    assert(bytes@.take(bytes@.len() as int) =~= bytes@);
    r
}

/// Turns the emulator's events into actions.
pub fn actions_for_events(events: &Vec<TerminalEvent>, consumed_output: bool) -> (r: Vec<TerminalAction>)
    ensures
        r@.map_values(|a: TerminalAction| a@) == output_actions(events@, consumed_output),
{
    let mut actions: Vec<TerminalAction> = Vec::new();
    let mut woken = false;
    let mut i: usize = 0;
    while i < events.len()
        invariant
            i <= events@.len(),
            actions@.map_values(|a: TerminalAction| a@) == event_actions(events@.take(i as int)),
            woken == event_actions(events@.take(i as int)).contains(ActionView::Wakeup),
        decreases events.len() - i,
    {
        let ghost before = actions@.map_values(|a: TerminalAction| a@);
        proof {
            assert(events@.take(i + 1).drop_last() =~= events@.take(i as int));
            assert(events@.take(i + 1).last() == events@[i as int]);
        }
        match &events[i] {
            TerminalEvent::PtyWrite(text) => {
                actions.push(TerminalAction::WriteBack(string_bytes(text)));
            },
            TerminalEvent::ColorReply(text) => {
                actions.push(TerminalAction::WriteBack(string_bytes(text)));
            },
            TerminalEvent::TextAreaReply(text) => {
                actions.push(TerminalAction::WriteBack(string_bytes(text)));
            },
            TerminalEvent::Bell => {
                actions.push(TerminalAction::Bell);
            },
            TerminalEvent::Wakeup => {
                actions.push(TerminalAction::Wakeup);
                woken = true;
            },
            TerminalEvent::Ignored => {},
        }
        proof {
            let now = event_actions(events@.take(i + 1));
            assert(actions@.map_values(|a: TerminalAction| a@) =~= now);
            if events@[i as int] is Wakeup {
                assert(now.last() == ActionView::Wakeup);
                assert(now.contains(ActionView::Wakeup));
            } else if now.len() > before.len() {
                assert(now.last() != ActionView::Wakeup);
                assert(now.contains(ActionView::Wakeup) == before.contains(ActionView::Wakeup)) by {
                    if now.contains(ActionView::Wakeup) {
                        let k = choose|k: int| 0 <= k < now.len() && now[k] == ActionView::Wakeup;
                        assert(before[k] == now[k]);
                    }
                    if before.contains(ActionView::Wakeup) {
                        let k = choose|k: int| 0 <= k < before.len() && before[k] == ActionView::Wakeup;
                        assert(before[k] == now[k]);
                    }
                }
            }
        }
        i = i + 1;
    }
    proof {
        assert(events@.take(events@.len() as int) =~= events@);
    }
    if consumed_output && !woken {
        actions.push(TerminalAction::Wakeup);
        assert(actions@.map_values(|a: TerminalAction| a@) =~= output_actions(events@, consumed_output));
    }
    actions
}

} // verus!
