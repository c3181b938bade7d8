//! What the terminal view paints besides text: the background segments of
//! the visible cells, and the avatar color of a host card.

use vstd::prelude::*;

use crate::connection_form::{decimal_text, port_text};
use crate::model::{ConnectionProfile, ProfileId};
use crate::terminal::CellRenderStyle;
use crate::text::{chars_of, string_push, trim, trim_seq};

verus! {

/// A cell as the renderer meets it, in display order: its line counted from
/// the top of the view (negative above it), its column, the color it is
/// drawn with (the selection color when selected), and whether it is
/// selected.
#[derive(Clone, Copy, Debug, PartialEq, Eq, Structural)]
pub struct PaintedCell {
    pub line: i64,
    pub column: usize,
    pub background: u32,
    pub selected: bool,
}

/// Cells `start..end` of `row`, painted `color`.
#[derive(Clone, Copy, Debug, PartialEq, Eq, Structural)]
pub struct BackgroundSegment {
    pub row: usize,
    pub start: usize,
    pub end: usize,
    pub color: u32,
}

/// Whether a cell lies in the visible grid of `rows` by `columns` cells.
pub open spec fn cell_visible(c: PaintedCell, rows: usize, columns: usize) -> bool {
    0 <= c.line < rows && c.column < columns
}

/// Whether a cell needs a background of its own: it is selected, or its
/// color is not the terminal's default background.
pub open spec fn cell_painted(c: PaintedCell, default_background: u32) -> bool {
    c.selected || c.background != default_background
}

/// The one-cell segment of a visible cell.
pub open spec fn cell_segment(c: PaintedCell) -> BackgroundSegment {
    BackgroundSegment { row: c.line as usize, start: c.column, end: (c.column + 1) as usize, color: c.background }
}

/// Whether a cell continues a segment: same row and color, right after it.
pub open spec fn continues(s: BackgroundSegment, c: PaintedCell) -> bool {
    s.row == c.line && s.end == c.column && s.color == c.background
}

/// The segments closed after the cells `cells`, and the one still open: a
/// painted cell extends the open segment when it continues it, and closes it
/// and opens its own otherwise; a visible cell that is not painted closes
/// it; cells outside the grid are passed over.
pub open spec fn segment_state(
    cells: Seq<PaintedCell>,
    rows: usize,
    columns: usize,
    default_background: u32,
) -> (Seq<BackgroundSegment>, Option<BackgroundSegment>)
    decreases cells.len(),
{
    if cells.len() == 0 {
        (Seq::empty(), None)
    } else {
        let (done, open) = segment_state(cells.drop_last(), rows, columns, default_background);
        let c = cells.last();
        if !cell_visible(c, rows, columns) {
            (done, open)
        } else if cell_painted(c, default_background) {
            match open {
                Some(s) => if continues(s, c) {
                    (done, Some(BackgroundSegment { end: (c.column + 1) as usize, ..s }))
                } else {
                    (done.push(s), Some(cell_segment(c)))
                },
                None => (done, Some(cell_segment(c))),
            }
        } else {
            match open {
                Some(s) => (done.push(s), None),
                None => (done, None),
            }
        }
    }
}

/// The background segments painted for `cells`, in the order they close.
pub open spec fn background_segments_of(
    cells: Seq<PaintedCell>,
    rows: usize,
    columns: usize,
    default_background: u32,
) -> Seq<BackgroundSegment> {
    let (done, open) = segment_state(cells, rows, columns, default_background);
    match open {
        Some(s) => done.push(s),
        None => done,
    }
}

/// The backgrounds to paint under the visible cells of a `rows` by
/// `columns` grid, adjacent cells of one color merged into one segment.
pub fn background_segments(
    cells: &Vec<PaintedCell>,
    rows: usize,
    columns: usize,
    default_background: u32,
) -> (r: Vec<BackgroundSegment>)
    ensures
        r@ == background_segments_of(cells@, rows, columns, default_background),
{
    let mut done: Vec<BackgroundSegment> = Vec::new();
    let mut open: Option<BackgroundSegment> = None;
    let mut i: usize = 0;
    while i < cells.len()
        invariant
            i <= cells@.len(),
            (done@, open) == segment_state(cells@.take(i as int), rows, columns, default_background),
        decreases cells.len() - i,
    {
        let c = cells[i];
        proof {
            assert(cells@.take(i + 1).drop_last() =~= cells@.take(i as int));
            assert(cells@.take(i + 1).last() == c);
        }
        let visible = c.line >= 0 && (c.line as u64) < (rows as u64) && c.column < columns;
        if visible {
            let row = c.line as usize;
            if c.selected || c.background != default_background {
                match open {
                    Some(s) => {
                        if s.row == row && s.end == c.column && s.color == c.background {
                            open = Some(BackgroundSegment { end: c.column + 1, ..s });
                        } else {
                            done.push(s);
                            open = Some(BackgroundSegment { row, start: c.column, end: c.column + 1, color: c.background });
                        }
                    },
                    None => {
                        open = Some(BackgroundSegment { row, start: c.column, end: c.column + 1, color: c.background });
                    },
                }
            } else {
                match open {
                    Some(s) => {
                        done.push(s);
                        open = None;
                    },
                    None => {},
                }
            }
        }
        i = i + 1;
    }
    proof {
        assert(cells@.take(cells@.len() as int) =~= cells@);
    }
    match open {
        Some(s) => {
            done.push(s);
        },
        None => {},
    }
    done
}

/// The number of visible cells that need a background of their own.
pub open spec fn painted_count(
    cells: Seq<PaintedCell>,
    rows: usize,
    columns: usize,
    default_background: u32,
) -> nat
    decreases cells.len(),
{
    if cells.len() == 0 {
        0
    } else {
        let c = cells.last();
        painted_count(cells.drop_last(), rows, columns, default_background) + if cell_visible(c, rows, columns)
            && cell_painted(c, default_background) {
            1nat
        } else {
            0nat
        }
    }
}

/// The number of cells that `segments` cover.
pub open spec fn covered_width(segments: Seq<BackgroundSegment>) -> int
    decreases segments.len(),
{
    if segments.len() == 0 {
        0
    } else {
        covered_width(segments.drop_last()) + (segments.last().end - segments.last().start)
    }
}

/// A segment of at least one cell inside a `rows` by `columns` grid.
pub open spec fn in_grid(s: BackgroundSegment, rows: usize, columns: usize) -> bool {
    s.row < rows && s.start < s.end <= columns
}

proof fn lemma_covered_width_push(segments: Seq<BackgroundSegment>, s: BackgroundSegment)
    ensures
        covered_width(segments.push(s)) == covered_width(segments) + (s.end - s.start),
{
    assert(segments.push(s).drop_last() =~= segments);
}

/// What the segments closed and open after some cells cover, and where
/// they lie.
proof fn lemma_segment_state_covers(
    cells: Seq<PaintedCell>,
    rows: usize,
    columns: usize,
    default_background: u32,
)
    ensures
        ({
            let (done, open) = segment_state(cells, rows, columns, default_background);
            &&& covered_width(done) + match open {
                Some(s) => s.end - s.start,
                None => 0,
            } == painted_count(cells, rows, columns, default_background)
            &&& forall|k: int| 0 <= k < done.len() ==> in_grid(#[trigger] done[k], rows, columns)
            &&& (open matches Some(s) ==> in_grid(s, rows, columns))
        }),
    decreases cells.len(),
{
    if cells.len() > 0 {
        let rest = cells.drop_last();
        lemma_segment_state_covers(rest, rows, columns, default_background);
        let (done, open) = segment_state(rest, rows, columns, default_background);
        match open {
            Some(s) => {
                lemma_covered_width_push(done, s);
                assert forall|k: int| 0 <= k < done.push(s).len() implies in_grid(
                    #[trigger] done.push(s)[k],
                    rows,
                    columns,
                ) by {
                    if k < done.len() {
                        assert(done.push(s)[k] == done[k]);
                    }
                }
            },
            None => {},
        }
    }
}

/// The background segments cover exactly the visible cells that need a
/// background, each once, and every segment lies inside the grid.
pub proof fn law_segments_cover_painted_cells(
    cells: Seq<PaintedCell>,
    rows: usize,
    columns: usize,
    default_background: u32,
)
    ensures
        covered_width(background_segments_of(cells, rows, columns, default_background))
            == painted_count(cells, rows, columns, default_background),
        forall|k: int|
            0 <= k < background_segments_of(cells, rows, columns, default_background).len()
                ==> in_grid(
                #[trigger] background_segments_of(cells, rows, columns, default_background)[k],
                rows,
                columns,
            ),
{
    lemma_segment_state_covers(cells, rows, columns, default_background);
    let (done, open) = segment_state(cells, rows, columns, default_background);
    match open {
        Some(s) => {
            lemma_covered_width_push(done, s);
            assert forall|k: int| 0 <= k < done.push(s).len() implies in_grid(
                #[trigger] done.push(s)[k],
                rows,
                columns,
            ) by {
                if k < done.len() {
                    assert(done.push(s)[k] == done[k]);
                }
            }
        },
        None => {},
    }
}

/// A segment covers a cell: the cell lies in it and has its color.
pub open spec fn segment_covers(s: BackgroundSegment, c: PaintedCell) -> bool {
    s.row == c.line && s.start <= c.column < s.end && s.color == c.background
}

/// Some segment of `segments` covers the cell.
pub open spec fn covered_by(segments: Seq<BackgroundSegment>, c: PaintedCell) -> bool {
    exists|j: int| 0 <= j < segments.len() && segment_covers(#[trigger] segments[j], c)
}

/// A cell covered by the closed segments stays covered when one more closes.
proof fn lemma_covered_by_push(segments: Seq<BackgroundSegment>, s: BackgroundSegment, c: PaintedCell)
    requires
        covered_by(segments, c) || segment_covers(s, c),
    ensures
        covered_by(segments.push(s), c),
{
    let t = segments.push(s);
    if covered_by(segments, c) {
        let j = choose|j: int| 0 <= j < segments.len() && segment_covers(#[trigger] segments[j], c);
        assert(t[j] == segments[j]);
    } else {
        assert(t[segments.len() as int] == s);
    }
}

/// After some cells, each visible cell that needs a background is covered
/// by a closed segment or by the open one.
proof fn lemma_segment_state_covers_each(
    cells: Seq<PaintedCell>,
    rows: usize,
    columns: usize,
    default_background: u32,
)
    ensures
        ({
            let (done, open) = segment_state(cells, rows, columns, default_background);
            forall|k: int|
                0 <= k < cells.len() && cell_visible(#[trigger] cells[k], rows, columns) && cell_painted(
                    cells[k],
                    default_background,
                ) ==> covered_by(done, cells[k]) || (open matches Some(s) && segment_covers(s, cells[k]))
        }),
    decreases cells.len(),
{
    if cells.len() > 0 {
        let rest = cells.drop_last();
        let c = cells.last();
        lemma_segment_state_covers_each(rest, rows, columns, default_background);
        lemma_segment_state_covers(rest, rows, columns, default_background);
        let (done, open) = segment_state(rest, rows, columns, default_background);
        let (done2, open2) = segment_state(cells, rows, columns, default_background);
        assert forall|k: int|
            0 <= k < cells.len() && cell_visible(#[trigger] cells[k], rows, columns) && cell_painted(
                cells[k],
                default_background,
            ) implies covered_by(done2, cells[k]) || (open2 matches Some(t) && segment_covers(t, cells[k])) by {
            let d = cells[k];
            if k < rest.len() {
                assert(rest[k] == d);
                if cell_visible(c, rows, columns) {
                    if cell_painted(c, default_background) {
                        match open {
                            Some(s) => {
                                if continues(s, c) {
                                    if !covered_by(done, d) {
                                        assert(segment_covers(s, d));
                                    }
                                } else {
                                    lemma_covered_by_push(done, s, d);
                                }
                            },
                            None => {},
                        }
                    } else {
                        match open {
                            Some(s) => {
                                lemma_covered_by_push(done, s, d);
                            },
                            None => {},
                        }
                    }
                }
            } else {
                assert(d == c);
            }
        }
    }
}

/// Every visible cell that needs a background lies in a segment of its
/// row and color.
pub proof fn law_each_painted_cell_is_covered(
    cells: Seq<PaintedCell>,
    rows: usize,
    columns: usize,
    default_background: u32,
    k: int,
)
    requires
        0 <= k < cells.len(),
        cell_visible(cells[k], rows, columns),
        cell_painted(cells[k], default_background),
    ensures
        covered_by(background_segments_of(cells, rows, columns, default_background), cells[k]),
{
    lemma_segment_state_covers_each(cells, rows, columns, default_background);
    let (done, open) = segment_state(cells, rows, columns, default_background);
    assert(cell_visible(cells[k], rows, columns));
    match open {
        Some(s) => {
            lemma_covered_by_push(done, s, cells[k]);
        },
        None => {},
    }
}

/// Cell `c` comes after cell `v` in display order: on a later line, or
/// further right on the same line.
pub open spec fn comes_after(c: PaintedCell, v: PaintedCell) -> bool {
    c.line > v.line || (c.line == v.line && c.column > v.column)
}

/// The cells are in display order, each place at most once.
pub open spec fn display_ordered(cells: Seq<PaintedCell>) -> bool {
    forall|i: int, j: int| 0 <= i < j < cells.len() ==> comes_after(#[trigger] cells[j], #[trigger] cells[i])
}

/// Two segments that one segment could have painted: the second starts
/// where the first ends, on its row and in its color.
pub open spec fn mergeable(a: BackgroundSegment, b: BackgroundSegment) -> bool {
    a.row == b.row && a.end == b.start && a.color == b.color
}

/// The last visible cell among `cells`.
pub open spec fn last_visible(cells: Seq<PaintedCell>, rows: usize, columns: usize) -> Option<PaintedCell>
    decreases cells.len(),
{
    if cells.len() == 0 {
        None
    } else if cell_visible(cells.last(), rows, columns) {
        Some(cells.last())
    } else {
        last_visible(cells.drop_last(), rows, columns)
    }
}

/// No two segments in a row could have been one.
pub open spec fn none_mergeable(segments: Seq<BackgroundSegment>) -> bool {
    forall|i: int, j: int|
        0 <= i && j == i + 1 && j < segments.len() ==> !mergeable(#[trigger] segments[i], #[trigger] segments[j])
}

/// What keeps segments from merging, after cells in display order.
proof fn lemma_segment_state_unmergeable(
    cells: Seq<PaintedCell>,
    rows: usize,
    columns: usize,
    default_background: u32,
)
    requires
        display_ordered(cells),
    ensures
        ({
            let (done, open) = segment_state(cells, rows, columns, default_background);
            let lv = last_visible(cells, rows, columns);
            &&& none_mergeable(done)
            &&& (open matches Some(s) ==> done.len() > 0 ==> !mergeable(done.last(), s))
            &&& (open matches Some(s) ==> (lv matches Some(v) && s.row == v.line && s.end == v.column + 1))
            &&& (open is None && done.len() > 0 ==> (lv matches Some(v) && (v.line > done.last().row || (v.line
                == done.last().row && v.column >= done.last().end))))
            &&& (lv matches Some(v) ==> exists|m: int| 0 <= m < cells.len() && cells[m] == v)
        }),
    decreases cells.len(),
{
    if cells.len() > 0 {
        let rest = cells.drop_last();
        let c = cells.last();
        assert forall|i: int, j: int| 0 <= i < j < rest.len() implies comes_after(#[trigger] rest[j], #[trigger] rest[i]) by {
            assert(rest[i] == cells[i] && rest[j] == cells[j]);
        }
        lemma_segment_state_unmergeable(rest, rows, columns, default_background);
        let (done, open) = segment_state(rest, rows, columns, default_background);
        let lv = last_visible(rest, rows, columns);
        if lv is Some {
            let v = lv->0;
            let m = choose|m: int| 0 <= m < rest.len() && rest[m] == v;
            assert(cells[m] == v);
            assert(comes_after(cells[cells.len() - 1], cells[m]));
            assert(comes_after(c, v));
        }
        let (done2, open2) = segment_state(cells, rows, columns, default_background);
        let lv2 = last_visible(cells, rows, columns);
        if !cell_visible(c, rows, columns) {
            if lv is Some {
                let m = choose|m: int| 0 <= m < rest.len() && rest[m] == lv->0;
                assert(cells[m] == rest[m]);
            }
        } else {
            assert(lv2 == Some(c));
            assert(cells[cells.len() - 1] == c);
            if let Some(s) = open {
                if cell_painted(c, default_background) && continues(s, c) {
                } else {
                    assert(done2 == done.push(s));
                    assert forall|i: int, j: int|
                        0 <= i && j == i + 1 && j < done2.len() implies !mergeable(#[trigger] done2[i], #[trigger] done2[j]) by {
                        if j < done.len() {
                            assert(done2[i] == done[i] && done2[j] == done[j]);
                        } else {
                            assert(done2[i] == done.last());
                        }
                    }
                }
            }
        }
    }
}

/// Segments of cells in display order are as long as they can be: no two
/// in a row could have been painted as one.
pub proof fn law_adjacent_cells_of_one_color_merge(
    cells: Seq<PaintedCell>,
    rows: usize,
    columns: usize,
    default_background: u32,
)
    requires
        display_ordered(cells),
    ensures
        none_mergeable(background_segments_of(cells, rows, columns, default_background)),
{
    lemma_segment_state_unmergeable(cells, rows, columns, default_background);
    let (done, open) = segment_state(cells, rows, columns, default_background);
    if let Some(s) = open {
        let t = done.push(s);
        assert forall|i: int, j: int| 0 <= i && j == i + 1 && j < t.len() implies !mergeable(#[trigger] t[i], #[trigger] t[j]) by {
            if j < done.len() {
                assert(t[i] == done[i] && t[j] == done[j]);
            } else {
                assert(t[i] == done.last());
            }
        }
    }
}

/// Avatar color `i` of the eight host-card colors.
pub open spec fn avatar_palette(i: int) -> u32 {
    if i == 0 {
        0x006b_8caeu32
    } else if i == 1 {
        0x007b_a389u32
    } else if i == 2 {
        0x00b5_936bu32
    } else if i == 3 {
        0x009a_7bb5u32
    } else if i == 4 {
        0x005f_9ea8u32
    } else if i == 5 {
        0x00b5_7e7eu32
    } else if i == 6 {
        0x007e_93b8u32
    } else {
        0x00a8_927cu32
    }
}

/// Byte `k` of an id in its big-endian byte order (byte 0 is the most
/// significant), as a UUID lays its bytes out.
pub open spec fn id_byte(id: u128, k: int) -> u8 {
    ((id >> ((120 - 8 * k) as u128)) & 0xffu128) as u8
}

/// The hash of the first `n` bytes of an id: each byte added to 31 times
/// the hash before it.
pub open spec fn avatar_hash(id: u128, n: int) -> int
    decreases n,
{
    if n <= 0 {
        0
    } else {
        avatar_hash(id, n - 1) * 31 + id_byte(id, n - 1)
    }
}

proof fn lemma_avatar_hash_nonnegative(id: u128, n: int)
    ensures
        avatar_hash(id, n) >= 0,
    decreases n,
{
    if n > 0 {
        lemma_avatar_hash_nonnegative(id, n - 1);
    }
}

/// Reducing the hash modulo 8 at each step gives the same remainder.
proof fn lemma_hash_step_mod(a: int, b: int)
    requires
        a >= 0,
    ensures
        ((a % 8) * 31 + b) % 8 == (a * 31 + b) % 8,
{
    vstd::arithmetic::div_mod::lemma_fundamental_div_mod(a, 8);
    let q = a / 8;
    assert(a * 31 + b == 8 * (31 * q) + ((a % 8) * 31 + b));
    vstd::arithmetic::div_mod::lemma_mod_multiples_vanish(31 * q, (a % 8) * 31 + b, 8);
}

/// The avatar color of a host card: chosen by the id's hash, so that a
/// host keeps its color. Since 8 divides every word size, the hash taken
/// modulo 8 does not depend on the width it is computed in.
pub fn avatar_color(id: ProfileId) -> (c: u32)
    ensures
        c == avatar_palette(avatar_hash(id.0, 16) % 8),
{
    let mut h: u32 = 0;
    let mut k: u32 = 0;
    while k < 16
        invariant
            k <= 16,
            h < 8,
            h == avatar_hash(id.0, k as int) % 8,
        decreases 16 - k,
    {
        let shift: u128 = (120 - 8 * k) as u128;
        let byte: u8 = ((id.0 >> shift) & 0xff) as u8;
        proof {
            assert(byte == id_byte(id.0, k as int));
            lemma_avatar_hash_nonnegative(id.0, k as int);
            lemma_hash_step_mod(avatar_hash(id.0, k as int), byte as int);
        }
        h = (h * 31 + byte as u32) % 8;
        k = k + 1;
    }
    if h == 0 {
        0x006b_8cae
    } else if h == 1 {
        0x007b_a389
    } else if h == 2 {
        0x00b5_936b
    } else if h == 3 {
        0x009a_7bb5
    } else if h == 4 {
        0x005f_9ea8
    } else if h == 5 {
        0x00b5_7e7e
    } else if h == 6 {
        0x007e_93b8
    } else {
        0x00a8_927c
    }
}

/// The upper-case mapping of a character (`char::to_uppercase`): one or
/// more characters, from Unicode's case tables.
pub uninterp spec fn uppercase(c: char) -> Seq<char>;

/// `char::to_uppercase`, collected. Its result is named `uppercase`; its
/// documentation promises at least one character.
#[verifier::external_body]
fn char_uppercase(c: char) -> (r: String)
    ensures
        r@ == uppercase(c),
        r@.len() >= 1,
{
    c.to_uppercase().collect()
}

/// The letter on a host card's avatar: the first character of the trimmed
/// name, upper-cased, or `?` for a blank name.
pub fn avatar_initial(name: &str) -> (r: String)
    ensures
        r@ == (if trim_seq(name@).len() == 0 {
            seq!['?']
        } else {
            uppercase(trim_seq(name@)[0])
        }),
{
    let trimmed = trim(name);
    let chars = chars_of(trimmed.as_str());
    if chars.len() == 0 {
        let mut r = String::new();
        string_push(&mut r, '?');
        assert(r@ =~= seq!['?']);
        r
    } else {
        char_uppercase(chars[0])
    }
}

/// Appends `t` to `s`.
fn append(s: &mut String, t: &str)
    ensures
        final(s)@ == old(s)@ + t@,
{
    let chars = chars_of(t);
    let mut i: usize = 0;
    while i < chars.len()
        invariant
            i <= chars@.len(),
            chars@ == t@,
            s@ == old(s)@ + t@.take(i as int),
        decreases chars.len() - i,
    {
        string_push(s, chars[i]);
        i = i + 1;
        assert(s@ =~= old(s)@ + t@.take(i as int));
    }
    assert(t@.take(t@.len() as int) =~= t@);
}

/// The `user@host:port` line of a host card.
pub open spec fn endpoint_label_of(p: ConnectionProfile) -> Seq<char> {
    p.username@ + seq!['@'] + p.endpoint.host@ + seq![':'] + decimal_text(p.endpoint.port as nat)
}

/// The `user@host:port` line of a host card.
pub fn endpoint_label(profile: &ConnectionProfile) -> (r: String)
    ensures
        r@ == endpoint_label_of(*profile),
{
    let mut r = String::new();
    append(&mut r, profile.username.as_str());
    string_push(&mut r, '@');
    append(&mut r, profile.endpoint.host.as_str());
    string_push(&mut r, ':');
    let port = port_text(profile.endpoint.port);
    append(&mut r, port.as_str());
    assert(r@ =~= endpoint_label_of(*profile));
    r
}

/// The cell the cursor is drawn in, given its line counted from the top of
/// the view, its column and whether its shape is the hidden one: none when
/// it is hidden or lies outside the grid.
pub fn cursor_cell(line: i64, column: usize, hidden: bool, rows: usize, columns: usize) -> (r: Option<(
    usize,
    usize,
)>)
    ensures
        r == (if !hidden && 0 <= line < rows && column < columns {
            Some((line as usize, column))
        } else {
            None
        }),
{
    if !hidden && line >= 0 && (line as u64) < (rows as u64) && column < columns {
        Some((line as usize, column))
    } else {
        None
    }
}

/// A cell's text as the renderer meets it, in display order: its place,
/// its style, whether it is selected, and the UTF-8 length of its text (its
/// character and any zero-width ones after it).
#[derive(Clone, Copy, Debug, PartialEq, Eq, Structural)]
pub struct TextCell {
    pub line: i64,
    pub column: usize,
    pub style: CellRenderStyle,
    pub selected: bool,
    pub bytes: usize,
}

/// A stretch of one row's text drawn in one style: `len` bytes of the
/// row's text.
#[derive(Clone, Copy, Debug, PartialEq, Eq, Structural)]
pub struct TextRun {
    pub row: usize,
    pub style: CellRenderStyle,
    pub selected: bool,
    pub len: usize,
}

/// Whether a cell's text is drawn: it lies in the grid and is neither the
/// spacer after a wide character nor hidden.
pub open spec fn text_drawn(c: TextCell, rows: usize, columns: usize) -> bool {
    0 <= c.line < rows && c.column < columns && !c.style.wide_spacer && !c.style.hidden
}

/// The index of the last run of `row`, or -1.
pub open spec fn last_run_of(runs: Seq<TextRun>, row: int) -> int
    decreases runs.len(),
{
    if runs.len() == 0 {
        -1
    } else if runs.last().row == row {
        runs.len() - 1
    } else {
        last_run_of(runs.drop_last(), row)
    }
}

/// The runs after the cells `cells`: a drawn cell lengthens the last run of
/// its row when it has the same style and selection, and starts a new run
/// otherwise; other cells change nothing.
pub open spec fn text_runs_of(cells: Seq<TextCell>, rows: usize, columns: usize) -> Seq<TextRun>
    decreases cells.len(),
{
    if cells.len() == 0 {
        Seq::empty()
    } else {
        let runs = text_runs_of(cells.drop_last(), rows, columns);
        let c = cells.last();
        if !text_drawn(c, rows, columns) {
            runs
        } else {
            let j = last_run_of(runs, c.line as int);
            if j >= 0 && runs[j].style == c.style && runs[j].selected == c.selected {
                runs.update(j, TextRun { len: (runs[j].len + c.bytes) as usize, ..runs[j] })
            } else {
                runs.push(TextRun { row: c.line as usize, style: c.style, selected: c.selected, len: c.bytes })
            }
        }
    }
}

/// The bytes of text the drawn cells carry.
pub open spec fn drawn_bytes(cells: Seq<TextCell>, rows: usize, columns: usize) -> nat
    decreases cells.len(),
{
    if cells.len() == 0 {
        0
    } else {
        drawn_bytes(cells.drop_last(), rows, columns) + if text_drawn(cells.last(), rows, columns) {
            cells.last().bytes as nat
        } else {
            0nat
        }
    }
}

/// The bytes the runs cover.
pub open spec fn run_bytes(runs: Seq<TextRun>) -> int
    decreases runs.len(),
{
    if runs.len() == 0 {
        0
    } else {
        run_bytes(runs.drop_last()) + runs.last().len
    }
}

proof fn lemma_run_bytes_push(runs: Seq<TextRun>, r: TextRun)
    ensures
        run_bytes(runs.push(r)) == run_bytes(runs) + r.len,
{
    assert(runs.push(r).drop_last() =~= runs);
}

/// Lengthening one run by `extra` adds `extra` to the bytes covered.
proof fn lemma_run_bytes_update(runs: Seq<TextRun>, j: int, r: TextRun)
    requires
        0 <= j < runs.len(),
    ensures
        run_bytes(runs.update(j, r)) == run_bytes(runs) + (r.len - runs[j].len),
    decreases runs.len(),
{
    let u = runs.update(j, r);
    if j == runs.len() - 1 {
        assert(u.drop_last() =~= runs.drop_last());
    } else {
        assert(u.drop_last() =~= runs.drop_last().update(j, r));
        lemma_run_bytes_update(runs.drop_last(), j, r);
    }
}

/// No run covers more than all the runs together.
proof fn lemma_run_within(runs: Seq<TextRun>, j: int)
    requires
        0 <= j < runs.len(),
    ensures
        runs[j].len <= run_bytes(runs),
    decreases runs.len(),
{
    lemma_run_bytes_nonnegative(runs.drop_last());
    if j < runs.len() - 1 {
        lemma_run_within(runs.drop_last(), j);
    }
}

proof fn lemma_run_bytes_nonnegative(runs: Seq<TextRun>)
    ensures
        run_bytes(runs) >= 0,
    decreases runs.len(),
{
    if runs.len() > 0 {
        lemma_run_bytes_nonnegative(runs.drop_last());
    }
}

/// The text runs cover exactly the text of the drawn cells: no drawn
/// cell's bytes are lost or counted twice, and the others add nothing.
pub proof fn law_text_runs_cover_drawn_text(cells: Seq<TextCell>, rows: usize, columns: usize)
    requires
        drawn_bytes(cells, rows, columns) <= usize::MAX,
    ensures
        run_bytes(text_runs_of(cells, rows, columns)) == drawn_bytes(cells, rows, columns),
    decreases cells.len(),
{
    if cells.len() > 0 {
        let rest = cells.drop_last();
        law_text_runs_cover_drawn_text(rest, rows, columns);
        let runs = text_runs_of(rest, rows, columns);
        let c = cells.last();
        if text_drawn(c, rows, columns) {
            let j = last_run_of(runs, c.line as int);
            lemma_last_run_in_range(runs, c.line as int);
            if j >= 0 && runs[j].style == c.style && runs[j].selected == c.selected {
                lemma_run_within(runs, j);
                lemma_run_bytes_update(runs, j, TextRun { len: (runs[j].len + c.bytes) as usize, ..runs[j] });
            } else {
                lemma_run_bytes_push(runs, TextRun { row: c.line as usize, style: c.style, selected: c.selected, len: c.bytes });
            }
        }
    }
}

proof fn lemma_last_run_in_range(runs: Seq<TextRun>, row: int)
    ensures
        -1 <= last_run_of(runs, row) < runs.len(),
        last_run_of(runs, row) >= 0 ==> runs[last_run_of(runs, row)].row == row,
    decreases runs.len(),
{
    if runs.len() > 0 && runs.last().row != row {
        lemma_last_run_in_range(runs.drop_last(), row);
    }
}

/// The text runs of the visible cells, one list for all rows in the order
/// the runs were started. Their lengths add up to the drawn text, which
/// must fit in memory.
pub fn text_runs(cells: &Vec<TextCell>, rows: usize, columns: usize) -> (r: Vec<TextRun>)
    requires
        drawn_bytes(cells@, rows, columns) <= usize::MAX,
    ensures
        r@ == text_runs_of(cells@, rows, columns),
{
    let mut runs: Vec<TextRun> = Vec::new();
    let mut i: usize = 0;
    while i < cells.len()
        invariant
            i <= cells@.len(),
            runs@ == text_runs_of(cells@.take(i as int), rows, columns),
            drawn_bytes(cells@, rows, columns) <= usize::MAX,
        decreases cells.len() - i,
    {
        let c = cells[i];
        let ghost before = cells@.take(i as int);
        let ghost after = cells@.take(i + 1);
        proof {
            assert(after.drop_last() =~= before);
            assert(after.last() == c);
            lemma_drawn_prefix(cells@, i as int, rows, columns);
            law_text_runs_cover_drawn_text(before, rows, columns);
            lemma_drawn_prefix(cells@, i + 1, rows, columns);
        }
        if c.line >= 0 && (c.line as u64) < (rows as u64) && c.column < columns && !c.style.wide_spacer
            && !c.style.hidden {
            let row = c.line as usize;
            let mut j = runs.len();
            while j > 0 && runs[j - 1].row != row
                invariant
                    j <= runs@.len(),
                    forall|k: int| j <= k < runs@.len() ==> runs@[k].row != row,
                decreases j,
            {
                j = j - 1;
            }
            proof {
                lemma_last_run_is(runs@, row as int, j as int - 1);
            }
            if j > 0 && runs[j - 1].style == c.style && runs[j - 1].selected == c.selected {
                let run = runs[j - 1];
                proof {
                    lemma_run_within(runs@, j - 1);
                }
                runs.set(j - 1, TextRun { len: run.len + c.bytes, ..run });
            } else {
                runs.push(TextRun { row, style: c.style, selected: c.selected, len: c.bytes });
            }
        }
        i = i + 1;
    }
    proof {
        assert(cells@.take(cells@.len() as int) =~= cells@);
    }
    runs
}

/// The drawn bytes of a prefix are at most those of the whole.
proof fn lemma_drawn_prefix(cells: Seq<TextCell>, k: int, rows: usize, columns: usize)
    requires
        0 <= k <= cells.len(),
    ensures
        drawn_bytes(cells.take(k), rows, columns) <= drawn_bytes(cells, rows, columns),
    decreases cells.len(),
{
    if k < cells.len() {
        assert(cells.drop_last().take(k) =~= cells.take(k));
        lemma_drawn_prefix(cells.drop_last(), k, rows, columns);
    } else {
        assert(cells.take(k) =~= cells);
    }
}

/// When the runs after `j` are of other rows and run `j` (if any) is of
/// `row`, it is the last run of `row`.
proof fn lemma_last_run_is(runs: Seq<TextRun>, row: int, j: int)
    requires
        -1 <= j < runs.len(),
        j >= 0 ==> runs[j].row == row,
        forall|k: int| j < k < runs.len() ==> runs[k].row != row,
    ensures
        last_run_of(runs, row) == j,
    decreases runs.len(),
{
    if runs.len() > 0 && j < runs.len() - 1 {
        lemma_last_run_is(runs.drop_last(), row, j);
    }
}

} // verus!
