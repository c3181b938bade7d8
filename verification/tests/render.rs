use oxide_ssh::model::{AuthConfig, ConnectionProfile, Endpoint, ProfileId};
use oxide_ssh::render::{
    avatar_color, avatar_initial, background_segments, cursor_cell, endpoint_label, text_runs,
    BackgroundSegment, PaintedCell, TextCell, TextRun,
};
use oxide_ssh::terminal::{CellRenderStyle, RgbColor};

const DEFAULT: u32 = 0x0011_1318;
const RED: u32 = 0x00e0_6c75;
const BLUE: u32 = 0x0061_afef;
const SELECTION: u32 = 0x0026_4f78;

fn cell(line: i64, column: usize, background: u32, selected: bool) -> PaintedCell {
    PaintedCell { line, column, background, selected }
}

fn segment(row: usize, start: usize, end: usize, color: u32) -> BackgroundSegment {
    BackgroundSegment { row, start, end, color }
}

#[test]
fn adjacent_cells_of_one_color_share_a_segment() {
    let cells = vec![
        cell(0, 0, DEFAULT, false),
        cell(0, 1, RED, false),
        cell(0, 2, RED, false),
        cell(0, 3, BLUE, false),
        cell(0, 4, DEFAULT, false),
        cell(0, 5, RED, false),
        cell(1, 0, SELECTION, true),
        cell(1, 1, SELECTION, true),
    ];
    assert_eq!(
        background_segments(&cells, 24, 80, DEFAULT),
        vec![
            segment(0, 1, 3, RED),
            segment(0, 3, 4, BLUE),
            segment(0, 5, 6, RED),
            segment(1, 0, 2, SELECTION),
        ]
    );
}

#[test]
fn selected_default_cells_are_painted_and_rows_do_not_merge() {
    let cells = vec![
        cell(0, 79, RED, false),
        cell(1, 0, RED, false),
        cell(2, 0, DEFAULT, true),
    ];
    assert_eq!(
        background_segments(&cells, 24, 80, DEFAULT),
        vec![segment(0, 79, 80, RED), segment(1, 0, 1, RED), segment(2, 0, 1, DEFAULT)]
    );
}

#[test]
fn cells_outside_the_grid_are_passed_over() {
    let cells = vec![
        cell(-1, 0, RED, false),
        cell(0, 0, RED, false),
        cell(0, 80, RED, false),
        cell(0, 1, RED, false),
        cell(24, 2, RED, false),
    ];
    assert_eq!(background_segments(&cells, 24, 80, DEFAULT), vec![segment(0, 0, 2, RED)]);
    assert_eq!(background_segments(&Vec::new(), 24, 80, DEFAULT), Vec::new());
}

/// The palette index as a host card computes it: the id's bytes folded
/// into a word-sized hash.
fn card_index(id: u128) -> usize {
    let hash = uuid::Uuid::from_u128(id)
        .as_bytes()
        .iter()
        .fold(0usize, |acc, byte| acc.wrapping_mul(31).wrapping_add(*byte as usize));
    hash % 8
}

const PALETTE: [u32; 8] = [
    0x006b_8cae, 0x007b_a389, 0x00b5_936b, 0x009a_7bb5, 0x005f_9ea8, 0x00b5_7e7e, 0x007e_93b8,
    0x00a8_927c,
];

#[test]
fn avatar_color_follows_the_id_hash() {
    assert_eq!(avatar_color(ProfileId(0)), 0x006b_8cae);
    assert_eq!(avatar_color(ProfileId(1)), 0x007b_a389);
    for id in [
        0u128,
        1,
        0xff,
        0x0123_4567_89ab_cdef_0123_4567_89ab_cdef,
        u128::MAX,
        uuid::Uuid::new_v4().as_u128(),
    ] {
        assert_eq!(avatar_color(ProfileId(id)), PALETTE[card_index(id)], "{id:x}");
    }
    let id = ProfileId::new();
    assert_eq!(avatar_color(id), avatar_color(id));
}

#[test]
fn avatar_initial_is_the_upper_cased_first_letter() {
    assert_eq!(avatar_initial("  web server "), "W");
    assert_eq!(avatar_initial("éclair"), "É");
    assert_eq!(avatar_initial("ßeta"), "SS");
    assert_eq!(avatar_initial("测试"), "测");
    assert_eq!(avatar_initial(""), "?");
    assert_eq!(avatar_initial(" \t "), "?");
}

#[test]
fn endpoint_label_is_user_at_host_and_port() {
    let profile = ConnectionProfile {
        id: ProfileId::new(),
        name: "Fixture".into(),
        endpoint: Endpoint { host: "example.com".into(), port: 2222 },
        username: "oxide".into(),
        auth: AuthConfig::Agent,
    };
    assert_eq!(endpoint_label(&profile), "oxide@example.com:2222");
}

#[test]
fn the_cursor_is_drawn_only_inside_the_grid_and_when_not_hidden() {
    assert_eq!(cursor_cell(2, 5, false, 24, 80), Some((2, 5)));
    assert_eq!(cursor_cell(0, 0, false, 24, 80), Some((0, 0)));
    assert_eq!(cursor_cell(2, 5, true, 24, 80), None);
    assert_eq!(cursor_cell(-1, 5, false, 24, 80), None);
    assert_eq!(cursor_cell(24, 5, false, 24, 80), None);
    assert_eq!(cursor_cell(23, 80, false, 24, 80), None);
}

fn style(foreground: u8, bold: bool) -> CellRenderStyle {
    CellRenderStyle {
        foreground: RgbColor::new(foreground, foreground, foreground),
        background: RgbColor::new(0, 0, 0),
        bold,
        italic: false,
        underline: false,
        strikeout: false,
        hidden: false,
        wide: false,
        wide_spacer: false,
    }
}

fn text(line: i64, column: usize, style: CellRenderStyle, selected: bool, bytes: usize) -> TextCell {
    TextCell { line, column, style, selected, bytes }
}

#[test]
fn cells_of_one_style_join_the_last_run_of_their_row() {
    let plain = style(200, false);
    let bold = style(200, true);
    let cells = vec![
        text(0, 0, plain, false, 1),
        text(0, 1, plain, false, 3),
        text(1, 0, plain, false, 1),
        text(0, 2, bold, false, 1),
        text(0, 3, bold, true, 2),
        text(1, 1, plain, false, 4),
    ];
    let runs = text_runs(&cells, 24, 80);
    assert_eq!(
        runs,
        vec![
            TextRun { row: 0, style: plain, selected: false, len: 4 },
            TextRun { row: 1, style: plain, selected: false, len: 5 },
            TextRun { row: 0, style: bold, selected: false, len: 1 },
            TextRun { row: 0, style: bold, selected: true, len: 2 },
        ]
    );
    let covered: usize = runs.iter().map(|r| r.len).sum();
    let drawn: usize = cells.iter().map(|c| c.bytes).sum();
    assert_eq!(covered, drawn);
}

#[test]
fn spacers_hidden_and_outside_cells_add_no_text() {
    let plain = style(200, false);
    let mut spacer = plain;
    spacer.wide_spacer = true;
    let mut hidden = plain;
    hidden.hidden = true;
    let cells = vec![
        text(0, 0, plain, false, 3),
        text(0, 1, spacer, false, 1),
        text(0, 2, hidden, false, 1),
        text(-1, 0, plain, false, 1),
        text(0, 80, plain, false, 1),
        text(0, 3, plain, false, 1),
    ];
    let runs = text_runs(&cells, 24, 80);
    assert_eq!(runs, vec![TextRun { row: 0, style: plain, selected: false, len: 4 }]);
}

#[test]
fn segments_of_ordered_cells_cannot_be_joined() {
    let cells = vec![
        cell(0, 0, RED, false),
        cell(0, 1, RED, false),
        cell(0, 2, DEFAULT, false),
        cell(0, 3, RED, false),
        cell(0, 4, BLUE, false),
        cell(1, 0, BLUE, false),
    ];
    let segments = background_segments(&cells, 24, 80, DEFAULT);
    assert_eq!(
        segments,
        vec![segment(0, 0, 2, RED), segment(0, 3, 4, RED), segment(0, 4, 5, BLUE), segment(1, 0, 1, BLUE)]
    );
    for pair in segments.windows(2) {
        assert!(!(pair[0].row == pair[1].row && pair[0].end == pair[1].start && pair[0].color == pair[1].color));
    }
}
