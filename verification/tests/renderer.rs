use aquatui::canvas::{blank_lines, Cell};
use aquatui::color::Color;
use aquatui::entities::{Bubble, Direction, Fish, Seaweed};
use aquatui::renderer::{
    body_fits_check, draw_seaweed, render_bubble, render_fish, render_kame_house, render_seaweed,
    KAME_HOUSE, SAND, WEED,
};

fn blank() -> Cell {
    Cell { ch: ' ', fg: None }
}

fn ink(ch: char, color: Color) -> Cell {
    Cell { ch, fg: Some(color) }
}

fn fish_at(x: u16, y: u16, body: &[&str]) -> Fish {
    Fish {
        x,
        y,
        body: body.iter().map(|s| s.to_string()).collect(),
        color: Color::Cyan,
        speed: 1,
        direction: Direction::Right,
    }
}

#[test]
fn blank_lines_are_blank() {
    let lines = blank_lines(3, 2);
    assert_eq!(lines, vec![vec![blank(); 3]; 2]);
}

#[test]
fn render_fish_paints_each_character() {
    let mut lines = blank_lines(6, 3);
    render_fish(&mut lines, &fish_at(2, 1, &["><>"]), 6);
    assert_eq!(lines[1], vec![blank(), blank(), ink('>', Color::Cyan), ink('<', Color::Cyan), ink('>', Color::Cyan), blank()]);
    assert_eq!(lines[0], vec![blank(); 6]);
    assert_eq!(lines[2], vec![blank(); 6]);
}

#[test]
fn render_fish_clips_at_the_right_edge_and_below() {
    let mut lines = blank_lines(6, 2);
    render_fish(&mut lines, &fish_at(4, 1, &["abc", "def"]), 6);
    assert_eq!(lines[1][4], ink('a', Color::Cyan));
    assert_eq!(lines[1][5], ink('b', Color::Cyan));
    assert_eq!(lines[0], vec![blank(); 6]);
}

#[test]
fn render_fish_reads_far_columns_as_negative() {
    let mut lines = blank_lines(6, 1);
    render_fish(&mut lines, &fish_at(65534, 0, &["><>"]), 6);
    assert_eq!(lines[0][0], ink('>', Color::Cyan));
    assert_eq!(lines[0][1..], vec![blank(); 5][..]);
}

#[test]
fn render_fish_stays_inside_the_inner_width() {
    let mut lines = blank_lines(6, 1);
    render_fish(&mut lines, &fish_at(1, 0, &["wxyz"]), 3);
    assert_eq!(lines[0], vec![blank(), ink('w', Color::Cyan), ink('x', Color::Cyan), blank(), blank(), blank()]);
}

#[test]
fn body_fits_check_finds_too_long_lines() {
    let body = vec!["x".repeat(10)];
    assert!(body_fits_check(&body, 100, 0, 5));
    assert!(body_fits_check(&body, 32758, 0, 5));
    assert!(!body_fits_check(&body, 32759, 0, 5));
    assert!(body_fits_check(&body, 32759, 7, 5));
}

#[test]
fn render_bubble_clamps_to_last_column() {
    let mut lines = blank_lines(6, 3);
    let b = Bubble { x: 10, y: 1, frame: 2, z_index: 0, color: Color::LightBlue };
    render_bubble(&mut lines, &b, 6);
    assert_eq!(lines[1][5], ink('o', Color::LightBlue));
    assert_eq!(lines[1][..5], vec![blank(); 5][..]);
    let below = Bubble { x: 1, y: 3, frame: 0, z_index: 0, color: Color::White };
    render_bubble(&mut lines, &below, 6);
    assert_eq!(lines.len(), 3);
}

#[test]
fn render_seaweed_stacks_lines_upwards() {
    let mut lines = blank_lines(4, 6);
    let s = Seaweed { x: 1, y: 5, frame: 0, z_index: 0, height: 3 };
    render_seaweed(&mut lines, &s, 4, 6);
    assert_eq!(lines[5][1], ink('(', Color::Green));
    assert_eq!(lines[4][1], ink(')', Color::Green));
    assert_eq!(lines[3][1], ink('(', Color::Green));
    assert_eq!(lines[2][1], blank());
}

#[test]
fn render_seaweed_piles_up_on_the_top_row() {
    let mut lines = blank_lines(4, 3);
    let s = Seaweed { x: 9, y: 1, frame: 1, z_index: 0, height: 6 };
    render_seaweed(&mut lines, &s, 4, 3);
    assert_eq!(lines[1][3], ink(')', Color::Green));
    assert_eq!(lines[0][3], ink(')', Color::Green));
}

#[test]
fn draw_seaweed_paints_sand_and_weed() {
    let mut lines = blank_lines(12, 6);
    draw_seaweed(&mut lines, 10, 6, 0);
    for c in 0..10 {
        assert_eq!(lines[5][c], ink(SAND[c % 9], Color::Yellow));
        for r in 2..5 {
            assert_eq!(lines[r][c], ink(WEED[c % 6], Color::Green));
        }
    }
    assert_eq!(lines[5][10], blank());
    assert_eq!(lines[1][0], blank());
}

#[test]
fn draw_seaweed_sand_shifts_every_third_frame() {
    let mut lines = blank_lines(5, 4);
    draw_seaweed(&mut lines, 5, 4, 7);
    assert_eq!(lines[3][0], ink(SAND[2], Color::Yellow));
    assert_eq!(lines[3][0].ch, '°');
    assert_eq!(lines[0][1], ink('≈', Color::Green));
}

#[test]
fn render_kame_house_sits_above_the_floor_on_the_right() {
    let mut lines = blank_lines(40, 20);
    render_kame_house(&mut lines, 40, 20);
    assert_eq!(lines[11][24], ink('_', Color::Yellow));
    assert_eq!(lines[12][23], ink('/', Color::Yellow));
    assert_eq!(lines[12][27], ink('K', Color::Magenta));
    assert_eq!(lines[14][22], ink('|', Color::Yellow));
    assert_eq!(lines[14][25], ink('[', Color::Blue));
    assert_eq!(lines[10], vec![blank(); 40]);
    assert_eq!(lines[16], vec![blank(); 40]);
    assert_eq!(KAME_HOUSE.lines().count(), 6);
}

#[test]
fn render_kame_house_on_a_narrow_screen_starts_at_the_left() {
    let mut lines = blank_lines(8, 5);
    render_kame_house(&mut lines, 8, 5);
    assert_eq!(lines[1][2], ink('_', Color::Yellow));
    assert_eq!(lines[2][1], ink('/', Color::Yellow));
    assert_eq!(lines[0], vec![blank(); 8]);
}
