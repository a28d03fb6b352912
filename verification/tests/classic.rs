use aquatui::canvas::Cell;
use aquatui::chance::pick_weighted;
use aquatui::classic::bubble::Bubble;
use aquatui::classic::fish::{Direction, Fish, LEFT_FISH, RIGHT_FISH};
use aquatui::classic::scene::{
    compose, quits, screen_fits_check, sort_bubbles, spawn_bubbles, spawn_fishes, spawn_seaweeds,
    tick, tick_due, BUBBLE_COUNT, FISH_COUNT, SEAWEED_COUNT,
};
use aquatui::classic::seaweed::{draw_seaweed, Seaweed};
use aquatui::color::Color;
use aquatui::layers::{gather, stable_layer_order};

fn ink(ch: char, color: Color) -> Cell {
    Cell { ch, fg: Some(color) }
}

#[test]
fn classic_fish_update_right_and_left() {
    let mut f = Fish { x: 3, y: 2, body: vec![">".to_string()], color: Color::Cyan, speed: 2, direction: Direction::Right };
    assert!(f.update(0));
    assert_eq!(f.x, 5);
    let mut g = Fish { x: 3, y: 2, body: vec!["<".to_string()], color: Color::Cyan, speed: 2, direction: Direction::Left };
    assert!(g.update(50));
    assert_eq!(g.x, 1);
    assert!(!g.update(50));
    assert_eq!(g.x, 1);
}

#[test]
fn classic_fish_weights_and_looks() {
    assert_eq!(RIGHT_FISH.iter().map(|k| k.1).collect::<Vec<_>>(), vec![3, 3, 3, 1, 1, 1]);
    assert_eq!(LEFT_FISH.iter().map(|k| k.1).collect::<Vec<_>>(), vec![10, 10, 10, 10, 1, 10, 1]);
    let f = Fish::from_draws(30, Direction::Left, 1, 5, Color::Yellow, 4);
    assert_eq!(f.body, vec!["", "()< ()<   ()<   ()<", " ()< ()<   ()<    ()<", "   ()<  ()< ()< ()< ()<", "()<   ()<     ()<   ()<"]);
    assert_eq!(f.x, 30);
    let d = Fish::from_draws(30, Direction::Left, 1, 6, Color::Yellow, 4);
    assert_eq!(d.body.len(), 24);
    assert_eq!(d.body[1], "                          A       ;");
}

#[test]
fn classic_bubble_cycles_three_looks() {
    let mut b = Bubble::new(2, 5, 1);
    let mut seen = Vec::new();
    for _ in 0..4 {
        seen.push(b.current_symbol());
        b.rise(9, 1);
    }
    assert_eq!(seen, vec![".", "o", "0", "."]);
    assert_eq!(b.y, 1);
}

#[test]
fn classic_draw_seaweed_weed_pattern() {
    let mut lines = vec![vec![Cell { ch: ' ', fg: None }; 7]; 5];
    draw_seaweed(&mut lines, 12, 5);
    let expect = ['~', '≡', '≡', '~', '≡', '~', '≡'];
    for r in 1..5 {
        for c in 0..7 {
            assert_eq!(lines[r][c], ink(expect[c], Color::Green));
        }
    }
    assert_eq!(lines[0][0].fg, None);
}

#[test]
fn stable_layer_order_sorts_by_depth_and_keeps_ties() {
    assert_eq!(stable_layer_order(&vec![2, 0, 1, 0, 2]), vec![1, 3, 2, 0, 4]);
    assert_eq!(stable_layer_order(&vec![]), Vec::<usize>::new());
    assert_eq!(gather(&vec!['a', 'b', 'c'], &vec![2, 0]), vec!['c', 'a']);
}

#[test]
fn sort_bubbles_is_stable_by_depth() {
    let mut bs = vec![Bubble::new(0, 0, 2), Bubble::new(1, 0, 0), Bubble::new(2, 0, 2), Bubble::new(3, 0, 1)];
    sort_bubbles(&mut bs);
    assert_eq!(bs.iter().map(|b| b.x).collect::<Vec<_>>(), vec![1, 3, 0, 2]);
}

#[test]
fn pick_weighted_never_picks_zero_weight() {
    let mut rng = rand::rng();
    for _ in 0..100 {
        assert_eq!(pick_weighted(&vec![0, 5, 0], &mut rng), 1);
    }
}

#[test]
fn spawns_respect_the_screen() {
    let mut rng = rand::rng();
    let fs = spawn_fishes(FISH_COUNT, 80, 24, &mut rng);
    assert_eq!(fs.len(), 10);
    for f in &fs {
        assert!((2..18).contains(&f.y));
        assert!(f.x == 0 || f.x == 78);
    }
    let bs = spawn_bubbles(BUBBLE_COUNT, 80, 24, &mut rng);
    assert_eq!(bs.len(), 40);
    let depths: std::collections::HashSet<u8> = bs.iter().map(|b| b.z_index).collect();
    assert!(depths.len() > 1);
    let columns: std::collections::HashSet<u16> = bs.iter().map(|b| b.x).collect();
    assert!(columns.len() > 1);
    for b in &bs {
        assert!((1..79).contains(&b.x) && (1..23).contains(&b.y) && b.z_index < 3 && b.frame == 0);
    }
    let ss = spawn_seaweeds(SEAWEED_COUNT, 80, 24, &mut rng);
    assert_eq!(ss.len(), 30);
    for s in &ss {
        assert!((1..79).contains(&s.x) && s.y == 19 && s.z_index < 3 && (2..=6).contains(&s.height));
    }
}

#[test]
fn tick_moves_everything_and_refills_fish() {
    let mut rng = rand::rng();
    let gone = Fish { x: 1, y: 3, body: vec!["<".to_string()], color: Color::Cyan, speed: 2, direction: Direction::Left };
    let stays = Fish { x: 10, y: 4, body: vec![">".to_string()], color: Color::Yellow, speed: 1, direction: Direction::Right };
    let mut bubbles = vec![Bubble::new(5, 3, 0), Bubble::new(6, 0, 1)];
    let mut weeds = vec![Seaweed { x: 2, y: 7, frame: 1, z_index: 0, height: 3 }];
    let next = tick(vec![gone, stays], &mut bubbles, &mut weeds, 3, 40, 20, &mut rng);
    assert_eq!(next.len(), 3);
    assert_eq!((next[0].x, next[0].y), (11, 4));
    assert_eq!((bubbles[0].x, bubbles[0].y, bubbles[0].frame), (5, 2, 1));
    assert_eq!(bubbles[1].y, 18);
    assert!((1..39).contains(&bubbles[1].x));
    assert_eq!(weeds[0].frame, 0);
}

#[test]
fn compose_draws_a_full_frame() {
    let fishes = vec![Fish { x: 1, y: 1, body: vec!["><>".to_string()], color: Color::LightBlue, speed: 1, direction: Direction::Right }];
    let mut bubbles = vec![Bubble::new(9, 2, 2), Bubble::new(9, 2, 0)];
    bubbles[1].frame = 2;
    let mut weeds = vec![Seaweed { x: 3, y: 7, frame: 0, z_index: 1, height: 2 }];
    let lines = compose(&fishes, &mut bubbles, &mut weeds, 40, 20, 38, 18);
    assert_eq!(lines.len(), 18);
    assert!(lines.iter().all(|r| r.len() == 38));
    assert_eq!(lines[1][1], ink('>', Color::LightBlue));
    assert_eq!(lines[1][2], ink('<', Color::LightBlue));
    assert_eq!(lines[2][9], ink('.', Color::Cyan));
    assert_eq!(bubbles[0].z_index, 0);
    assert_eq!(lines[7][3], ink('(', Color::Green));
    assert_eq!(lines[6][3], ink(')', Color::Green));
    assert_eq!(lines[17][0], ink('~', Color::Green));
    assert_eq!(lines[11][24], ink('_', Color::Magenta));
    assert_eq!(lines[11][28], ink('K', Color::Magenta));
}

#[test]
fn classic_right_fish_leaves_within_its_bound() {
    let mut f = Fish { x: 0, y: 2, body: vec![">".to_string()], color: Color::Cyan, speed: 1, direction: Direction::Right };
    let mut moves = 0;
    while f.update(0) {
        moves += 1;
        assert_eq!(f.x, moves);
    }
    assert_eq!(moves, 9);
    assert_eq!(f.x, 10);
}

#[test]
fn classic_left_fish_leaves_within_its_column() {
    let mut f = Fish { x: 5, y: 2, body: vec!["<".to_string()], color: Color::Cyan, speed: 2, direction: Direction::Left };
    assert!(f.update(40));
    assert_eq!(f.x, 3);
    assert!(f.update(40));
    assert_eq!(f.x, 1);
    assert!(!f.update(40));
    assert_eq!(f.x, 1);
}

#[test]
fn classic_bubble_climbs_then_comes_back() {
    let mut rng = rand::rng();
    let mut b = Bubble::new(4, 2, 1);
    b.update(10, 5, &mut rng);
    assert_eq!((b.x, b.y, b.frame), (4, 1, 1));
    b.update(10, 5, &mut rng);
    assert_eq!((b.x, b.y, b.frame), (4, 0, 2));
    b.update(10, 5, &mut rng);
    assert_eq!((b.y, b.frame, b.z_index), (10, 0, 1));
    assert!((1..5).contains(&b.x));
}

#[test]
fn classic_seaweed_sway_turns_every_bend() {
    let mut s = Seaweed { x: 3, y: 8, frame: 0, z_index: 1, height: 4 };
    let before = s.current_symbol();
    assert_eq!(before, vec!["", "(", ")", "(", ")", "("]);
    s.update();
    let after = s.current_symbol();
    assert_eq!(after, vec!["", ")", "(", ")", "(", ")"]);
    for i in 1..6 {
        assert_ne!(before[i], after[i]);
    }
}

#[test]
fn house_is_drawn_over_a_fish() {
    let wide = "ABCDEFGHIJKLMNOPQRSTU".to_string();
    let fishes = vec![Fish { x: 20, y: 11, body: vec![wide], color: Color::Yellow, speed: 1, direction: Direction::Right }];
    let mut bubbles = vec![Bubble::new(25, 12, 0)];
    let mut weeds = vec![];
    let lines = compose(&fishes, &mut bubbles, &mut weeds, 40, 20, 38, 18);
    assert_eq!(lines[11][20], ink('A', Color::Yellow));
    assert_eq!(lines[11][21], ink('B', Color::Yellow));
    assert_eq!(lines[11][22], ink(' ', Color::Magenta));
    assert_eq!(lines[11][24], ink('_', Color::Magenta));
    assert_eq!(lines[12][25], ink(' ', Color::Magenta));
    assert_eq!(lines[12][23], ink('/', Color::Magenta));
}

#[test]
fn screen_fits_only_usual_terminals() {
    assert!(screen_fits_check(80, 24));
    assert!(screen_fits_check(3, 9));
    assert!(!screen_fits_check(2, 24));
    assert!(!screen_fits_check(80, 8));
    assert!(screen_fits_check(32000, 24));
    assert!(screen_fits_check(32698, 9));
    assert!(!screen_fits_check(32699, 24));
    assert!(!screen_fits_check(0x8000, 24));
}

#[test]
fn loop_moves_every_frame_and_stops_on_q() {
    assert!(!tick_due(99));
    assert!(tick_due(100));
    assert!(tick_due(250));
    assert!(quits('q'));
    assert!(!quits('Q'));
    assert!(!quits(' '));
}
