use aquatui::color::Color;
use aquatui::entities::{
    Bubble, Direction, Fish, Seaweed, BUBBLE_FRAMES, LEFT_FISH, RIGHT_FISH, SEAWEED_FRAMES,
};

fn fish(x: u16, speed: u16, direction: Direction) -> Fish {
    Fish { x, y: 4, body: vec!["><>".to_string()], color: Color::Cyan, speed, direction }
}

#[test]
fn right_fish_moves_right_while_in_water() {
    let mut f = fish(5, 2, Direction::Right);
    assert!(f.update(10));
    assert_eq!(f.x, 7);
    assert_eq!(f.y, 4);
    assert_eq!(f.speed, 2);
}

#[test]
fn right_fish_leaves_ten_cells_past_the_edge() {
    let mut f = fish(18, 2, Direction::Right);
    assert!(!f.update(10));
    assert_eq!(f.x, 20);
    let mut g = fish(17, 2, Direction::Right);
    assert!(g.update(10));
    assert_eq!(g.x, 19);
}

#[test]
fn left_fish_moves_left_until_the_edge() {
    let mut f = fish(5, 2, Direction::Left);
    assert!(f.update(80));
    assert_eq!(f.x, 3);
    assert!(f.update(80));
    assert_eq!(f.x, 1);
    assert!(!f.update(80));
    assert_eq!(f.x, 1);
}

#[test]
fn left_fish_at_its_speed_is_gone_and_stays_put() {
    let mut f = fish(2, 2, Direction::Left);
    assert!(!f.update(80));
    assert_eq!(f.x, 2);
}

#[test]
fn fish_equality_is_by_position() {
    let a = fish(3, 1, Direction::Left);
    let mut b = fish(3, 2, Direction::Right);
    b.body = vec!["<><".to_string()];
    b.color = Color::Yellow;
    assert!(a == b);
    let c = fish(4, 1, Direction::Left);
    assert!(a != c);
}

#[test]
fn fish_from_draws_builds_the_drawing() {
    let f = Fish::from_draws(70, Direction::Right, 2, 3, Color::Yellow, 9);
    assert_eq!(f.x, 0);
    assert_eq!(f.y, 9);
    assert_eq!(f.speed, 2);
    assert_eq!(f.color, Color::Yellow);
    assert_eq!(f.body, vec!["", r"  \\", r" / \\", ">=_('>", r" \\_/", "   /"]);
    let g = Fish::from_draws(70, Direction::Left, 1, 0, Color::Cyan, 3);
    assert_eq!(g.x, 70);
    assert_eq!(g.body, vec!["<°))><"]);
}

#[test]
fn fish_from_draws_of_big_right_fish() {
    let f = Fish::from_draws(50, Direction::Right, 1, 4, Color::Cyan, 5);
    assert_eq!(f.body.len(), 6);
    assert_eq!(f.body[0], "");
    assert_eq!(f.body[1], "        ,--,_");
    assert_eq!(f.body[5], "        `\"--(/");
}

#[test]
fn new_fish_is_fresh() {
    let mut rng = rand::rng();
    let palette = [Color::Cyan, Color::LightMagenta, Color::Yellow, Color::LightBlue];
    for _ in 0..300 {
        let f = Fish::new(60, 30, &mut rng);
        match f.direction {
            Direction::Right => assert_eq!(f.x, 0),
            Direction::Left => assert_eq!(f.x, 60),
        }
        assert!((1..3).contains(&f.speed));
        assert!((2..26).contains(&f.y));
        assert!(palette.contains(&f.color));
        let kinds = match f.direction {
            Direction::Right => &RIGHT_FISH[..],
            Direction::Left => &LEFT_FISH[..],
        };
        assert!(kinds.iter().any(|(art, _)| {
            art.lines().map(|l| l.trim_end().to_string()).collect::<Vec<_>>() == f.body
        }));
    }
}

#[test]
fn new_fish_swim_both_ways_and_take_several_looks() {
    let mut rng = rand::rng();
    let mut rights = 0;
    let mut bodies = std::collections::HashSet::new();
    let mut colors = Vec::new();
    let mut rows = std::collections::HashSet::new();
    for _ in 0..400 {
        let f = Fish::new(60, 30, &mut rng);
        if !colors.contains(&f.color) {
            colors.push(f.color);
        }
        rows.insert(f.y);
        if f.direction == Direction::Right {
            rights += 1;
        }
        bodies.insert(f.body.clone());
    }
    assert!(rights > 100 && rights < 300);
    assert!(bodies.len() >= 6);
    assert_eq!(colors.len(), 4);
    assert!(rows.len() > 10);
}

#[test]
fn bubble_rises_and_advances_its_look() {
    let mut rng = rand::rng();
    let mut b = Bubble { x: 7, y: 3, frame: 5, z_index: 1, color: Color::White };
    b.update(20, 40, &mut rng);
    assert_eq!((b.x, b.y, b.frame, b.z_index, b.color), (7, 2, 0, 1, Color::White));
}

#[test]
fn bubble_at_top_reappears_at_bottom() {
    let mut rng = rand::rng();
    let mut columns = std::collections::HashSet::new();
    for _ in 0..100 {
        let mut b = Bubble { x: 7, y: 0, frame: 2, z_index: 0, color: Color::Cyan };
        b.update(20, 5, &mut rng);
        assert_eq!(b.y, 20);
        assert!((1..5).contains(&b.x));
        assert_eq!(b.frame, 3);
        columns.insert(b.x);
    }
    assert_eq!(columns.len(), 4);
}

#[test]
fn bubble_rise_uses_given_column() {
    let mut b = Bubble { x: 7, y: 0, frame: 0, z_index: 0, color: Color::Cyan };
    b.rise(12, 3);
    assert_eq!((b.x, b.y, b.frame), (3, 12, 1));
}

#[test]
fn bubble_new_starts_at_first_look() {
    let mut rng = rand::rng();
    let palette = [Color::Cyan, Color::LightBlue, Color::White, Color::LightCyan];
    for _ in 0..50 {
        let b = Bubble::new(4, 9, 2, &mut rng);
        assert_eq!((b.x, b.y, b.frame, b.z_index), (4, 9, 0, 2));
        assert!(palette.contains(&b.color));
    }
}

#[test]
fn bubble_symbols_cycle() {
    let mut b = Bubble { x: 0, y: 100, frame: 0, z_index: 0, color: Color::Cyan };
    let mut seen = Vec::new();
    for _ in 0..7 {
        seen.push(b.current_symbol());
        b.rise(100, 1);
    }
    assert_eq!(seen, vec![".", "·", "o", "°", "O", "0", "."]);
    assert_eq!(BUBBLE_FRAMES.len(), 6);
}

#[test]
fn seaweed_sways_between_two_looks() {
    let mut s = Seaweed { x: 3, y: 8, frame: 0, z_index: 1, height: 4 };
    assert_eq!(s.current_symbol(), vec!["", "(", ")", "(", ")", "("]);
    s.update();
    assert_eq!(s.frame, 1);
    assert_eq!(s.current_symbol(), vec!["", ")", "(", ")", "(", ")"]);
    s.update();
    assert_eq!(s.frame, 0);
    assert_eq!((s.x, s.y, s.z_index, s.height), (3, 8, 1, 4));
    assert_eq!(SEAWEED_FRAMES.len(), 2);
}

#[test]
fn seaweed_new_has_height_two_to_six() {
    let mut rng = rand::rng();
    let mut seen = std::collections::HashSet::new();
    for _ in 0..300 {
        let s = Seaweed::new(1, 2, 0, &mut rng);
        assert_eq!((s.x, s.y, s.frame, s.z_index), (1, 2, 0, 0));
        assert!((2..=6).contains(&s.height));
        seen.insert(s.height);
    }
    assert_eq!(seen.len(), 5);
}

#[test]
fn right_fish_leaves_within_ten_cells_of_the_edge() {
    let mut f = fish(0, 1, Direction::Right);
    let mut moves = 0;
    while f.update(3) {
        moves += 1;
    }
    assert_eq!(moves, 12);
    assert_eq!(f.x, 13);
}

#[test]
fn bubble_climbs_then_comes_back_with_its_colour() {
    let mut rng = rand::rng();
    let mut b = Bubble { x: 6, y: 1, frame: 4, z_index: 2, color: Color::LightCyan };
    b.update(15, 8, &mut rng);
    assert_eq!((b.x, b.y, b.frame), (6, 0, 5));
    b.update(15, 8, &mut rng);
    assert_eq!((b.y, b.frame, b.z_index, b.color), (15, 0, 2, Color::LightCyan));
    assert!((1..8).contains(&b.x));
}
