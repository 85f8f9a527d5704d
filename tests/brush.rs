use sand_game::input::{handle_mouse_click, handle_mouse_drag, Brush};
use sand_game::sand::{BrushKind, Game, ParticleKind, ParticleSystem};
use sand_game::util::{Coord, SUBCELLS};

fn at_cell(x: i32, y: i32) -> Coord {
    Coord::new(x * SUBCELLS, y * SUBCELLS)
}

fn occupied(sys: &ParticleSystem) -> Vec<(usize, usize)> {
    let mut out = Vec::new();
    for y in 0..sys.grid.height {
        for x in 0..sys.grid.width {
            if sys.grid.get(x, y).is_some() {
                out.push((x, y));
            }
        }
    }
    out
}

#[test]
fn circle_fill_around_five_five() {
    let mut sys = ParticleSystem::new(10, 10);
    let kind = ParticleKind::Base(1);
    let brush = Brush { kind: BrushKind::Draw(kind), radius: 2 * SUBCELLS as u32 };
    sys.fill_circle(at_cell(5, 5), &brush);
    for y in 0..10usize {
        for x in 0..10usize {
            let dx = x as i64 - 5;
            let dy = y as i64 - 5;
            let expected = dx * dx + dy * dy <= 4;
            match sys.particle_at(x, y) {
                Some(p) => {
                    assert!(expected, "cell ({}, {}) should stay empty", x, y);
                    assert_eq!(p.kind, kind);
                }
                None => assert!(!expected, "cell ({}, {}) should be filled", x, y),
            }
        }
    }
    assert_eq!(occupied(&sys).len(), 13);
    assert!(sys.grid.get(7, 5).is_some());
    assert!(sys.grid.get(5, 7).is_some());
    assert!(sys.grid.get(7, 6).is_none());
    assert!(sys.grid.get(3, 5).is_some());
    assert!(sys.grid.get(5, 3).is_some());
}

#[test]
fn circle_fill_off_canvas_is_clipped() {
    let mut sys = ParticleSystem::new(4, 4);
    let brush = Brush { kind: BrushKind::Draw(ParticleKind::Base(0)), radius: 2 * SUBCELLS as u32 };
    sys.fill_circle(at_cell(-1, 0), &brush);
    assert_eq!(occupied(&sys), vec![(0, 0), (1, 0), (0, 1)]);
    sys.fill_circle(at_cell(3, 3), &brush);
    assert_eq!(
        occupied(&sys),
        vec![(0, 0), (1, 0), (0, 1), (3, 1), (2, 2), (3, 2), (1, 3), (2, 3), (3, 3)]
    );
}

#[test]
fn circle_erase_removes_only_the_disk() {
    let mut sys = ParticleSystem::new(6, 6);
    for y in 0..6 {
        for x in 0..6 {
            sys.draw_point(x, y, &BrushKind::Draw(ParticleKind::Base(0)));
        }
    }
    let brush = Brush { kind: BrushKind::Eraser, radius: SUBCELLS as u32 };
    sys.fill_circle(at_cell(2, 2), &brush);
    let left = occupied(&sys);
    assert_eq!(left.len(), 36 - 5);
    assert!(!left.contains(&(2, 2)));
    assert!(!left.contains(&(1, 2)));
    assert!(!left.contains(&(2, 1)));
    assert!(!left.contains(&(3, 2)));
    assert!(!left.contains(&(2, 3)));
    assert!(left.contains(&(3, 3)));
}

#[test]
fn capsule_fill_down_the_left_edge() {
    let mut sys = ParticleSystem::new(10, 10);
    let brush = Brush { kind: BrushKind::Draw(ParticleKind::Base(0)), radius: SUBCELLS as u32 };
    sys.fill_line(at_cell(0, 0), at_cell(0, 5), &brush);
    for y in 0..=5 {
        assert!(sys.grid.get(0, y).is_some(), "column 0, row {}", y);
        // exactly one radius away: on the perpendicular bound
        assert!(sys.grid.get(1, y).is_some(), "column 1, row {}", y);
        assert!(sys.grid.get(2, y).is_none());
    }
    // the end disk reaches one cell past the segment
    assert!(sys.grid.get(0, 6).is_some());
    assert!(sys.grid.get(1, 6).is_none());
    assert!(sys.grid.get(0, 7).is_none());
    assert_eq!(occupied(&sys).len(), 13);
}

#[test]
fn capsule_fill_diagonal() {
    let mut sys = ParticleSystem::new(8, 8);
    let brush = Brush { kind: BrushKind::Draw(ParticleKind::Base(0)), radius: SUBCELLS as u32 / 2 };
    sys.fill_line(at_cell(1, 1), at_cell(5, 5), &brush);
    for i in 1..=5 {
        assert!(sys.grid.get(i, i).is_some());
    }
    assert!(sys.grid.get(5, 1).is_none());
    assert!(sys.grid.get(1, 5).is_none());
    assert_eq!(occupied(&sys).len(), 5);
}

#[test]
fn degenerate_stroke_is_one_circle() {
    let brush = Brush { kind: BrushKind::Draw(ParticleKind::Base(1)), radius: 3 * SUBCELLS as u32 / 2 };
    let c = Coord::new(4 * SUBCELLS + 100, 3 * SUBCELLS + 7);
    let mut a = ParticleSystem::new(9, 9);
    a.fill_line(c, c, &brush);
    let mut b = ParticleSystem::new(9, 9);
    b.fill_circle(c, &brush);
    assert_eq!(occupied(&a), occupied(&b));
    assert!(!occupied(&a).is_empty());
}

#[test]
fn click_and_drag_use_the_game_brush() {
    let mut game = Game::new(16, 16);
    game.brush = Brush { kind: BrushKind::Draw(ParticleKind::Base(1)), radius: SUBCELLS as u32 };
    handle_mouse_click(at_cell(8, 8), &mut game);
    assert_eq!(game.particle_system.particle_at(8, 8).unwrap().kind, ParticleKind::Base(1));
    assert!(game.particle_system.grid.get(7, 8).is_some());
    assert!(game.particle_system.grid.get(9, 8).is_some());
    assert!(game.particle_system.grid.get(10, 8).is_none());
    assert!(game.particle_system.grid.get(9, 9).is_none());
    handle_mouse_drag(at_cell(2, 2), at_cell(6, 2), &mut game);
    for x in 2..=6 {
        assert!(game.particle_system.grid.get(x, 2).is_some());
    }
    assert!(game.particle_system.grid.get(4, 4).is_none());
}
