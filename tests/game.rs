use sand_game::input::{Brush, MouseState};
use sand_game::render::{bytes_per_pixel, fill_pix, Color, PixelFormat, Pixels, BYTES_PER_PIXEL};
use sand_game::sand::{BrushKind, Game, ParticleKind};
use sand_game::util::{Coord, SUBCELLS};

#[test]
fn new_game_is_stopped_and_empty() {
    let g = Game::new(12, 9);
    assert!(!g.running);
    assert_eq!(g.last_tick, 0);
    assert_eq!(g.mouse_state, MouseState::Up);
    assert_eq!(g.brush, Brush { kind: BrushKind::Draw(ParticleKind::Base(0)), radius: 4 * SUBCELLS as u32 });
    assert_eq!(g.particle_system.grid.cells.len(), 108);
    assert!(g.particle_system.grid.cells.iter().all(|c| c.is_none()));
    assert_eq!(g.particle_system.elements.base_elements.len(), 2);
    assert_eq!(g.particle_system.elements.base_elements[0].name, "Sand");
    assert_eq!(g.particle_system.elements.base_elements[1].name, "Water");
    assert!(g.particle_system.elements.custom_elements.is_empty());
}

#[test]
fn draw_paints_element_colors_and_empty_cells() {
    let mut g = Game::new(3, 2);
    g.particle_system.draw_point(1, 0, &BrushKind::Draw(ParticleKind::Base(0)));
    g.particle_system.draw_point(2, 1, &BrushKind::Draw(ParticleKind::Base(1)));
    let mut pixels = Pixels { data: vec![7; 3 * 2 * 4], width: 3, height: 2 };
    g.draw(&mut pixels);
    assert_eq!(&pixels.data[0..4], &[0, 0, 0, 0]);
    assert_eq!(&pixels.data[4..8], &[255, 212, 84, 255]);
    assert_eq!(&pixels.data[20..24], &[0, 0, 255, 255]);
    assert_eq!(&pixels.data[12..16], &[0, 0, 0, 0]);
}

#[test]
fn draw_into_a_short_buffer_stops_at_its_end() {
    let g = Game::new(4, 4);
    let mut pixels = Pixels { data: vec![9; 10], width: 2, height: 1 };
    g.draw(&mut pixels);
    assert_eq!(pixels.data, vec![0, 0, 0, 0, 0, 0, 0, 0, 9, 9]);
}

#[test]
fn update_steps_once_and_drops_extra_ticks() {
    let mut g = Game::new(2, 2);
    g.set_running(true, 1_000);
    assert!(!g.update(1_500, 1_000));
    assert_eq!(g.last_tick, 1_000);
    assert!(g.update(5_200, 1_000));
    assert_eq!(g.last_tick, 5_200);
    assert!(!g.update(6_100, 1_000));
    assert!(!g.update(3_000, 1_000));
    assert_eq!(g.last_tick, 5_200);
}

#[test]
fn stopped_game_advances_clock_without_stepping() {
    let mut g = Game::new(2, 2);
    g.set_running(false, 0);
    assert!(!g.update(2_000, 1_000));
    assert_eq!(g.last_tick, 2_000);
}

#[test]
fn mouse_gestures_paint_clicks_and_drags() {
    let mut g = Game::new(20, 20);
    g.brush = Brush { kind: BrushKind::Draw(ParticleKind::Base(0)), radius: SUBCELLS as u32 / 2 };
    g.mouse_move(Coord::new(5 * SUBCELLS, 5 * SUBCELLS));
    assert!(g.particle_system.grid.cells.iter().all(|c| c.is_none()));
    g.mouse_down(Coord::new(2 * SUBCELLS, 10 * SUBCELLS));
    assert_eq!(g.mouse_state, MouseState::Down(Coord::new(2 * SUBCELLS, 10 * SUBCELLS)));
    assert!(g.particle_system.grid.get(2, 10).is_some());
    g.mouse_move(Coord::new(8 * SUBCELLS, 10 * SUBCELLS));
    for x in 2..=8 {
        assert!(g.particle_system.grid.get(x, 10).is_some());
    }
    g.mouse_up();
    assert_eq!(g.mouse_state, MouseState::Up);
    g.mouse_move(Coord::new(8 * SUBCELLS, 15 * SUBCELLS));
    assert!(g.particle_system.grid.get(8, 15).is_none());
}

#[test]
fn pixel_layout_is_rgba_row_fastest() {
    assert_eq!(bytes_per_pixel(PixelFormat::RGBA), 4);
    assert_eq!(BYTES_PER_PIXEL, 4);
    let p = Pixels { data: vec![0; 5 * 3 * 4], width: 5, height: 3 };
    assert_eq!(p.ind(0, 0), 0);
    assert_eq!(p.ind(4, 0), 16);
    assert_eq!(p.ind(1, 2), 44);
}

#[test]
fn fill_pix_writes_all_channels() {
    let mut pix = [1u8, 2, 3, 4];
    fill_pix(&mut pix, Color::new_rgba(9, 8, 7, 6));
    assert_eq!(pix, [9, 8, 7, 6]);
    fill_pix(&mut pix, Color::empty());
    assert_eq!(pix, [0, 0, 0, 0]);
}

#[test]
fn pixel_bytes_in_row_order() {
    let mut p = Pixels { data: vec![0; 2 * 1 * 4], width: 2, height: 1 };
    p.iter_row_col_mut()[5] = 42;
    assert_eq!(p.iter_row_col().len(), 8);
    assert_eq!(p.iter_row_col()[5], 42);
    assert_eq!(p.iter_row_col().chunks_exact(BYTES_PER_PIXEL).nth(1).unwrap(), &[0, 42, 0, 0]);
}
