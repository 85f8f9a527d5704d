use sand_game::render::Color;
use sand_game::sand::{
    BrushKind, Element, Elements, Grid, Particle, ParticleKind, ParticleSystem, UpdateResult,
};

#[test]
fn grid_starts_empty_and_reads_off_grid_as_empty() {
    let g = Grid::new(3, 2);
    assert_eq!(g.cells.len(), 6);
    for y in 0..2 {
        for x in 0..3 {
            assert!(g.get(x, y).is_none());
        }
    }
    assert!(g.get(3, 0).is_none());
    assert!(g.get(0, 2).is_none());
}

#[test]
fn grid_set_out_of_bounds_fails_and_leaves_cells() {
    let mut sys = ParticleSystem::new(4, 4);
    sys.create_particle(1, 1, ParticleKind::Base(0));
    let k = sys.grid.get(1, 1).unwrap();
    let mut g = Grid::new(4, 4);
    assert!(matches!(g.set(4, 0, Some(k)), UpdateResult::Failed(_)));
    assert!(matches!(g.set(0, 4, Some(k)), UpdateResult::Failed(_)));
    assert!(g.cells.iter().all(|c| c.is_none()));
    assert!(matches!(g.set(2, 3, Some(k)), UpdateResult::Done));
    assert_eq!(g.get(2, 3), Some(k));
    assert_eq!(g.cells[3 * 4 + 2], Some(k));
    assert_eq!(g.iter_row_col().iter().filter(|c| c.is_some()).count(), 1);
}

#[test]
fn grid_row_col_mut_writes_through() {
    let mut g = Grid::new(2, 2);
    let mut sys = ParticleSystem::new(2, 2);
    sys.create_particle(0, 0, ParticleKind::Base(1));
    let k = sys.grid.get(0, 0).unwrap();
    g.iter_row_col_mut()[3] = Some(k);
    assert_eq!(g.get(1, 1), Some(k));
}

#[test]
fn create_particle_links_cell_and_store() {
    let mut sys = ParticleSystem::new(8, 6);
    sys.create_particle(3, 5, ParticleKind::Base(1));
    let h = sys.grid.get(3, 5).expect("cell holds the new particle");
    let p = sys.particle(h).expect("handle is live");
    assert_eq!(p.position, (3, 5));
    assert_eq!(p.kind, ParticleKind::Base(1));
    let q = sys.particle_at(3, 5).unwrap();
    assert_eq!(q.position, (3, 5));
    assert!(sys.particle_at(2, 5).is_none());
    assert!(sys.particle_at(8, 5).is_none());
}

#[test]
fn delete_particle_clears_cell_and_store() {
    let mut sys = ParticleSystem::new(5, 5);
    sys.create_particle(4, 0, ParticleKind::Base(0));
    sys.create_particle(0, 4, ParticleKind::Base(1));
    let h = sys.grid.get(4, 0).unwrap();
    sys.delete_particle(h);
    assert!(sys.grid.get(4, 0).is_none());
    assert!(sys.particle(h).is_none());
    let other = sys.grid.get(0, 4).unwrap();
    assert_eq!(sys.particle(other).unwrap().kind, ParticleKind::Base(1));
}

#[test]
fn erase_on_empty_cell_is_a_no_op() {
    let mut sys = ParticleSystem::new(4, 4);
    sys.create_particle(1, 2, ParticleKind::Base(0));
    let h = sys.grid.get(1, 2).unwrap();
    let before = sys.grid.cells.clone();
    sys.draw_point(0, 0, &BrushKind::Eraser);
    assert_eq!(sys.grid.cells, before);
    assert_eq!(sys.particle(h).unwrap().position, (1, 2));
}

#[test]
fn draw_on_occupied_cell_keeps_the_particle() {
    let mut sys = ParticleSystem::new(4, 4);
    sys.draw_point(2, 2, &BrushKind::Draw(ParticleKind::Base(0)));
    let h = sys.grid.get(2, 2).unwrap();
    sys.draw_point(2, 2, &BrushKind::Draw(ParticleKind::Base(1)));
    assert_eq!(sys.grid.get(2, 2), Some(h));
    assert_eq!(sys.particle(h).unwrap().kind, ParticleKind::Base(0));
}

#[test]
fn draw_then_erase_point() {
    let mut sys = ParticleSystem::new(4, 4);
    sys.draw_point(3, 1, &BrushKind::Draw(ParticleKind::Base(1)));
    let h = sys.grid.get(3, 1).unwrap();
    sys.draw_point(3, 1, &BrushKind::Eraser);
    assert!(sys.grid.get(3, 1).is_none());
    assert!(sys.particle(h).is_none());
}

#[test]
fn draw_point_off_grid_changes_nothing() {
    let mut sys = ParticleSystem::new(4, 4);
    sys.draw_point(4, 1, &BrushKind::Draw(ParticleKind::Base(1)));
    sys.draw_point(1, 9, &BrushKind::Draw(ParticleKind::Base(1)));
    assert!(sys.grid.cells.iter().all(|c| c.is_none()));
}

#[test]
fn stale_particle_handle_does_not_see_a_new_particle() {
    let mut sys = ParticleSystem::new(4, 4);
    sys.create_particle(0, 0, ParticleKind::Base(0));
    let old = sys.grid.get(0, 0).unwrap();
    sys.delete_particle(old);
    sys.create_particle(0, 0, ParticleKind::Base(1));
    let new = sys.grid.get(0, 0).unwrap();
    assert_ne!(old, new);
    assert!(sys.particle(old).is_none());
    assert_eq!(sys.particle(new).unwrap().kind, ParticleKind::Base(1));
}

fn check_consistent(sys: &ParticleSystem) {
    let w = sys.grid.width;
    for (i, cell) in sys.grid.iter_row_col().iter().enumerate() {
        if let Some(k) = cell {
            let p = sys.particle(*k).expect("a cell's handle is live");
            assert_eq!(p.position, (i % w, i / w));
        }
    }
}

#[test]
fn grid_and_store_stay_consistent_over_many_edits() {
    let mut sys = ParticleSystem::new(7, 5);
    let mut seed: u64 = 12345;
    let mut live: Vec<(usize, usize)> = Vec::new();
    for step in 0..400 {
        seed = seed.wrapping_mul(6364136223846793005).wrapping_add(1442695040888963407);
        let x = ((seed >> 33) % 7) as usize;
        let y = ((seed >> 40) % 5) as usize;
        if step % 3 == 0 {
            sys.draw_point(x, y, &BrushKind::Eraser);
            live.retain(|&c| c != (x, y));
        } else {
            sys.draw_point(x, y, &BrushKind::Draw(ParticleKind::Base((step % 2) as u16)));
            if !live.contains(&(x, y)) {
                live.push((x, y));
            }
        }
        check_consistent(&sys);
        let occupied = sys.grid.cells.iter().filter(|c| c.is_some()).count();
        assert_eq!(occupied, live.len());
    }
}

#[test]
fn base_elements_are_sand_then_water() {
    let els = Elements::new();
    assert_eq!(els.base_elements.len(), 2);
    assert_eq!(els.custom_elements.len(), 0);
    let sand = els.get(ParticleKind::Base(0));
    assert_eq!(sand.name, "Sand");
    assert_eq!(sand.color, Color::new_rgb(255, 212, 84));
    let water = els.get(ParticleKind::Base(1));
    assert_eq!(water.name, "Water");
    assert_eq!(water.color, Color::new_rgba(0, 0, 255, 255));
    assert_eq!(water.grav_scale, 1000);
}

#[test]
fn registered_custom_elements_get_consecutive_indices() {
    let mut els = Elements::new();
    let a = els.register(Element { name: "Oil".to_string(), color: Color::new_rgb(10, 10, 10), grav_scale: 800 });
    let b = els.register(Element { name: "Lava".to_string(), color: Color::new_rgb(200, 50, 0), grav_scale: 1200 });
    assert_eq!(a, 0);
    assert_eq!(b, 1);
    assert_eq!(els.get(ParticleKind::Custom(1)).name, "Lava");
    assert_eq!(els.get(ParticleKind::Custom(0)).grav_scale, 800);
}

#[test]
fn default_particle_is_sand_at_origin() {
    let p = Particle::default();
    assert_eq!(p.kind, ParticleKind::Base(0));
    assert_eq!(p.position, (0, 0));
}
