use vstd::prelude::*;
use vstd::set_lib::{lemma_int_range, lemma_len_subset, lemma_map_size, set_int_range};
use slotmap::{DefaultKey, SlotMap};
use crate::input::{Brush, MouseState};
use crate::render::{Color, Pixels, BYTES_PER_PIXEL};
use crate::util::SUBCELLS;

verus! {


#[verifier::external_type_specification]
#[verifier::external_body]
pub struct ExDefaultKey(DefaultKey);

/// Stable handle of a particle in the particle store.
pub type ParticleInd = DefaultKey;

/// Which element a particle is made of: an entry of the built-in catalog or
/// of the user-defined one.
#[derive(Clone, Copy, Debug, PartialEq, Eq, Structural)]
pub enum ParticleKind {
    Base(u16),
    Custom(u16),
}

/// What a brush does to each cell it covers.
#[derive(Clone, Copy, Debug, PartialEq, Eq, Structural)]
pub enum BrushKind {
    Eraser,
    Draw(ParticleKind),
}

/// One simulated grain; `position` is the grid cell that holds its handle.
#[derive(Clone, Copy, Debug)]
pub struct Particle {
    pub kind: ParticleKind,
    pub position: (usize, usize),
}

impl Default for Particle {
    fn default() -> (r: Self)
        ensures
            r.kind == ParticleKind::Base(0),
            r.position == (0usize, 0usize),
    {
        Self { kind: ParticleKind::Base(0), position: (0, 0) }
    }
}

/// The particle store: a slotmap `SlotMap` from stable handles to particles,
/// reached only through the functions below.
#[verifier::external_body]
pub struct ParticleStore {
    map: SlotMap<DefaultKey, Particle>,
}

/// What the particle store holds: each live handle with its particle.
pub uninterp spec fn particles_in(m: ParticleStore) -> Map<DefaultKey, Particle>;

/// Relies on slotmap's `SlotMap::with_capacity_and_key`: the new map holds no
/// key. It reserves `capacity + 1` slots (one sentinel); the bound keeps that
/// sum and the reservation small.
#[verifier::external_body]
fn new_particle_store(capacity: usize) -> (r: ParticleStore)
    requires
        capacity <= 0x10000,
    ensures
        particles_in(r).dom().finite(),
        particles_in(r).len() == 0,
{
    ParticleStore { map: SlotMap::with_capacity_and_key(capacity) }
}

/// Relies on slotmap's `SlotMap::insert`: the value is stored under a key
/// that no live value holds; it panics only once `u32::MAX - 1` values are
/// live and no slot is free.
#[verifier::external_body]
fn store_insert(m: &mut ParticleStore, p: Particle) -> (k: DefaultKey)
    requires
        particles_in(*old(m)).len() + 1 < u32::MAX,
    ensures
        !particles_in(*old(m)).contains_key(k),
        particles_in(*final(m)) == particles_in(*old(m)).insert(k, p),
{
    m.map.insert(p)
}

/// Relies on slotmap's `SlotMap::remove`: a live key's value is taken out and
/// the key stops resolving; any other key leaves the map as it was.
#[verifier::external_body]
fn store_remove(m: &mut ParticleStore, k: DefaultKey) -> (r: Option<Particle>)
    ensures
        particles_in(*old(m)).contains_key(k) ==> r == Some(particles_in(*old(m))[k])
            && particles_in(*final(m)) == particles_in(*old(m)).remove(k),
        !particles_in(*old(m)).contains_key(k) ==> r is None && particles_in(*final(m))
            == particles_in(*old(m)),
{
    m.map.remove(k)
}

/// Relies on slotmap's `SlotMap::get`: a live key gives its value, any other
/// key (stale ones included) gives `None`.
#[verifier::external_body]
fn store_get(m: &ParticleStore, k: DefaultKey) -> (r: Option<&Particle>)
    ensures
        match r {
            Some(p) => particles_in(*m).contains_key(k) && *p == particles_in(*m)[k],
            None => !particles_in(*m).contains_key(k),
        },
{
    m.map.get(k)
}

/// Outcome of a grid write.
#[derive(Debug)]
pub enum UpdateResult {
    Done,
    Failed(&'static str),
}

/// Dense `width` x `height` array of optional particle handles, stored
/// row-fastest: cell `(x, y)` sits at `y * width + x`.
pub struct Grid {
    pub width: usize,
    pub height: usize,
    pub cells: Vec<Option<ParticleInd>>,
}

/// Distinct in-range cells have distinct row-fastest indices, all below
/// `w * h`.
pub proof fn lemma_cell_index(w: int, h: int, x: int, y: int, x2: int, y2: int)
    requires
        0 <= x < w,
        0 <= y < h,
        0 <= x2 < w,
        0 <= y2 < h,
    ensures
        0 <= y * w + x < w * h,
        y * w + x == y2 * w + x2 ==> x == x2 && y == y2,
{
    assert(0 <= y * w + x < w * h) by (nonlinear_arith)
        requires
            0 <= x < w,
            0 <= y < h,
    ;
    if y < y2 {
        assert(y * w + x < y2 * w + x2) by (nonlinear_arith)
            requires
                0 <= x < w,
                y < y2,
                0 <= x2,
        ;
    } else if y2 < y {
        assert(y2 * w + x2 < y * w + x) by (nonlinear_arith)
            requires
                0 <= x2 < w,
                y2 < y,
                0 <= x,
        ;
    }
}

impl Grid {
    pub open spec fn wf(&self) -> bool {
        self.cells@.len() == self.width * self.height
    }

    pub open spec fn in_bounds(&self, x: int, y: int) -> bool {
        0 <= x < self.width && 0 <= y < self.height
    }

    /// The handle stored at cell `(x, y)`.
    pub open spec fn cell(&self, x: int, y: int) -> Option<ParticleInd> {
        self.cells@[y * self.width + x]
    }

    pub fn new(width: usize, height: usize) -> (r: Self)
        requires
            width * height <= usize::MAX,
        ensures
            r.wf(),
            r.width == width,
            r.height == height,
            forall|x: int, y: int| r.in_bounds(x, y) ==> (#[trigger] r.cell(x, y)) is None,
    {
        let n: usize = width * height;
        let mut cells: Vec<Option<ParticleInd>> = Vec::with_capacity(n);
        let mut i: usize = 0;
        while i < n
            invariant
                i <= n,
                cells@.len() == i,
                forall|j: int| 0 <= j < i ==> (#[trigger] cells@[j]) is None,
            decreases n - i,
        {
            cells.push(None);
            i = i + 1;
        }
        let r = Grid { width: width, height: height, cells: cells };
        assert forall|x: int, y: int| r.in_bounds(x, y) implies (#[trigger] r.cell(x, y)) is None by {
            lemma_cell_index(width as int, height as int, x, y, x, y);
        }
        r
    }

    /// Look-up; out-of-range coordinates read as empty.
    pub fn get(&self, x: usize, y: usize) -> (r: Option<ParticleInd>)
        requires
            self.wf(),
        ensures
            r == (if self.in_bounds(x as int, y as int) {
                self.cell(x as int, y as int)
            } else {
                None
            }),
    {
        if x >= self.width || y >= self.height {
            None
        } else {
            self.cells[self.ind(x, y)]
        }
    }

    /// Writes one cell; fails only for coordinates outside the grid.
    pub fn set(&mut self, x: usize, y: usize, val: Option<ParticleInd>) -> (r: UpdateResult)
        requires
            old(self).wf(),
        ensures
            final(self).wf(),
            final(self).width == old(self).width,
            final(self).height == old(self).height,
            old(self).in_bounds(x as int, y as int) ==> r is Done && final(self).cells@ == old(self).cells@.update(y * old(self).width + x, val),
            old(self).in_bounds(x as int, y as int) ==> forall|x2: int, y2: int|
                old(self).in_bounds(x2, y2) ==> #[trigger] final(self).cell(x2, y2) == if x2 == x
                    && y2 == y {
                    val
                } else {
                    old(self).cell(x2, y2)
                },
            !old(self).in_bounds(x as int, y as int) ==> r is Failed && *final(self) == *old(self),
    {
        if x >= self.width || y >= self.height {
            UpdateResult::Failed("Out of bounds")
        } else {
            let i = self.ind(x, y);
            self.cells.set(i, val);
            proof {
                assert forall|x2: int, y2: int| old(self).in_bounds(x2, y2) implies #[trigger] self.cell(
                    x2,
                    y2,
                ) == if x2 == x && y2 == y {
                    val
                } else {
                    old(self).cell(x2, y2)
                } by {
                    lemma_cell_index(
                        self.width as int,
                        self.height as int,
                        x2,
                        y2,
                        x as int,
                        y as int,
                    );
                }
            }
            UpdateResult::Done
        }
    }

    fn ind(&self, x: usize, y: usize) -> (r: usize)
        requires
            self.wf(),
            self.in_bounds(x as int, y as int),
        ensures
            r == y * self.width + x,
            r < self.cells@.len(),
    {
        let n = self.cells.len();
        proof {
            lemma_cell_index(self.width as int, self.height as int, x as int, y as int, x as int, y as int);
        }
        let r = y * self.width + x;
        assert(r < n);
        r
    }

    /// The cells in row-fastest order.
    pub fn iter_row_col(&self) -> (r: &[Option<ParticleInd>])
        ensures
            r@ == self.cells@,
    {
        self.cells.as_slice()
    }

    /// The cells in row-fastest order, writable in place.
    pub fn iter_row_col_mut(&mut self) -> (r: &mut [Option<ParticleInd>])
        ensures
            r@ == old(self).cells@,
            final(r)@ == final(self).cells@,
            final(self).width == old(self).width,
            final(self).height == old(self).height,
    {
        self.cells.as_mut_slice()
    }
}

/// Static descriptor of an element; `grav_scale` is in thousandths of the
/// standard gravity.
pub struct Element {
    pub name: String,
    pub color: Color,
    pub grav_scale: u32,
}

/// The two element catalogs: fixed built-ins and appendable custom ones.
pub struct Elements {
    pub base_elements: Vec<Element>,
    pub custom_elements: Vec<Element>,
}

impl Elements {
    /// `kind` names a registered element.
    pub open spec fn has(&self, kind: ParticleKind) -> bool {
        match kind {
            ParticleKind::Base(i) => i < self.base_elements@.len(),
            ParticleKind::Custom(i) => i < self.custom_elements@.len(),
        }
    }

    pub open spec fn element(&self, kind: ParticleKind) -> Element {
        match kind {
            ParticleKind::Base(i) => self.base_elements@[i as int],
            ParticleKind::Custom(i) => self.custom_elements@[i as int],
        }
    }

    /// The built-in catalog (sand, then water) and an empty custom one.
    pub fn new() -> (r: Self)
        ensures
            r.base_elements@.len() == 2,
            r.custom_elements@.len() == 0,
            r.base_elements@[0].name@ == "Sand"@,
            r.base_elements@[1].name@ == "Water"@,
            r.base_elements@[0].color == Color::spec_rgb(255, 212, 84),
            r.base_elements@[0].grav_scale == 1000,
            r.base_elements@[1].color == Color::spec_rgb(0, 0, 255),
            r.base_elements@[1].grav_scale == 1000,
    {
        Self { base_elements: create_base_elements(), custom_elements: Vec::new() }
    }

    pub fn get(&self, kind: ParticleKind) -> (r: &Element)
        requires
            self.has(kind),
        ensures
            *r == self.element(kind),
    {
        match kind {
            ParticleKind::Base(i) => &self.base_elements[i as usize],
            ParticleKind::Custom(i) => &self.custom_elements[i as usize],
        }
    }

    /// Appends a custom element and returns its index.
    pub fn register(&mut self, e: Element) -> (r: u16)
        requires
            old(self).custom_elements@.len() < 0x10000,
        ensures
            r == old(self).custom_elements@.len(),
            final(self).custom_elements@ == old(self).custom_elements@.push(e),
            final(self).base_elements@ == old(self).base_elements@,
            final(self).has(ParticleKind::Custom(r)),
    {
        let r = self.custom_elements.len() as u16;
        self.custom_elements.push(e);
        r
    }
}

fn create_base_elements() -> (r: Vec<Element>)
    ensures
        r@.len() == 2,
        r@[0].name@ == "Sand"@,
        r@[1].name@ == "Water"@,
        r@[0].color == Color::spec_rgb(255, 212, 84),
        r@[0].grav_scale == 1000,
        r@[1].color == Color::spec_rgb(0, 0, 255),
        r@[1].grav_scale == 1000,
{
    proof {
        reveal_strlit("Sand");
        reveal_strlit("Water");
    }
    let mut elements: Vec<Element> = Vec::new();
    elements.push(
        Element { name: String::from_str("Sand"), color: Color::new_rgb(255, 212, 84), grav_scale: 1000 },
    );
    elements.push(
        Element { name: String::from_str("Water"), color: Color::new_rgb(0, 0, 255), grav_scale: 1000 },
    );
    elements
}

/// Largest number of grid cells a particle system may have: every cell can
/// hold a particle, and the store keeps fewer than `u32::MAX - 1` of them.
pub const MAX_CELLS: usize = 0xFFFF_FFF0;

/// The particle store, the grid and the element catalog, kept consistent:
/// a cell holds a handle exactly when that handle's particle sits there.
pub struct ParticleSystem {
    pub particles: ParticleStore,
    pub grid: Grid,
    pub elements: Elements,
}

/// Cell `(x, y)` holds the same handle in `after` as in `before`, and that
/// handle's particle is unchanged.
pub open spec fn cell_kept(before: ParticleSystem, after: ParticleSystem, x: int, y: int) -> bool {
    &&& after.cell(x, y) == before.cell(x, y)
    &&& before.cell(x, y) is Some ==> after.store()[before.cell(x, y)->0] == before.store()[before.cell(
        x,
        y,
    )->0]
}

/// Cell `(x, y)` in `after` is what one brush application of `mode` makes of
/// it in `before`: erasing empties it; drawing fills an empty cell with a
/// particle of the brush's kind and leaves an occupied one alone.
pub open spec fn cell_brushed(
    before: ParticleSystem,
    after: ParticleSystem,
    x: int,
    y: int,
    mode: BrushKind,
) -> bool {
    match mode {
        BrushKind::Eraser => after.cell(x, y) is None,
        BrushKind::Draw(kind) => if before.cell(x, y) is Some {
            cell_kept(before, after, x, y)
        } else {
            after.cell(x, y) is Some && after.store()[after.cell(x, y)->0].kind == kind
        },
    }
}

/// A brush may be applied with `mode`: a drawing brush names a registered
/// element.
pub open spec fn brush_ok(elements: Elements, mode: BrushKind) -> bool {
    match mode {
        BrushKind::Eraser => true,
        BrushKind::Draw(kind) => elements.has(kind),
    }
}

impl ParticleSystem {
    pub open spec fn store(&self) -> Map<ParticleInd, Particle> {
        particles_in(self.particles)
    }

    pub open spec fn cell(&self, x: int, y: int) -> Option<ParticleInd> {
        self.grid.cell(x, y)
    }

    pub open spec fn in_bounds(&self, x: int, y: int) -> bool {
        self.grid.in_bounds(x, y)
    }

    /// Grid and store agree: every live particle's cell holds its handle,
    /// and every handle in a cell is live with that cell as its position.
    pub open spec fn wf(&self) -> bool {
        &&& self.grid.wf()
        &&& self.grid.width * self.grid.height <= MAX_CELLS
        &&& self.store().dom().finite()
        &&& forall|k: ParticleInd| #[trigger]
            self.store().contains_key(k) ==> {
                let p = self.store()[k];
                &&& self.in_bounds(p.position.0 as int, p.position.1 as int)
                &&& self.cell(p.position.0 as int, p.position.1 as int) == Some(k)
                &&& self.elements.has(p.kind)
            }
        &&& forall|x: int, y: int|
            self.in_bounds(x, y) && (#[trigger] self.cell(x, y)) is Some ==> {
                let k = self.cell(x, y)->0;
                &&& self.store().contains_key(k)
                &&& self.store()[k].position.0 == x
                &&& self.store()[k].position.1 == y
            }
    }

    /// An empty world of `width` x `height` cells with the built-in elements.
    pub fn new(width: usize, height: usize) -> (r: Self)
        requires
            width * height <= MAX_CELLS,
        ensures
            r.wf(),
            r.grid.width == width,
            r.grid.height == height,
            r.store() == Map::<ParticleInd, Particle>::empty(),
            forall|x: int, y: int| r.in_bounds(x, y) ==> (#[trigger] r.cell(x, y)) is None,
            r.elements.base_elements@.len() == 2,
            r.elements.custom_elements@.len() == 0,
            r.elements.base_elements@[0].name@ == "Sand"@,
            r.elements.base_elements@[1].name@ == "Water"@,
    {
        let r = ParticleSystem {
            particles: new_particle_store(512),
            grid: Grid::new(width, height),
            elements: Elements::new(),
        };
        assert(r.store() =~= Map::empty()) by {
            r.store().dom().lemma_len0_is_empty();
        }
        r
    }

    /// With the cell `(x, y)` empty, fewer particles are live than there are
    /// cells.
    proof fn lemma_store_below_cells(&self, x: int, y: int)
        requires
            self.wf(),
            self.in_bounds(x, y),
            self.cell(x, y) is None,
        ensures
            self.store().len() < self.grid.width * self.grid.height,
    {
        let w = self.grid.width as int;
        let h = self.grid.height as int;
        let dom = self.store().dom();
        let f = |k: ParticleInd|
            self.store()[k].position.1 as int * w + self.store()[k].position.0 as int;
        assert forall|k1: ParticleInd, k2: ParticleInd|
            dom.contains(k1) && dom.contains(k2) && #[trigger] f(k1) == #[trigger] f(k2) implies k1
            == k2 by {
            let p1 = self.store()[k1].position;
            let p2 = self.store()[k2].position;
            lemma_cell_index(w, h, p1.0 as int, p1.1 as int, p2.0 as int, p2.1 as int);
        }
        let img = dom.map(f);
        lemma_map_size(dom, img, f);
        let target = set_int_range(0, w * h).remove(y * w + x);
        lemma_cell_index(w, h, x, y, x, y);
        assert forall|i: int| img.contains(i) implies target.contains(i) by {
            let k = choose|k: ParticleInd| dom.contains(k) && f(k) == i;
            let p = self.store()[k].position;
            lemma_cell_index(w, h, p.0 as int, p.1 as int, x, y);
        }
        lemma_int_range(0, w * h);
        lemma_len_subset(img, target);
    }

    /// The live particle behind handle `i`; `None` for a stale or unknown
    /// handle.
    pub fn particle(&self, i: ParticleInd) -> (r: Option<&Particle>)
        ensures
            match r {
                Some(p) => self.store().contains_key(i) && *p == self.store()[i],
                None => !self.store().contains_key(i),
            },
    {
        store_get(&self.particles, i)
    }

    /// The particle in cell `(x, y)`; `None` for an empty cell or one off the
    /// grid.
    pub fn particle_at(&self, x: usize, y: usize) -> (r: Option<&Particle>)
        requires
            self.wf(),
        ensures
            match r {
                Some(p) => self.in_bounds(x as int, y as int) && (self.cell(x as int, y as int)
                    matches Some(k) && *p == self.store()[k] && p.position == (x, y)),
                None => !self.in_bounds(x as int, y as int) || self.cell(x as int, y as int) is None,
            },
    {
        match self.grid.get(x, y) {
            Some(k) => store_get(&self.particles, k),
            None => None,
        }
    }

    /// Puts a new particle of `kind`, at rest, into the empty cell `(x, y)`.
    pub fn create_particle(&mut self, x: usize, y: usize, kind: ParticleKind)
        requires
            old(self).wf(),
            old(self).in_bounds(x as int, y as int),
            old(self).cell(x as int, y as int) is None,
            old(self).elements.has(kind),
        ensures
            final(self).wf(),
            final(self).grid.width == old(self).grid.width,
            final(self).grid.height == old(self).grid.height,
            final(self).elements == old(self).elements,
            final(self).cell(x as int, y as int) matches Some(k) && !old(self).store().contains_key(
                k,
            ) && final(self).store() == old(self).store().insert(
                k,
                (Particle { kind: kind, position: (x, y) }),
            ),
            forall|x2: int, y2: int|
                old(self).in_bounds(x2, y2) && !(x2 == x && y2 == y) ==> #[trigger] cell_kept(
                    *old(self),
                    *final(self),
                    x2,
                    y2,
                ),
    {
        proof {
            self.lemma_store_below_cells(x as int, y as int);
        }
        let p = Particle { kind: kind, position: (x, y) };
        let i = store_insert(&mut self.particles, p);
        self.grid.set(x, y, Some(i));
        proof {
            let o = *old(self);
            assert forall|k: ParticleInd| #[trigger] self.store().contains_key(k) implies {
                let q = self.store()[k];
                &&& self.in_bounds(q.position.0 as int, q.position.1 as int)
                &&& self.cell(q.position.0 as int, q.position.1 as int) == Some(k)
                &&& self.elements.has(q.kind)
            } by {
                if k != i {
                    assert(o.store().contains_key(k));
                }
            }
            assert forall|x2: int, y2: int|
                self.in_bounds(x2, y2) && (#[trigger] self.cell(x2, y2)) is Some implies {
                let k = self.cell(x2, y2)->0;
                &&& self.store().contains_key(k)
                &&& self.store()[k].position.0 == x2
                &&& self.store()[k].position.1 == y2
            } by {
                if !(x2 == x && y2 == y) {
                    assert(o.cell(x2, y2) is Some);
                }
            }
            assert forall|x2: int, y2: int|
                o.in_bounds(x2, y2) && !(x2 == x && y2 == y) implies #[trigger] cell_kept(
                o,
                *self,
                x2,
                y2,
            ) by {
                assert(self.cell(x2, y2) == o.cell(x2, y2));
            }
        }
    }

    /// Removes the live particle `i` and clears the cell that held it.
    pub fn delete_particle(&mut self, i: ParticleInd)
        requires
            old(self).wf(),
            old(self).store().contains_key(i),
        ensures
            final(self).wf(),
            final(self).grid.width == old(self).grid.width,
            final(self).grid.height == old(self).grid.height,
            final(self).elements == old(self).elements,
            final(self).store() == old(self).store().remove(i),
            !final(self).store().contains_key(i),
            final(self).cell(
                old(self).store()[i].position.0 as int,
                old(self).store()[i].position.1 as int,
            ) is None,
            forall|x2: int, y2: int|
                old(self).in_bounds(x2, y2) && !(x2 == old(self).store()[i].position.0 && y2 == old(self).store()[i].position.1) ==> #[trigger] cell_kept(*old(self), *final(self), x2, y2),
    {
        let (px, py) = match store_get(&self.particles, i) {
            Some(p) => p.position,
            None => (0, 0),
        };
        self.grid.set(px, py, None);
        store_remove(&mut self.particles, i);
        proof {
            let o = *old(self);
            assert forall|k: ParticleInd| #[trigger] self.store().contains_key(k) implies {
                let q = self.store()[k];
                &&& self.in_bounds(q.position.0 as int, q.position.1 as int)
                &&& self.cell(q.position.0 as int, q.position.1 as int) == Some(k)
                &&& self.elements.has(q.kind)
            } by {
                assert(o.store().contains_key(k));
            }
            assert forall|x2: int, y2: int|
                self.in_bounds(x2, y2) && (#[trigger] self.cell(x2, y2)) is Some implies {
                let k = self.cell(x2, y2)->0;
                &&& self.store().contains_key(k)
                &&& self.store()[k].position.0 == x2
                &&& self.store()[k].position.1 == y2
            } by {
                assert(o.cell(x2, y2) is Some);
            }
            assert forall|x2: int, y2: int|
                o.in_bounds(x2, y2) && !(x2 == px && y2 == py) implies #[trigger] cell_kept(
                o,
                *self,
                x2,
                y2,
            ) by {
                assert(self.cell(x2, y2) == o.cell(x2, y2));
                if o.cell(x2, y2) is Some {
                    assert(o.store().contains_key(o.cell(x2, y2)->0));
                }
            }
        }
    }

    /// Applies a brush to one cell: erasing removes the particle there,
    /// drawing fills the cell only when it is empty. Cells outside the grid
    /// are left alone.
    pub fn draw_point(&mut self, x: usize, y: usize, brush_kind: &BrushKind)
        requires
            old(self).wf(),
            brush_ok(old(self).elements, *brush_kind),
        ensures
            final(self).wf(),
            final(self).grid.width == old(self).grid.width,
            final(self).grid.height == old(self).grid.height,
            final(self).elements == old(self).elements,
            old(self).in_bounds(x as int, y as int) ==> cell_brushed(
                *old(self),
                *final(self),
                x as int,
                y as int,
                *brush_kind,
            ),
            forall|x2: int, y2: int|
                old(self).in_bounds(x2, y2) && !(x2 == x && y2 == y) ==> #[trigger] cell_kept(
                    *old(self),
                    *final(self),
                    x2,
                    y2,
                ),
            !old(self).in_bounds(x as int, y as int) ==> *final(self) == *old(self),
            *brush_kind == BrushKind::Eraser && old(self).cell(x as int, y as int) is None ==> *final(self) == *old(self),
            *brush_kind != BrushKind::Eraser && old(self).cell(x as int, y as int) is Some ==> *final(self) == *old(self),
    {
        let cur_val = self.grid.get(x, y);
        if x >= self.grid.width || y >= self.grid.height {
            return;
        }
        match brush_kind {
            BrushKind::Eraser => {
                if let Some(i) = cur_val {
                    self.delete_particle(i);
                }
            },
            BrushKind::Draw(kind) => {
                if cur_val.is_none() {
                    self.create_particle(x, y, *kind);
                }
            },
        }
    }
}

/// The consistency invariant read both ways: cell `(x, y)` holds `k` exactly
/// when `k` is live and its particle's position is `(x, y)`.
pub proof fn lemma_cell_holds_iff(sys: ParticleSystem, k: ParticleInd, x: int, y: int)
    requires
        sys.wf(),
        sys.in_bounds(x, y),
    ensures
        sys.cell(x, y) == Some(k) <==> (sys.store().contains_key(k) && sys.store()[k].position.0
            == x && sys.store()[k].position.1 == y),
{
    if sys.store().contains_key(k) {
        let p = sys.store()[k];
        assert(sys.cell(p.position.0 as int, p.position.1 as int) == Some(k));
    }
}

/// Color shown for row-fastest cell `i`: its particle's element color, or
/// the empty color.
pub open spec fn cell_color(sys: ParticleSystem, i: int) -> Color {
    match sys.grid.cells@[i] {
        Some(k) => sys.elements.element(sys.store()[k].kind).color,
        None => Color { r: 0, g: 0, b: 0, a: 0 },
    }
}

/// Whole game state: the world, the active brush, the pointer, and the
/// simulation clock (timestamps in microseconds).
pub struct Game {
    pub running: bool,
    pub last_tick: u64,
    pub mouse_state: MouseState,
    pub brush: Brush,
    pub particle_system: ParticleSystem,
}

impl Game {
    pub open spec fn wf(&self) -> bool {
        &&& self.particle_system.wf()
        &&& self.brush.wf()
        &&& brush_ok(self.particle_system.elements, self.brush.kind)
        &&& self.mouse_state matches MouseState::Down(c) ==> c.wf()
    }

    /// A stopped game on an empty `width` x `height` world, drawing sand with
    /// a radius of four cells.
    pub fn new(width: usize, height: usize) -> (r: Self)
        requires
            width * height <= MAX_CELLS,
        ensures
            r.wf(),
            !r.running,
            r.last_tick == 0,
            r.mouse_state == MouseState::Up,
            r.brush == (Brush { kind: BrushKind::Draw(ParticleKind::Base(0)), radius: 1024u32 }),
            r.particle_system.grid.width == width,
            r.particle_system.grid.height == height,
            r.particle_system.store().len() == 0,
            r.particle_system.elements.base_elements@.len() == 2,
            r.particle_system.elements.custom_elements@.len() == 0,
            r.particle_system.elements.base_elements@[0].name@ == "Sand"@,
            r.particle_system.elements.base_elements@[1].name@ == "Water"@,
            forall|x: int, y: int|
                r.particle_system.in_bounds(x, y) ==> (#[trigger] r.particle_system.cell(x, y)) is None,
    {
        Self {
            running: false,
            last_tick: 0,
            mouse_state: MouseState::Up,
            brush: Brush { kind: BrushKind::Draw(ParticleKind::Base(0)), radius: 4 * SUBCELLS as u32 },
            particle_system: ParticleSystem::new(width, height),
        }
    }

    /// Paints every cell that has a matching pixel (cells and pixels are
    /// paired in row-fastest order): its particle's element color, or the
    /// empty color.
    pub fn draw(&self, pixels: &mut Pixels)
        requires
            self.particle_system.wf(),
        ensures
            final(pixels).width == old(pixels).width,
            final(pixels).height == old(pixels).height,
            final(pixels).data@.len() == old(pixels).data@.len(),
            forall|i: int, c: int|
                0 <= i < self.particle_system.grid.cells@.len() && 0 <= c < BYTES_PER_PIXEL && (i
                    + 1) * BYTES_PER_PIXEL <= old(pixels).data@.len() ==> #[trigger] final(pixels).data@[i * BYTES_PER_PIXEL + c] == cell_color(self.particle_system, i).channels()[c],
            forall|j: int|
                0 <= j < old(pixels).data@.len() && j >= BYTES_PER_PIXEL * (if self.particle_system.grid.cells@.len()
                    < old(pixels).data@.len() as int / BYTES_PER_PIXEL as int {
                    self.particle_system.grid.cells@.len() as int
                } else {
                    old(pixels).data@.len() as int / BYTES_PER_PIXEL as int
                }) ==> #[trigger] final(pixels).data@[j] == old(pixels).data@[j],
    {
        let sys = &self.particle_system;
        let n_cells = sys.grid.cells.len();
        let n_pix = pixels.data.len() / BYTES_PER_PIXEL;
        let n = if n_cells < n_pix {
            n_cells
        } else {
            n_pix
        };
        let mut i: usize = 0;
        while i < n
            invariant
                sys == &self.particle_system,
                sys.wf(),
                n <= n_cells,
                n_cells == sys.grid.cells@.len(),
                n * BYTES_PER_PIXEL <= pixels.data@.len(),
                pixels.data@.len() <= usize::MAX,
                n as int == if n_cells < pixels.data@.len() as int / BYTES_PER_PIXEL as int {
                    n_cells as int
                } else {
                    pixels.data@.len() as int / BYTES_PER_PIXEL as int
                },
                i <= n,
                pixels.width == old(pixels).width,
                pixels.height == old(pixels).height,
                pixels.data@.len() == old(pixels).data@.len(),
                forall|i2: int, c: int|
                    0 <= i2 < i && 0 <= c < BYTES_PER_PIXEL ==> #[trigger] pixels.data@[i2
                        * BYTES_PER_PIXEL + c] == cell_color(*sys, i2).channels()[c],
                forall|j: int|
                    0 <= j < pixels.data@.len() && j >= i * BYTES_PER_PIXEL ==> #[trigger] pixels.data@[j]
                        == old(pixels).data@[j],
            decreases n - i,
        {
            let color = match sys.grid.cells[i] {
                Some(k) => match store_get(&sys.particles, k) {
                    Some(p) => sys.elements.get(p.kind).color,
                    None => Color::empty(),
                },
                None => Color::empty(),
            };
            proof {
                if sys.grid.cells@[i as int] is Some {
                    let k = sys.grid.cells@[i as int]->0;
                    let y = i as int / sys.grid.width as int;
                    let x = i as int % sys.grid.width as int;
                    assert(sys.grid.width > 0) by (nonlinear_arith)
                        requires
                            i < sys.grid.cells@.len(),
                            sys.grid.cells@.len() == sys.grid.width * sys.grid.height,
                    ;
                    assert(y < sys.grid.height) by (nonlinear_arith)
                        requires
                            y == i as int / sys.grid.width as int,
                            i < sys.grid.width * sys.grid.height,
                            sys.grid.width > 0,
                    ;
                    assert(i as int == y * sys.grid.width + x) by (nonlinear_arith)
                        requires
                            y == i as int / sys.grid.width as int,
                            x == i as int % sys.grid.width as int,
                            sys.grid.width > 0,
                    ;
                    assert(sys.cell(x, y) is Some);
                }
            }
            assert(i * BYTES_PER_PIXEL + BYTES_PER_PIXEL <= n * BYTES_PER_PIXEL) by (nonlinear_arith)
                requires
                    i < n,
            ;
            let b = i * BYTES_PER_PIXEL;
            pixels.data.set(b, color.r);
            pixels.data.set(b + 1, color.g);
            pixels.data.set(b + 2, color.b);
            pixels.data.set(b + 3, color.a);
            i = i + 1;
        }
    }

    /// Starts or stops the simulation, restarting its clock at `timestamp`.
    pub fn set_running(&mut self, running: bool, timestamp: u64)
        ensures
            *final(self) == (Game { running: running, last_tick: timestamp, ..*old(self) }),
    {
        self.running = running;
        self.last_tick = timestamp;
    }

    /// Advances the clock to `timestamp`. Returns whether a simulation step
    /// is due now: one step when at least one tick of `step_time` has passed
    /// and the game runs. Ticks owed beyond the first are dropped rather
    /// than caught up; a clock that went backwards owes none.
    pub fn update(&mut self, timestamp: u64, step_time: u64) -> (r: bool)
        requires
            step_time > 0,
        ensures
            timestamp < old(self).last_tick + step_time ==> !r && *final(self) == *old(self),
            timestamp >= old(self).last_tick + step_time ==> r == old(self).running && *final(self)
                == (Game { last_tick: timestamp, ..*old(self) }),
    {
        if timestamp < self.last_tick {
            return false;
        }
        let n_ticks = (timestamp - self.last_tick) / step_time;
        proof {
            let d = (timestamp - self.last_tick) as int;
            assert((d / step_time as int == 0) <==> d < step_time) by (nonlinear_arith)
                requires
                    d >= 0,
                    step_time > 0,
            ;
        }
        if n_ticks == 0 {
            return false;
        }
        self.last_tick = timestamp;
        self.running
    }
}

} // verus!
