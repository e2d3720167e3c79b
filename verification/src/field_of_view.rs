//! What can be seen from a cell.
//!
//! Rays are cast from the viewer to every cell of the ring at the viewing
//! range. A ray is a line of cell pairs; both cells of every pair it reaches
//! are seen, and it ends at the first pair whose cells both stop light.

use crate::coordinate_set::CoordinateSet;
use crate::hex_coordinates::{
    hex_fat_line, hex_pairs, hexes, lemma_ring_cell_distance, ring_cells, Coordinate, Hex, MAX_SPAN,
    REACH,
};
use crate::map::HexMap;
use crate::store::{Entity, Storage};
use vstd::prelude::*;

verus! {

/// Light reaches step `i` of the ray: none of the steps before it has
/// cells that stop light on both sides.
pub open spec fn lit(map: &HexMap, ray: Seq<(Hex, Hex)>, i: int) -> bool {
    &&& 0 <= i < ray.len()
    &&& forall|j: int| 0 <= j < i ==> !stops_light(map, #[trigger] ray[j])
}

/// Both cells of the pair stop light.
pub open spec fn stops_light(map: &HexMap, pair: (Hex, Hex)) -> bool {
    map.opaque_at(pair.0) && map.opaque_at(pair.1)
}

/// `h` is one of the two cells at step `i` of the ray from `origin` to
/// `target`, and light reaches that step.
pub open spec fn on_ray(map: &HexMap, origin: Hex, target: Hex, i: int, h: Hex) -> bool {
    let ray = hex_fat_line(origin, target);
    lit(map, ray, i) && (h == ray[i].0 || h == ray[i].1)
}

/// The cells seen along the rays to the first `rays` targets.
pub open spec fn seen(map: &HexMap, origin: Hex, targets: Seq<Hex>, rays: int) -> Set<Hex> {
    Set::new(
        |h: Hex| exists|k: int, i: int| 0 <= k < rays && #[trigger] on_ray(map, origin, targets[k], i, h),
    )
}

/// The cells of the first `n` steps of a ray.
pub open spec fn ray_cells(ray: Seq<(Hex, Hex)>, n: int) -> Set<Hex> {
    Set::new(|h: Hex| exists|j: int| 0 <= j < n && (h == (#[trigger] ray[j]).0 || h == ray[j].1))
}

/// The cells among the first `n` of `cells` through which light passes.
pub open spec fn clear_cells(map: &HexMap, cells: Seq<Coordinate>, n: int) -> Set<Hex> {
    Set::new(|h: Hex| !map.opaque_at(h) && exists|j: int| 0 <= j < n && (#[trigger] cells[j])@ == h)
}

impl HexMap {
    /// The cells seen from `origin` at the given range.
    pub open spec fn visible_from(&self, origin: Hex, radius: int) -> Set<Hex> {
        seen(self, origin, ring_cells(origin, radius), ring_cells(origin, radius).len() as int)
    }

    /// The cells seen from `origin` at the given range through which light
    /// passes.
    pub open spec fn affected_from(&self, origin: Hex, radius: int) -> Set<Hex> {
        self.visible_from(origin, radius).filter(|h: Hex| !self.opaque_at(h))
    }

    /// The set of coordinates seen from `origin`: both cells of every step
    /// that light reaches on the rays from `origin` to the ring at distance
    /// `radius`.
    pub fn field_of_view(&self, origin: Coordinate, radius: i32) -> (fov: CoordinateSet)
        requires
            self.wf(),
            origin@.in_reach(),
            radius <= MAX_SPAN,
        ensures
            fov.wf(),
            fov@ == self.visible_from(origin@, radius as int),
    {
        let mut fov = CoordinateSet::new();
        let ring = origin.ring(radius);
        let ghost targets = ring_cells(origin@, radius as int);
        assert(fov@ =~= seen(self, origin@, targets, 0));
        let mut k: usize = 0;
        while k < ring.len()
            invariant
                self.wf(),
                origin@.in_reach(),
                radius <= MAX_SPAN,
                0 <= k <= ring@.len(),
                hexes(ring@) == targets,
                targets == ring_cells(origin@, radius as int),
                fov.wf(),
                fov@ == seen(self, origin@, targets, k as int),
            decreases ring@.len() - k,
        {
            let edge = ring[k];
            assert(edge@ == hexes(ring@)[k as int]);
            proof {
                assert(ring@.len() == targets.len());
                if radius > 0 {
                    lemma_ring_cell_distance(origin@, radius as int, k as int);
                    assert(origin@.distance(edge@) == radius);
                }
                assert(edge@.within(2 * REACH));
            }
            let ray = origin.fat_line_to(edge);
            let ghost line = hex_fat_line(origin@, edge@);
            let ghost before = fov@;
            let mut i: usize = 0;
            let mut stopped = false;
            assert(fov@ =~= before.union(ray_cells(line, 0)));
            while i < ray.len() && !stopped
                invariant
                    self.wf(),
                    0 <= i <= ray@.len(),
                    hex_pairs(ray@) == line,
                    fov.wf(),
                    fov@ == before.union(ray_cells(line, i as int)),
                    !stopped ==> forall|j: int| 0 <= j < i ==> !stops_light(self, #[trigger] line[j]),
                    stopped ==> i > 0 && stops_light(self, line[i - 1]) && forall|j: int|
                        0 <= j < i - 1 ==> !stops_light(self, #[trigger] line[j]),
                decreases ray@.len() - i,
            {
                let (c1, c2) = ray[i];
                assert(line[i as int] == (c1@, c2@));
                let ghost so_far = fov@;
                fov.insert(c1);
                fov.insert(c2);
                if self.is_opaque_at(c1) && self.is_opaque_at(c2) {
                    stopped = true;
                }
                assert(fov@ =~= before.union(ray_cells(line, i + 1))) by {
                    assert forall|h: Hex| ray_cells(line, i + 1).contains(h) <==> (ray_cells(line, i as int).contains(h)
                        || h == c1@ || h == c2@) by {
                        if ray_cells(line, i + 1).contains(h) {
                            let j = choose|j: int| 0 <= j < i + 1 && (h == (#[trigger] line[j]).0 || h == line[j].1);
                            if j < i {
                                assert(ray_cells(line, i as int).contains(h));
                            }
                        }
                        if ray_cells(line, i as int).contains(h) {
                            let j = choose|j: int| 0 <= j < i && (h == (#[trigger] line[j]).0 || h == line[j].1);
                            assert(h == line[j].0 || h == line[j].1);
                        }
                        if h == c1@ || h == c2@ {
                            assert(h == line[i as int].0 || h == line[i as int].1);
                        }
                    }
                }
                i = i + 1;
            }
            proof {
                let m = i as int;
                // The steps that light reaches are exactly the first `m`.
                assert forall|j: int| lit(self, line, j) <==> 0 <= j < m by {
                    if lit(self, line, j) && j >= m {
                        assert(stopped);
                        assert(stops_light(self, line[m - 1]));
                    }
                }
                assert forall|h: Hex| fov@.contains(h) <==> seen(self, origin@, targets, k + 1).contains(h) by {
                    if before.contains(h) {
                        let (k0, i0) = choose|k0: int, i0: int|
                            0 <= k0 < k && #[trigger] on_ray(self, origin@, targets[k0], i0, h);
                        assert(on_ray(self, origin@, targets[k0], i0, h));
                    }
                    if ray_cells(line, m).contains(h) {
                        let j = choose|j: int| 0 <= j < m && (h == (#[trigger] line[j]).0 || h == line[j].1);
                        assert(lit(self, line, j));
                        assert(on_ray(self, origin@, targets[k as int], j, h));
                    }
                    if seen(self, origin@, targets, k + 1).contains(h) {
                        let (k0, i0) = choose|k0: int, i0: int|
                            0 <= k0 < k + 1 && #[trigger] on_ray(self, origin@, targets[k0], i0, h);
                        if k0 < k {
                            assert(before.contains(h));
                        } else {
                            assert(lit(self, line, i0));
                            assert(h == line[i0].0 || h == line[i0].1);
                            assert(ray_cells(line, m).contains(h));
                        }
                    }
                }
                assert(fov@ =~= seen(self, origin@, targets, k + 1));
            }
            k = k + 1;
        }
        fov
    }

    /// The part of the field of view that is not a wall: the cells that an
    /// effect centered on `origin` reaches.
    pub fn area_of_effect(&self, origin: Coordinate, radius: i32) -> (aoe: CoordinateSet)
        requires
            self.wf(),
            origin@.in_reach(),
            radius <= MAX_SPAN,
        ensures
            aoe.wf(),
            aoe@ == self.affected_from(origin@, radius as int),
    {
        let fov = self.field_of_view(origin, radius);
        let cells = fov.iter();
        let mut aoe = CoordinateSet::new();
        let mut i: usize = 0;
        assert(aoe@ =~= clear_cells(self, cells@, 0));
        while i < cells.len()
            invariant
                self.wf(),
                0 <= i <= cells@.len(),
                cells@ == fov.cells(),
                aoe.wf(),
                aoe@ == clear_cells(self, cells@, i as int),
            decreases cells@.len() - i,
        {
            let c = cells[i];
            if !self.is_opaque_at(c) {
                aoe.insert(c);
            }
            assert forall|h: Hex| aoe@.contains(h) <==> clear_cells(self, cells@, i + 1).contains(h) by {
                if clear_cells(self, cells@, i as int).contains(h) {
                    let j = choose|j: int| 0 <= j < i && (#[trigger] cells@[j])@ == h;
                    assert(0 <= j < i + 1 && cells@[j]@ == h);
                }
                if h == c@ {
                    assert(cells@[i as int]@ == h);
                }
                if clear_cells(self, cells@, i + 1).contains(h) {
                    let j = choose|j: int| 0 <= j < i + 1 && (#[trigger] cells@[j])@ == h;
                    if j < i {
                        assert(clear_cells(self, cells@, i as int).contains(h));
                    }
                }
            }
            assert(aoe@ =~= clear_cells(self, cells@, i + 1));
            i = i + 1;
        }
        assert forall|h: Hex| aoe@.contains(h) <==> self.affected_from(origin@, radius as int).contains(h) by {
            if fov@.contains(h) {
                let j = choose|j: int| 0 <= j < fov.cells().len() && (#[trigger] fov.cells()[j])@ == h;
                assert(cells@[j]@ == h);
            }
            if aoe@.contains(h) {
                let j = choose|j: int| 0 <= j < i && (#[trigger] cells@[j])@ == h;
                assert(fov.cells()[j]@ == h);
            }
        }
        assert(aoe@ =~= self.affected_from(origin@, radius as int));
        aoe
    }
}

/// `cells` lists exactly the members of `set`.
pub open spec fn lists(cells: Seq<Coordinate>, set: Set<Hex>) -> bool {
    forall|h: Hex| set.contains(h) <==> exists|i: int| 0 <= i < cells.len() && (#[trigger] cells[i])@ == h
}

/// What an entity sees: the cells seen when the viewshed was last
/// computed, the viewing range, and whether the owner has moved since.
pub struct Viewshed {
    visible_tiles: CoordinateSet,
    range: i32,
    dirty: bool,
}

impl Viewshed {
    /// The cells seen when the viewshed was last computed.
    pub closed spec fn visible(&self) -> Set<Hex> {
        self.visible_tiles@
    }

    /// The viewing range.
    pub closed spec fn reach(&self) -> int {
        self.range as int
    }

    /// Whether the viewshed is to be computed anew.
    pub closed spec fn dirty(&self) -> bool {
        self.dirty
    }

    /// The range does not exceed [`MAX_SPAN`].
    pub closed spec fn wf(&self) -> bool {
        self.visible_tiles.wf() && self.range <= MAX_SPAN
    }

    /// The same viewshed, marked for recomputation.
    pub closed spec fn touched(self) -> Viewshed {
        Viewshed { visible_tiles: self.visible_tiles, range: self.range, dirty: true }
    }

    /// What `touched` keeps and what it sets.
    pub proof fn lemma_touched(self)
        ensures
            self.touched().visible() == self.visible(),
            self.touched().reach() == self.reach(),
            self.touched().dirty(),
            self.touched().wf() == self.wf(),
    {
    }

    /// A viewshed that has seen nothing yet.
    pub fn new(range: i32) -> (viewshed: Self)
        requires
            range <= MAX_SPAN,
        ensures
            viewshed.wf(),
            viewshed.visible() == Set::<Hex>::empty(),
            viewshed.reach() == range,
            viewshed.dirty(),
    {
        Viewshed { visible_tiles: CoordinateSet::new(), range, dirty: true }
    }

    /// Marks the viewshed for recomputation.
    pub fn touch(&mut self)
        ensures
            *final(self) == old(self).touched(),
    {
        self.dirty = true;
    }

    pub fn is_dirty(&self) -> (b: bool)
        ensures
            b == self.dirty(),
    {
        self.dirty
    }

    pub fn range(&self) -> (range: i32)
        ensures
            range == self.reach(),
    {
        self.range
    }

    pub fn is_visible(&self, coord: Coordinate) -> (b: bool)
        ensures
            b == self.visible().contains(coord@),
    {
        self.visible_tiles.contains(coord)
    }

    /// The visible coordinates, each once.
    pub fn iter(&self) -> (cells: &Vec<Coordinate>)
        ensures
            lists(cells@, self.visible()),
            forall|h: Hex| self.visible().contains(h) <==> exists|i: int| 0 <= i < cells@.len() && (#[trigger] cells@[i])@ == h,
    {
        self.visible_tiles.iter()
    }

    /// Computes the viewshed anew for an owner standing at `origin`.
    pub fn refresh(&mut self, map: &HexMap, origin: Coordinate)
        requires
            old(self).wf(),
            map.wf(),
            origin@.in_reach(),
        ensures
            final(self).wf(),
            final(self).visible() == map.visible_from(origin@, old(self).reach()),
            final(self).reach() == old(self).reach(),
            !final(self).dirty(),
    {
        self.visible_tiles = map.field_of_view(origin, self.range);
        self.dirty = false;
    }
}

/// The pass that computes viewsheds anew and reveals what the player sees.
pub struct VisibilitySystem;

/// Every entity stands within reach of the line and ring enumerations.
pub open spec fn positions_in_reach(positions: Map<Entity, Coordinate>) -> bool {
    forall|e: Entity| positions.contains_key(e) ==> (#[trigger] positions[e])@.in_reach()
}

/// Every viewshed is well-formed.
pub open spec fn viewsheds_wf(viewsheds: Map<Entity, Viewshed>) -> bool {
    forall|e: Entity| viewsheds.contains_key(e) ==> (#[trigger] viewsheds[e]).wf()
}

/// The viewshed of `e` is to be computed anew: it is marked for it, and `e`
/// has a position.
pub open spec fn refreshes(positions: Map<Entity, Coordinate>, viewsheds: Map<Entity, Viewshed>, e: Entity) -> bool {
    viewsheds.contains_key(e) && viewsheds[e].dirty() && positions.contains_key(e)
}

/// `after` is `before`, computed anew on `map` for an owner at `origin`.
pub open spec fn looks_around(after: Viewshed, before: Viewshed, map: &HexMap, origin: Hex) -> bool {
    &&& after.wf()
    &&& after.visible() == map.visible_from(origin, before.reach())
    &&& after.reach() == before.reach()
    &&& !after.dirty()
}

/// Slot `j` of the viewsheds after the pass: a viewshed that is to be
/// computed anew holds what its owner sees now, and any other is as it
/// was.
pub open spec fn refreshed_slot(
    map: &HexMap,
    positions: Map<Entity, Coordinate>,
    before: &Storage<Viewshed>,
    after: Option<(Entity, Viewshed)>,
    j: int,
) -> bool {
    match before.slot(j) {
        Some((e, viewshed)) => {
            &&& after is Some
            &&& after.unwrap().0 == e
            &&& if refreshes(positions, before@, e) {
                looks_around(after.unwrap().1, viewshed, map, positions[e]@)
            } else {
                after.unwrap().1 == viewshed
            }
        },
        None => after is None,
    }
}

impl VisibilitySystem {
    /// Computes anew the viewshed of every entity that has moved since its
    /// viewshed was last computed, and reveals to the player the tiles of a
    /// viewshed of its own that was computed anew. What was revealed stays
    /// revealed.
    pub fn run(
        &self,
        player: Entity,
        map: &mut HexMap,
        coordinates: &Storage<Coordinate>,
        viewsheds: &mut Storage<Viewshed>,
    )
        requires
            old(map).wf(),
            positions_in_reach(coordinates@),
            viewsheds_wf(old(viewsheds)@),
        ensures
            final(map).wf(),
            final(map).same_ground(old(map)),
            viewsheds_wf(final(viewsheds)@),
            forall|j: int| refreshed_slot(old(map), coordinates@, old(viewsheds), #[trigger] final(viewsheds).slot(j), j),
            forall|t: int|
                0 <= t < final(map).tiles().len() ==> {
                    &&& (#[trigger] final(map).tiles()[t]).blocked() == old(map).tiles()[t].blocked()
                    &&& final(map).tiles()[t].occupants() == old(map).tiles()[t].occupants()
                    &&& final(map).tiles()[t].revealed() == (old(map).tiles()[t].revealed() || (refreshes(
                        coordinates@,
                        old(viewsheds)@,
                        player,
                    ) && old(map).visible_from(coordinates@[player]@, old(viewsheds)@[player].reach()).contains(
                        old(map).cell(t),
                    )))
                },
    {
        let n: usize = viewsheds.slots();
        let mut player_looked: bool = false;
        let mut i: usize = 0;
        proof {
            assert forall|j: int| old(viewsheds).slot(j) is Some implies (#[trigger] old(viewsheds).slot(j)).unwrap().1.wf() by {
                old(viewsheds).lemma_slot(j);
                assert(old(viewsheds)@[old(viewsheds).slot(j).unwrap().0].wf());
            }
        }
        while i < n
            invariant
                map.wf(),
                map == old(map),
                positions_in_reach(coordinates@),
                0 <= i <= n,
                n == old(viewsheds).slot_count(),
                forall|j: int| j >= i ==> viewsheds.slot(j) == old(viewsheds).slot(j),
                forall|j: int|
                    0 <= j < i ==> refreshed_slot(map, coordinates@, old(viewsheds), #[trigger] viewsheds.slot(j), j),
                forall|j: int|
                    i <= j && old(viewsheds).slot(j) is Some ==> (#[trigger] old(viewsheds).slot(j)).unwrap().1.wf(),
                player_looked <==> refreshes(coordinates@, old(viewsheds)@, player) && player.index < i,
            decreases n - i,
        {
            proof {
                old(viewsheds).lemma_slot(i as int);
                old(viewsheds).lemma_bounded(i as int);
                viewsheds.lemma_slot(i as int);
                if refreshes(coordinates@, old(viewsheds)@, player) {
                    old(viewsheds).lemma_key_storable(player);
                }
            }
            let wanted: Option<(Entity, Coordinate)> = match viewsheds.entry(i) {
                Some((entity, viewshed)) => {
                    if viewshed.is_dirty() {
                        match coordinates.get(entity) {
                            Some(at) => Some((entity, *at)),
                            None => None,
                        }
                    } else {
                        None
                    }
                },
                None => None,
            };
            if let Some((entity, at)) = wanted {
                match viewsheds.remove(entity) {
                    Some(viewshed) => {
                        let mut viewshed = viewshed;
                        assert(at@.in_reach());
                        viewshed.refresh(map, at);
                        viewsheds.insert(entity, viewshed);
                        if entity == player {
                            player_looked = true;
                        }
                    },
                    None => {},
                }
            }
            i = i + 1;
        }
        proof {
            assert forall|j: int| refreshed_slot(map, coordinates@, old(viewsheds), #[trigger] viewsheds.slot(j), j) by {
                old(viewsheds).lemma_slot(j);
                viewsheds.lemma_slot(j);
            }
            assert forall|e: Entity| viewsheds@.contains_key(e) implies (#[trigger] viewsheds@[e]).wf() by {
                viewsheds.lemma_key_storable(e);
                old(viewsheds).lemma_slot(e.index as int);
                assert(refreshed_slot(map, coordinates@, old(viewsheds), viewsheds.slot(e.index as int), e.index as int));
                assert(old(viewsheds)@.contains_key(e));
            }
            if refreshes(coordinates@, old(viewsheds)@, player) {
                old(viewsheds).lemma_key_storable(player);
            }
        }
        if player_looked {
            match viewsheds.get(player) {
                Some(viewshed) => {
                    proof {
                        old(viewsheds).lemma_key_storable(player);
                        assert(refreshed_slot(
                            map,
                            coordinates@,
                            old(viewsheds),
                            viewsheds.slot(player.index as int),
                            player.index as int,
                        ));
                    }
                    Self::show(map, viewshed);
                },
                None => {
                    proof {
                        old(viewsheds).lemma_key_storable(player);
                        assert(refreshed_slot(
                            map,
                            coordinates@,
                            old(viewsheds),
                            viewsheds.slot(player.index as int),
                            player.index as int,
                        ));
                    }
                },
            }
        }
    }

    /// Reveals the tiles of a viewshed.
    fn show(map: &mut HexMap, viewshed: &Viewshed)
        requires
            old(map).wf(),
        ensures
            final(map).wf(),
            final(map).same_ground(old(map)),
            forall|t: int|
                0 <= t < final(map).tiles().len() ==> {
                    &&& (#[trigger] final(map).tiles()[t]).blocked() == old(map).tiles()[t].blocked()
                    &&& final(map).tiles()[t].occupants() == old(map).tiles()[t].occupants()
                    &&& final(map).tiles()[t].revealed() == (old(map).tiles()[t].revealed() || viewshed.visible().contains(
                        old(map).cell(t),
                    ))
                },
    {
        let cells = viewshed.iter();
        let mut k: usize = 0;
        while k < cells.len()
            invariant
                map.wf(),
                map.same_ground(old(map)),
                old(map).wf(),
                0 <= k <= cells@.len(),
                forall|t: int|
                    0 <= t < map.tiles().len() ==> {
                        &&& (#[trigger] map.tiles()[t]).blocked() == old(map).tiles()[t].blocked()
                        &&& map.tiles()[t].occupants() == old(map).tiles()[t].occupants()
                        &&& map.tiles()[t].revealed() == (old(map).tiles()[t].revealed() || exists|c: int|
                            0 <= c < k && #[trigger] shown_by(old(map), cells@[c]@, t))
                    },
            decreases cells@.len() - k,
        {
            let ghost before = *map;
            map.reveal_at(cells[k]);
            proof {
                assert forall|t: int| 0 <= t < map.tiles().len() implies (#[trigger] map.tiles()[t]).revealed() == (old(
                    map,
                ).tiles()[t].revealed() || exists|c: int| 0 <= c < k + 1 && #[trigger] shown_by(old(map), cells@[c]@, t)) by {
                    before.lemma_same_ground(old(map), cells@[k as int]@);
                    assert(before.tiles()[t].revealed() == (old(map).tiles()[t].revealed() || exists|c: int|
                        0 <= c < k && #[trigger] shown_by(old(map), cells@[c]@, t)));
                    if before.contains(cells@[k as int]@) && t == before.slot_of(cells@[k as int]@) {
                        assert(shown_by(old(map), cells@[k as int]@, t));
                    }
                    if exists|c: int| 0 <= c < k + 1 && #[trigger] shown_by(old(map), cells@[c]@, t) {
                        let c = choose|c: int| 0 <= c < k + 1 && #[trigger] shown_by(old(map), cells@[c]@, t);
                        if c < k {
                            assert(shown_by(old(map), cells@[c]@, t));
                        }
                    }
                }
            }
            k = k + 1;
        }
        proof {
            assert forall|t: int| 0 <= t < map.tiles().len() implies (#[trigger] map.tiles()[t]).revealed() == (old(
                map,
            ).tiles()[t].revealed() || viewshed.visible().contains(old(map).cell(t))) by {
                old(map).lemma_index_bijection(Hex { q: 0, r: 0 }, t);
                if viewshed.visible().contains(old(map).cell(t)) {
                    let c = choose|c: int| 0 <= c < cells@.len() && (#[trigger] cells@[c])@ == old(map).cell(t);
                    assert(shown_by(old(map), cells@[c]@, t));
                }
                if exists|c: int| 0 <= c < k && #[trigger] shown_by(old(map), cells@[c]@, t) {
                    let c = choose|c: int| 0 <= c < k && #[trigger] shown_by(old(map), cells@[c]@, t);
                    old(map).lemma_index_bijection(cells@[c]@, t);
                    assert(cells@[c]@ == old(map).cell(t));
                }
            }
        }
    }
}

/// The cell `h` lies on the map and is stored at index `t`.
pub open spec fn shown_by(map: &HexMap, h: Hex, t: int) -> bool {
    map.contains(h) && map.slot_of(h) == t
}

} // verus!
