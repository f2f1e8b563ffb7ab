use vstd::prelude::*;
use crate::morton::{
    coord_ok, decode_x_spec, decode_y_spec, encode, encode_spec, in_rect_spec, is_in_rect,
    lemma_encode_decode, lemma_encode_monotone,
};
use crate::units::{coord_in_range, dist_sq, distance_squared, point_in_range, Point, COORD_LIMIT};
use crate::morton::{lemma_decode_in_range, lemma_in_rect_code_bounds, lemma_morton_round_trip, find_bigmin};

verus! {

pub type ParticleIndex = u32;

pub type CellIndex = u32;

/// Lower left corner of the grid, in micrometres on each axis.
pub const GRID_MIN: i64 = -100_000_000;

/// Largest interaction radius, in micrometres.
pub const MAX_RADIUS: i64 = 0x4000_0000;

/// Largest cell coordinate in use; the codes of all cells stay below `SENTINEL_CELL`.
pub const LAST_CELL: u32 = 0xfffe;

/// Cells in a row outside the query rectangle after which the query skips ahead.
pub const MAX_CONSECUTIVE_CELL_MISSES: u32 = 8;

/// Code of the cell that closes the cell table.
pub const SENTINEL_CELL: CellIndex = 0xffff_ffff;

#[derive(Clone, Copy)]
struct Cell {
    first_particle: ParticleIndex,
    cidx: CellIndex,
}

/// Cell coordinate, along one axis, of the coordinate `v`; clamped to the grid.
pub open spec fn cell_coord_spec(v: int, cell_size: int) -> u32 {
    let o = v - GRID_MIN;
    if o < 0 {
        0
    } else if o / cell_size > LAST_CELL {
        LAST_CELL
    } else {
        (o / cell_size) as u32
    }
}

/// Code of the cell that holds `p`.
pub open spec fn cell_code_spec(p: Point, cell_size: int) -> CellIndex {
    encode_spec(cell_coord_spec(p.x as int, cell_size), cell_coord_spec(p.y as int, cell_size))
}

/// Cell code of each of `positions`.
pub open spec fn cell_codes(positions: Seq<Point>, cell_size: int) -> Seq<CellIndex> {
    Seq::new(positions.len(), |i: int| cell_code_spec(positions[i], cell_size))
}

pub struct NeighborhoodSearch {
    radius: i64,
    cell_size: i64,
    /// Pairs of (cell code, particle id), sorted by cell code.
    particles: Vec<(CellIndex, ParticleIndex)>,
    /// One entry per non-empty cell, then the sentinel.
    cells: Vec<Cell>,
    /// Cell code of each particle id, as of the last `update`.
    codes: Ghost<Seq<CellIndex>>,
}

impl NeighborhoodSearch {
    pub closed spec fn radius_spec(&self) -> int {
        self.radius as int
    }

    pub closed spec fn cell_size_spec(&self) -> int {
        self.cell_size as int
    }

    /// Cell code of each particle id, as of the last `update`.
    pub closed spec fn codes_spec(&self) -> Seq<CellIndex> {
        self.codes@
    }

    /// The index was last built from `positions`.
    pub open spec fn built_from(&self, positions: Seq<Point>) -> bool {
        &&& self.codes_spec().len() == positions.len()
        &&& forall|i: int|
            0 <= i < positions.len() ==> #[trigger] self.codes_spec()[i] == cell_code_spec(
                positions[i],
                self.cell_size_spec(),
            )
    }

    pub closed spec fn wf(&self) -> bool {
        let n = self.particles@.len();
        let ps = self.particles@;
        let cs = self.cells@;
        &&& 0 < self.radius <= MAX_RADIUS
        &&& self.cell_size == 2 * self.radius
        &&& n == self.codes@.len()
        &&& n < SENTINEL_CELL
        &&& ps.no_duplicates()
        &&& forall|j: int|
            0 <= j < n ==> (#[trigger] ps[j]).1 < n && ps[j].0 == self.codes@[ps[j].1 as int]
        &&& forall|i: int| 0 <= i < n ==> ps.contains((#[trigger] self.codes@[i], i as u32))
        &&& forall|i: int| 0 <= i < n ==> #[trigger] self.codes@[i] < SENTINEL_CELL
        &&& cs.len() >= 1
        &&& cs.last().cidx == SENTINEL_CELL
        &&& cs.last().first_particle == n
        &&& cs[0].first_particle == 0
        &&& forall|k: int, l: int|
            0 <= k < l < cs.len() ==> (#[trigger] cs[k]).cidx < (#[trigger] cs[l]).cidx
                && cs[k].first_particle < cs[l].first_particle
        &&& forall|k: int, j: int|
            0 <= k < cs.len() - 1 && cs[k].first_particle <= j < cs[k + 1].first_particle
                ==> #[trigger] ps[j].0 == #[trigger] cs[k].cidx
        &&& forall|k: int, j: int|
            0 <= k < cs.len() && 0 <= j < cs[k].first_particle ==> #[trigger] ps[j].0
                < #[trigger] cs[k].cidx
        &&& forall|k: int, j: int|
            0 <= k < cs.len() && cs[k].first_particle <= j < n ==> #[trigger] ps[j].0
                >= #[trigger] cs[k].cidx
    }

    /// The rectangle of cells `(x0, y0, x1, y1)` that covers the square of side
    /// twice the radius around `p`.
    pub open spec fn query_rect(&self, p: Point) -> (u32, u32, u32, u32) {
        let r = self.radius_spec();
        let c = self.cell_size_spec();
        (
            cell_coord_spec(p.x - r, c),
            cell_coord_spec(p.y - r, c),
            cell_coord_spec(p.x + r, c),
            cell_coord_spec(p.y + r, c),
        )
    }

    /// * radius: the distance up to which a point is a neighbor, in micrometres
    pub fn new(radius: i64) -> (r: NeighborhoodSearch)
        requires
            0 < radius <= MAX_RADIUS,
        ensures
            r.wf(),
            r.radius_spec() == radius,
            r.cell_size_spec() == 2 * radius,
            r.codes_spec().len() == 0,
    {
        let cells = vec![Cell { first_particle: 0, cidx: SENTINEL_CELL }];
        NeighborhoodSearch {
            radius,
            cell_size: radius * 2,
            particles: Vec::new(),
            cells,
            codes: Ghost(Seq::empty()),
        }
    }

    pub fn radius(&self) -> (r: i64)
        ensures
            r == self.radius_spec(),
    {
        self.radius
    }

    fn position_to_cell_coord(v: i64, cell_size: i64) -> (r: u32)
        requires
            coord_in_range(v as int) || (-COORD_LIMIT - MAX_RADIUS <= v <= COORD_LIMIT
                + MAX_RADIUS),
            2 <= cell_size <= 2 * MAX_RADIUS,
        ensures
            r == cell_coord_spec(v as int, cell_size as int),
            r <= LAST_CELL,
    {
        let o = v - GRID_MIN;
        if o < 0 {
            0
        } else {
            let q = (o as u64) / (cell_size as u64);
            if q > LAST_CELL as u64 {
                LAST_CELL
            } else {
                q as u32
            }
        }
    }

    fn position_to_cidx(p: Point, cell_size: i64) -> (r: CellIndex)
        requires
            point_in_range(p),
            2 <= cell_size <= 2 * MAX_RADIUS,
        ensures
            r == cell_code_spec(p, cell_size as int),
            r < SENTINEL_CELL,
    {
        let x = Self::position_to_cell_coord(p.x, cell_size);
        let y = Self::position_to_cell_coord(p.y, cell_size);
        proof {
            lemma_code_below_sentinel(x, y);
        }
        encode(x, y)
    }

    /// Rebuilds the index from the current positions.
    #[verifier::rlimit(100)]
    pub fn update(&mut self, positions: &Vec<Point>)
        requires
            old(self).wf(),
            old(self).codes_spec().len() <= positions@.len(),
            positions@.len() < SENTINEL_CELL,
            forall|i: int| 0 <= i < positions@.len() ==> point_in_range(#[trigger] positions@[i]),
        ensures
            final(self).wf(),
            final(self).radius_spec() == old(self).radius_spec(),
            final(self).cell_size_spec() == old(self).cell_size_spec(),
            final(self).built_from(positions@),
    {
        let cell_size = self.cell_size;
        let ghost codes = cell_codes(positions@, cell_size as int);
        let parts = sorted_particles(positions, cell_size);
        let cells = build_cells(&parts);
        self.particles = parts;
        self.cells = cells;
        self.codes = Ghost(codes);
    }

    /// Ids of the particles whose cell lies in the rectangle of cells that covers
    /// the square of side twice the radius around `position`: a superset of the
    /// particles within the radius. The cells are visited in code order from the
    /// first at or above the code of the rectangle's lower corner up to the code of
    /// its upper corner; after several cells in a row outside the rectangle the walk
    /// jumps, by BIGMIN, to the first cell at or above the next code inside it.
    #[verifier::rlimit(100)]
    pub fn foreach_potential_neighbor(&self, position: Point) -> (r: Vec<ParticleIndex>)
        requires
            self.wf(),
            point_in_range(position),
        ensures
            r@.no_duplicates(),
            forall|m: int|
                0 <= m < r@.len() ==> (#[trigger] r@[m]) < self.codes_spec().len() && ({
                    let (x0, y0, x1, y1) = self.query_rect(position);
                    in_rect_spec(self.codes_spec()[r@[m] as int], x0, y0, x1, y1)
                }),
            forall|i: int|
                0 <= i < self.codes_spec().len() && ({
                    let (x0, y0, x1, y1) = self.query_rect(position);
                    in_rect_spec(#[trigger] self.codes_spec()[i], x0, y0, x1, y1)
                }) ==> r@.contains(i as u32),
    {
        let x0 = Self::position_to_cell_coord(position.x - self.radius, self.cell_size);
        let y0 = Self::position_to_cell_coord(position.y - self.radius, self.cell_size);
        let x1 = Self::position_to_cell_coord(position.x + self.radius, self.cell_size);
        let y1 = Self::position_to_cell_coord(position.y + self.radius, self.cell_size);
        let cidx_min = encode(x0, y0);
        let cidx_max = encode(x1, y1);
        proof {
            lemma_code_below_sentinel(x1, y1);
        }
        let ghost n = self.particles@.len();
        let ghost ps = self.particles@;
        let ghost cs = self.cells@;
        let ncells = self.cells.len();
        let mut k = find_next_cell(&self.cells, 0, cidx_min);
        proof {
            if k == ncells {
                assert(self.cells@[ncells - 1].cidx < cidx_min);
            }
        }
        let ghost k0 = k as int;
        let mut result: Vec<ParticleIndex> = Vec::new();
        let ghost mut slots: Seq<int> = Seq::empty();
        let mut num_misses: u32 = 0;
        while self.cells[k].cidx <= cidx_max
            invariant
                self.wf(),
                num_misses <= MAX_CONSECUTIVE_CELL_MISSES,
                cidx_max == encode_spec(x1, y1),
                x1 <= LAST_CELL,
                y1 <= LAST_CELL,
                ps == self.particles@,
                cs == self.cells@,
                n == ps.len(),
                cidx_max < SENTINEL_CELL,
                0 <= k0 <= k < cs.len(),
                ncells == cs.len(),
                result@.len() == slots.len(),
                forall|m: int|
                    0 <= m < slots.len() ==> cs[k0].first_particle <= #[trigger] slots[m]
                        < cs[k as int].first_particle && result@[m] == ps[slots[m]].1
                        && in_rect_spec(ps[slots[m]].0, x0, y0, x1, y1),
                forall|m: int, m2: int| 0 <= m < m2 < slots.len() ==> #[trigger] slots[m] < #[trigger] slots[m2],
                forall|b: int|
                    cs[k0].first_particle <= b < cs[k as int].first_particle && in_rect_spec(
                        #[trigger] ps[b].0,
                        x0,
                        y0,
                        x1,
                        y1,
                    ) ==> result@.contains(ps[b].1),
            decreases cs.len() - k,
        {
            proof {
                if k as int == cs.len() - 1 {
                    assert(cs.last().cidx == SENTINEL_CELL);
                }
                assert(self.cells@.last().cidx == SENTINEL_CELL);
                assert(k < cs.len() - 1);
                if k0 < k {
                    assert(cs[k0].first_particle < cs[k as int].first_particle);
                }
            }
            let cell = self.cells[k];
            if is_in_rect(cell.cidx, x0, y0, x1, y1) {
                let end = self.cells[k + 1].first_particle;
                let mut p = cell.first_particle;
                while p < end
                    invariant
                        self.wf(),
                        ps == self.particles@,
                        cs == self.cells@,
                        n == ps.len(),
                        0 <= k0 <= k < cs.len() - 1,
                        cell == cs[k as int],
                        cs[k0].first_particle <= cell.first_particle,
                        end == cs[k + 1].first_particle,
                        cell.first_particle <= p <= end,
                        in_rect_spec(cell.cidx, x0, y0, x1, y1),
                        result@.len() == slots.len(),
                        forall|m: int|
                            0 <= m < slots.len() ==> cs[k0].first_particle <= #[trigger] slots[m] < p
                                && result@[m] == ps[slots[m]].1 && in_rect_spec(
                                ps[slots[m]].0,
                                x0,
                                y0,
                                x1,
                                y1,
                            ),
                        forall|m: int, m2: int|
                            0 <= m < m2 < slots.len() ==> #[trigger] slots[m] < #[trigger] slots[m2],
                        forall|b: int|
                            cs[k0].first_particle <= b < p && in_rect_spec(
                                #[trigger] ps[b].0,
                                x0,
                                y0,
                                x1,
                                y1,
                            ) ==> result@.contains(ps[b].1),
                    decreases end - p,
                {
                    assert(ps[p as int].0 == cell.cidx);
                    let ghost prev = result@;
                    result.push(self.particles[p as usize].1);
                    proof {
                        slots = slots.push(p as int);
                        assert(result@ == prev.push(ps[p as int].1));
                        assert forall|b: int|
                            cs[k0].first_particle <= b < p + 1 && in_rect_spec(
                                #[trigger] ps[b].0,
                                x0,
                                y0,
                                x1,
                                y1,
                            ) implies result@.contains(ps[b].1) by {
                            if b == p {
                                assert(result@[result@.len() - 1] == ps[b].1);
                            } else {
                                assert(prev.contains(ps[b].1));
                                let w = choose|w: int| 0 <= w < prev.len() && prev[w] == ps[b].1;
                                assert(result@[w] == ps[b].1);
                            }
                        }
                    }
                    p = p + 1;
                }
                num_misses = 0;
                k = k + 1;
            } else {
                num_misses = num_misses + 1;
                if num_misses > MAX_CONSECUTIVE_CELL_MISSES {
                    // Jump to the first cell at or above the smallest code beyond
                    // this one that lies in the rectangle.
                    num_misses = 0;
                    let bigmin = find_bigmin(cell.cidx, x0, y0, x1, y1);
                    if bigmin > cidx_max as u64 {
                        proof {
                            assert forall|b: int|
                                cs[k0].first_particle <= b < cs[ncells - 1].first_particle && in_rect_spec(
                                    #[trigger] ps[b].0,
                                    x0,
                                    y0,
                                    x1,
                                    y1,
                                ) implies result@.contains(ps[b].1) by {
                                if b >= cs[k as int].first_particle {
                                    assert(ps[b].0 >= cs[k as int].cidx);
                                    lemma_in_rect_code_bounds(ps[b].0, x0, y0, x1, y1);
                                }
                            }
                            assert(cs[k as int].first_particle <= cs[ncells - 1].first_particle);
                        }
                        k = ncells - 1;
                    } else {
                        let next = find_next_cell(&self.cells, k + 1, bigmin as u32);
                        proof {
                            if next == ncells {
                                assert(cs[ncells - 1].cidx < bigmin);
                            }
                            assert forall|b: int|
                                cs[k0].first_particle <= b < cs[next as int].first_particle && in_rect_spec(
                                    #[trigger] ps[b].0,
                                    x0,
                                    y0,
                                    x1,
                                    y1,
                                ) implies result@.contains(ps[b].1) by {
                                if b >= cs[k as int].first_particle {
                                    let m = next - 1;
                                    assert(ps[b].0 >= cs[k as int].cidx);
                                    if b >= cs[m].first_particle {
                                        assert(ps[b].0 == cs[m].cidx);
                                    } else {
                                        assert(ps[b].0 < cs[m].cidx);
                                    }
                                    if m > k {
                                        assert(cs[m].cidx < bigmin);
                                    }
                                }
                            }
                            assert(cs[k as int].first_particle < cs[next as int].first_particle);
                        }
                        k = next;
                    }
                } else {
                    proof {
                        assert forall|b: int|
                            cs[k0].first_particle <= b < cs[k + 1].first_particle && in_rect_spec(
                                #[trigger] ps[b].0,
                                x0,
                                y0,
                                x1,
                                y1,
                            ) implies result@.contains(ps[b].1) by {
                            if b >= cs[k as int].first_particle {
                                assert(ps[b].0 == cs[k as int].cidx);
                            }
                        }
                    }
                    k = k + 1;
                }
            }
        }
        proof {
            let k_end = k as int;
            assert forall|m: int| 0 <= m < result@.len() implies (#[trigger] result@[m])
                < self.codes_spec().len() && in_rect_spec(
                self.codes_spec()[result@[m] as int],
                x0,
                y0,
                x1,
                y1,
            ) by {
                assert(0 <= slots[m] < n);
                assert(ps[slots[m]].1 < n);
            }
            assert forall|m: int, m2: int| 0 <= m < result@.len() && 0 <= m2 < result@.len() && m != m2
                implies result@[m] != result@[m2] by {
                let a = slots[m];
                let b = slots[m2];
                if m < m2 {
                    assert(slots[m] < slots[m2]);
                } else {
                    assert(slots[m2] < slots[m]);
                }
                if ps[a].1 == ps[b].1 {
                    assert(ps[a] == ps[b]);
                }
            }
            assert forall|i: int|
                0 <= i < self.codes_spec().len() && in_rect_spec(#[trigger] self.codes_spec()[i], x0, y0, x1, y1)
                    implies result@.contains(i as u32) by {
                let c = self.codes@[i];
                assert(ps.contains((c, i as u32)));
                let b = choose|b: int| 0 <= b < ps.len() && ps[b] == (c, i as u32);
                lemma_encode_decode(c);
                lemma_decode_in_range(c);
                lemma_encode_monotone(x0, y0, decode_x_spec(c), decode_y_spec(c));
                lemma_encode_monotone(decode_x_spec(c), decode_y_spec(c), x1, y1);
                if b < cs[k0].first_particle {
                    if k0 > 0 {
                        if b >= cs[k0 - 1].first_particle {
                            assert(ps[b].0 == cs[k0 - 1].cidx);
                        } else {
                            assert(ps[b].0 < cs[k0 - 1].cidx);
                        }
                    }
                }
                if b >= cs[k_end].first_particle {
                    assert(ps[b].0 >= cs[k_end].cidx);
                }
            }
        }
        result
    }

    /// Ids of the particles within the radius of `position`, among the
    /// `positions` that the index was last built from.
    pub fn neighbors_within(&self, positions: &Vec<Point>, position: Point) -> (r: Vec<
        ParticleIndex,
    >)
        requires
            self.wf(),
            self.built_from(positions@),
            point_in_range(position),
            forall|i: int| 0 <= i < positions@.len() ==> point_in_range(#[trigger] positions@[i]),
        ensures
            r@.no_duplicates(),
            forall|m: int|
                0 <= m < r@.len() ==> (#[trigger] r@[m]) < positions@.len() && dist_sq(
                    position,
                    positions@[r@[m] as int],
                ) <= self.radius_spec() * self.radius_spec(),
            forall|i: int|
                0 <= i < positions@.len() && dist_sq(position, #[trigger] positions@[i])
                    <= self.radius_spec() * self.radius_spec() ==> r@.contains(i as u32),
    {
        let candidates = self.foreach_potential_neighbor(position);
        assert(0 < self.radius * self.radius <= MAX_RADIUS * MAX_RADIUS) by (nonlinear_arith)
            requires 0 < self.radius <= MAX_RADIUS;
        let r_sq = (self.radius as i128) * (self.radius as i128);
        let mut out: Vec<ParticleIndex> = Vec::new();
        let ghost mut picked: Seq<int> = Seq::empty();
        let mut t: usize = 0;
        while t < candidates.len()
            invariant
                self.wf(),
                self.built_from(positions@),
                r_sq == self.radius_spec() * self.radius_spec(),
                forall|i: int| 0 <= i < positions@.len() ==> point_in_range(#[trigger] positions@[i]),
                point_in_range(position),
                candidates@.no_duplicates(),
                forall|m: int| 0 <= m < candidates@.len() ==> (#[trigger] candidates@[m]) < positions@.len(),
                t <= candidates@.len(),
                out@.len() == picked.len(),
                forall|m: int|
                    0 <= m < picked.len() ==> 0 <= #[trigger] picked[m] < t && out@[m] == candidates@[picked[m]]
                        && dist_sq(position, positions@[out@[m] as int]) <= r_sq,
                forall|m: int, m2: int| 0 <= m < m2 < picked.len() ==> #[trigger] picked[m] < #[trigger] picked[m2],
                forall|u: int|
                    0 <= u < t && dist_sq(position, positions@[#[trigger] candidates@[u] as int]) <= r_sq
                        ==> out@.contains(candidates@[u]),
            decreases candidates@.len() - t,
        {
            let c = candidates[t];
            let d = distance_squared(position, positions[c as usize]);
            if d <= r_sq {
                let ghost prev = out@;
                out.push(c);
                proof {
                    let ghost old_picked = picked;
                    picked = picked.push(t as int);
                    assert(out@ == prev.push(c));
                    assert forall|m: int| 0 <= m < picked.len() implies 0 <= #[trigger] picked[m] < t + 1
                        && out@[m] == candidates@[picked[m]] && dist_sq(position, positions@[out@[m] as int])
                        <= r_sq by {
                        if m < old_picked.len() {
                            assert(picked[m] == old_picked[m]);
                            assert(out@[m] == prev[m]);
                        } else {
                            assert(out@[m] == c);
                        }
                    }
                    assert forall|u: int|
                        0 <= u < t + 1 && dist_sq(position, positions@[#[trigger] candidates@[u] as int])
                            <= r_sq implies out@.contains(candidates@[u]) by {
                        if u == t {
                            assert(out@[out@.len() - 1] == c);
                        } else {
                            assert(prev.contains(candidates@[u]));
                            let w = choose|w: int| 0 <= w < prev.len() && prev[w] == candidates@[u];
                            assert(out@[w] == candidates@[u]);
                        }
                    }
                }
            }
            t = t + 1;
        }
        proof {
            assert forall|m: int| 0 <= m < out@.len() implies (#[trigger] out@[m]) < positions@.len()
                && dist_sq(position, positions@[out@[m] as int]) <= self.radius_spec() * self.radius_spec() by {
                assert(out@[m] == candidates@[picked[m]]);
            }
            assert forall|m: int, m2: int| 0 <= m < out@.len() && 0 <= m2 < out@.len() && m != m2
                implies out@[m] != out@[m2] by {
                if m < m2 {
                    assert(picked[m] < picked[m2]);
                } else {
                    assert(picked[m2] < picked[m]);
                }
            }
            assert forall|i: int|
                0 <= i < positions@.len() && dist_sq(position, #[trigger] positions@[i])
                    <= self.radius_spec() * self.radius_spec() implies out@.contains(i as u32) by {
                self.lemma_near_is_candidate(positions@[i], position);
                let (x0, y0, x1, y1) = self.query_rect(position);
                assert(in_rect_spec(self.codes_spec()[i], x0, y0, x1, y1));
                assert(candidates@.contains(i as u32));
                let u = choose|u: int| 0 <= u < candidates@.len() && candidates@[u] == i as u32;
                assert(dist_sq(position, positions@[candidates@[u] as int]) <= r_sq);
            }
        }
        out
    }

    /// A point within the radius of `p` lies in a cell of the query rectangle of `p`.
    proof fn lemma_near_is_candidate(&self, q: Point, p: Point)
        requires
            self.wf(),
            point_in_range(p),
            point_in_range(q),
            dist_sq(p, q) <= self.radius_spec() * self.radius_spec(),
        ensures
            ({
                let (x0, y0, x1, y1) = self.query_rect(p);
                in_rect_spec(cell_code_spec(q, self.cell_size_spec()), x0, y0, x1, y1)
            }),
    {
        let r = self.radius_spec();
        let c = self.cell_size_spec();
        let dx = p.x - q.x;
        let dy = p.y - q.y;
        assert(0 <= dx * dx) by (nonlinear_arith);
        assert(0 <= dy * dy) by (nonlinear_arith);
        assert(dx * dx <= r * r && dy * dy <= r * r) by (nonlinear_arith)
            requires dx * dx + dy * dy <= r * r, 0 <= dx * dx, 0 <= dy * dy;
        assert(-r <= dx <= r) by (nonlinear_arith)
            requires dx * dx <= r * r, r > 0;
        assert(-r <= dy <= r) by (nonlinear_arith)
            requires dy * dy <= r * r, r > 0;
        lemma_cell_coord_monotone(p.x - r, q.x as int, c);
        lemma_cell_coord_monotone(q.x as int, p.x + r, c);
        lemma_cell_coord_monotone(p.y - r, q.y as int, c);
        lemma_cell_coord_monotone(q.y as int, p.y + r, c);
        let cx = cell_coord_spec(q.x as int, c);
        let cy = cell_coord_spec(q.y as int, c);
        lemma_morton_round_trip(cx, cy);
    }
}

/// The cell coordinate grows with the coordinate.
proof fn lemma_cell_coord_monotone(a: int, b: int, cell_size: int)
    requires
        a <= b,
        cell_size > 0,
    ensures
        cell_coord_spec(a, cell_size) <= cell_coord_spec(b, cell_size),
        cell_coord_spec(a, cell_size) <= LAST_CELL,
        cell_coord_spec(b, cell_size) <= LAST_CELL,
{
    if a - GRID_MIN >= 0 {
        vstd::arithmetic::div_mod::lemma_div_is_ordered(a - GRID_MIN, b - GRID_MIN, cell_size);
        vstd::arithmetic::div_mod::lemma_div_pos_is_pos(a - GRID_MIN, cell_size);
    }
}

/// The pairs (cell code, particle id) of all `positions`, sorted by cell code.
fn sorted_particles(positions: &Vec<Point>, cell_size: i64) -> (parts: Vec<(CellIndex, ParticleIndex)>)
    requires
        positions@.len() < SENTINEL_CELL,
        2 <= cell_size <= 2 * MAX_RADIUS,
        forall|i: int| 0 <= i < positions@.len() ==> point_in_range(#[trigger] positions@[i]),
    ensures
        ({
            let n = positions@.len();
            let codes = cell_codes(positions@, cell_size as int);
            &&& parts@.len() == n
            &&& parts@.no_duplicates()
            &&& forall|j: int|
                0 <= j < n ==> (#[trigger] parts@[j]).1 < n && parts@[j].0 == codes[parts@[j].1 as int]
            &&& forall|i: int| 0 <= i < n ==> parts@.contains((#[trigger] codes[i], i as u32))
            &&& forall|i: int| 0 <= i < n ==> #[trigger] codes[i] < SENTINEL_CELL
            &&& forall|a: int, b: int|
                0 <= a < b < n ==> (#[trigger] parts@[a]).0 <= (#[trigger] parts@[b]).0
            &&& forall|a: int| 0 <= a < n ==> (#[trigger] parts@[a]).0 < SENTINEL_CELL
        }),
{
        let n = positions.len();
    let ghost codes = cell_codes(positions@, cell_size as int);
    let mut parts: Vec<(CellIndex, ParticleIndex)> = Vec::new();
    let mut i: usize = 0;
    while i < n
        invariant
            n == positions@.len(),
            n < SENTINEL_CELL,
            i <= n,
            2 <= cell_size <= 2 * MAX_RADIUS,
            codes.len() == n,
            forall|k: int| 0 <= k < n ==> #[trigger] codes[k] == cell_code_spec(positions@[k], cell_size as int),
            forall|k: int| 0 <= k < n ==> point_in_range(#[trigger] positions@[k]),
            parts@ =~= Seq::new(i as nat, |k: int| (codes[k], k as u32)),
            forall|k: int| 0 <= k < i ==> #[trigger] codes[k] < SENTINEL_CELL,
        decreases n - i,
    {
        let c = NeighborhoodSearch::position_to_cidx(positions[i], cell_size);
        parts.push((c, i as u32));
        i = i + 1;
    }
    let ghost unsorted = parts@;
    assert(unsorted.no_duplicates());
    sort_by_cell(&mut parts);
    proof {
        unsorted.lemma_multiset_has_no_duplicates();
        parts@.lemma_multiset_has_no_duplicates_conv();
        unsorted.to_multiset_ensures();
        parts@.to_multiset_ensures();
        assert forall|j: int| 0 <= j < n implies (#[trigger] parts@[j]).1 < n && parts@[j].0
            == codes[parts@[j].1 as int] by {
            assert(parts@.contains(parts@[j]));
            assert(parts@.to_multiset().count(parts@[j]) > 0);
            assert(unsorted.to_multiset().count(parts@[j]) > 0);
            assert(unsorted.contains(parts@[j]));
        }
        assert forall|k: int| 0 <= k < n implies parts@.contains((#[trigger] codes[k], k as u32)) by {
            assert(unsorted[k] == (codes[k], k as u32));
            assert(unsorted.contains(unsorted[k]));
            assert(unsorted.to_multiset().count(unsorted[k]) > 0);
            assert(parts@.to_multiset().count(unsorted[k]) > 0);
        }
    }
    parts
}

/// The cell table of particles sorted by cell code: one entry per run of equal
/// codes, then the sentinel.
fn build_cells(parts: &Vec<(CellIndex, ParticleIndex)>) -> (cells: Vec<Cell>)
    requires
        parts@.len() < SENTINEL_CELL,
        forall|a: int, b: int|
            0 <= a < b < parts@.len() ==> (#[trigger] parts@[a]).0 <= (#[trigger] parts@[b]).0,
        forall|a: int| 0 <= a < parts@.len() ==> (#[trigger] parts@[a]).0 < SENTINEL_CELL,
    ensures
        ({
            let n = parts@.len();
            let ps = parts@;
            let cs = cells@;
            &&& cs.len() >= 1
            &&& cs.last().cidx == SENTINEL_CELL
            &&& cs.last().first_particle == n
            &&& cs[0].first_particle == 0
            &&& forall|k: int, l: int|
                0 <= k < l < cs.len() ==> (#[trigger] cs[k]).cidx < (#[trigger] cs[l]).cidx
                    && cs[k].first_particle < cs[l].first_particle
            &&& forall|k: int, j: int|
                0 <= k < cs.len() - 1 && cs[k].first_particle <= j < cs[k + 1].first_particle
                    ==> #[trigger] ps[j].0 == #[trigger] cs[k].cidx
            &&& forall|k: int, j: int|
                0 <= k < cs.len() && 0 <= j < cs[k].first_particle ==> #[trigger] ps[j].0
                    < #[trigger] cs[k].cidx
            &&& forall|k: int, j: int|
                0 <= k < cs.len() && cs[k].first_particle <= j < n ==> #[trigger] ps[j].0
                    >= #[trigger] cs[k].cidx
        }),
{
    let n = parts.len();
    let mut cells: Vec<Cell> = Vec::new();
    let mut prev: CellIndex = SENTINEL_CELL;
    let mut j: usize = 0;
    while j < n
        invariant
            n == parts@.len(),
            n < SENTINEL_CELL,
            j <= n,
            forall|a: int, b: int| 0 <= a < b < n ==> (#[trigger] parts@[a]).0 <= (#[trigger] parts@[b]).0,
            forall|a: int| 0 <= a < n ==> (#[trigger] parts@[a]).0 < SENTINEL_CELL,
            j == 0 ==> cells@.len() == 0 && prev == SENTINEL_CELL,
            j > 0 ==> cells@.len() > 0 && prev == parts@[j - 1].0 && cells@.last().cidx == prev,
            cells@.len() > 0 ==> cells@[0].first_particle == 0,
            forall|k: int| 0 <= k < cells@.len() ==> (#[trigger] cells@[k]).first_particle < j
                && parts@[cells@[k].first_particle as int].0 == cells@[k].cidx,
            forall|k: int, l: int|
                0 <= k < l < cells@.len() ==> (#[trigger] cells@[k]).cidx < (#[trigger] cells@[l]).cidx
                    && cells@[k].first_particle < cells@[l].first_particle,
            forall|k: int, b: int|
                0 <= k < cells@.len() - 1 && cells@[k].first_particle <= b < cells@[k + 1].first_particle
                    ==> #[trigger] parts@[b].0 == #[trigger] cells@[k].cidx,
            cells@.len() > 0 ==> forall|b: int|
                cells@.last().first_particle <= b < j ==> #[trigger] parts@[b].0 == cells@.last().cidx,
            forall|k: int, b: int|
                0 <= k < cells@.len() && 0 <= b < cells@[k].first_particle ==> #[trigger] parts@[b].0
                    < #[trigger] cells@[k].cidx,
            forall|k: int, b: int|
                0 <= k < cells@.len() && cells@[k].first_particle <= b < n ==> #[trigger] parts@[b].0
                    >= #[trigger] cells@[k].cidx,
        decreases n - j,
    {
        let c = parts[j].0;
        if c != prev {
            proof {
                if j > 0 {
                    assert(parts@[j - 1].0 <= parts@[j as int].0);
                }
            }
            cells.push(Cell { first_particle: j as ParticleIndex, cidx: c });
            prev = c;
        }
        j = j + 1;
    }
    proof {
        assert forall|k: int| 0 <= k < cells@.len() implies (#[trigger] cells@[k]).cidx < SENTINEL_CELL by {
            assert(parts@[cells@[k].first_particle as int].0 < SENTINEL_CELL);
        }
    }
    let ghost before = cells@;
    cells.push(Cell { first_particle: n as ParticleIndex, cidx: SENTINEL_CELL });
    proof {
        assert forall|k: int, b: int|
            0 <= k < cells@.len() - 1 && cells@[k].first_particle <= b < cells@[k + 1].first_particle
                implies #[trigger] parts@[b].0 == #[trigger] cells@[k].cidx by {
            if k < before.len() - 1 {
                assert(before[k + 1] == cells@[k + 1]);
            } else {
                assert(before.last() == cells@[k]);
            }
        }
    }
    cells
}

/// Relies on `slice::sort_unstable_by_key`: the same items, ordered by cell code.
#[verifier::external_body]
fn sort_by_cell(v: &mut Vec<(CellIndex, ParticleIndex)>)
    ensures
        final(v)@.to_multiset() == old(v)@.to_multiset(),
        forall|a: int, b: int|
            0 <= a < b < final(v)@.len() ==> (#[trigger] final(v)@[a]).0 <= (#[trigger] final(v)@[b]).0,
{
    v.sort_unstable_by_key(|p| p.0);
}

/// Index of the first cell from `from` on whose code is at least `cidx`, or the
/// length of `cells` when there is none; found by halving the range and then
/// scanning what is left of it.
fn find_next_cell(cells: &Vec<Cell>, from: usize, cidx: CellIndex) -> (r: usize)
    requires
        from <= cells@.len(),
        forall|k: int, l: int|
            0 <= k < l < cells@.len() ==> (#[trigger] cells@[k]).cidx < (#[trigger] cells@[l]).cidx,
    ensures
        from <= r <= cells@.len(),
        r < cells@.len() ==> cells@[r as int].cidx >= cidx,
        forall|k: int| from <= k < r ==> (#[trigger] cells@[k]).cidx < cidx,
{
    let linear_search_threshold: usize = 16;
    let mut min: usize = from;
    let mut max: usize = cells.len();
    while max - min > linear_search_threshold
        invariant
            from <= min <= max <= cells@.len(),
            forall|k: int, l: int|
                0 <= k < l < cells@.len() ==> (#[trigger] cells@[k]).cidx < (#[trigger] cells@[l]).cidx,
            forall|k: int| from <= k < min ==> (#[trigger] cells@[k]).cidx < cidx,
            forall|k: int| max <= k < cells@.len() ==> (#[trigger] cells@[k]).cidx >= cidx,
        decreases max - min,
    {
        let mid = min + (max - min) / 2;
        if cells[mid].cidx < cidx {
            proof {
                assert forall|k: int| from <= k < mid + 1 implies (#[trigger] cells@[k]).cidx < cidx by {
                    if k < mid {
                        assert(cells@[k].cidx < cells@[mid as int].cidx);
                    }
                }
            }
            min = mid + 1;
        } else {
            proof {
                assert forall|k: int| mid <= k < cells@.len() implies (#[trigger] cells@[k]).cidx >= cidx by {
                    if k > mid {
                        assert(cells@[mid as int].cidx < cells@[k].cidx);
                    }
                }
            }
            max = mid;
        }
    }
    let mut pos = min;
    while pos < max
        invariant
            from <= min <= pos <= max <= cells@.len(),
            forall|k: int| from <= k < pos ==> (#[trigger] cells@[k]).cidx < cidx,
            forall|k: int| max <= k < cells@.len() ==> (#[trigger] cells@[k]).cidx >= cidx,
        decreases max - pos,
    {
        if cells[pos].cidx >= cidx {
            return pos;
        }
        pos = pos + 1;
    }
    max
}

proof fn lemma_code_below_sentinel(x: u32, y: u32)
    requires
        x <= LAST_CELL,
        y <= LAST_CELL,
    ensures
        encode_spec(x, y) < SENTINEL_CELL,
{
    lemma_encode_monotone(x, y, LAST_CELL, LAST_CELL);
    assert(encode_spec(0xfffe, 0xfffe) < 0xffff_ffff) by (bit_vector);
}

} // verus!
