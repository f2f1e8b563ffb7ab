use sph2d::morton::{compact_1by1, decode, encode, find_bigmin, is_in_rect, part_1by1, skip_block};
use sph2d::neighborhood_search::NeighborhoodSearch;
use sph2d::units::{distance_squared, Point, Vec2};

fn lcg(state: &mut u64) -> u64 {
    *state = state.wrapping_mul(6364136223846793005).wrapping_add(1442695040888963407);
    *state >> 33
}

fn scattered_points(count: usize, extent: i64, seed: u64) -> Vec<Point> {
    let mut state = seed;
    (0..count)
        .map(|_| {
            let x = (lcg(&mut state) % (2 * extent as u64)) as i64 - extent;
            let y = (lcg(&mut state) % (2 * extent as u64)) as i64 - extent;
            Vec2::new(x, y)
        })
        .collect()
}

fn brute_force(points: &[Point], p: Point, radius: i64) -> Vec<u32> {
    let r_sq = radius as i128 * radius as i128;
    (0..points.len() as u32)
        .filter(|&i| distance_squared(p, points[i as usize]) <= r_sq)
        .collect()
}

fn sorted(mut v: Vec<u32>) -> Vec<u32> {
    v.sort();
    v
}

#[test]
fn morton_interleaves_bits() {
    assert_eq!(encode(0, 0), 0);
    assert_eq!(encode(1, 0), 1);
    assert_eq!(encode(0, 1), 2);
    assert_eq!(encode(3, 3), 15);
    assert_eq!(encode(2, 1), 6);
    assert_eq!(encode(0xffff, 0), 0x5555_5555);
    assert_eq!(encode(0, 0xffff), 0xaaaa_aaaa);
    assert_eq!(part_1by1(0b1011), 0b100_0101);
    assert_eq!(compact_1by1(0b100_0101), 0b1011);
}

#[test]
fn morton_round_trip_on_values() {
    let values = [0u32, 1, 2, 3, 255, 256, 1000, 0x7fff, 0xfffe, 0xffff];
    for &x in values.iter() {
        for &y in values.iter() {
            assert_eq!(decode(encode(x, y)), (x, y));
        }
    }
    assert_eq!(encode(decode(0xdead_beef).0, decode(0xdead_beef).1), 0xdead_beef);
}

#[test]
fn rect_membership_follows_decoded_cell() {
    let code = encode(5, 9);
    assert!(is_in_rect(code, 5, 9, 5, 9));
    assert!(is_in_rect(code, 0, 0, 10, 10));
    assert!(!is_in_rect(code, 6, 0, 10, 10));
    assert!(!is_in_rect(code, 0, 0, 10, 8));
    // a code between the corner codes that lies outside the rectangle
    let lo = encode(1, 1);
    let hi = encode(2, 2);
    let between = encode(3, 0);
    assert!(lo < between && between < hi);
    assert!(!is_in_rect(between, 1, 1, 2, 2));
}

#[test]
fn skip_block_stops_at_block_end() {
    // cell (2, 0) lies in the 2x2 block of cells (2..3, 0..1), codes 4..7, which misses [0, 1] x [0, 1]
    assert_eq!(skip_block(encode(2, 0), 0, 0, 1, 1), 7);
    // cell (5, 9) lies far from [0, 1] x [0, 1]: the whole 8x8 block (0..7, 8..15) is skipped
    assert_eq!(skip_block(encode(5, 9), 0, 0, 1, 1), encode(7, 15));
    for z in encode(0, 8)..=encode(7, 15) {
        assert!(!is_in_rect(z, 0, 0, 1, 1));
    }
}

#[test]
fn bigmin_finds_next_code_in_rect() {
    // rectangle [1, 2] x [1, 2]: codes 3, 6, 9, 12
    assert_eq!(find_bigmin(3, 1, 1, 2, 2), 6);
    assert_eq!(find_bigmin(6, 1, 1, 2, 2), 9);
    assert_eq!(find_bigmin(9, 1, 1, 2, 2), 12);
    assert_eq!(find_bigmin(12, 1, 1, 2, 2), 1u64 << 32);
    assert_eq!(find_bigmin(0, 1, 1, 2, 2), 3);
}

#[test]
fn bigmin_matches_linear_scan() {
    let mut state = 5u64;
    for _ in 0..40 {
        let mut coord = || (lcg(&mut state) % 40) as u32;
        let (a, b, c, d) = (coord(), coord(), coord(), coord());
        let (x0, x1) = (a.min(b), a.max(b));
        let (y0, y1) = (c.min(d), c.max(d));
        let hi = encode(x1, y1);
        let start = lcg(&mut state) as u32 % (hi + 1);
        let expected = (start as u64 + 1..=hi as u64)
            .find(|&z| is_in_rect(z as u32, x0, y0, x1, y1))
            .unwrap_or(1u64 << 32);
        assert_eq!(find_bigmin(start, x0, y0, x1, y1), expected);
    }
}

#[test]
fn neighbors_match_brute_force() {
    let radius = 24_000;
    for (count, extent, seed) in [(50usize, 100_000i64, 1u64), (300, 200_000, 7), (500, 50_000, 42)] {
        let points = scattered_points(count, extent, seed);
        let mut search = NeighborhoodSearch::new(radius);
        search.update(&points);
        for q in scattered_points(40, extent, seed + 100).into_iter().chain(points.iter().copied().take(20)) {
            let found = search.neighbors_within(&points, q);
            let mut dedup = found.clone();
            dedup.sort();
            dedup.dedup();
            assert_eq!(dedup.len(), found.len());
            assert_eq!(sorted(found), brute_force(&points, q, radius));
        }
    }
}

#[test]
fn neighbors_with_no_particles() {
    let points: Vec<Point> = Vec::new();
    let mut search = NeighborhoodSearch::new(10_000);
    search.update(&points);
    assert!(search.neighbors_within(&points, Vec2::new(0, 0)).is_empty());
    assert!(search.foreach_potential_neighbor(Vec2::new(0, 0)).is_empty());
}

#[test]
fn neighbors_with_one_particle() {
    let points = vec![Vec2::new(1_000, -2_000)];
    let mut search = NeighborhoodSearch::new(10_000);
    search.update(&points);
    assert_eq!(search.neighbors_within(&points, Vec2::new(1_000, -2_000)), vec![0]);
    assert_eq!(search.neighbors_within(&points, Vec2::new(11_000, -2_000)), vec![0]);
    assert!(search.neighbors_within(&points, Vec2::new(11_001, -2_000)).is_empty());
    assert!(search.neighbors_within(&points, Vec2::new(9_000, 5_000)).is_empty());
}

#[test]
fn neighbors_all_coincident() {
    let points = vec![Vec2::new(3_000, 3_000); 25];
    let mut search = NeighborhoodSearch::new(5_000);
    search.update(&points);
    let found = sorted(search.neighbors_within(&points, Vec2::new(3_000, 3_000)));
    assert_eq!(found, (0..25).collect::<Vec<u32>>());
    assert!(search.neighbors_within(&points, Vec2::new(9_000, 3_000)).is_empty());
}

#[test]
fn candidates_cover_neighbors() {
    let radius = 20_000;
    let points = scattered_points(400, 150_000, 3);
    let mut search = NeighborhoodSearch::new(radius);
    search.update(&points);
    for q in scattered_points(30, 150_000, 11) {
        let candidates = search.foreach_potential_neighbor(q);
        for i in brute_force(&points, q, radius) {
            assert!(candidates.contains(&i));
        }
        // candidates come from cells of side 2r around the query, so they are within 4r on each axis
        for &c in candidates.iter() {
            let p = points[c as usize];
            assert!((p.x - q.x).abs() <= 4 * radius && (p.y - q.y).abs() <= 4 * radius);
        }
    }
}

#[test]
fn rebuild_after_particles_move_and_grow() {
    let mut points = vec![Vec2::new(0, 0), Vec2::new(50_000, 0)];
    let mut search = NeighborhoodSearch::new(10_000);
    search.update(&points);
    assert_eq!(search.neighbors_within(&points, Vec2::new(0, 0)), vec![0]);
    points[1] = Vec2::new(5_000, 0);
    points.push(Vec2::new(-5_000, 0));
    search.update(&points);
    assert_eq!(sorted(search.neighbors_within(&points, Vec2::new(0, 0))), vec![0, 1, 2]);
    assert_eq!(search.radius(), 10_000);
}
