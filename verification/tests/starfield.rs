use starfield::chunk::Chunk;
use starfield::chunkstore::ChunkStore;
use starfield::vector3::{Vector3, CHUNK_SIZE};

fn v(x: i32, y: i32, z: i32) -> Vector3<i32> {
    Vector3::new(x, y, z)
}

#[test]
fn chunk_size_is_128() {
    assert_eq!(CHUNK_SIZE, 128);
}

#[test]
fn vector_new_and_to_array() {
    let a = Vector3::new(1i32, -2, 3);
    assert_eq!(a.to_array(), [1, -2, 3]);
    let b = Vector3::new(0.5f32, 1.5, -2.5);
    assert_eq!(b.to_array(), [0.5, 1.5, -2.5]);
}

#[test]
fn vector_add_sub() {
    let a = v(1, 2, 3);
    let b = v(10, -20, 30);
    assert_eq!(a.add(b), v(11, -18, 33));
    assert_eq!(b.sub(a), v(9, -22, 27));
}

#[test]
fn bounds_of_empty_slice_is_err() {
    let empty: [Vector3<i32>; 0] = [];
    assert!(Vector3::bounds(&empty).is_err());
}

#[test]
fn bounds_finds_component_wise_min_max() {
    let pts = [v(3, -1, 7), v(-2, 5, 7), v(0, 0, -9)];
    let (lo, hi) = Vector3::bounds(&pts).unwrap();
    assert_eq!(lo, v(-2, -1, -9));
    assert_eq!(hi, v(3, 5, 7));
}

#[test]
fn bounds_of_single_point() {
    let pts = [v(4, 4, 4)];
    let (lo, hi) = Vector3::bounds(&pts).unwrap();
    assert_eq!(lo, v(4, 4, 4));
    assert_eq!(hi, v(4, 4, 4));
}

#[test]
fn populate_is_deterministic() {
    for coord in [v(0, 0, 0), v(3, -7, 11), v(-1000, 999, 5), v(1, 2, 3)] {
        let a = Chunk::populate(coord);
        let b = Chunk::populate(coord);
        assert_eq!(a.pos, coord);
        assert_eq!(a, b);
    }
}

#[test]
fn populate_star_count_below_five() {
    for x in -6..6 {
        for y in -2..2 {
            let c = Chunk::populate(v(x, y, x - y));
            assert!(c.stars.len() < 5);
        }
    }
}

#[test]
fn populate_output_varies_with_coordinate() {
    let mut counts = [0usize; 5];
    for x in 0..60 {
        let c = Chunk::populate(v(x, 0, 0));
        counts[c.stars.len()] += 1;
    }
    // A generator that ignored its seed would put all sixty chunks in one
    // bucket; the real one spreads them out.
    assert!(counts.iter().filter(|&&n| n > 0).count() > 1);
}

#[test]
fn get_gen_bounds_single_point() {
    let pts = [v(0, 0, 0)];
    let (lo, hi, delta) = ChunkStore::get_gen_bounds(&pts).unwrap();
    assert_eq!(lo, v(0, 0, 0));
    assert_eq!(hi, v(1, 1, 1));
    assert_eq!(delta, v(1, 1, 1));
}

#[test]
fn get_gen_bounds_five_points() {
    let pts = [v(0, 0, 0), v(2, -1, 4), v(-3, 1, 4), v(2, 1, -4), v(-3, -1, 0)];
    let (lo, hi, delta) = ChunkStore::get_gen_bounds(&pts).unwrap();
    assert_eq!(lo, v(-3, -1, -4));
    assert_eq!(hi, v(3, 2, 5));
    assert_eq!(delta, v(6, 3, 9));
}

#[test]
fn get_gen_bounds_empty_is_err() {
    let empty: [Vector3<i32>; 0] = [];
    assert!(ChunkStore::get_gen_bounds(&empty).is_err());
}

#[test]
fn check_window_accepts_and_rejects() {
    assert!(ChunkStore::check_window(v(0, 0, 0), v(2, 2, 2)));
    assert!(ChunkStore::check_window(v(-5, -5, -5), v(5, 5, 5)));
    // Empty or reversed on any axis.
    assert!(!ChunkStore::check_window(v(0, 0, 0), v(0, 2, 2)));
    assert!(!ChunkStore::check_window(v(0, 0, 0), v(2, 2, -1)));
    // Far too many chunks for one window.
    assert!(!ChunkStore::check_window(
        v(-1_000_000, -1_000_000, -1_000_000),
        v(1_000_000, 1_000_000, 1_000_000)
    ));
}

#[test]
fn start_covers_window_in_lex_order() {
    let s = ChunkStore::start(v(0, 0, 0), v(2, 2, 2));
    assert_eq!(s.lo, v(0, 0, 0));
    assert_eq!(s.hi, v(2, 2, 2));
    assert_eq!(s.delta, v(2, 2, 2));
    assert_eq!(s.chunks.len(), 8);
    let mut expected = Vec::new();
    for x in 0..2 {
        for y in 0..2 {
            for z in 0..2 {
                expected.push(v(x, y, z));
            }
        }
    }
    let got: Vec<Vector3<i32>> = s.chunks.iter().map(|c| c.pos).collect();
    assert_eq!(got, expected);
}

#[test]
fn start_chunks_match_direct_population() {
    let s = ChunkStore::start(v(-1, -1, -1), v(1, 1, 1));
    for c in &s.chunks {
        let fresh = Chunk::populate(c.pos);
        assert_eq!(c, &fresh);
    }
}

#[test]
fn count_stars_equals_sum_of_chunk_counts() {
    let mut s = ChunkStore::start(v(-2, -2, -2), v(2, 2, 2));
    let sum: usize = s.chunks.iter().map(|c| c.stars.len()).sum();
    assert_eq!(s.count_stars(), sum);
    s.update(v(-1, -2, -2), v(3, 2, 2));
    let sum: usize = s.chunks.iter().map(|c| c.stars.len()).sum();
    assert_eq!(s.count_stars(), sum);
}

#[test]
fn update_to_same_window_reuses_everything() {
    let mut s = ChunkStore::start(v(0, 0, 0), v(3, 2, 2));
    let before: Vec<(Vector3<i32>, Vec<Vector3<u32>>)> =
        s.chunks.iter().map(|c| (c.pos, c.stars.clone())).collect();
    s.update(v(0, 0, 0), v(3, 2, 2));
    let after: Vec<(Vector3<i32>, Vec<Vector3<u32>>)> =
        s.chunks.iter().map(|c| (c.pos, c.stars.clone())).collect();
    assert_eq!(before, after);
}

#[test]
fn update_shift_by_one_chunk_reuses_interior() {
    // The camera moves by exactly one chunk along x: the window shifts by
    // one, every coordinate in the overlap keeps its old chunk, and only
    // the entering face is generated anew.
    let mut s = ChunkStore::start(v(0, 0, 0), v(3, 3, 3));
    let before: Vec<(Vector3<i32>, Vec<Vector3<u32>>)> =
        s.chunks.iter().map(|c| (c.pos, c.stars.clone())).collect();
    s.update(v(1, 0, 0), v(4, 3, 3));
    assert_eq!(s.lo, v(1, 0, 0));
    assert_eq!(s.hi, v(4, 3, 3));
    assert_eq!(s.chunks.len(), 27);
    for c in &s.chunks {
        assert!(c.pos.x >= 1 && c.pos.x < 4);
        if c.pos.x < 3 {
            // Overlap: must be exactly the chunk the old window held.
            let old = before.iter().find(|(p, _)| *p == c.pos).unwrap();
            assert_eq!(c.stars, old.1);
        } else {
            // Entering face: freshly generated.
            assert_eq!(c, &Chunk::populate(c.pos));
        }
    }
}

#[test]
fn update_disjoint_window_regenerates_all() {
    let mut s = ChunkStore::start(v(0, 0, 0), v(2, 2, 2));
    s.update(v(10, 10, 10), v(12, 12, 12));
    assert_eq!(s.chunks.len(), 8);
    for c in &s.chunks {
        assert!(c.pos.x >= 10 && c.pos.x < 12);
        assert_eq!(c, &Chunk::populate(c.pos));
    }
}

#[test]
fn iter_yields_every_star_in_chunk_order() {
    let s = ChunkStore::start(v(-2, -1, 0), v(1, 2, 2));
    let mut expected = Vec::new();
    for c in &s.chunks {
        for off in &c.stars {
            expected.push((c.pos, *off));
        }
    }
    let mut it = s.iter();
    let mut got = Vec::new();
    while let Some(star) = it.next() {
        got.push((star.chunk, star.off));
    }
    assert_eq!(got, expected);
    assert_eq!(got.len(), s.count_stars());
}

#[test]
fn iter_on_updated_store() {
    let mut s = ChunkStore::start(v(0, 0, 0), v(2, 2, 2));
    s.update(v(0, 0, 1), v(2, 2, 3));
    let mut n: usize = 0;
    let mut it = s.iter();
    while let Some(star) = it.next() {
        assert!(star.chunk.z >= 1 && star.chunk.z < 3);
        n += 1;
    }
    assert_eq!(n, s.count_stars());
}
