use polly::config::OSRM_CHUNK_SIZE;
use polly::route::stitch::{to_global_index, ChunkRoute, Stitcher};

fn key(metres: f64) -> u64 {
    metres.to_bits()
}

/// Distance rows for `stops` stops over `vertices` vertices: stop `i` is
/// nearest to vertex `nearest(i)`.
fn rows(stops: usize, vertices: usize, nearest: &dyn Fn(usize) -> usize) -> Vec<Vec<u64>> {
    (0..stops)
        .map(|i| {
            (0..vertices)
                .map(|v| {
                    let gap = if v > nearest(i) { v - nearest(i) } else { nearest(i) - v };
                    key(10.0 * gap as f64)
                })
                .collect()
        })
        .collect()
}

#[test]
fn chunk_size_is_120() {
    assert_eq!(OSRM_CHUNK_SIZE, 120);
}

#[test]
fn two_adjacent_chunks_share_one_point() {
    let mut s: Stitcher<char> = Stitcher::new(121);
    assert_eq!(s.pending(), Some((0, 120)));
    s.absorb(Some(ChunkRoute {
        polyline: vec!['A', 'B', 'C', 'D', 'E'],
        distances: rows(120, 5, &|i| if i == 119 { 4 } else { i % 4 }),
    }));
    assert_eq!(s.pending(), Some((119, 121)));
    s.absorb(Some(ChunkRoute {
        polyline: vec!['E', 'F', 'G'],
        distances: rows(2, 3, &|i| if i == 0 { 0 } else { 2 }),
    }));
    assert_eq!(s.pending(), None);
    let out = s.finish();
    assert_eq!(out.geometry, vec!['A', 'B', 'C', 'D', 'E', 'F', 'G']);
    assert_eq!(out.geometry.len(), 7);
    assert_eq!(out.stop_to_coord.len(), 121);
    assert_eq!(out.stop_to_coord[0], 0);
    assert_eq!(out.stop_to_coord[1], 1);
    assert_eq!(out.stop_to_coord[118], 2);
    assert_eq!(out.stop_to_coord[119], 4);
    assert_eq!(out.stop_to_coord[120], 6);
}

#[test]
fn two_adjacent_chunks_of_real_points() {
    let mut s: Stitcher<(f64, f64)> = Stitcher::new(121);
    let first = vec![(127.90, 37.30), (127.91, 37.31), (127.92, 37.32), (127.93, 37.33), (127.94, 37.34)];
    let second = vec![(127.94, 37.34), (127.95, 37.35), (127.96, 37.36)];
    s.absorb(Some(ChunkRoute { polyline: first, distances: rows(120, 5, &|i| i * 5 / 120) }));
    s.absorb(Some(ChunkRoute { polyline: second, distances: rows(2, 3, &|i| 2 * i) }));
    let out = s.finish();
    assert_eq!(
        out.geometry,
        vec![
            (127.90, 37.30),
            (127.91, 37.31),
            (127.92, 37.32),
            (127.93, 37.33),
            (127.94, 37.34),
            (127.95, 37.35),
            (127.96, 37.36)
        ]
    );
    for w in out.geometry.windows(2) {
        assert_ne!(w[0], w[1]);
    }
    assert_eq!(out.stop_to_coord.len(), 121);
}

#[test]
fn local_zero_at_base_three_maps_to_two() {
    assert_eq!(to_global_index(3, Some(0)), 2);
}

#[test]
fn global_index_cases() {
    assert_eq!(to_global_index(0, Some(0)), 0);
    assert_eq!(to_global_index(0, Some(4)), 4);
    assert_eq!(to_global_index(3, Some(1)), 3);
    assert_eq!(to_global_index(3, Some(2)), 4);
    assert_eq!(to_global_index(5, Some(7)), 11);
    assert_eq!(to_global_index(0, None), 0);
    assert_eq!(to_global_index(3, None), 3);
}

#[test]
fn stop_nearest_to_shared_point_maps_to_last_merged_index() {
    let mut s: Stitcher<u32> = Stitcher::new(121);
    s.absorb(Some(ChunkRoute { polyline: vec![10, 11, 12], distances: rows(120, 3, &|_| 1) }));
    s.absorb(Some(ChunkRoute { polyline: vec![12, 13], distances: rows(2, 2, &|_| 0) }));
    let out = s.finish();
    assert_eq!(out.geometry, vec![10, 11, 12, 13]);
    assert_eq!(out.stop_to_coord[120], 2);
}

#[test]
fn short_route_is_one_chunk() {
    let mut s: Stitcher<u8> = Stitcher::new(2);
    assert_eq!(s.pending(), Some((0, 2)));
    s.absorb(Some(ChunkRoute { polyline: vec![1, 2, 3], distances: rows(2, 3, &|i| 2 * i) }));
    assert_eq!(s.pending(), None);
    let out = s.finish();
    assert_eq!(out.geometry, vec![1, 2, 3]);
    assert_eq!(out.stop_to_coord, vec![0, 2]);
}

#[test]
fn route_of_chunk_size_is_one_chunk() {
    let mut s: Stitcher<u8> = Stitcher::new(120);
    assert_eq!(s.pending(), Some((0, 120)));
    s.absorb(None);
    assert_eq!(s.pending(), None);
}

#[test]
fn chunks_overlap_by_one_stop() {
    let mut s: Stitcher<u8> = Stitcher::new(300);
    assert_eq!(s.pending(), Some((0, 120)));
    s.absorb(None);
    assert_eq!(s.pending(), Some((119, 239)));
    s.absorb(None);
    assert_eq!(s.pending(), Some((238, 300)));
    s.absorb(None);
    assert_eq!(s.pending(), None);
}

#[test]
fn routes_without_chunks() {
    let s0: Stitcher<u8> = Stitcher::new(0);
    assert_eq!(s0.pending(), None);
    let out0 = s0.finish();
    assert!(out0.geometry.is_empty());
    assert!(out0.stop_to_coord.is_empty());
    let s1: Stitcher<u8> = Stitcher::new(1);
    assert_eq!(s1.pending(), None);
    let out1 = s1.finish();
    assert!(out1.geometry.is_empty());
    assert_eq!(out1.stop_to_coord, vec![0]);
}

#[test]
fn every_chunk_failed() {
    let mut s: Stitcher<u8> = Stitcher::new(300);
    while s.pending().is_some() {
        s.absorb(None);
    }
    let out = s.finish();
    assert!(out.geometry.is_empty());
    assert_eq!(out.stop_to_coord, vec![0; 300]);
}

#[test]
fn map_covers_route_when_last_chunk_failed() {
    let mut s: Stitcher<u8> = Stitcher::new(130);
    s.absorb(Some(ChunkRoute { polyline: vec![1, 2, 3, 4], distances: rows(120, 4, &|i| i / 30) }));
    s.absorb(None);
    let out = s.finish();
    assert_eq!(out.geometry, vec![1, 2, 3, 4]);
    assert_eq!(out.stop_to_coord.len(), 130);
    assert_eq!(out.stop_to_coord[0], 0);
    assert_eq!(out.stop_to_coord[119], 3);
    for i in 120..130 {
        assert_eq!(out.stop_to_coord[i], 3);
    }
}

#[test]
fn map_covers_route_when_first_chunk_failed() {
    let mut s: Stitcher<u8> = Stitcher::new(130);
    s.absorb(None);
    assert_eq!(s.pending(), Some((119, 130)));
    s.absorb(Some(ChunkRoute { polyline: vec![7, 8, 9], distances: rows(11, 3, &|i| i % 3) }));
    let out = s.finish();
    assert_eq!(out.geometry, vec![7, 8, 9]);
    assert_eq!(out.stop_to_coord.len(), 130);
    // The eleven stops of the second chunk take the first free entries.
    assert_eq!(&out.stop_to_coord[0..11], &[0, 1, 2, 0, 1, 2, 0, 1, 2, 0, 1]);
    for i in 11..130 {
        assert_eq!(out.stop_to_coord[i], 2);
    }
}

#[test]
fn map_covers_route_when_middle_chunk_failed() {
    let mut s: Stitcher<u8> = Stitcher::new(300);
    s.absorb(Some(ChunkRoute { polyline: vec![1, 2], distances: rows(120, 2, &|i| i / 60) }));
    s.absorb(None);
    s.absorb(Some(ChunkRoute { polyline: vec![2, 3, 4], distances: rows(62, 3, &|_| 2) }));
    let out = s.finish();
    assert_eq!(out.geometry, vec![1, 2, 3, 4]);
    assert_eq!(out.stop_to_coord.len(), 300);
    assert_eq!(out.stop_to_coord[119], 1);
    assert_eq!(out.stop_to_coord[120], 3);
    assert_eq!(out.stop_to_coord[181], 3);
    assert_eq!(out.stop_to_coord[182], 3);
    assert_eq!(out.stop_to_coord[299], 3);
    for &g in &out.stop_to_coord {
        assert!(g < out.geometry.len());
    }
}

#[test]
fn polyline_without_vertex_adds_nothing() {
    let mut s: Stitcher<u8> = Stitcher::new(3);
    s.absorb(Some(ChunkRoute { polyline: vec![], distances: vec![vec![], vec![], vec![]] }));
    let out = s.finish();
    assert!(out.geometry.is_empty());
    assert_eq!(out.stop_to_coord, vec![0, 0, 0]);
}

#[test]
fn every_entry_is_a_position_in_the_geometry() {
    let mut s: Stitcher<u16> = Stitcher::new(250);
    let mut next: u16 = 0;
    while let Some((start, end)) = s.pending() {
        let polyline: Vec<u16> = (next..next + 9).collect();
        next += 8;
        s.absorb(Some(ChunkRoute { distances: rows(end - start, 9, &|i| i % 9), polyline }));
    }
    let out = s.finish();
    assert_eq!(out.geometry, (0..25).collect::<Vec<u16>>());
    assert_eq!(out.stop_to_coord.len(), 250);
    for &g in &out.stop_to_coord {
        assert!(g < out.geometry.len());
    }
}
