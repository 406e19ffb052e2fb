use layout_optimizer::placement::{batch_collision_check, fast_grid_search, grid_candidates, position_fits, rects_from_bounds};
use layout_optimizer::rect::Rectangle;
use layout_optimizer::spatial::SpatialIndex;

#[test]
fn intersects_is_symmetric() {
    let a = Rectangle::new(0, 0, 10, 10);
    let b = Rectangle::new(5, 5, 15, 15);
    let c = Rectangle::new(20, 0, 30, 10);
    assert!(a.intersects(&b));
    assert!(b.intersects(&a));
    assert!(!a.intersects(&c));
    assert!(!c.intersects(&a));
}

#[test]
fn shared_edge_is_not_an_intersection() {
    let a = Rectangle::new(0, 0, 10, 10);
    let right = Rectangle::new(10, 0, 20, 10);
    let above = Rectangle::new(0, 10, 10, 20);
    let corner = Rectangle::new(10, 10, 20, 20);
    assert!(!a.intersects(&right));
    assert!(!right.intersects(&a));
    assert!(!a.intersects(&above));
    assert!(!a.intersects(&corner));
}

#[test]
fn contained_rectangle_intersects() {
    let outer = Rectangle::new(0, 0, 100, 100);
    let inner = Rectangle::new(40, 40, 60, 60);
    assert!(outer.intersects(&inner));
    assert!(inner.intersects(&outer));
}

#[test]
fn translate_shifts_every_edge() {
    let r = Rectangle::new(1, 2, 11, 22);
    let t = r.translate(5, -3);
    assert_eq!(t, Rectangle::new(6, -1, 16, 19));
    assert_eq!(r, Rectangle::new(1, 2, 11, 22));
}

#[test]
fn translate_round_trip() {
    let r = Rectangle::new(-7, 3, 40, 9);
    for (dx, dy) in [(0, 0), (13, -4), (-1000, 250), (i64::MAX - 40, 0)] {
        assert_eq!(r.translate(dx, dy).translate(-dx, -dy), r);
    }
}

#[test]
fn envelope_orders_corners() {
    assert_eq!(Rectangle::new(10, 0, 0, 5).envelope(), Rectangle::new(0, 0, 10, 5));
    assert_eq!(Rectangle::new(1, 2, 3, 4).envelope(), Rectangle::new(1, 2, 3, 4));
}

#[test]
fn distance_2_to_rectangle() {
    let r = Rectangle::new(0, 0, 10, 10);
    assert_eq!(r.distance_2(5, 5), 0);
    assert_eq!(r.distance_2(10, 3), 0);
    assert_eq!(r.distance_2(13, 14), 9 + 16);
    assert_eq!(r.distance_2(-2, 5), 4);
    assert_eq!(r.distance_2(5, -7), 49);
}

#[test]
fn rects_from_bounds_keeps_order() {
    let r = rects_from_bounds(&vec![(0, 1, 2, 3), (4, 5, 6, 7)]);
    assert_eq!(r, vec![Rectangle::new(0, 1, 2, 3), Rectangle::new(4, 5, 6, 7)]);
}

#[test]
fn grid_search_empty_sheet_picks_origin() {
    let r = fast_grid_search((0, 0, 100, 50), vec![], 800, 600, 3);
    assert_eq!(r, Some((0, 0)));
}

#[test]
fn grid_search_skips_to_free_strip() {
    let r = fast_grid_search((0, 0, 100, 50), vec![(0, 0, 700, 600)], 800, 600, 3);
    assert_eq!(r, Some((700, 0)));
}

#[test]
fn grid_search_row_major_order() {
    // The origin cell is blocked; the next candidate in the same column
    // (i = 0, j = 1) comes before the first one of the next column (i = 1).
    let r = fast_grid_search((0, 0, 10, 10), vec![(0, 0, 10, 5)], 100, 100, 3);
    assert_eq!(r, Some((0, 45)));
}

#[test]
fn grid_search_carpet_offset_is_anchored() {
    let r = fast_grid_search((500, 500, 600, 550), vec![], 800, 600, 3);
    assert_eq!(r, Some((0, 0)));
}

#[test]
fn grid_search_zero_grid_finds_nothing() {
    assert_eq!(fast_grid_search((0, 0, 10, 10), vec![], 100, 100, 0), None);
}

#[test]
fn grid_search_single_cell() {
    assert_eq!(fast_grid_search((0, 0, 10, 10), vec![], 100, 100, 1), Some((0, 0)));
    assert_eq!(fast_grid_search((0, 0, 10, 10), vec![(5, 5, 6, 6)], 100, 100, 1), None);
    assert_eq!(fast_grid_search((0, 0, 10, 10), vec![(10, 0, 20, 10)], 100, 100, 1), Some((0, 0)));
    assert_eq!(fast_grid_search((0, 0, 200, 10), vec![], 100, 100, 1), None);
}

#[test]
fn grid_search_carpet_larger_than_sheet() {
    assert_eq!(fast_grid_search((0, 0, 900, 50), vec![], 800, 600, 5), None);
    assert_eq!(fast_grid_search((0, 0, 100, 700), vec![], 800, 600, 5), None);
}

#[test]
fn grid_search_fully_blocked() {
    assert_eq!(fast_grid_search((0, 0, 100, 50), vec![(0, 0, 800, 600)], 800, 600, 4), None);
}

#[test]
fn grid_search_uses_rounded_down_step() {
    // Free width 10 over 3 gaps: step 3, candidates x = 0, 3, 6, 9.
    let r = fast_grid_search((0, 0, 10, 10), vec![(0, 0, 9, 10)], 20, 10, 4);
    assert_eq!(r, Some((9, 0)));
}

#[test]
fn batch_matches_single_checks() {
    let carpet = (0, 0, 100, 50);
    let obstacles = vec![(0, 0, 700, 600)];
    let positions = vec![(0, 0), (700, 0), (701, 0), (700, 550), (700, 551), (-1, 0), (650, 100)];
    let r = batch_collision_check(carpet, positions.clone(), obstacles.clone(), 800, 600);
    assert_eq!(r, vec![false, true, false, true, false, false, false]);
    let c = Rectangle::new(0, 0, 100, 50);
    let obs = rects_from_bounds(&obstacles);
    for (k, p) in positions.iter().enumerate() {
        assert_eq!(r[k], position_fits(&c, p.0, p.1, &obs, 800, 600));
    }
}

#[test]
fn batch_empty_positions() {
    assert_eq!(batch_collision_check((0, 0, 1, 1), vec![], vec![(0, 0, 5, 5)], 10, 10), Vec::<bool>::new());
}

#[test]
fn batch_carpet_offset_is_anchored() {
    let r = batch_collision_check((40, 40, 50, 50), vec![(0, 0), (95, 0)], vec![], 100, 100);
    assert_eq!(r, vec![true, false]);
}

#[test]
fn batch_many_positions_keep_order() {
    let positions: Vec<(i64, i64)> = (0..1000).map(|k| (k, 0)).collect();
    let r = batch_collision_check((0, 0, 10, 10), positions, vec![(500, 0, 510, 10)], 600, 10);
    for (k, v) in r.iter().enumerate() {
        let k = k as i64;
        let expected = k + 10 <= 600 && (k + 10 <= 500 || k >= 510);
        assert_eq!(*v, expected, "position {}", k);
    }
    assert_eq!(r.len(), 1000);
}

#[test]
fn spatial_index_queries() {
    let index = SpatialIndex::new(vec![(0, 0, 10, 10), (50, 50, 60, 60)]);
    assert!(index.query_collisions((5, 5, 15, 15)));
    assert!(!index.query_collisions((20, 20, 30, 30)));
}

#[test]
fn spatial_index_touching_counts() {
    let index = SpatialIndex::new(vec![(0, 0, 10, 10)]);
    assert!(index.query_collisions((10, 0, 20, 10)));
    assert!(index.query_collisions((10, 10, 20, 20)));
    assert!(!index.query_collisions((11, 0, 20, 10)));
}

#[test]
fn spatial_index_unordered_corners() {
    let index = SpatialIndex::new(vec![(10, 10, 0, 0)]);
    assert!(index.query_collisions((5, 5, 6, 6)));
    assert!(index.query_collisions((30, 30, 8, 8)));
    assert!(!index.query_collisions((20, 20, 30, 30)));
}

#[test]
fn spatial_index_empty() {
    let index = SpatialIndex::new(vec![]);
    assert!(!index.query_collisions((0, 0, 100, 100)));
}

#[test]
fn spatial_index_repeated_queries_agree() {
    let bounds: Vec<(i64, i64, i64, i64)> = (0..200).map(|k| (k * 20, 0, k * 20 + 10, 10)).collect();
    let index = SpatialIndex::new(bounds);
    for q in [(11, 0, 19, 10), (15, 5, 25, 6), (4000, 0, 4010, 10), (-5, -5, -1, -1)] {
        let first = index.query_collisions(q);
        for _ in 0..3 {
            assert_eq!(index.query_collisions(q), first);
        }
    }
    assert!(!index.query_collisions((11, 0, 19, 10)));
    assert!(index.query_collisions((15, 5, 25, 6)));
    assert!(!index.query_collisions((4000, 0, 4010, 10)));
    assert!(index.query_collisions((3980, 0, 3990, 10)));
}

#[test]
fn grid_candidates_row_major_values() {
    let carpet = Rectangle::new(0, 0, 100, 50);
    let c = grid_candidates(&carpet, 800, 600, 3);
    assert_eq!(
        c,
        vec![(0, 0), (0, 275), (0, 550), (350, 0), (350, 275), (350, 550), (700, 0), (700, 275), (700, 550)]
    );
}

#[test]
fn grid_candidates_count_is_square() {
    let carpet = Rectangle::new(3, 4, 13, 14);
    for g in 0..8usize {
        assert_eq!(grid_candidates(&carpet, 100, 50, g).len(), g * g);
    }
    assert_eq!(grid_candidates(&carpet, 100, 50, 1), vec![(0, 0)]);
}
