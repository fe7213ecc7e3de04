use dungeoncrawl::camera::Camera;
use dungeoncrawl::geometry::{distance_sq, Point, Rect};
use dungeoncrawl::map::{map_idx, TileMap, TileType, NUM_TILES, SCREEN_HEIGHT, SCREEN_WIDTH};
use dungeoncrawl::pathing::most_distant;

#[test]
fn point_constructors() {
    let p = Point::new(3, -4);
    assert_eq!(p.x, 3);
    assert_eq!(p.y, -4);
    assert_eq!(Point::zero(), Point::new(0, 0));
}

#[test]
fn squared_distance_is_exact() {
    assert_eq!(distance_sq(Point::new(0, 0), Point::new(3, 4)), 25);
    assert_eq!(distance_sq(Point::new(-2, 5), Point::new(1, 1)), 25);
    assert_eq!(distance_sq(Point::new(7, 7), Point::new(7, 7)), 0);
}

#[test]
fn rect_with_size_and_center() {
    let r = Rect::with_size(2, 3, 4, 6);
    assert_eq!(r, Rect { x1: 2, x2: 6, y1: 3, y2: 9 });
    assert_eq!(r.center(), Point::new(4, 6));
    let odd = Rect::with_size(1, 1, 4, 3);
    assert_eq!(odd.center(), Point::new(3, 2));
}

#[test]
fn rect_intersect_counts_touching() {
    let a = Rect::with_size(0, 0, 2, 2);
    let touching = Rect::with_size(2, 0, 2, 2);
    let apart = Rect::with_size(3, 0, 2, 2);
    let inside = Rect::with_size(0, 0, 1, 1);
    assert!(a.intersect(&touching));
    assert!(touching.intersect(&a));
    assert!(!a.intersect(&apart));
    assert!(a.intersect(&inside));
}

#[test]
fn point_in_rect_excludes_far_edges() {
    let r = Rect::with_size(10, 10, 3, 2);
    assert!(r.point_in_rect(Point::new(10, 10)));
    assert!(r.point_in_rect(Point::new(12, 11)));
    assert!(!r.point_in_rect(Point::new(13, 11)));
    assert!(!r.point_in_rect(Point::new(12, 12)));
    assert!(!r.point_in_rect(Point::new(9, 10)));
}

#[test]
fn new_map_is_open_and_unrevealed() {
    let m = TileMap::new();
    assert_eq!(m.tiles.len(), NUM_TILES);
    assert_eq!(m.revealed_tiles.len(), NUM_TILES);
    assert!(m.tiles.iter().all(|t| *t == TileType::Floor));
    assert!(m.revealed_tiles.iter().all(|r| !*r));
    assert_eq!(m.count_floor(), NUM_TILES);
}

#[test]
fn index_and_point_round_trip() {
    let m = TileMap::new();
    assert_eq!(map_idx(5, 7), 565);
    assert_eq!(m.point2d_to_index(Point::new(5, 7)), 565);
    assert_eq!(m.index_to_point2d(565), Point::new(5, 7));
    assert_eq!(m.point2d_to_index(Point::new(79, 49)), NUM_TILES - 1);
    for idx in [0usize, 1, 79, 80, 1234, 3999] {
        let p = m.index_to_point2d(idx);
        assert_eq!(m.point2d_to_index(p), idx);
    }
}

#[test]
fn bounds_and_try_idx() {
    let m = TileMap::new();
    assert!(m.in_bounds(Point::new(0, 0)));
    assert!(m.in_bounds(Point::new(SCREEN_WIDTH - 1, SCREEN_HEIGHT - 1)));
    assert!(!m.in_bounds(Point::new(-1, 0)));
    assert!(!m.in_bounds(Point::new(SCREEN_WIDTH, 0)));
    assert!(!m.in_bounds(Point::new(0, SCREEN_HEIGHT)));
    assert_eq!(m.try_idx(Point::new(2, 1)), Some(82));
    assert_eq!(m.try_idx(Point::new(-3, 1)), None);
}

#[test]
fn walls_block_and_exits_admit() {
    let mut m = TileMap::new();
    m.tiles[map_idx(4, 4)] = TileType::Wall;
    m.tiles[map_idx(5, 4)] = TileType::Exit;
    assert!(!m.can_enter_tile(Point::new(4, 4)));
    assert!(m.can_enter_tile(Point::new(5, 4)));
    assert!(m.can_enter_tile(Point::new(6, 4)));
    assert!(!m.can_enter_tile(Point::new(-1, 4)));
    assert_eq!(m.count_floor(), NUM_TILES - 2);
}

#[test]
fn exits_come_west_east_north_south() {
    let mut m = TileMap::new();
    let c = map_idx(10, 10);
    assert_eq!(
        m.available_exits(c),
        vec![map_idx(9, 10), map_idx(11, 10), map_idx(10, 9), map_idx(10, 11)]
    );
    m.tiles[map_idx(9, 10)] = TileType::Wall;
    m.tiles[map_idx(10, 11)] = TileType::Exit;
    assert_eq!(m.available_exits(c), vec![map_idx(11, 10), map_idx(10, 9), map_idx(10, 11)]);
    assert_eq!(m.available_exits(0), vec![1, 80]);
}

#[test]
fn most_distant_takes_the_last_of_equal_ones() {
    let mut d: Vec<Option<u32>> = vec![None; NUM_TILES];
    assert_eq!(most_distant(&d), None);
    d[3] = Some(0);
    d[10] = Some(7);
    d[81] = Some(7);
    d[90] = Some(2);
    assert_eq!(most_distant(&d), Some(Point::new(1, 1)));
    d[82] = Some(9);
    assert_eq!(most_distant(&d), Some(Point::new(2, 1)));
}

#[test]
fn camera_centers_on_the_player() {
    let mut c = Camera::new(Point::new(30, 20));
    assert_eq!((c.left_x, c.right_x, c.top_y, c.bottom_y), (10, 50, 8, 32));
    c.on_player_move(Point::new(0, 0));
    assert_eq!((c.left_x, c.right_x, c.top_y, c.bottom_y), (-20, 20, -12, 12));
}
