use terrain_gen::vertex_data::{half_extent, plane_vertices, render_dist_mul, GridPoint, VertexData};

fn gp(x: u32, z: u32) -> GridPoint {
    GridPoint { x, z }
}

#[test]
fn empty_plane() {
    assert!(plane_vertices(0).is_empty());
}

#[test]
fn single_quad_plane() {
    assert_eq!(plane_vertices(1), vec![gp(0, 0), gp(0, 1), gp(1, 0), gp(1, 1)]);
}

#[test]
fn two_by_two_plane_links_rows() {
    let want = vec![
        gp(0, 0), gp(0, 1), gp(1, 0), gp(1, 1), gp(2, 0), gp(2, 1),
        gp(2, 1), gp(0, 1),
        gp(0, 1), gp(0, 2), gp(1, 1), gp(1, 2), gp(2, 1), gp(2, 2),
    ];
    assert_eq!(plane_vertices(2), want);
}

#[test]
fn plane_length_formula() {
    for n in [3u32, 10, 57] {
        assert_eq!(plane_vertices(n).len() as u32, n * (2 * n + 4) - 2);
    }
}

#[test]
fn render_distance_levels() {
    assert_eq!(render_dist_mul(0), Some(1));
    assert_eq!(render_dist_mul(1), Some(2));
    assert_eq!(render_dist_mul(2), Some(4));
    assert_eq!(render_dist_mul(3), Some(8));
    assert_eq!(render_dist_mul(4), Some(16));
    assert_eq!(render_dist_mul(5), None);
}

#[test]
fn half_extent_follows_render_distance() {
    assert_eq!(half_extent(0), Some(1_250_000));
    assert_eq!(half_extent(2), Some(5_000_000));
    assert_eq!(half_extent(4), Some(20_000_000));
    assert_eq!(half_extent(9), None);
}

#[test]
fn unknown_settings_refused() {
    assert!(VertexData::with_settings(5, 1).is_none());
    assert!(VertexData::with_settings(1, 5).is_none());
}

#[test]
fn half_distance_rounds_grid_down() {
    let v = VertexData::with_settings(0, 0).unwrap();
    assert_eq!(v.grid, 62);
    assert_eq!(v.quads_per_unit, 25);
    assert_eq!(v.length, 62 * 128 - 2);
}

#[test]
fn default_mesh() {
    let v = VertexData::new();
    assert_eq!(v.grid, 1000);
    assert_eq!(v.quads_per_unit, 100);
    assert_eq!(v.length, 2_003_998);
    assert_eq!(v.positions.len(), 2_003_998);
    assert_eq!(v.positions[2001], gp(1000, 1));
    assert_eq!(v.positions[2002], gp(1000, 1));
    assert_eq!(v.positions[2003], gp(0, 1));
}
