use newton_survivor::level::{Ground, LevelManager};
use newton_survivor::terrain::{
    altitude_band, create_plane, create_terrain, AltitudeBand, Vertex, INDEX_COUNT,
    PLANE_SUB_DIVISION_COUNT, PLANE_X_SIZE, PLANE_Z_SIZE, SIDE, TERRAIN_HEIGHT, VERTEX_COUNT,
};

fn slope(x: i64, z: i64) -> i32 {
    (x / 10 + z / 5) as i32
}

#[test]
fn constants_of_the_world() {
    assert_eq!(PLANE_X_SIZE, 50_000);
    assert_eq!(PLANE_Z_SIZE, 50_000);
    assert_eq!(PLANE_SUB_DIVISION_COUNT, 20);
    assert_eq!(TERRAIN_HEIGHT, 40_000);
    assert_eq!(SIDE, 21);
    assert_eq!(VERTEX_COUNT, 21 * 21);
    assert_eq!(INDEX_COUNT, 20 * 20 * 6);
}

#[test]
fn bands_at_the_thresholds() {
    // g = 2 * height / 40 m: rock above 0.8 (16 m), dirt above 0.3 (6 m),
    // void below -0.8 (-16 m).
    assert_eq!(altitude_band(16_001), AltitudeBand::Rock);
    assert_eq!(altitude_band(16_000), AltitudeBand::Dirt);
    assert_eq!(altitude_band(6_001), AltitudeBand::Dirt);
    assert_eq!(altitude_band(6_000), AltitudeBand::Grass);
    assert_eq!(altitude_band(0), AltitudeBand::Grass);
    assert_eq!(altitude_band(-16_000), AltitudeBand::Grass);
    assert_eq!(altitude_band(-16_001), AltitudeBand::Void);
    assert_eq!(altitude_band(i64::MAX), AltitudeBand::Rock);
    assert_eq!(altitude_band(i64::MIN), AltitudeBand::Void);
}

#[test]
fn bands_are_ordered() {
    assert_eq!(AltitudeBand::Void.ordinal(), 0);
    assert_eq!(AltitudeBand::Grass.ordinal(), 1);
    assert_eq!(AltitudeBand::Dirt.ordinal(), 2);
    assert_eq!(AltitudeBand::Rock.ordinal(), 3);
}

#[test]
fn bands_never_fall_as_the_height_grows() {
    let mut last = altitude_band(-40_000).ordinal();
    let mut h = -40_000;
    while h <= 40_000 {
        let now = altitude_band(h).ordinal();
        assert!(last <= now);
        last = now;
        h += 250;
    }
    assert_eq!(last, 3);
}

#[test]
fn plane_is_flat_and_centred() {
    let plane = create_plane(Ground { x: 0, z: 0 });
    let vs = plane.vertices();
    assert_eq!(vs.len(), 441);
    assert_eq!(vs[0], Vertex { x: -25_000, y: 0, z: -25_000, band: AltitudeBand::Grass });
    assert_eq!(vs[1], Vertex { x: -22_500, y: 0, z: -25_000, band: AltitudeBand::Grass });
    assert_eq!(vs[20], Vertex { x: 25_000, y: 0, z: -25_000, band: AltitudeBand::Grass });
    assert_eq!(vs[21], Vertex { x: -25_000, y: 0, z: -22_500, band: AltitudeBand::Grass });
    assert_eq!(vs[220], Vertex { x: 0, y: 0, z: 0, band: AltitudeBand::Grass });
    assert_eq!(vs[440], Vertex { x: 25_000, y: 0, z: 25_000, band: AltitudeBand::Grass });
    assert!(vs.iter().all(|v| v.y == 0));
}

#[test]
fn plane_is_placed_by_its_cell() {
    assert_eq!(create_plane(Ground { x: 0, z: 0 }).world_origin(), (0, -2_000, 0));
    assert_eq!(create_plane(Ground { x: 1, z: 0 }).world_origin(), (50_000, -2_000, 0));
    assert_eq!(create_plane(Ground { x: -2, z: 3 }).world_origin(), (-100_000, -2_000, 150_000));
    let far = create_plane(Ground { x: i32::MAX, z: i32::MIN });
    assert_eq!(far.world_origin(), (107_374_182_350_000, -2_000, -107_374_182_400_000));
    assert_eq!(far.ground(), Ground { x: i32::MAX, z: i32::MIN });
}

#[test]
fn triangles_of_the_plane() {
    let plane = create_plane(Ground { x: 4, z: 4 });
    let ix = plane.indices();
    assert_eq!(ix.len(), 2400);
    assert_eq!(&ix[0..6], &[22, 1, 21, 0, 21, 1]);
    assert_eq!(&ix[6..12], &[23, 2, 22, 1, 22, 2]);
    // First quad of the second row.
    assert_eq!(&ix[120..126], &[43, 22, 42, 21, 42, 22]);
    // Last quad.
    assert_eq!(&ix[2394..2400], &[440, 419, 439, 418, 439, 419]);
    assert!(ix.iter().all(|&i| (i as usize) < 441));
}

#[test]
fn terrain_samples_world_positions() {
    let chunk = create_terrain(create_plane(Ground { x: 2, z: -1 }), &slope);
    let vs = chunk.vertices();
    assert_eq!(chunk.world_origin(), (100_000, -2_000, -50_000));
    // Vertex 0 stands at world (75 m, -75 m).
    assert_eq!(vs[0].x, -25_000);
    assert_eq!(vs[0].z, -25_000);
    assert_eq!(vs[0].y, 75_000 / 10 + -75_000 / 5);
    assert_eq!(vs[0].band, AltitudeBand::Grass);
    // Vertex 440 stands at world (125 m, -25 m).
    assert_eq!(vs[440].y, 125_000 / 10 + -25_000 / 5);
    assert_eq!(vs[440].band, AltitudeBand::Dirt);
    for v in vs.iter() {
        assert_eq!(v.y, slope(100_000 + v.x as i64, -50_000 + v.z as i64));
        assert_eq!(v.band, altitude_band(v.y as i64));
    }
    assert_eq!(chunk.indices(), create_plane(Ground { x: 0, z: 0 }).indices());
}

#[test]
fn terrain_shows_every_band() {
    let steep = |x: i64, _z: i64| x as i32;
    let chunk = create_terrain(create_plane(Ground { x: 0, z: 0 }), &steep);
    let vs = chunk.vertices();
    assert_eq!(vs[0].band, AltitudeBand::Void);
    assert_eq!(vs[10].band, AltitudeBand::Grass);
    assert_eq!(vs[13].band, AltitudeBand::Dirt);
    assert_eq!(vs[20].band, AltitudeBand::Rock);
}

#[test]
fn seam_between_neighbours_along_x() {
    let mut lm = LevelManager::new();
    let left = lm.create_grid(0, 0, &slope).unwrap();
    let right = lm.create_grid(1, 0, &slope).unwrap();
    let (lx, _, lz) = left.world_origin();
    let (rx, _, rz) = right.world_origin();
    for row in 0..21 {
        let a = left.vertices()[row * 21 + 20];
        let b = right.vertices()[row * 21];
        assert_eq!(lx + a.x as i64, rx + b.x as i64);
        assert_eq!(lz + a.z as i64, rz + b.z as i64);
        assert_eq!(a.y, b.y);
        assert_eq!(a.band, b.band);
    }
    assert_eq!(lx + left.vertices()[20].x as i64, 25_000);
}

#[test]
fn seam_between_neighbours_along_z() {
    let mut lm = LevelManager::new();
    let near = lm.create_grid(-5, 2, &slope).unwrap();
    let far = lm.create_grid(-5, 3, &slope).unwrap();
    let (nx, _, nz) = near.world_origin();
    let (fx, _, fz) = far.world_origin();
    for col in 0..21 {
        let a = near.vertices()[420 + col];
        let b = far.vertices()[col];
        assert_eq!(nx + a.x as i64, fx + b.x as i64);
        assert_eq!(nz + a.z as i64, fz + b.z as i64);
        assert_eq!(a.y, b.y);
    }
}

#[test]
fn same_cell_same_chunk() {
    let mut one = LevelManager::new();
    let mut other = LevelManager::new();
    other.create_grid(9, 9, &slope);
    let a = one.create_grid(3, -4, &slope).unwrap();
    let b = other.create_grid(3, -4, &slope).unwrap();
    assert_eq!(a.ground(), b.ground());
    assert_eq!(a.world_origin(), b.world_origin());
    assert_eq!(a.vertices(), b.vertices());
    assert_eq!(a.indices(), b.indices());
}

#[test]
fn collision_surface_is_the_mesh_itself() {
    let chunk = create_terrain(create_plane(Ground { x: 0, z: 0 }), &slope);
    let surface = chunk.collision_surface();
    assert_eq!(surface.positions.len(), 441);
    assert_eq!(surface.triangles.len(), 800);
    for (p, v) in surface.positions.iter().zip(chunk.vertices().iter()) {
        assert_eq!(*p, (v.x, v.y, v.z));
    }
    assert_eq!(surface.triangles[0], (22, 1, 21));
    assert_eq!(surface.triangles[1], (0, 21, 1));
    assert_eq!(surface.triangles[799], (418, 439, 419));
    for (t, tri) in surface.triangles.iter().enumerate() {
        let ix = chunk.indices();
        assert_eq!(*tri, (ix[3 * t], ix[3 * t + 1], ix[3 * t + 2]));
        assert!(tri.0 < 441 && tri.1 < 441 && tri.2 < 441);
    }
}
