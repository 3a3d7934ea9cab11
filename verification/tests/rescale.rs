use bevy_terrain::error::HeightMapError;
use bevy_terrain::heightmap::HeightMap;

fn elevations(map: &HeightMap) -> Vec<f64> {
    map.map.iter().map(|&s| s as f64 / map.resolution as f64).collect()
}

fn max_elevation(map: &HeightMap) -> f64 {
    map.max_height as f64 / map.resolution as f64
}

fn min_elevation(map: &HeightMap) -> f64 {
    map.min_height as f64 / map.resolution as f64
}

#[test]
fn transform_height_3x3_0_8_to_0_1() {
    let _map_3x3 = HeightMap {
        width: 3,
        max_height: 8,
        min_height: 0,
        map: vec![0, 1, 2, 3, 4, 5, 6, 7, 8],
        resolution: 1,
    };
    let expected = vec![0.0, 0.125, 0.25, 0.375, 0.5, 0.625, 0.75, 0.875, 1.0];
    let map = _map_3x3.transform(1, 0).unwrap();
    assert_eq!(map.width, 3);
    assert!((max_elevation(&map) - 1.).abs() < 1.0e-6);
    assert!((min_elevation(&map) - 0.).abs() < 1.0e-6);
    assert_eq!(elevations(&map), expected);
}

#[test]
fn transform_height_3x3_1_9_to_2_4() {
    let _map_3x3 = HeightMap {
        width: 3,
        max_height: 9,
        min_height: 1,
        map: vec![1, 2, 3, 4, 5, 6, 7, 8, 9],
        resolution: 1,
    };
    let expected = vec![2.0, 2.25, 2.5, 2.75, 3.0, 3.25, 3.5, 3.75, 4.0];
    let map = _map_3x3.transform(4, 2).unwrap();
    assert_eq!(map.width, 3);
    assert_eq!(max_elevation(&map), 4.);
    assert_eq!(min_elevation(&map), 2.);
    assert_eq!(elevations(&map), expected);
}

#[test]
fn transform_stores_exact_steps() {
    let source = HeightMap { width: 2, max_height: 7, min_height: 1, map: vec![1, 3, 4, 7], resolution: 1 };
    let map = source.transform(10, -2).unwrap();
    // span 6: a sample s becomes 12 * (s - 1) - 2 * 6 sixths
    assert_eq!(map.resolution, 6);
    assert_eq!(map.max_height, 60);
    assert_eq!(map.min_height, -12);
    assert_eq!(map.map, vec![-12, 12, 24, 60]);
    assert_eq!(map.width, 2);
}

#[test]
fn transform_leaves_the_source_alone() {
    let source = HeightMap { width: 2, max_height: 3, min_height: 0, map: vec![0, 1, 2, 3], resolution: 1 };
    let before = source.clone();
    let _scaled = source.transform(100, 50).unwrap();
    assert_eq!(source, before);
}

#[test]
fn transform_then_scan_finds_the_new_bounds() {
    let source = HeightMap::from_vec(vec![5, -7, 12, 3, 0, 9, 12, -7, 1]).unwrap();
    let scaled = source.transform(318, -20).unwrap();
    let scanned = HeightMap::from_vec(scaled.map.clone()).unwrap();
    assert_eq!(scanned.max_height, scaled.max_height);
    assert_eq!(scanned.min_height, scaled.min_height);
    assert_eq!(scaled.max_height, 318 * 19);
    assert_eq!(scaled.min_height, -20 * 19);
    assert_eq!(scaled.resolution, 19);
    assert_eq!(max_elevation(&scaled), 318.);
    assert_eq!(min_elevation(&scaled), -20.);
}

#[test]
fn transform_is_affine() {
    let source = HeightMap::from_vec(vec![2, 4, 8, 10]).unwrap();
    let scaled = source.transform(5, 1).unwrap();
    // scale (5 - 1) / (10 - 2) = 1/2, offset 1 - 2/2 = 0
    assert_eq!(elevations(&scaled), vec![1., 2., 4., 5.]);
}

#[test]
fn transform_to_own_bounds_is_identity() {
    let source = HeightMap::from_vec(vec![5, -7, 12, 3, 0, 9, 12, -7, 1]).unwrap();
    let same = source.transform(12, -7).unwrap();
    assert_eq!(elevations(&same), elevations(&source));
    assert_eq!(max_elevation(&same), 12.);
    assert_eq!(min_elevation(&same), -7.);
    let again = same.transform(12, -7).unwrap();
    assert_eq!(elevations(&again), elevations(&source));
}

#[test]
fn transform_twice() {
    let source = HeightMap::from_vec(vec![0, 1, 2, 4]).unwrap();
    let first = source.transform(1, 0).unwrap();
    assert_eq!(first.resolution, 4);
    let second = first.transform(8, 4).unwrap();
    assert_eq!(elevations(&second), vec![4., 5., 6., 8.]);
    assert_eq!(second.resolution, 4);
}

#[test]
fn transform_with_min_above_max_turns_the_map_over() {
    let source = HeightMap::from_vec(vec![0, 1, 2, 4]).unwrap();
    let map = source.transform(0, 8).unwrap();
    assert_eq!(elevations(&map), vec![8., 6., 4., 0.]);
    assert_eq!(max_elevation(&map), 0.);
    assert_eq!(min_elevation(&map), 8.);
    // the turned map has its stored bounds the other way round
    let back = map.transform(4, 0).unwrap();
    assert_eq!(back.resolution, 32);
    assert_eq!(elevations(&back), vec![0., 1., 2., 4.]);
}

#[test]
fn transform_to_a_single_height() {
    let source = HeightMap::from_vec(vec![0, 1, 2, 4]).unwrap();
    let map = source.transform(3, 3).unwrap();
    assert_eq!(elevations(&map), vec![3., 3., 3., 3.]);
}

#[test]
fn transform_rejects_a_flat_source() {
    let flat = HeightMap::from_vec(vec![6, 6, 6, 6]).unwrap();
    assert_eq!(flat.transform(1, 0), Err(HeightMapError::FlatSource));
    assert_eq!(flat.transform(6, 6), Err(HeightMapError::FlatSource));
}

#[test]
fn transform_rejects_what_does_not_fit() {
    let source = HeightMap::from_vec(vec![0, 1, 2, 4]).unwrap();
    assert_eq!(source.transform(i64::MAX, 0), Err(HeightMapError::OutOfRange));
    assert_eq!(source.transform(0, i64::MIN), Err(HeightMapError::OutOfRange));
    let wide = HeightMap {
        width: 1,
        max_height: i64::MAX,
        min_height: i64::MIN,
        map: vec![0],
        resolution: 1,
    };
    assert_eq!(wide.transform(1, -1), Err(HeightMapError::OutOfRange));
    let far = HeightMap { width: 1, max_height: 1, min_height: 0, map: vec![i64::MAX], resolution: 1 };
    assert_eq!(far.transform(2, 0), Err(HeightMapError::OutOfRange));
}

#[test]
fn transform_at_the_edge_of_the_range() {
    let wide = HeightMap {
        width: 1,
        max_height: i64::MAX,
        min_height: i64::MIN,
        map: vec![0],
        resolution: 1,
    };
    let map = wide.transform(0, 0).unwrap();
    assert_eq!(map.resolution, u64::MAX);
    assert_eq!(map.map, vec![0]);
    let unit = HeightMap { width: 1, max_height: 1, min_height: 0, map: vec![1], resolution: 1 };
    let top = unit.transform(i64::MAX, i64::MIN).unwrap();
    assert_eq!(top.map, vec![i64::MAX]);
    assert_eq!(top.max_height, i64::MAX);
    assert_eq!(top.min_height, i64::MIN);
}

#[test]
fn reduced_brings_a_map_to_lowest_terms() {
    let map = HeightMap { width: 2, max_height: 60, min_height: -12, map: vec![-12, 12, 24, 60], resolution: 6 };
    let low = map.reduced();
    assert_eq!(low.width, 2);
    assert_eq!(low.resolution, 1);
    assert_eq!(low.max_height, 10);
    assert_eq!(low.min_height, -2);
    assert_eq!(low.map, vec![-2, 2, 4, 10]);
    assert_eq!(elevations(&low), elevations(&map));
}

#[test]
fn reduced_keeps_what_is_in_lowest_terms() {
    let map = HeightMap { width: 2, max_height: 9, min_height: 2, map: vec![2, 3, 5, 9], resolution: 4 };
    assert_eq!(map.reduced(), map);
    let partly = HeightMap { width: 2, max_height: 8, min_height: 2, map: vec![2, 4, 6, 8], resolution: 4 };
    let low = partly.reduced();
    assert_eq!(low.resolution, 2);
    assert_eq!(low.map, vec![1, 2, 3, 4]);
    assert_eq!(low.max_height, 4);
    assert_eq!(low.min_height, 1);
}

#[test]
fn reduced_with_nothing_to_divide() {
    let zero = HeightMap { width: 1, max_height: 0, min_height: 0, map: vec![0], resolution: 0 };
    assert_eq!(zero.reduced(), zero);
    let level = HeightMap { width: 1, max_height: 0, min_height: 0, map: vec![0], resolution: 12 };
    let low = level.reduced();
    assert_eq!(low.resolution, 1);
    assert_eq!(low.map, vec![0]);
    let deep = HeightMap {
        width: 1,
        max_height: i64::MIN,
        min_height: i64::MIN,
        map: vec![i64::MIN],
        resolution: 2,
    };
    let low = deep.reduced();
    assert_eq!(low.resolution, 1);
    assert_eq!(low.map, vec![i64::MIN / 2]);
}

#[test]
fn rescaling_again_and_again_stays_in_range_when_reduced() {
    let source = HeightMap::from_vec(vec![0, 65535, 12345, 40000]).unwrap();
    // unreduced, the stored numbers grow with every round
    let once = source.transform(65535, 0).unwrap();
    let twice = once.transform(65535, 0).unwrap();
    assert_eq!(twice.transform(65535, 0), Err(HeightMapError::OutOfRange));
    // reduced after every round, they stay as they were
    let mut map = source.clone();
    let mut round: u32 = 0;
    while round < 20 {
        map = map.transform(65535, 0).unwrap().reduced();
        assert_eq!(map, source);
        round += 1;
    }
    let mut map = source.clone();
    let mut round: u32 = 0;
    while round < 20 {
        map = map.transform(318, -20).unwrap().reduced();
        assert!(map.resolution <= 65535);
        assert_eq!(map.max_height as f64 / map.resolution as f64, 318.);
        assert_eq!(map.min_height as f64 / map.resolution as f64, -20.);
        round += 1;
    }
}

#[test]
fn transform_fractional_to_half_a_unit() {
    let source = HeightMap::from_vec(vec![0, 1, 2, 4]).unwrap();
    let map = source.transform_fractional(1, 0, 2).unwrap();
    assert_eq!(map.resolution, 8);
    assert_eq!(map.max_height, 4);
    assert_eq!(map.min_height, 0);
    assert_eq!(map.map, vec![0, 1, 2, 4]);
    assert_eq!(elevations(&map), vec![0., 0.125, 0.25, 0.5]);
    assert_eq!(max_elevation(&map), 0.5);
    assert_eq!(min_elevation(&map), 0.);
}

#[test]
fn transform_fractional_with_unit_one_is_transform() {
    let source = HeightMap::from_vec(vec![5, -7, 12, 3]).unwrap();
    assert_eq!(source.transform_fractional(318, -20, 1), source.transform(318, -20));
    assert_eq!(source.transform_fractional(3, 9, 1), source.transform(3, 9));
}

#[test]
fn transform_fractional_to_own_bounds_is_identity() {
    let source = HeightMap::from_vec_with_resolution(vec![1, 3, -2, 7], 4).unwrap();
    let same = source
        .transform_fractional(source.max_height, source.min_height, source.resolution)
        .unwrap();
    assert_eq!(elevations(&same), elevations(&source));
    assert_eq!(max_elevation(&same), max_elevation(&source));
    assert_eq!(min_elevation(&same), min_elevation(&source));
    assert_eq!(same.width, source.width);
    assert_eq!(same.reduced(), source);
    let again = same
        .transform_fractional(same.max_height, same.min_height, same.resolution)
        .unwrap();
    assert_eq!(elevations(&again), elevations(&source));
    assert_eq!(again.reduced(), source);
}

#[test]
fn transform_fractional_errors() {
    let source = HeightMap::from_vec(vec![0, 1, 2, 4]).unwrap();
    assert_eq!(source.transform_fractional(1, 0, 0), Err(HeightMapError::NoResolution));
    assert_eq!(source.transform_fractional(1, 0, u64::MAX), Err(HeightMapError::OutOfRange));
    assert_eq!(source.transform_fractional(i64::MAX, 0, 3), Err(HeightMapError::OutOfRange));
    let flat = HeightMap::from_vec(vec![6, 6, 6, 6]).unwrap();
    assert_eq!(flat.transform_fractional(1, 0, 2), Err(HeightMapError::FlatSource));
    assert_eq!(flat.transform_fractional(1, 0, 0), Err(HeightMapError::NoResolution));
}
