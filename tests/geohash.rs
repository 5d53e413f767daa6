use quake_alert::geohash::{encode, encode_with_precision, get_neighbors, neighbor, Direction, BASE32};

// Coordinates are in units of 1e-7 degree: 35.6586 is 356_586_000.

#[test]
fn test_encode_basic() {
    let hash = encode(356_586_000, 1_397_454_000);
    assert_eq!(hash.len(), 4);
    println!("Tokyo Tower: {}", hash);
}

#[test]
fn test_encode_known_locations() {
    let beijing = encode_with_precision(399_042_000, 1_164_074_000, 4);
    assert_eq!(beijing, "wx4g");
    let shanghai = encode_with_precision(312_397_000, 1_214_999_000, 4);
    assert_eq!(shanghai, "wtw3");
    let london = encode_with_precision(515_074_000, -1_278_000, 4);
    assert_eq!(london, "gcpv");
}

#[test]
fn test_encode_different_precisions() {
    let lat = 356_586_000;
    let lon = 1_397_454_000;
    let hash1 = encode_with_precision(lat, lon, 1);
    let hash2 = encode_with_precision(lat, lon, 2);
    let hash3 = encode_with_precision(lat, lon, 3);
    let hash5 = encode_with_precision(lat, lon, 5);
    assert_eq!(hash1.len(), 1);
    assert_eq!(hash2.len(), 2);
    assert_eq!(hash3.len(), 3);
    assert_eq!(hash5.len(), 5);
    assert!(hash5.starts_with(&hash1));
    assert!(hash5.starts_with(&hash2));
    assert!(hash5.starts_with(&hash3));
}

#[test]
fn test_encode_boundary_cases() {
    assert_eq!(encode_with_precision(0, 0, 4).len(), 4);
    assert_eq!(encode_with_precision(899_000_000, 0, 4).len(), 4);
    assert_eq!(encode_with_precision(-899_000_000, 0, 4).len(), 4);
    assert_eq!(encode_with_precision(0, 1_799_000_000, 4).len(), 4);
    assert_eq!(encode_with_precision(0, -1_799_000_000, 4).len(), 4);
}

#[test]
fn test_encode_consistency() {
    let hash1 = encode(356_586_000, 1_397_454_000);
    let hash2 = encode(356_586_000, 1_397_454_000);
    let hash3 = encode(356_586_000, 1_397_454_000);
    assert_eq!(hash1, hash2);
    assert_eq!(hash2, hash3);
}

#[test]
fn test_neighbors_count() {
    let test_hashes = vec!["wecn", "wx4g", "wtw3", "gcpv", "s000"];
    for hash in test_hashes {
        let neighbors = get_neighbors(hash);
        assert_eq!(neighbors.len(), 9, "{} should have 9 cells around it", hash);
        assert!(neighbors.contains(&hash.to_string()), "the cell itself is listed");
    }
}

#[test]
fn test_neighbors_detail() {
    let hash = "wecn";
    let neighbors = get_neighbors(hash);
    assert_eq!(neighbors.len(), 9);
    assert!(neighbors.contains(&hash.to_string()));
    let mut sorted = neighbors.clone();
    sorted.sort();
    sorted.dedup();
    assert_eq!(sorted.len(), neighbors.len(), "no key twice");
}

#[test]
fn test_neighbor_directions() {
    let hash = "wecn";
    let north = neighbor(hash, Direction::North);
    let south = neighbor(hash, Direction::South);
    let east = neighbor(hash, Direction::East);
    let west = neighbor(hash, Direction::West);
    assert!(north.is_some());
    assert!(south.is_some());
    assert!(east.is_some());
    assert!(west.is_some());
    assert_ne!(north.unwrap(), hash);
    assert_ne!(south.unwrap(), hash);
    assert_ne!(east.unwrap(), hash);
    assert_ne!(west.unwrap(), hash);
}

#[test]
fn test_neighbor_reciprocity() {
    let hash = "wecn";
    if let Some(north) = neighbor(hash, Direction::North) {
        if let Some(south_of_north) = neighbor(&north, Direction::South) {
            assert_eq!(south_of_north, hash);
        }
    }
    if let Some(east) = neighbor(hash, Direction::East) {
        if let Some(west_of_east) = neighbor(&east, Direction::West) {
            assert_eq!(west_of_east, hash);
        }
    }
}

#[test]
fn test_neighbors_at_boundaries() {
    let boundary_hashes = vec!["0", "00", "000", "s000", "pbpbp"];
    for hash in boundary_hashes {
        let neighbors = get_neighbors(hash);
        assert!(neighbors.len() >= 1, "{} lists at least itself", hash);
        assert!(neighbors.len() <= 9, "{} lists at most nine cells", hash);
    }
}

#[test]
fn test_neighbors_uniqueness() {
    let test_cases = vec!["wecn", "wx4g", "wtw3", "gcpv", "9q5", "dqc", "u4pr"];
    for hash in test_cases {
        let neighbors = get_neighbors(hash);
        let unique_count = neighbors.len();
        let mut sorted = neighbors.clone();
        sorted.sort();
        sorted.dedup();
        assert_eq!(unique_count, sorted.len(), "{} lists each cell once", hash);
    }
}

#[test]
fn test_encode_nearby_points() {
    let hash1 = encode(356_586_000, 1_397_454_000);
    let _hash2 = encode(356_586_000 + 1_000, 1_397_454_000);
    let _hash3 = encode(356_586_000, 1_397_454_000 + 1_000);
    let neighbors1 = get_neighbors(&hash1);
    assert!(neighbors1.contains(&hash1));
}

#[test]
fn test_all_base32_chars() {
    let test_coords = vec![
        (0, 0),
        (450_000_000, 450_000_000),
        (-450_000_000, -450_000_000),
        (600_000_000, 1_200_000_000),
        (-300_000_000, -900_000_000),
    ];
    for (lat, lon) in test_coords {
        let hash = encode_with_precision(lat, lon, 6);
        for c in hash.chars() {
            assert!(BASE32.contains(c), "'{}' is a symbol of the alphabet", c);
        }
    }
}

#[test]
fn test_empty_geohash() {
    let result = neighbor("", Direction::North);
    assert!(result.is_none(), "an empty key has no neighbour");
}

#[test]
fn test_precision_increases_accuracy() {
    let lat = 356_586_000;
    let lon = 1_397_454_000;
    let hash1_p3 = encode_with_precision(lat, lon, 3);
    let hash2_p3 = encode_with_precision(lat + 10_000_000, lon, 3);
    let _hash1_p6 = encode_with_precision(lat, lon, 6);
    let _hash2_p6 = encode_with_precision(lat + 10_000, lon, 6);
    assert_ne!(hash1_p3, hash2_p3);
}

#[test]
fn test_more_known_locations() {
    assert_eq!(encode_with_precision(406_892_000, -740_445_000, 9), "dr5r7p4ry");
    assert_eq!(encode_with_precision(488_584_000, 22_945_000, 5), "u09tu");
    assert_eq!(encode_with_precision(-338_568_000, 1_512_153_000, 5), "r3gx2");
    assert_eq!(encode_with_precision(356_762_000, 1_396_503_000, 9), "xn76cydhz");
}

#[test]
fn test_negative_coordinates() {
    let south_america = encode_with_precision(-235_505_000, -466_333_000, 4);
    assert_eq!(south_america.len(), 4);
    assert!(BASE32.contains(south_america.chars().next().unwrap()));
    let antarctica = encode_with_precision(-750_000_000, -1_200_000_000, 4);
    assert_eq!(antarctica.len(), 4);
    let ne = encode_with_precision(450_000_000, 900_000_000, 3);
    let nw = encode_with_precision(450_000_000, -900_000_000, 3);
    let se = encode_with_precision(-450_000_000, 900_000_000, 3);
    let sw = encode_with_precision(-450_000_000, -900_000_000, 3);
    assert_ne!(ne, nw);
    assert_ne!(ne, se);
    assert_ne!(ne, sw);
    assert_ne!(nw, se);
    assert_ne!(nw, sw);
    assert_ne!(se, sw);
}

#[test]
fn test_extreme_coordinates() {
    let extreme_cases = vec![
        (899_999_000, 1_799_999_000),
        (-899_999_000, -1_799_999_000),
        (1_000, 1_000),
        (-1_000, -1_000),
    ];
    for (lat, lon) in extreme_cases {
        let hash = encode_with_precision(lat, lon, 6);
        assert_eq!(hash.len(), 6);
        for c in hash.chars() {
            assert!(BASE32.contains(c), "({}, {}) gave '{}' with '{}'", lat, lon, hash, c);
        }
    }
}

#[test]
fn test_geohash_prefix_hierarchy() {
    let lat = 399_042_000;
    let lon = 1_164_074_000;
    let h1 = encode_with_precision(lat, lon, 1);
    let h2 = encode_with_precision(lat, lon, 2);
    let h3 = encode_with_precision(lat, lon, 3);
    let h4 = encode_with_precision(lat, lon, 4);
    let h5 = encode_with_precision(lat, lon, 5);
    let h6 = encode_with_precision(lat, lon, 6);
    assert!(h2.starts_with(&h1));
    assert!(h3.starts_with(&h2));
    assert!(h4.starts_with(&h3));
    assert!(h5.starts_with(&h4));
    assert!(h6.starts_with(&h5));
}

#[test]
fn test_same_precision_nearby_points_share_prefix() {
    let base_lat = 356_586_000;
    let base_lon = 1_397_454_000;
    let hash1 = encode_with_precision(base_lat, base_lon, 6);
    let hash2 = encode_with_precision(base_lat + 100_000, base_lon, 6);
    let hash3 = encode_with_precision(base_lat, base_lon + 100_000, 6);
    assert_eq!(&hash1[..3], &hash2[..3]);
    assert_eq!(&hash1[..3], &hash3[..3]);
}

#[test]
fn test_distant_points_different_hashes() {
    let beijing = encode_with_precision(399_042_000, 1_164_074_000, 5);
    let newyork = encode_with_precision(407_128_000, -740_060_000, 5);
    let sydney = encode_with_precision(-338_688_000, 1_512_093_000, 5);
    assert_ne!(beijing, newyork);
    assert_ne!(beijing, sydney);
    assert_ne!(newyork, sydney);
    assert_ne!(beijing.chars().next(), newyork.chars().next());
}

#[test]
fn test_neighbors_symmetry() {
    let hash = "wx4g";
    let neighbors = get_neighbors(hash);
    let mut symmetric_count = 0;
    for neighbor_hash in &neighbors {
        if neighbor_hash != hash {
            let reverse_neighbors = get_neighbors(neighbor_hash);
            if reverse_neighbors.contains(&hash.to_string()) {
                symmetric_count += 1;
            }
        }
    }
    assert!(symmetric_count >= (neighbors.len() - 1) / 2, "at least half the relations are mutual");
}

#[test]
fn test_neighbors_different_precisions() {
    let precisions = vec![("w", 1), ("wx", 2), ("wx4", 3), ("wx4g", 4), ("wx4g0", 5)];
    for (hash, precision) in precisions {
        let neighbors = get_neighbors(hash);
        assert!(
            neighbors.len() >= 1 && neighbors.len() <= 9,
            "precision {} key '{}' has 1 to 9 cells",
            precision,
            hash
        );
    }
}

#[test]
fn test_encoding_is_deterministic() {
    let test_coords = vec![
        (356_586_000, 1_397_454_000),
        (0, 0),
        (-450_000_000, 900_000_000),
        (515_074_000, -1_278_000),
    ];
    for (lat, lon) in test_coords {
        let hashes: Vec<String> = (0..10).map(|_| encode_with_precision(lat, lon, 5)).collect();
        for hash in &hashes[1..] {
            assert_eq!(&hashes[0], hash, "({}, {}) encodes the same each time", lat, lon);
        }
    }
}

#[test]
fn test_neighbor_corners() {
    let hash = "wx4g";
    let neighbors = get_neighbors(hash);
    assert_eq!(neighbors.len(), 9);
    for neighbor in &neighbors {
        assert_eq!(neighbor.len(), hash.len(), "'{}' is as long as '{}'", neighbor, hash);
    }
}

#[test]
fn test_geohash_characters_valid() {
    let test_cases = vec![
        (0, 0),
        (300_000_000, 600_000_000),
        (-300_000_000, -600_000_000),
        (450_000_000, 1_350_000_000),
        (-450_000_000, -1_350_000_000),
        (600_000_000, 1_200_000_000),
        (-600_000_000, -1_200_000_000),
        (750_000_000, 1_500_000_000),
        (-750_000_000, -1_500_000_000),
    ];
    for (lat, lon) in test_cases {
        for precision in 1..=8 {
            let hash = encode_with_precision(lat, lon, precision);
            assert_eq!(hash.len(), precision);
            for ch in hash.chars() {
                assert!(BASE32.contains(ch), "({}, {}) precision {} gave '{}'", lat, lon, precision, hash);
            }
        }
    }
}

#[test]
fn test_meridian_and_equator() {
    let equator_west = encode_with_precision(0, -900_000_000, 5);
    let equator_east = encode_with_precision(0, 900_000_000, 5);
    let meridian_north = encode_with_precision(450_000_000, 0, 5);
    let meridian_south = encode_with_precision(-450_000_000, 0, 5);
    assert_ne!(equator_west, equator_east);
    assert_ne!(meridian_north, meridian_south);
}

#[test]
fn test_precision_zero_handling() {
    let hash = encode_with_precision(356_586_000, 1_397_454_000, 0);
    assert_eq!(hash.len(), 0);
    assert_eq!(hash, "");
}

#[test]
fn test_high_precision_encoding() {
    for precision in 8..=12 {
        let hash = encode_with_precision(356_586_000, 1_397_454_000, precision);
        assert_eq!(hash.len(), precision);
        for ch in hash.chars() {
            assert!(BASE32.contains(ch));
        }
    }
}

#[test]
fn test_neighbor_calculation_stability() {
    let test_hashes = vec!["wecn", "wx4g", "gcpv", "9q5"];
    for hash in test_hashes {
        let neighbors1 = get_neighbors(hash);
        let neighbors2 = get_neighbors(hash);
        let neighbors3 = get_neighbors(hash);
        assert_eq!(neighbors1, neighbors2);
        assert_eq!(neighbors2, neighbors3);
    }
}

#[test]
fn test_neighbor_debug_wx4g() {
    let hash = "wx4g";
    let neighbors = get_neighbors(hash);
    println!("{} cells: {:?}", neighbors.len(), neighbors);
    if let Some(n) = neighbor(hash, Direction::North) {
        println!("north: {} back: {:?}", n, neighbor(&n, Direction::South));
    }
    if let Some(s) = neighbor(hash, Direction::South) {
        println!("south: {} back: {:?}", s, neighbor(&s, Direction::North));
    }
    if let Some(e) = neighbor(hash, Direction::East) {
        println!("east: {} back: {:?}", e, neighbor(&e, Direction::West));
    }
    if let Some(w) = neighbor(hash, Direction::West) {
        println!("west: {} back: {:?}", w, neighbor(&w, Direction::East));
    }
    for neighbor_hash in &neighbors {
        if neighbor_hash != hash {
            let is_symmetric = get_neighbors(neighbor_hash).contains(&hash.to_string());
            println!("  {} -> {}: {}", neighbor_hash, hash, is_symmetric);
        }
    }
}

#[test]
fn encode_extends_by_precision() {
    let lat = 356_586_000;
    let lon = 1_397_454_000;
    let long = encode_with_precision(lat, lon, 12);
    for p in 0..12 {
        assert_eq!(encode_with_precision(lat, lon, p), long[..p]);
    }
}

#[test]
fn encode_clamps_out_of_range_points() {
    assert_eq!(encode_with_precision(900_000_000, 1_800_000_000, 4), "zzzz");
    assert_eq!(encode_with_precision(i64::MAX, i64::MAX, 4), "zzzz");
    assert_eq!(encode_with_precision(-900_000_000, -1_800_000_000, 4), "0000");
    assert_eq!(encode_with_precision(i64::MIN, i64::MIN, 4), "0000");
}

#[test]
fn neighbors_of_known_cell() {
    assert_eq!(neighbor("wx4g", Direction::North).unwrap(), "wx4u");
    assert_eq!(neighbor("wx4g", Direction::South).unwrap(), "wx4f");
    assert_eq!(neighbor("wx4g", Direction::East).unwrap(), "wx55");
    assert_eq!(neighbor("wx4g", Direction::West).unwrap(), "wx4e");
    assert_eq!(
        get_neighbors("wx4g"),
        vec!["wx4g", "wx4u", "wx4f", "wx55", "wx4e", "wx5h", "wx4s", "wx54", "wx4d"]
    );
}

#[test]
fn neighbor_steps_into_parent_on_border() {
    assert_eq!(neighbor("gcpv", Direction::East).unwrap(), "u10j");
    assert_eq!(neighbor("gcpv", Direction::North).unwrap(), "gcpy");
    assert_eq!(neighbor("zzzz", Direction::North).unwrap(), "pbpb");
    assert_eq!(neighbor("zzzz", Direction::East).unwrap(), "bpbp");
}

#[test]
fn neighbors_contain_cells_of_nearby_points() {
    // A point just east of London's cell edge lies in the eastern neighbour.
    let london = encode_with_precision(515_074_000, -1_278_000, 4);
    let east_point = encode_with_precision(515_074_000, 1_000_000, 4);
    assert_ne!(london, east_point);
    assert!(get_neighbors(&london).contains(&east_point));
    let beijing = encode_with_precision(399_042_000, 1_164_074_000, 4);
    let north_point = encode_with_precision(399_042_000 + 2_000_000, 1_164_074_000, 4);
    assert_eq!(neighbor(&beijing, Direction::North).unwrap(), north_point);
}

#[test]
fn neighbor_of_key_outside_alphabet_is_none() {
    assert!(neighbor("wx4a", Direction::North).is_none());
    assert_eq!(get_neighbors("wx4a"), vec!["wx4a".to_string()]);
    assert_eq!(get_neighbors(""), vec!["".to_string()]);
}
