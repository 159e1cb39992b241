use first_light::level::{is_free, rows, sample_mask, source_is_land, world_count};

#[test]
fn island_row_is_ignored_and_worlds_split_by_block() {
    let map = "XXXXXXXX                      \n                              XXXXXXXX\nXXXXXXXXXXXXXXXXXXXXXXXXXXXXXXXXXXXXXXXXXXXXXXXXXXXXXXXXXXXX";
    assert_eq!(world_count(map), 2);
    assert_eq!(rows(map), 2);
    let lines: Vec<&str> = map.lines().collect();
    // Outer ring: rock in world 0 only; inner ring: rock in world 1 only.
    assert!(sample_mask(lines[0], 0, 40).iter().any(|l| *l));
    assert!(sample_mask(lines[0], 1, 40).iter().all(|l| !*l));
    assert!(sample_mask(lines[1], 0, 12).iter().all(|l| !*l));
    assert!(sample_mask(lines[1], 1, 12).iter().any(|l| *l));
}

#[test]
fn cells_read_rock_case_insensitively_and_water_past_the_line() {
    let map = "x.X\r\n...\r\nXXX";
    assert_eq!(rows(map), 2);
    assert!(!is_free(map, 0, 0, 0));
    assert!(is_free(map, 0, 1, 0));
    assert!(!is_free(map, 0, 2, 0));
    assert!(is_free(map, 0, 3, 0));
    assert!(is_free(map, 1, 0, 0));
    assert!(is_free(map, 0, 0, 5));
    assert!(source_is_land("..x", 0, 2));
    assert!(!source_is_land("..x", 0, 1));
    assert!(!source_is_land("..x", 1, 2));
    assert_eq!(world_count(map), 1);
    assert_eq!(rows(""), 0);
    assert_eq!(world_count(""), 1);
}

#[test]
fn sparse_rings_vote_and_dense_rings_sample() {
    // Columns 0..15 rock, 15..30 water.
    let line = "XXXXXXXXXXXXXXX               ";
    // Two samples: each spans fifteen columns.
    assert_eq!(sample_mask(line, 0, 2), vec![true, false]);
    // Sixty samples: two per column.
    let dense = sample_mask(line, 0, 60);
    assert_eq!(dense.len(), 60);
    assert!(dense[..30].iter().all(|l| *l));
    assert!(dense[30..].iter().all(|l| !*l));
    // A tie counts as rock: three samples of ten columns, half of the middle one rock.
    let half = "XXXXXXXXXXXXXXX               ";
    assert_eq!(sample_mask(half, 0, 3), vec![true, true, false]);
}
