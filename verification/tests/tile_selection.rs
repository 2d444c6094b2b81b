use bangladesh::tile_ids::{parse_tile_id_ranges, TileIdErrorKind};

#[test]
fn ranges_and_ids_are_merged_sorted_and_deduplicated() {
    assert_eq!(parse_tile_id_ranges("0-3, 2 ,7", 10).unwrap(), vec![0, 1, 2, 3, 7]);
    assert_eq!(parse_tile_id_ranges("9,1,9, 5 - 6", 10).unwrap(), vec![1, 5, 6, 9]);
    assert_eq!(parse_tile_id_ranges("4-4", 4).unwrap(), vec![4]);
    assert_eq!(parse_tile_id_ranges("+3", 4).unwrap(), vec![3]);
}

#[test]
fn empty_pieces_are_skipped() {
    assert_eq!(parse_tile_id_ranges("", 5).unwrap(), Vec::<u32>::new());
    assert_eq!(parse_tile_id_ranges(" , ,2,,", 5).unwrap(), vec![2]);
}

#[test]
fn bad_range_start_is_refused() {
    let e = parse_tile_id_ranges("a-3", 10).err().unwrap();
    assert_eq!(e.kind, TileIdErrorKind::InvalidRangeStart);
    assert_eq!(e.text, "a");
}

#[test]
fn bad_range_end_is_refused() {
    let e = parse_tile_id_ranges("1- x", 10).err().unwrap();
    assert_eq!(e.kind, TileIdErrorKind::InvalidRangeEnd);
    assert_eq!(e.text, " x");
}

#[test]
fn backwards_range_is_refused() {
    let e = parse_tile_id_ranges("1,5-2", 10).err().unwrap();
    assert_eq!(e.kind, TileIdErrorKind::InvalidRange);
    assert_eq!(e.text, "5-2");
}

#[test]
fn range_past_the_last_tile_is_refused() {
    let e = parse_tile_id_ranges("3-11", 10).err().unwrap();
    assert_eq!(e.kind, TileIdErrorKind::RangeExceedsMax);
    assert_eq!(e.text, "3-11");
    assert_eq!(e.value, 11);
}

#[test]
fn bad_single_id_is_refused() {
    let e = parse_tile_id_ranges("2, 4x ,1", 10).err().unwrap();
    assert_eq!(e.kind, TileIdErrorKind::InvalidTileId);
    assert_eq!(e.text, "4x");
}

#[test]
fn single_id_past_the_last_tile_is_refused() {
    let e = parse_tile_id_ranges("12", 10).err().unwrap();
    assert_eq!(e.kind, TileIdErrorKind::TileIdExceedsMax);
    assert_eq!(e.text, "12");
    assert_eq!(e.value, 12);
}

#[test]
fn first_bad_piece_decides_the_error() {
    let e = parse_tile_id_ranges("99,x", 10).err().unwrap();
    assert_eq!(e.kind, TileIdErrorKind::TileIdExceedsMax);
    let e = parse_tile_id_ranges("x,99", 10).err().unwrap();
    assert_eq!(e.kind, TileIdErrorKind::InvalidTileId);
}

#[test]
fn ids_that_overflow_are_not_numbers() {
    let e = parse_tile_id_ranges("4294967296", u32::MAX).err().unwrap();
    assert_eq!(e.kind, TileIdErrorKind::InvalidTileId);
    assert_eq!(parse_tile_id_ranges("4294967295", u32::MAX).unwrap(), vec![u32::MAX]);
}
