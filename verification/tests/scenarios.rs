use std::cell::RefCell;
use subimage_search::image::ImageData;
use subimage_search::results::SearchResult;
use subimage_search::search::{DimensionError, Progress, SubimageScan};

fn filled(width: u32, height: u32, color: [u8; 4]) -> ImageData {
    let mut pixels = Vec::new();
    for _ in 0..(width as usize * height as usize) {
        pixels.extend_from_slice(&color);
    }
    ImageData::new(width, height, pixels).unwrap()
}

fn patterned(width: u32, height: u32) -> Vec<u8> {
    let mut pixels = Vec::new();
    for i in 0..(width as usize * height as usize * 4) {
        pixels.push(((i * 37 + i / 7) % 251) as u8);
    }
    pixels
}

/// An image of one row, each pixel grey with the given level and opaque.
fn strip(levels: &[u8]) -> ImageData {
    let mut pixels = Vec::new();
    for &level in levels {
        pixels.extend_from_slice(&[level, level, level, 255]);
    }
    ImageData::new(levels.len() as u32, 1, pixels).unwrap()
}

/// An image of one column, each pixel grey with the given level and opaque.
fn column(levels: &[u8]) -> ImageData {
    let mut pixels = Vec::new();
    for &level in levels {
        pixels.extend_from_slice(&[level, level, level, 255]);
    }
    ImageData::new(1, levels.len() as u32, pixels).unwrap()
}

fn places(matches: &[SearchResult]) -> Vec<(u32, u32, u64)> {
    matches.iter().map(|m| (m.x, m.y, m.tse)).collect()
}

#[test]
fn image_found_in_itself_exactly_once() {
    let pixels = patterned(6, 5);
    let main = ImageData::new(6, 5, pixels.clone()).unwrap();
    let search = ImageData::new(6, 5, pixels).unwrap();
    let found = main.find_subimage(&search, |_| {}, 0, 10).unwrap();
    let matches = found.get_matches();
    assert_eq!(matches.len(), 1);
    assert_eq!(matches[0].x, 0);
    assert_eq!(matches[0].y, 0);
    assert_eq!(matches[0].tse, 0);
    assert!(!found.has_overflown());
}

#[test]
fn red_is_not_found_in_black() {
    let search = filled(2, 2, [255, 0, 0, 255]);
    let main = filled(8, 8, [0, 0, 0, 255]);
    let found = main.find_subimage(&search, |_| {}, 0, 10).unwrap();
    assert!(found.get_matches().is_empty());
    assert!(!found.has_overflown());
}

#[test]
fn search_image_larger_than_main_is_refused_before_any_report() {
    let main = filled(10, 10, [1, 2, 3, 4]);
    let search = filled(20, 20, [1, 2, 3, 4]);
    let reports: RefCell<Vec<Progress>> = RefCell::new(Vec::new());
    let found = main.find_subimage(&search, |p| reports.borrow_mut().push(p), 0, 10);
    assert_eq!(found.err(), Some(DimensionError::MainHeightTooSmall));
    assert!(reports.borrow().is_empty());
}

#[test]
fn search_image_higher_than_main_is_refused() {
    let main = filled(10, 4, [0, 0, 0, 0]);
    let search = filled(3, 5, [0, 0, 0, 0]);
    let found = main.find_subimage(&search, |_| {}, 0, 10);
    assert_eq!(found.err(), Some(DimensionError::MainHeightTooSmall));
    assert!(SubimageScan::begin(&main, &search, 0, 10).is_err());
}

#[test]
fn search_image_wider_than_main_is_refused() {
    let main = filled(4, 10, [0, 0, 0, 0]);
    let search = filled(5, 3, [0, 0, 0, 0]);
    let found = main.find_subimage(&search, |_| {}, 0, 10);
    assert_eq!(found.err(), Some(DimensionError::MainWidthTooSmall));
}

#[test]
fn dimension_errors_name_the_image_and_the_axis() {
    assert_eq!(
        DimensionError::MainHeightTooSmall.message(),
        "Main image height is smaller than search image height"
    );
    assert_eq!(
        DimensionError::MainWidthTooSmall.message(),
        "Main image width is smaller than search image width"
    );
}

#[test]
fn found_collector_records_dimensions_and_divisor() {
    let main = filled(7, 9, [0, 0, 0, 255]);
    let search = filled(2, 3, [0, 0, 0, 255]);
    let found = main.find_subimage(&search, |_| {}, 0, 0).unwrap();
    assert_eq!(found.get_main_width(), 7);
    assert_eq!(found.get_main_height(), 9);
    assert_eq!(found.get_template_width(), 2);
    assert_eq!(found.get_template_height(), 3);
    assert_eq!(found.get_square_errors_divisor(), 24);
}

#[test]
fn every_placement_is_examined_in_row_major_order() {
    // 3x2 placements of a uniform image in a uniform image: all tie with error 0
    let main = filled(4, 3, [9, 9, 9, 9]);
    let search = filled(2, 2, [9, 9, 9, 9]);
    let found = main.find_subimage(&search, |_| {}, 0, 100).unwrap();
    assert_eq!(
        places(found.get_matches()),
        vec![(0, 0, 0), (1, 0, 0), (2, 0, 0), (0, 1, 0), (1, 1, 0), (2, 1, 0)]
    );
    assert!(!found.has_overflown());
}

#[test]
fn last_row_and_last_column_are_examined() {
    let mut pixels = vec![0u8; 5 * 4 * 4];
    // the pixel at (4, 3), the bottom-right corner, is white
    for byte in pixels[(3 * 5 + 4) * 4..].iter_mut() {
        *byte = 255;
    }
    let main = ImageData::new(5, 4, pixels).unwrap();
    let search = filled(1, 1, [255, 255, 255, 255]);
    let found = main.find_subimage(&search, |_| {}, 0, 10).unwrap();
    assert_eq!(places(found.get_matches()), vec![(4, 3, 0)]);
}

#[test]
fn matches_come_best_first() {
    let main = strip(&[10, 13, 9, 20, 11]);
    let search = strip(&[10]);
    // errors by column: 0, 27, 3, 300, 3
    let found = main.find_subimage(&search, |_| {}, 1000, 10).unwrap();
    assert_eq!(
        places(found.get_matches()),
        vec![(0, 0, 0), (2, 0, 3), (4, 0, 3), (1, 0, 27), (3, 0, 300)]
    );
    assert!(!found.has_overflown());
}

#[test]
fn placements_beyond_the_ceiling_are_left_out() {
    let main = strip(&[10, 13, 9, 20, 11]);
    let search = strip(&[10]);
    let found = main.find_subimage(&search, |_| {}, 27, 10).unwrap();
    assert_eq!(places(found.get_matches()), vec![(0, 0, 0), (2, 0, 3), (4, 0, 3), (1, 0, 27)]);
    let found = main.find_subimage(&search, |_| {}, 26, 10).unwrap();
    assert_eq!(places(found.get_matches()), vec![(0, 0, 0), (2, 0, 3), (4, 0, 3)]);
    assert!(!found.has_overflown());
}

#[test]
fn only_the_best_are_kept() {
    let main = strip(&[20, 13, 9, 10, 11]);
    let search = strip(&[10]);
    // errors by column: 300, 27, 3, 0, 3
    let found = main.find_subimage(&search, |_| {}, 1000, 2).unwrap();
    assert_eq!(places(found.get_matches()), vec![(3, 0, 0), (2, 0, 3)]);
    assert!(found.has_overflown());
    assert_eq!(found.get_tse_threshold(), 2);
}

#[test]
fn result_never_exceeds_max_results_and_is_sorted() {
    let main = ImageData::new(9, 8, patterned(9, 8)).unwrap();
    let search = ImageData::new(2, 2, patterned(2, 2)).unwrap();
    for max_results in [0u16, 1, 2, 5, 56, 100] {
        let found = main.find_subimage(&search, |_| {}, u64::MAX, max_results).unwrap();
        let matches = found.get_matches();
        assert!(matches.len() <= max_results as usize);
        assert_eq!(matches.len(), (max_results as usize).min(56));
        assert!(matches.windows(2).all(|pair| pair[0].tse <= pair[1].tse));
        if found.has_overflown() {
            assert!(max_results < 56);
        }
    }
    assert!(main.find_subimage(&search, |_| {}, u64::MAX, 0).unwrap().has_overflown());
    assert!(!main.find_subimage(&search, |_| {}, u64::MAX, 56).unwrap().has_overflown());
}

#[test]
fn kept_errors_are_the_exact_totals() {
    let main = ImageData::new(9, 8, patterned(9, 8)).unwrap();
    let search = ImageData::new(2, 2, patterned(2, 2)).unwrap();
    let found = main.find_subimage(&search, |_| {}, u64::MAX, 7).unwrap();
    assert_eq!(found.get_matches().len(), 7);
    let mut all: Vec<u64> = Vec::new();
    for y in 0..7 {
        for x in 0..8 {
            all.push(main.total_square_error(&search, x, y, u64::MAX));
        }
    }
    for m in found.get_matches() {
        assert_eq!(m.tse, main.total_square_error(&search, m.x, m.y, u64::MAX));
    }
    all.sort();
    let kept: Vec<u64> = found.get_matches().iter().map(|m| m.tse).collect();
    assert_eq!(kept, all[..7].to_vec());
}

#[test]
fn no_room_means_nothing_kept_and_overflow_on_the_first_candidate() {
    let main = strip(&[10, 13, 9]);
    let search = strip(&[10]);
    let found = main.find_subimage(&search, |_| {}, 0, 0).unwrap();
    assert!(found.get_matches().is_empty());
    assert!(found.has_overflown());
    let found = main.find_subimage(&strip(&[200]), |_| {}, 0, 0).unwrap();
    assert!(found.get_matches().is_empty());
    assert!(!found.has_overflown());
}

#[test]
fn overflow_is_marked_when_a_candidate_meets_a_full_collector() {
    let main = strip(&[12, 11, 10]);
    let search = strip(&[10]);
    // errors by column: 12, 3, 0; each is better than the one kept
    let found = main.find_subimage(&search, |_| {}, 100, 1).unwrap();
    assert_eq!(places(found.get_matches()), vec![(2, 0, 0)]);
    assert!(found.has_overflown());
}

#[test]
fn overflow_is_marked_for_a_tie_at_zero() {
    let main = strip(&[10, 10]);
    let search = strip(&[10]);
    let found = main.find_subimage(&search, |_| {}, 0, 1).unwrap();
    assert_eq!(places(found.get_matches()), vec![(0, 0, 0)]);
    assert!(found.has_overflown());
}

#[test]
fn candidate_hidden_by_the_tightened_ceiling_marks_no_overflow() {
    let main = strip(&[11, 14]);
    let search = strip(&[10]);
    // errors by column: 3, 48; both are within 100, the second is above the tightened ceiling 2
    let found = main.find_subimage(&search, |_| {}, 100, 1).unwrap();
    assert_eq!(places(found.get_matches()), vec![(0, 0, 3)]);
    assert!(!found.has_overflown());
}

#[test]
fn two_searches_of_the_same_images_agree() {
    let main = ImageData::new(9, 8, patterned(9, 8)).unwrap();
    let search = ImageData::new(3, 2, patterned(3, 2)).unwrap();
    let first = main.find_subimage(&search, |_| {}, 400_000, 5).unwrap();
    let second = main.find_subimage(&search, |_| {}, 400_000, 5).unwrap();
    assert!(!first.get_matches().is_empty());
    assert_eq!(first.get_matches(), second.get_matches());
    assert_eq!(first.has_overflown(), second.has_overflown());
    assert_eq!(first.get_tse_threshold(), second.get_tse_threshold());
}

#[test]
fn progress_is_reported_once_per_row_and_then_completion() {
    let main = filled(4, 6, [0, 0, 0, 255]);
    let search = filled(2, 3, [9, 9, 9, 255]);
    let reports: RefCell<Vec<Progress>> = RefCell::new(Vec::new());
    main.find_subimage(&search, |p| reports.borrow_mut().push(p), 0, 10).unwrap();
    assert_eq!(
        *reports.borrow(),
        vec![
            Progress::Row { row: 0, total_rows: 3 },
            Progress::Row { row: 1, total_rows: 3 },
            Progress::Row { row: 2, total_rows: 3 },
            Progress::Row { row: 3, total_rows: 3 },
            Progress::Complete,
        ]
    );
}

#[test]
fn progress_fraction_never_decreases_and_ends_at_one() {
    let main = filled(3, 9, [0, 0, 0, 255]);
    let search = filled(2, 2, [9, 9, 9, 255]);
    let reports: RefCell<Vec<Progress>> = RefCell::new(Vec::new());
    main.find_subimage(&search, |p| reports.borrow_mut().push(p), 0, 10).unwrap();
    let fractions: Vec<f64> = reports
        .borrow()
        .iter()
        .map(|p| match *p {
            Progress::Row { row, total_rows } => row as f64 / total_rows as f64,
            Progress::Complete => 1.0,
        })
        .collect();
    assert_eq!(fractions.len(), 9);
    assert_eq!(fractions[0], 0.0);
    assert!(fractions.windows(2).all(|pair| pair[0] <= pair[1]));
    assert_eq!(*fractions.last().unwrap(), 1.0);
}

#[test]
fn progress_of_equally_high_images_is_a_number() {
    let main = filled(5, 3, [0, 0, 0, 255]);
    let search = filled(2, 3, [9, 9, 9, 255]);
    let reports: RefCell<Vec<Progress>> = RefCell::new(Vec::new());
    main.find_subimage(&search, |p| reports.borrow_mut().push(p), 0, 10).unwrap();
    assert_eq!(
        *reports.borrow(),
        vec![Progress::Row { row: 0, total_rows: 1 }, Progress::Complete]
    );
    let fractions: Vec<f64> = reports
        .borrow()
        .iter()
        .map(|p| match *p {
            Progress::Row { row, total_rows } => row as f64 / total_rows as f64,
            Progress::Complete => 1.0,
        })
        .collect();
    assert_eq!(fractions, vec![0.0, 1.0]);
    assert!(fractions.iter().all(|f| (0.0..=1.0).contains(f)));
}

#[test]
fn progress_of_an_image_searched_in_itself_is_a_number() {
    let pixels = patterned(6, 5);
    let main = ImageData::new(6, 5, pixels.clone()).unwrap();
    let search = ImageData::new(6, 5, pixels).unwrap();
    let mut scan = SubimageScan::begin(&main, &search, 0, 10).unwrap();
    assert_eq!(scan.step(), Progress::Row { row: 0, total_rows: 1 });
    assert!(scan.is_complete());
    assert_eq!(scan.step(), Progress::Complete);
}

#[test]
fn progress_denominator_is_the_last_row_where_there_are_more_rows() {
    let main = filled(2, 4, [0, 0, 0, 255]);
    let search = filled(2, 3, [9, 9, 9, 255]);
    let mut scan = SubimageScan::begin(&main, &search, 0, 10).unwrap();
    assert_eq!(scan.step(), Progress::Row { row: 0, total_rows: 1 });
    assert_eq!(scan.step(), Progress::Row { row: 1, total_rows: 1 });
    assert_eq!(scan.step(), Progress::Complete);
}

#[test]
fn scan_step_by_step_agrees_with_the_search() {
    let main = ImageData::new(9, 8, patterned(9, 8)).unwrap();
    let search = ImageData::new(3, 2, patterned(3, 2)).unwrap();
    let mut scan = SubimageScan::begin(&main, &search, 400_000, 5).unwrap();
    let mut rows = 0;
    while !scan.is_complete() {
        assert_eq!(scan.step(), Progress::Row { row: rows, total_rows: 6 });
        rows += 1;
    }
    assert_eq!(rows, 7);
    assert_eq!(scan.step(), Progress::Complete);
    assert_eq!(scan.step(), Progress::Complete);
    let stepped = scan.finish();
    let found = main.find_subimage(&search, |_| {}, 400_000, 5).unwrap();
    assert_eq!(stepped.get_matches(), found.get_matches());
    assert_eq!(stepped.has_overflown(), found.has_overflown());
}

#[test]
fn scan_given_up_holds_what_the_examined_rows_left() {
    let main = column(&[10, 50, 10]);
    let search = column(&[10]);
    let mut scan = SubimageScan::begin(&main, &search, 0, 10).unwrap();
    assert!(!scan.is_complete());
    assert_eq!(scan.step(), Progress::Row { row: 0, total_rows: 2 });
    assert_eq!(scan.step(), Progress::Row { row: 1, total_rows: 2 });
    let partial = scan.finish();
    assert_eq!(places(partial.get_matches()), vec![(0, 0, 0)]);
}

#[test]
fn placement_pruned_by_early_exit_is_not_kept() {
    // the search image has two rows; at the only placement the first row alone passes the
    // ceiling, so that the reported error is less than the total
    let main = column(&[0, 0]);
    let search = column(&[10, 20]);
    assert_eq!(main.total_square_error(&search, 0, 0, 250), 300);
    assert_eq!(main.total_square_error(&search, 0, 0, u64::MAX), 1500);
    let found = main.find_subimage(&search, |_| {}, 250, 10).unwrap();
    assert!(found.get_matches().is_empty());
    assert!(!found.has_overflown());
}

#[test]
fn placement_pruned_by_the_tightened_ceiling_is_not_kept() {
    let main = column(&[10, 0, 0, 11, 0, 0]);
    let search = column(&[10, 0]);
    // totals by row: 0, 600, 300, 3, 300; with one match kept, the ceiling is 0 after row 0
    let found = main.find_subimage(&search, |_| {}, 1000, 1).unwrap();
    assert_eq!(places(found.get_matches()), vec![(0, 0, 0)]);
    assert!(!found.has_overflown());
    let found = main.find_subimage(&search, |_| {}, 1000, 2).unwrap();
    assert_eq!(places(found.get_matches()), vec![(0, 0, 0), (0, 3, 3)]);
    assert!(found.has_overflown());
}
