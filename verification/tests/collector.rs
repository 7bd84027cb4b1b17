use subimage_search::results::{SearchResult, SearchResults};

fn collector(capacity: u16, ceiling: u64) -> SearchResults {
    SearchResults::new(capacity, 2, 3, 20, 30, 24, ceiling)
}

fn candidate(x: u32, tse: u64) -> SearchResult {
    SearchResult { x, y: 0, tse }
}

fn errors(results: &SearchResults) -> Vec<u64> {
    results.get_matches().iter().map(|m| m.tse).collect()
}

fn columns(results: &SearchResults) -> Vec<u32> {
    results.get_matches().iter().map(|m| m.x).collect()
}

#[test]
fn new_collector_is_empty() {
    let results = collector(5, 1000);
    assert!(results.get_matches().is_empty());
    assert!(!results.has_overflown());
    assert_eq!(results.get_tse_threshold(), 1000);
}

#[test]
fn new_collector_keeps_what_it_was_given() {
    let results = collector(5, 1000);
    assert_eq!(results.get_template_width(), 2);
    assert_eq!(results.get_template_height(), 3);
    assert_eq!(results.get_main_width(), 20);
    assert_eq!(results.get_main_height(), 30);
    assert_eq!(results.get_square_errors_divisor(), 24);
}

#[test]
fn push_keeps_ascending_order() {
    let mut results = collector(10, 1000);
    for (x, tse) in [(0, 50), (1, 10), (2, 30), (3, 70), (4, 20)] {
        results.push(candidate(x, tse));
    }
    assert_eq!(errors(&results), vec![10, 20, 30, 50, 70]);
    assert_eq!(columns(&results), vec![1, 4, 2, 0, 3]);
    assert!(!results.has_overflown());
}

#[test]
fn push_enters_before_the_first_strictly_greater() {
    let mut results = collector(10, 1000);
    results.push(candidate(0, 10));
    results.push(candidate(1, 20));
    results.push(candidate(2, 10));
    results.push(candidate(3, 20));
    assert_eq!(errors(&results), vec![10, 10, 20, 20]);
    assert_eq!(columns(&results), vec![0, 2, 1, 3]);
}

#[test]
fn ceiling_stays_until_the_collector_is_full() {
    let mut results = collector(3, 1000);
    results.push(candidate(0, 50));
    assert_eq!(results.get_tse_threshold(), 1000);
    results.push(candidate(1, 10));
    assert_eq!(results.get_tse_threshold(), 1000);
}

#[test]
fn ceiling_is_just_below_the_worst_once_full() {
    let mut results = collector(3, 1000);
    results.push(candidate(0, 50));
    results.push(candidate(1, 10));
    results.push(candidate(2, 30));
    assert_eq!(results.get_tse_threshold(), 49);
    assert!(!results.has_overflown());
}

#[test]
fn ceiling_does_not_go_below_zero() {
    let mut results = collector(2, 1000);
    results.push(candidate(0, 0));
    results.push(candidate(1, 0));
    assert_eq!(results.get_tse_threshold(), 0);
}

#[test]
fn better_candidate_replaces_the_worst_of_a_full_collector() {
    let mut results = collector(3, 1000);
    for (x, tse) in [(0, 50), (1, 10), (2, 30)] {
        results.push(candidate(x, tse));
    }
    results.push(candidate(3, 20));
    assert_eq!(errors(&results), vec![10, 20, 30]);
    assert_eq!(columns(&results), vec![1, 3, 2]);
    assert!(results.has_overflown());
    assert_eq!(results.get_tse_threshold(), 29);
}

#[test]
fn worse_candidate_leaves_a_full_collector_as_it_is() {
    let mut results = collector(3, 1000);
    for (x, tse) in [(0, 50), (1, 10), (2, 30)] {
        results.push(candidate(x, tse));
    }
    results.push(candidate(3, 60));
    assert_eq!(errors(&results), vec![10, 30, 50]);
    assert_eq!(columns(&results), vec![1, 2, 0]);
    assert!(results.has_overflown());
    assert_eq!(results.get_tse_threshold(), 49);
}

#[test]
fn tie_with_the_worst_never_replaces_it() {
    let mut results = collector(3, 1000);
    for (x, tse) in [(0, 50), (1, 10), (2, 30)] {
        results.push(candidate(x, tse));
    }
    results.push(candidate(3, 50));
    assert_eq!(errors(&results), vec![10, 30, 50]);
    assert_eq!(columns(&results), vec![1, 2, 0]);
    assert!(results.has_overflown());
}

#[test]
fn collector_never_holds_more_than_its_capacity() {
    let mut results = collector(4, 1000);
    let mut offered: Vec<u64> = Vec::new();
    for x in 0..50u32 {
        let tse = ((x * 37) % 101) as u64;
        offered.push(tse);
        results.push(candidate(x, tse));
        assert!(results.get_matches().len() <= 4);
        let kept = errors(&results);
        assert!(kept.windows(2).all(|pair| pair[0] <= pair[1]));
    }
    offered.sort();
    assert_eq!(errors(&results), offered[..4].to_vec());
    assert_eq!(errors(&results), vec![0, 2, 3, 6]);
    assert!(results.has_overflown());
}

#[test]
fn collector_without_room_keeps_nothing() {
    let mut results = collector(0, 1000);
    assert!(!results.has_overflown());
    results.push(candidate(0, 5));
    assert!(results.get_matches().is_empty());
    assert!(results.has_overflown());
    assert_eq!(results.get_tse_threshold(), 1000);
    results.push(candidate(1, 0));
    assert!(results.get_matches().is_empty());
    assert!(results.has_overflown());
}

#[test]
fn collector_for_one_match_keeps_the_best() {
    let mut results = collector(1, 1000);
    results.push(candidate(0, 7));
    assert_eq!(results.get_tse_threshold(), 6);
    results.push(candidate(1, 3));
    assert_eq!(errors(&results), vec![3]);
    assert_eq!(columns(&results), vec![1]);
    assert_eq!(results.get_tse_threshold(), 2);
    assert!(results.has_overflown());
}

#[test]
fn finalize_keeps_the_content() {
    let mut results = collector(100, 1000);
    for (x, tse) in [(0, 50), (1, 10), (2, 30)] {
        results.push(candidate(x, tse));
    }
    let results = results.finalize();
    assert_eq!(errors(&results), vec![10, 30, 50]);
    assert_eq!(columns(&results), vec![1, 2, 0]);
    assert!(!results.has_overflown());
    assert_eq!(results.get_tse_threshold(), 1000);
    assert_eq!(results.get_template_width(), 2);
    let again = results.finalize();
    assert_eq!(errors(&again), vec![10, 30, 50]);
    assert_eq!(columns(&again), vec![1, 2, 0]);
}
