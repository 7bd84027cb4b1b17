//! What holds of the outcome of a search: which placements it keeps, which it
//! leaves out, and when it is marked as overflown.

use crate::image::{lemma_dimensions_bounded, PixelGrid};
use crate::metric::{lemma_pruned_error, pruned_error, total_error};
use crate::results::{
    distinct_placements, holds_placement, lemma_push_effect, lemma_push_keeps_distinct,
    lemma_push_wf, tightened, Collector, SearchResult,
};
use crate::search::{
    columns, examine, fits, initial_collector, rows, scan_row, scan_rows, search_outcome,
};
use vstd::prelude::*;

verus! {

/// Whether `(x, y)` is a placement of the search image within the main image.
pub open spec fn is_placement(main: PixelGrid, search: PixelGrid, x: int, y: int) -> bool {
    0 <= x < columns(main, search) && 0 <= y < rows(main, search)
}

/// Whether the placement `(px, py)` is examined before `(x, y)`: the scan
/// goes through the rows from the top, and through each row from the left.
pub open spec fn precedes(px: int, py: int, x: int, y: int) -> bool {
    py < y || (py == y && px < x)
}

/// The collector as it stands when the placement at `(x, y)` is about to be
/// examined.
pub open spec fn collector_before(
    main: PixelGrid,
    search: PixelGrid,
    max_tse: u64,
    max_results: u16,
    x: int,
    y: int,
) -> Collector {
    scan_row(
        main,
        search,
        scan_rows(main, search, initial_collector(main, search, max_tse, max_results), y as nat),
        y,
        x as nat,
    )
}

/// Whether the placement at `(x, y)` is offered to the collector: the error
/// that the early-exit summation reports for it is within the ceiling that
/// the collector has at that time.
pub open spec fn is_offered(
    main: PixelGrid,
    search: PixelGrid,
    max_tse: u64,
    max_results: u16,
    x: int,
    y: int,
) -> bool {
    let ceiling = collector_before(main, search, max_tse, max_results, x, y).ceiling;
    pruned_error(main, search, x, y, ceiling as nat) <= ceiling
}

/// Whether the total squared error of the placement at `(x, y)` is within the
/// ceiling that the search started with.
pub open spec fn qualifies(main: PixelGrid, search: PixelGrid, max_tse: u64, x: int, y: int) -> bool {
    total_error(main, search, x, y) <= max_tse
}

/// Whether the placement at `(x, y)` qualifies and yet is not offered to the
/// collector, because the ceiling has been tightened below its error by then.
pub open spec fn is_hidden(
    main: PixelGrid,
    search: PixelGrid,
    max_tse: u64,
    max_results: u16,
    x: int,
    y: int,
) -> bool {
    qualifies(main, search, max_tse, x, y) && !is_offered(main, search, max_tse, max_results, x, y)
}

/// Number of qualifying placements among the first `count` of row `y`.
pub open spec fn qualifying_in_row(
    main: PixelGrid,
    search: PixelGrid,
    max_tse: u64,
    y: int,
    count: nat,
) -> nat
    decreases count,
{
    if count == 0 {
        0
    } else {
        qualifying_in_row(main, search, max_tse, y, (count - 1) as nat) + if qualifies(
            main,
            search,
            max_tse,
            count - 1,
            y,
        ) {
            1nat
        } else {
            0nat
        }
    }
}

/// Number of qualifying placements in the first `count` rows.
pub open spec fn qualifying_in_rows(main: PixelGrid, search: PixelGrid, max_tse: u64, count: nat) -> nat
    decreases count,
{
    if count == 0 {
        0
    } else {
        qualifying_in_rows(main, search, max_tse, (count - 1) as nat) + qualifying_in_row(
            main,
            search,
            max_tse,
            count - 1,
            columns(main, search),
        )
    }
}

/// Number of placements whose total squared error is within `max_tse`.
pub open spec fn qualifying_count(main: PixelGrid, search: PixelGrid, max_tse: u64) -> nat {
    qualifying_in_rows(main, search, max_tse, rows(main, search))
}

/// Number of qualifying placements that are examined before `(x, y)`.
spec fn qualifying_before(main: PixelGrid, search: PixelGrid, max_tse: u64, x: int, y: int) -> nat {
    qualifying_in_rows(main, search, max_tse, y as nat) + qualifying_in_row(
        main,
        search,
        max_tse,
        y,
        x as nat,
    )
}

/// Whether no placement that is examined before `(x, y)` is hidden.
spec fn none_hidden_before(
    main: PixelGrid,
    search: PixelGrid,
    max_tse: u64,
    max_results: u16,
    x: int,
    y: int,
) -> bool {
    forall|px: int, py: int|
        is_placement(main, search, px, py) && precedes(px, py, x, y) ==> !#[trigger] is_hidden(
            main,
            search,
            max_tse,
            max_results,
            px,
            py,
        )
}

/// Whether a match records a placement that was offered to the collector,
/// with its total squared error, which is within the starting ceiling.
pub open spec fn is_genuine(
    main: PixelGrid,
    search: PixelGrid,
    max_tse: u64,
    max_results: u16,
    found: SearchResult,
) -> bool {
    &&& is_placement(main, search, found.x as int, found.y as int)
    &&& is_offered(main, search, max_tse, max_results, found.x as int, found.y as int)
    &&& found.tse == total_error(main, search, found.x as int, found.y as int)
    &&& found.tse <= max_tse
}

/// Whether a collector does justice to the placement at `(x, y)`: where the
/// placement qualifies, the collector holds it, or is full of matches that
/// are no worse.
pub open spec fn does_justice(
    main: PixelGrid,
    search: PixelGrid,
    max_tse: u64,
    collector: Collector,
    x: int,
    y: int,
) -> bool {
    qualifies(main, search, max_tse, x, y) ==> holds_placement(collector.matches, x, y) || (
    collector.is_full() && forall|i: int|
        0 <= i < collector.matches.len() ==> (#[trigger] collector.matches[i]).tse <= total_error(
            main,
            search,
            x,
            y,
        ))
}

/// What holds of the collector when `(x, y)` is about to be examined: it is
/// valid; its ceiling is the starting one until it is full, and never above
/// it; each of its matches is genuine and was examined before; and no
/// placement is held twice.
spec fn basics_hold(
    main: PixelGrid,
    search: PixelGrid,
    max_tse: u64,
    max_results: u16,
    x: int,
    y: int,
) -> bool {
    let c = collector_before(main, search, max_tse, max_results, x, y);
    &&& c.wf()
    &&& c.capacity == max_results
    &&& c.ceiling <= max_tse
    &&& (c.matches.len() < c.capacity || c.capacity == 0 ==> c.ceiling == max_tse)
    &&& distinct_placements(c.matches)
    &&& forall|i: int|
        0 <= i < c.matches.len() ==> is_genuine(
            main,
            search,
            max_tse,
            max_results,
            #[trigger] c.matches[i],
        ) && precedes(c.matches[i].x as int, c.matches[i].y as int, x, y)
}

/// What holds of the counts when `(x, y)` is about to be examined: no more
/// matches are kept than placements qualified; more qualified than can be
/// kept where the collector is overflown, and where a placement was hidden;
/// and where none was hidden, the collector holds as many as qualified, up to
/// its capacity, and is overflown exactly when more qualified.
spec fn counts_hold(
    main: PixelGrid,
    search: PixelGrid,
    max_tse: u64,
    max_results: u16,
    x: int,
    y: int,
) -> bool {
    let c = collector_before(main, search, max_tse, max_results, x, y);
    let q = qualifying_before(main, search, max_tse, x, y);
    &&& c.matches.len() <= q
    &&& (c.overflown ==> q > max_results)
    &&& (!none_hidden_before(main, search, max_tse, max_results, x, y) ==> q > max_results)
    &&& (none_hidden_before(main, search, max_tse, max_results, x, y) ==> {
        &&& c.matches.len() == (if q < max_results {
            q
        } else {
            max_results as nat
        })
        &&& (c.overflown <==> q > max_results)
    })
}

/// Whether the collector, when `(x, y)` is about to be examined, does justice
/// to every placement examined before.
spec fn justice_holds(
    main: PixelGrid,
    search: PixelGrid,
    max_tse: u64,
    max_results: u16,
    x: int,
    y: int,
) -> bool {
    let c = collector_before(main, search, max_tse, max_results, x, y);
    forall|px: int, py: int|
        is_placement(main, search, px, py) && precedes(px, py, x, y) ==> #[trigger] does_justice(
            main,
            search,
            max_tse,
            c,
            px,
            py,
        )
}

/// Examining the placement at `(x, y)` leads from the collector before it to
/// the collector before its right neighbour.
proof fn lemma_collector_after(
    main: PixelGrid,
    search: PixelGrid,
    max_tse: u64,
    max_results: u16,
    x: int,
    y: int,
)
    requires
        0 <= x,
        0 <= y,
    ensures
        collector_before(main, search, max_tse, max_results, x + 1, y) == examine(
            main,
            search,
            collector_before(main, search, max_tse, max_results, x, y),
            x,
            y,
        ),
        qualifying_before(main, search, max_tse, x + 1, y) == qualifying_before(
            main,
            search,
            max_tse,
            x,
            y,
        ) + if qualifies(main, search, max_tse, x, y) {
            1nat
        } else {
            0nat
        },
{
    assert(((x + 1) as nat - 1) as nat == x as nat);
}

/// The end of a row is the start of the next.
proof fn lemma_row_end(
    main: PixelGrid,
    search: PixelGrid,
    max_tse: u64,
    max_results: u16,
    y: int,
)
    requires
        0 <= y,
    ensures
        collector_before(main, search, max_tse, max_results, 0, y + 1) == collector_before(
            main,
            search,
            max_tse,
            max_results,
            columns(main, search) as int,
            y,
        ),
        qualifying_before(main, search, max_tse, 0, y + 1) == qualifying_before(
            main,
            search,
            max_tse,
            columns(main, search) as int,
            y,
        ),
{
    assert(((y + 1) as nat - 1) as nat == y as nat);
}

/// The basics carry over the examination of the placement at `(x, y)`.
proof fn lemma_step_basics(
    main: PixelGrid,
    search: PixelGrid,
    max_tse: u64,
    max_results: u16,
    x: int,
    y: int,
)
    requires
        main.wf(),
        search.wf(),
        fits(main, search),
        is_placement(main, search, x, y),
        basics_hold(main, search, max_tse, max_results, x, y),
    ensures
        basics_hold(main, search, max_tse, max_results, x + 1, y),
{
    let c = collector_before(main, search, max_tse, max_results, x, y);
    let c2 = collector_before(main, search, max_tse, max_results, x + 1, y);
    lemma_collector_after(main, search, max_tse, max_results, x, y);
    lemma_pruned_error(main, search, x, y, c.ceiling as nat);
    lemma_dimensions_bounded(main);
    let tse = pruned_error(main, search, x, y, c.ceiling as nat);
    if tse <= c.ceiling {
        let candidate = SearchResult { x: x as u32, y: y as u32, tse: tse as u64 };
        lemma_push_effect(c, candidate);
        lemma_push_wf(c, candidate);
        assert(!holds_placement(c.matches, x, y)) by {
            if holds_placement(c.matches, x, y) {
                let i = choose|i: int|
                    0 <= i < c.matches.len() && (#[trigger] c.matches[i]).x == x && c.matches[i].y
                        == y;
                assert(precedes(c.matches[i].x as int, c.matches[i].y as int, x, y));
            }
        }
        lemma_push_keeps_distinct(c, candidate);
        assert(is_genuine(main, search, max_tse, max_results, candidate));
        assert forall|i: int| 0 <= i < c2.matches.len() implies is_genuine(
            main,
            search,
            max_tse,
            max_results,
            #[trigger] c2.matches[i],
        ) && precedes(c2.matches[i].x as int, c2.matches[i].y as int, x + 1, y) by {
            if c2.matches[i] != candidate {
                let k = choose|k: int| 0 <= k < c.matches.len() && c.matches[k] == c2.matches[i];
                assert(is_genuine(main, search, max_tse, max_results, c.matches[k]));
            }
        }
        if c2.matches.len() > 0 {
            assert(is_genuine(main, search, max_tse, max_results, c2.matches[c2.matches.len() - 1]));
        }
    } else {
        assert forall|i: int| 0 <= i < c2.matches.len() implies is_genuine(
            main,
            search,
            max_tse,
            max_results,
            #[trigger] c2.matches[i],
        ) && precedes(c2.matches[i].x as int, c2.matches[i].y as int, x + 1, y) by {
            assert(is_genuine(main, search, max_tse, max_results, c.matches[i]));
        }
    }
}

/// The counts carry over the examination of the placement at `(x, y)`.
proof fn lemma_step_counts(
    main: PixelGrid,
    search: PixelGrid,
    max_tse: u64,
    max_results: u16,
    x: int,
    y: int,
)
    requires
        main.wf(),
        search.wf(),
        fits(main, search),
        is_placement(main, search, x, y),
        basics_hold(main, search, max_tse, max_results, x, y),
        counts_hold(main, search, max_tse, max_results, x, y),
    ensures
        counts_hold(main, search, max_tse, max_results, x + 1, y),
{
    let c = collector_before(main, search, max_tse, max_results, x, y);
    lemma_collector_after(main, search, max_tse, max_results, x, y);
    lemma_pruned_error(main, search, x, y, c.ceiling as nat);
    let tse = pruned_error(main, search, x, y, c.ceiling as nat);
    if tse <= c.ceiling {
        let candidate = SearchResult { x: x as u32, y: y as u32, tse: tse as u64 };
        lemma_push_effect(c, candidate);
    }
    if qualifying_before(main, search, max_tse, x + 1, y) <= max_results {
        assert forall|px: int, py: int|
            is_placement(main, search, px, py) && precedes(
                px,
                py,
                x + 1,
                y,
            ) implies !#[trigger] is_hidden(main, search, max_tse, max_results, px, py) by {
            if !(px == x && py == y) {
                assert(precedes(px, py, x, y));
            }
        }
    }
    if none_hidden_before(main, search, max_tse, max_results, x + 1, y) {
        assert(none_hidden_before(main, search, max_tse, max_results, x, y)) by {
            assert forall|px: int, py: int|
                is_placement(main, search, px, py) && precedes(
                    px,
                    py,
                    x,
                    y,
                ) implies !#[trigger] is_hidden(main, search, max_tse, max_results, px, py) by {
                assert(precedes(px, py, x + 1, y));
            }
        }
        assert(precedes(x, y, x + 1, y));
        assert(!is_hidden(main, search, max_tse, max_results, x, y));
    }
}

/// Justice carries over the examination of the placement at `(x, y)`.
proof fn lemma_step_justice(
    main: PixelGrid,
    search: PixelGrid,
    max_tse: u64,
    max_results: u16,
    x: int,
    y: int,
)
    requires
        main.wf(),
        search.wf(),
        fits(main, search),
        is_placement(main, search, x, y),
        basics_hold(main, search, max_tse, max_results, x, y),
        justice_holds(main, search, max_tse, max_results, x, y),
    ensures
        justice_holds(main, search, max_tse, max_results, x + 1, y),
{
    let c = collector_before(main, search, max_tse, max_results, x, y);
    let c2 = collector_before(main, search, max_tse, max_results, x + 1, y);
    lemma_collector_after(main, search, max_tse, max_results, x, y);
    lemma_pruned_error(main, search, x, y, c.ceiling as nat);
    lemma_dimensions_bounded(main);
    let tse = pruned_error(main, search, x, y, c.ceiling as nat);
    let len = c.matches.len() as int;
    if tse <= c.ceiling {
        let candidate = SearchResult { x: x as u32, y: y as u32, tse: tse as u64 };
        let replaces = len > 0 && candidate.tse < c.matches.last().tse;
        lemma_push_effect(c, candidate);
        assert forall|px: int, py: int|
            is_placement(main, search, px, py) && precedes(
                px,
                py,
                x + 1,
                y,
            ) implies #[trigger] does_justice(main, search, max_tse, c2, px, py) by {
            let total = total_error(main, search, px, py);
            if qualifies(main, search, max_tse, px, py) {
                if px == x && py == y {
                    if !c.is_full() || replaces {
                        let j = choose|j: int|
                            0 <= j < c2.matches.len() && c2.matches[j] == candidate;
                        assert(c2.matches[j].x == px && c2.matches[j].y == py);
                    }
                } else {
                    assert(precedes(px, py, x, y));
                    assert(does_justice(main, search, max_tse, c, px, py));
                    if holds_placement(c.matches, px, py) {
                        let i = choose|i: int|
                            0 <= i < len && (#[trigger] c.matches[i]).x == px && c.matches[i].y
                                == py;
                        if c.is_full() && replaces && i == len - 1 {
                            assert(is_genuine(main, search, max_tse, max_results, c.matches[i]));
                            assert forall|j: int| 0 <= j < c2.matches.len() implies (
                            #[trigger] c2.matches[j]).tse <= total by {
                                if c2.matches[j] != candidate {
                                    let k = choose|k: int|
                                        0 <= k < len && c.matches[k] == c2.matches[j];
                                    assert(c.matches[k].tse <= c.matches[len - 1].tse);
                                }
                            }
                        } else if c.is_full() && !replaces {
                            assert(c2.matches[i].x == px && c2.matches[i].y == py);
                        } else {
                            let j = choose|j: int|
                                0 <= j < c2.matches.len() && c2.matches[j] == c.matches[i];
                            assert(c2.matches[j].x == px && c2.matches[j].y == py);
                        }
                    } else {
                        assert forall|j: int| 0 <= j < c2.matches.len() implies (
                        #[trigger] c2.matches[j]).tse <= total by {
                            if c2.matches[j] != candidate {
                                let k = choose|k: int|
                                    0 <= k < len && c.matches[k] == c2.matches[j];
                                assert(c.matches[k].tse <= total);
                            } else if replaces {
                                assert(c.matches[len - 1].tse <= total);
                            } else {
                                assert(c2.matches == c.matches);
                            }
                        }
                    }
                }
            }
        }
    } else {
        assert forall|px: int, py: int|
            is_placement(main, search, px, py) && precedes(
                px,
                py,
                x + 1,
                y,
            ) implies #[trigger] does_justice(main, search, max_tse, c2, px, py) by {
            if qualifies(main, search, max_tse, px, py) {
                if px == x && py == y {
                    assert(c.ceiling == tightened(c.matches.last().tse));
                } else {
                    assert(precedes(px, py, x, y));
                    assert(does_justice(main, search, max_tse, c, px, py));
                }
            }
        }
    }
}

/// Whether all that is tracked of the collector holds when `(x, y)` is about
/// to be examined.
spec fn all_holds(
    main: PixelGrid,
    search: PixelGrid,
    max_tse: u64,
    max_results: u16,
    x: int,
    y: int,
) -> bool {
    &&& basics_hold(main, search, max_tse, max_results, x, y)
    &&& counts_hold(main, search, max_tse, max_results, x, y)
    &&& justice_holds(main, search, max_tse, max_results, x, y)
}

/// All that is tracked holds before every placement, and at the end of every
/// row.
proof fn lemma_all_holds(
    main: PixelGrid,
    search: PixelGrid,
    max_tse: u64,
    max_results: u16,
    x: int,
    y: int,
)
    requires
        main.wf(),
        search.wf(),
        fits(main, search),
        0 <= x <= columns(main, search),
        0 <= y < rows(main, search) || (y == rows(main, search) && x == 0),
    ensures
        all_holds(main, search, max_tse, max_results, x, y),
    decreases y, x,
{
    if x > 0 {
        lemma_all_holds(main, search, max_tse, max_results, x - 1, y);
        lemma_step_basics(main, search, max_tse, max_results, x - 1, y);
        lemma_step_counts(main, search, max_tse, max_results, x - 1, y);
        lemma_step_justice(main, search, max_tse, max_results, x - 1, y);
    } else if y > 0 {
        let end = columns(main, search) as int;
        lemma_all_holds(main, search, max_tse, max_results, end, y - 1);
        lemma_row_end(main, search, max_tse, max_results, y - 1);
        let c = collector_before(main, search, max_tse, max_results, 0, y);
        assert forall|i: int| 0 <= i < c.matches.len() implies is_genuine(
            main,
            search,
            max_tse,
            max_results,
            #[trigger] c.matches[i],
        ) && precedes(c.matches[i].x as int, c.matches[i].y as int, 0, y) by {
            assert(is_genuine(main, search, max_tse, max_results, c.matches[i]));
        }
        if none_hidden_before(main, search, max_tse, max_results, 0, y) {
            assert forall|px: int, py: int|
                is_placement(main, search, px, py) && precedes(
                    px,
                    py,
                    end,
                    y - 1,
                ) implies !#[trigger] is_hidden(main, search, max_tse, max_results, px, py) by {
                assert(precedes(px, py, 0, y));
            }
        }
        if none_hidden_before(main, search, max_tse, max_results, end, y - 1) {
            assert forall|px: int, py: int|
                is_placement(main, search, px, py) && precedes(
                    px,
                    py,
                    0,
                    y,
                ) implies !#[trigger] is_hidden(main, search, max_tse, max_results, px, py) by {
                assert(precedes(px, py, end, y - 1));
            }
        }
        assert forall|px: int, py: int|
            is_placement(main, search, px, py) && precedes(
                px,
                py,
                0,
                y,
            ) implies #[trigger] does_justice(main, search, max_tse, c, px, py) by {
            assert(precedes(px, py, end, y - 1));
        }
    } else {
    }
}

/// The outcome of a search is the collector at the start of the row after
/// the last, and by then every qualifying placement is counted.
proof fn lemma_outcome_is_last(main: PixelGrid, search: PixelGrid, max_tse: u64, max_results: u16)
    ensures
        search_outcome(main, search, max_tse, max_results) == collector_before(
            main,
            search,
            max_tse,
            max_results,
            0,
            rows(main, search) as int,
        ),
        qualifying_count(main, search, max_tse) == qualifying_before(
            main,
            search,
            max_tse,
            0,
            rows(main, search) as int,
        ),
{
}

/// Every match that a search returns is genuine: it records a placement of
/// the search image that was offered to the collector, together with the
/// exact total squared error of that placement, which is within the ceiling
/// that the search started with. No placement is returned twice.
pub proof fn matches_are_genuine(main: PixelGrid, search: PixelGrid, max_tse: u64, max_results: u16)
    requires
        main.wf(),
        search.wf(),
        fits(main, search),
    ensures
        distinct_placements(search_outcome(main, search, max_tse, max_results).matches),
        forall|i: int|
            0 <= i < search_outcome(main, search, max_tse, max_results).matches.len()
                ==> is_genuine(
                main,
                search,
                max_tse,
                max_results,
                #[trigger] search_outcome(main, search, max_tse, max_results).matches[i],
            ),
{
    lemma_outcome_is_last(main, search, max_tse, max_results);
    lemma_all_holds(main, search, max_tse, max_results, 0, rows(main, search) as int);
}

/// A search keeps the best: a placement within the starting ceiling is among
/// the returned matches, unless as many matches as may be kept are returned
/// and none of them is worse than the placement.
pub proof fn outcome_keeps_the_best(
    main: PixelGrid,
    search: PixelGrid,
    max_tse: u64,
    max_results: u16,
    x: int,
    y: int,
)
    requires
        main.wf(),
        search.wf(),
        fits(main, search),
        is_placement(main, search, x, y),
    ensures
        does_justice(
            main,
            search,
            max_tse,
            search_outcome(main, search, max_tse, max_results),
            x,
            y,
        ),
{
    lemma_outcome_is_last(main, search, max_tse, max_results);
    lemma_all_holds(main, search, max_tse, max_results, 0, rows(main, search) as int);
    assert(precedes(x, y, 0, rows(main, search) as int));
}

/// A placement that is not offered to the collector, because the error
/// reported for it exceeds the ceiling of that time, is not among the
/// returned matches, whatever the reported error is.
pub proof fn rejected_placement_is_absent(
    main: PixelGrid,
    search: PixelGrid,
    max_tse: u64,
    max_results: u16,
    x: int,
    y: int,
)
    requires
        main.wf(),
        search.wf(),
        fits(main, search),
        is_placement(main, search, x, y),
        !is_offered(main, search, max_tse, max_results, x, y),
    ensures
        !holds_placement(search_outcome(main, search, max_tse, max_results).matches, x, y),
{
    lemma_outcome_is_last(main, search, max_tse, max_results);
    lemma_all_holds(main, search, max_tse, max_results, 0, rows(main, search) as int);
    let outcome = search_outcome(main, search, max_tse, max_results);
    if holds_placement(outcome.matches, x, y) {
        let i = choose|i: int|
            0 <= i < outcome.matches.len() && (#[trigger] outcome.matches[i]).x == x
                && outcome.matches[i].y == y;
        assert(is_genuine(main, search, max_tse, max_results, outcome.matches[i]));
    }
}

/// A search returns no more matches than it may keep, and no more than
/// placements are within the starting ceiling. Where a tightened ceiling has
/// hidden no such placement from the collector, it returns as many as are
/// within the starting ceiling, up to the number that it may keep.
pub proof fn outcome_length(main: PixelGrid, search: PixelGrid, max_tse: u64, max_results: u16)
    requires
        main.wf(),
        search.wf(),
        fits(main, search),
    ensures
        search_outcome(main, search, max_tse, max_results).matches.len() <= max_results,
        search_outcome(main, search, max_tse, max_results).matches.len() <= qualifying_count(
            main,
            search,
            max_tse,
        ),
        (forall|x: int, y: int|
            is_placement(main, search, x, y) ==> !#[trigger] is_hidden(
                main,
                search,
                max_tse,
                max_results,
                x,
                y,
            )) ==> search_outcome(main, search, max_tse, max_results).matches.len() == (
        if qualifying_count(main, search, max_tse) < max_results {
            qualifying_count(main, search, max_tse)
        } else {
            max_results as nat
        }),
{
    lemma_outcome_is_last(main, search, max_tse, max_results);
    lemma_all_holds(main, search, max_tse, max_results, 0, rows(main, search) as int);
}

/// A search is marked as overflown only if more placements are within the
/// starting ceiling than it may keep.
pub proof fn overflow_implies_excess(
    main: PixelGrid,
    search: PixelGrid,
    max_tse: u64,
    max_results: u16,
)
    requires
        main.wf(),
        search.wf(),
        fits(main, search),
    ensures
        search_outcome(main, search, max_tse, max_results).overflown ==> qualifying_count(
            main,
            search,
            max_tse,
        ) > max_results,
{
    lemma_outcome_is_last(main, search, max_tse, max_results);
    lemma_all_holds(main, search, max_tse, max_results, 0, rows(main, search) as int);
}

/// Where a tightened ceiling has hidden a placement within the starting
/// ceiling from the collector, more placements are within the starting
/// ceiling than the search may keep, whether or not it is marked as
/// overflown.
pub proof fn hidden_placement_implies_excess(
    main: PixelGrid,
    search: PixelGrid,
    max_tse: u64,
    max_results: u16,
    x: int,
    y: int,
)
    requires
        main.wf(),
        search.wf(),
        fits(main, search),
        is_placement(main, search, x, y),
        is_hidden(main, search, max_tse, max_results, x, y),
    ensures
        qualifying_count(main, search, max_tse) > max_results,
{
    lemma_outcome_is_last(main, search, max_tse, max_results);
    lemma_all_holds(main, search, max_tse, max_results, 0, rows(main, search) as int);
    assert(precedes(x, y, 0, rows(main, search) as int));
}

/// A search is marked as overflown exactly when more placements are within
/// the starting ceiling than it may keep, provided that the mark is set or
/// that a tightened ceiling has hidden no such placement from the collector.
pub proof fn overflow_iff_excess(main: PixelGrid, search: PixelGrid, max_tse: u64, max_results: u16)
    requires
        main.wf(),
        search.wf(),
        fits(main, search),
        search_outcome(main, search, max_tse, max_results).overflown || forall|x: int, y: int|
            is_placement(main, search, x, y) ==> !#[trigger] is_hidden(
                main,
                search,
                max_tse,
                max_results,
                x,
                y,
            ),
    ensures
        search_outcome(main, search, max_tse, max_results).overflown <==> qualifying_count(
            main,
            search,
            max_tse,
        ) > max_results,
{
    lemma_outcome_is_last(main, search, max_tse, max_results);
    lemma_all_holds(main, search, max_tse, max_results, 0, rows(main, search) as int);
}

} // verus!
