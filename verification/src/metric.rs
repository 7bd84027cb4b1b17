//! The error metric: total squared error between a window of the main image
//! and the search image, with early exit once a ceiling is passed.

use crate::image::{lemma_dimensions_bounded, lemma_run_in_bounds, ImageData, PixelGrid};
use vstd::prelude::*;

verus! {

/// The largest squared difference of two channel values: 255 squared.
pub const MAX_CHANNEL_ERROR: u64 = 65025;

/// Squared difference of two channel values, taken in the integers.
pub open spec fn squared_difference(a: u8, b: u8) -> nat {
    ((a - b) * (a - b)) as nat
}

/// Sum of the squared differences of the first `n` bytes of two runs.
pub open spec fn prefix_error(a: Seq<u8>, b: Seq<u8>, n: nat) -> nat
    decreases n,
{
    if n == 0 {
        0
    } else {
        prefix_error(a, b, (n - 1) as nat) + squared_difference(a[n - 1], b[n - 1])
    }
}

/// Sum of the squared differences of two runs of equal length.
pub open spec fn run_error(a: Seq<u8>, b: Seq<u8>) -> nat {
    prefix_error(a, b, a.len())
}

/// Error between row `dy` of the search image and the pixels that it covers
/// when the search image is laid on the main image at `(x, y)`.
pub open spec fn row_error(main: PixelGrid, search: PixelGrid, x: int, y: int, dy: int) -> nat {
    run_error(main.run(x, y + dy, search.width as int), search.run(0, dy, search.width as int))
}

/// Error summed over the first `rows` rows of the window at `(x, y)`.
pub open spec fn window_error(main: PixelGrid, search: PixelGrid, x: int, y: int, rows: nat) -> nat
    decreases rows,
{
    if rows == 0 {
        0
    } else {
        window_error(main, search, x, y, (rows - 1) as nat) + row_error(
            main,
            search,
            x,
            y,
            rows - 1,
        )
    }
}

/// Total squared error of the whole window at `(x, y)`.
pub open spec fn total_error(main: PixelGrid, search: PixelGrid, x: int, y: int) -> nat {
    window_error(main, search, x, y, search.height)
}

/// What the early-exit summation yields once `done` rows are summed: the sum
/// so far where it has passed the ceiling or no row is left, else what it
/// yields after one more row.
pub open spec fn pruned_error_from(
    main: PixelGrid,
    search: PixelGrid,
    x: int,
    y: int,
    ceiling: nat,
    done: nat,
) -> nat
    decreases search.height - done,
{
    if done >= search.height || window_error(main, search, x, y, done) > ceiling {
        window_error(main, search, x, y, done)
    } else {
        pruned_error_from(main, search, x, y, ceiling, done + 1)
    }
}

/// The error that the early-exit summation reports for the window at
/// `(x, y)`: the sum over the fewest leading rows that passes `ceiling`, or
/// the total where no such sum does.
pub open spec fn pruned_error(main: PixelGrid, search: PixelGrid, x: int, y: int, ceiling: nat) -> nat {
    pruned_error_from(main, search, x, y, ceiling, 0)
}

/// A squared difference is at most 255 squared.
pub proof fn lemma_squared_difference_bound(a: u8, b: u8)
    ensures
        squared_difference(a, b) <= MAX_CHANNEL_ERROR,
{
    let d = a - b;
    assert(0 <= d * d <= 65025) by (nonlinear_arith)
        requires
            -255 <= d <= 255,
    ;
}

/// The error of `n` bytes is at most `n` times the largest squared difference.
pub proof fn lemma_prefix_error_bound(a: Seq<u8>, b: Seq<u8>, n: nat)
    ensures
        prefix_error(a, b, n) <= MAX_CHANNEL_ERROR * n,
    decreases n,
{
    if n > 0 {
        lemma_prefix_error_bound(a, b, (n - 1) as nat);
        lemma_squared_difference_bound(a[n - 1], b[n - 1]);
    }
}

/// The error of `rows` rows is at most the largest squared difference times
/// the number of bytes in them.
pub proof fn lemma_window_error_bound(main: PixelGrid, search: PixelGrid, x: int, y: int, rows: nat)
    requires
        main.wf(),
        search.wf(),
        0 <= x,
        0 <= y,
        x + search.width <= main.width,
        y + search.height <= main.height,
        rows <= search.height,
    ensures
        window_error(main, search, x, y, rows) <= MAX_CHANNEL_ERROR * (4 * search.width * rows),
        MAX_CHANNEL_ERROR * (4 * search.width * rows) <= MAX_CHANNEL_ERROR * search.bytes.len(),
        MAX_CHANNEL_ERROR * search.bytes.len() <= 65025 * 0xffff_ffff,
    decreases rows,
{
    let w = search.width as int;
    let h = search.height as int;
    let r = rows as int;
    assert(4 * w * r <= w * h * 4) by (nonlinear_arith)
        requires
            0 <= r <= h,
            0 <= w,
    ;
    assert(65025 * (4 * w * r) <= 65025 * (w * h * 4)) by (nonlinear_arith)
        requires
            4 * w * r <= w * h * 4,
    ;
    if rows > 0 {
        lemma_window_error_bound(main, search, x, y, (rows - 1) as nat);
        lemma_run_in_bounds(main, x, y + rows - 1, w);
        lemma_prefix_error_bound(
            main.run(x, y + rows - 1, w),
            search.run(0, rows - 1, w),
            (4 * w) as nat,
        );
        assert(65025 * (4 * w * (r - 1)) + 65025 * (4 * w) == 65025 * (4 * w * r))
            by (nonlinear_arith);
    }
}

/// The partial sums of a window never decrease.
pub proof fn lemma_window_error_monotonic(
    main: PixelGrid,
    search: PixelGrid,
    x: int,
    y: int,
    i: nat,
    j: nat,
)
    requires
        i <= j,
    ensures
        window_error(main, search, x, y, i) <= window_error(main, search, x, y, j),
    decreases j,
{
    if i < j {
        lemma_window_error_monotonic(main, search, x, y, i, (j - 1) as nat);
    }
}

/// From any number of summed rows on, the early-exit summation yields a
/// partial sum of at least as many rows; it yields the total whenever what
/// it yields is within the ceiling.
pub proof fn lemma_pruned_error_from(
    main: PixelGrid,
    search: PixelGrid,
    x: int,
    y: int,
    ceiling: nat,
    done: nat,
)
    requires
        done <= search.height,
    ensures
        window_error(main, search, x, y, done) <= pruned_error_from(
            main,
            search,
            x,
            y,
            ceiling,
            done,
        ) <= total_error(main, search, x, y),
        pruned_error_from(main, search, x, y, ceiling, done) <= ceiling ==> pruned_error_from(
            main,
            search,
            x,
            y,
            ceiling,
            done,
        ) == total_error(main, search, x, y),
    decreases search.height - done,
{
    lemma_window_error_monotonic(main, search, x, y, done, search.height);
    if done >= search.height || window_error(main, search, x, y, done) > ceiling {
    } else {
        lemma_pruned_error_from(main, search, x, y, ceiling, done + 1);
        lemma_window_error_monotonic(main, search, x, y, done, done + 1);
    }
}

/// The reported error never exceeds the total, and is the total exactly when
/// the total is within the ceiling: a report above the ceiling means that the
/// total is above it too.
pub proof fn lemma_pruned_error(main: PixelGrid, search: PixelGrid, x: int, y: int, ceiling: nat)
    ensures
        pruned_error(main, search, x, y, ceiling) <= total_error(main, search, x, y),
        pruned_error(main, search, x, y, ceiling) <= ceiling <==> total_error(main, search, x, y)
            <= ceiling,
        total_error(main, search, x, y) <= ceiling ==> pruned_error(main, search, x, y, ceiling)
            == total_error(main, search, x, y),
{
    lemma_pruned_error_from(main, search, x, y, ceiling, 0);
}

/// Sum of the squared differences of two runs of bytes.
fn run_square_error(a: &[u8], b: &[u8]) -> (sum: u64)
    requires
        a@.len() == b@.len(),
        MAX_CHANNEL_ERROR * a@.len() <= u64::MAX,
    ensures
        sum == run_error(a@, b@),
{
    let n = a.len();
    let mut sum: u64 = 0;
    let mut i: usize = 0;
    while i < n
        invariant
            n == a@.len(),
            n == b@.len(),
            i <= n,
            MAX_CHANNEL_ERROR * n <= u64::MAX,
            sum == prefix_error(a@, b@, i as nat),
        decreases n - i,
    {
        let d: i32 = a[i] as i32 - b[i] as i32;
        proof {
            lemma_prefix_error_bound(a@, b@, (i + 1) as nat);
            assert(MAX_CHANNEL_ERROR * (i + 1) <= MAX_CHANNEL_ERROR * n) by (nonlinear_arith)
                requires
                    i + 1 <= n,
            ;
            assert(0 <= d * d <= 65025) by (nonlinear_arith)
                requires
                    -255 <= d <= 255,
            ;
        }
        sum = sum + (d * d) as u64;
        i = i + 1;
    }
    sum
}

impl ImageData {
    /// Total squared error between the search image and the window of this
    /// image whose top-left corner is `(x, y)`. The window has to lie within
    /// this image.
    ///
    /// `max_tse` only prunes: the summation stops after the first row at which
    /// the running total has passed it. A result within `max_tse` is the exact
    /// total; a result above it says that the total is above it too, and no
    /// more.
    pub fn total_square_error(&self, search_image: &ImageData, x: u32, y: u32, max_tse: u64) -> (tse:
        u64)
        requires
            self.wf(),
            search_image.wf(),
            x + search_image@.width <= self@.width,
            y + search_image@.height <= self@.height,
        ensures
            tse == pruned_error(self@, search_image@, x as int, y as int, max_tse as nat),
            tse <= total_error(self@, search_image@, x as int, y as int),
            tse <= max_tse <==> total_error(self@, search_image@, x as int, y as int) <= max_tse,
            tse <= max_tse ==> tse == total_error(self@, search_image@, x as int, y as int),
    {
        let width = search_image.width();
        let height = search_image.height();
        let mut tse: u64 = 0;
        let mut dy: u32 = 0;
        while dy < height
            invariant
                self.wf(),
                search_image.wf(),
                width == search_image@.width,
                height == search_image@.height,
                x + width <= self@.width,
                y + height <= self@.height,
                dy <= height,
                tse == window_error(self@, search_image@, x as int, y as int, dy as nat),
                tse <= max_tse,
                pruned_error_from(
                    self@,
                    search_image@,
                    x as int,
                    y as int,
                    max_tse as nat,
                    dy as nat,
                ) == pruned_error(self@, search_image@, x as int, y as int, max_tse as nat),
            decreases height - dy,
        {
            proof {
                lemma_dimensions_bounded(self@);
                lemma_window_error_bound(
                    self@,
                    search_image@,
                    x as int,
                    y as int,
                    (dy + 1) as nat,
                );
                lemma_run_in_bounds(search_image@, 0, dy as int, width as int);
                lemma_prefix_error_bound(
                    self@.run(x as int, y + dy, width as int),
                    search_image@.run(0, dy as int, width as int),
                    (4 * width) as nat,
                );
            }
            let main_pixels = self.get_pixels(x, y + dy, width as usize);
            let search_pixels = search_image.get_pixels(0, dy, width as usize);
            let square_errors = run_square_error(main_pixels, search_pixels);
            tse = tse + square_errors;
            dy = dy + 1;
            assert(tse == window_error(self@, search_image@, x as int, y as int, dy as nat));
            assert(pruned_error_from(
                self@,
                search_image@,
                x as int,
                y as int,
                max_tse as nat,
                (dy - 1) as nat,
            ) == pruned_error_from(
                self@,
                search_image@,
                x as int,
                y as int,
                max_tse as nat,
                dy as nat,
            ));
            if tse > max_tse {
                proof {
                    lemma_pruned_error(self@, search_image@, x as int, y as int, max_tse as nat);
                }
                return tse;
            }
        }
        proof {
            lemma_pruned_error(self@, search_image@, x as int, y as int, max_tse as nat);
        }
        tse
    }
}

} // verus!
