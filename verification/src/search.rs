//! The search engine: the exhaustive scan of every placement of the search
//! image in the main image, one row of placements at a time.

use crate::image::{lemma_dimensions_bounded, ImageData, PixelGrid};
use crate::metric::pruned_error;
use crate::results::{ascending, lemma_push_wf, Collector, SearchResult, SearchResults};
use vstd::prelude::*;

verus! {

/// Why a search cannot start: the search image does not fit in the main image.
#[derive(Clone, Copy, Debug, PartialEq, Eq)]
pub enum DimensionError {
    /// The main image is less high than the search image.
    MainHeightTooSmall,
    /// The main image is high enough, but less wide than the search image.
    MainWidthTooSmall,
}

impl DimensionError {
    /// The text that names the image and the axis at fault.
    pub open spec fn message_text(self) -> Seq<char> {
        match self {
            DimensionError::MainHeightTooSmall => "Main image height is smaller than search image height"@,
            DimensionError::MainWidthTooSmall => "Main image width is smaller than search image width"@,
        }
    }

    /// A message for the user, naming the image and the axis at fault.
    pub fn message(&self) -> (message: String)
        ensures
            message@ == self.message_text(),
    {
        match self {
            DimensionError::MainHeightTooSmall => {
                "Main image height is smaller than search image height".to_owned()
            },
            DimensionError::MainWidthTooSmall => {
                "Main image width is smaller than search image width".to_owned()
            },
        }
    }
}

/// What a scan reports after each of its steps.
#[derive(Clone, Copy, Debug, PartialEq, Eq)]
pub enum Progress {
    /// Row `row` of placements has been examined. The fraction done is
    /// `row / total_rows`, where `total_rows` is the number of the last row,
    /// or one where row 0 is the only row: the denominator is never zero.
    Row { row: u32, total_rows: u32 },
    /// Every row has been examined: the fraction done is one.
    Complete,
}

impl Progress {
    /// Numerator of the fraction done.
    pub open spec fn numerator(self) -> nat {
        match self {
            Progress::Row { row, total_rows } => row as nat,
            Progress::Complete => 1,
        }
    }

    /// Denominator of the fraction done.
    pub open spec fn denominator(self) -> nat {
        match self {
            Progress::Row { row, total_rows } => total_rows as nat,
            Progress::Complete => 1,
        }
    }

    /// Whether this fraction is at most `other`, by cross-multiplication;
    /// this is the order of the fractions where neither denominator is zero.
    pub open spec fn at_most(self, other: Progress) -> bool {
        self.numerator() * other.denominator() <= other.numerator() * self.denominator()
    }
}

/// Whether the search image fits in the main image.
pub open spec fn fits(main: PixelGrid, search: PixelGrid) -> bool {
    search.height <= main.height && search.width <= main.width
}

/// The error with which a search of these images is refused, if any. The
/// height is looked at first.
pub open spec fn dimension_error(main: PixelGrid, search: PixelGrid) -> Option<DimensionError> {
    if main.height < search.height {
        Some(DimensionError::MainHeightTooSmall)
    } else if main.width < search.width {
        Some(DimensionError::MainWidthTooSmall)
    } else {
        None
    }
}

/// Number of placements of the search image in one row of them.
pub open spec fn columns(main: PixelGrid, search: PixelGrid) -> nat {
    (main.width - search.width + 1) as nat
}

/// Number of rows of placements of the search image.
pub open spec fn rows(main: PixelGrid, search: PixelGrid) -> nat {
    (main.height - search.height + 1) as nat
}

/// The collector that a search starts from.
pub open spec fn initial_collector(
    main: PixelGrid,
    search: PixelGrid,
    max_tse: u64,
    max_results: u16,
) -> Collector {
    Collector {
        matches: Seq::empty(),
        capacity: max_results as nat,
        overflown: false,
        ceiling: max_tse,
        template_width: search.width as u32,
        template_height: search.height as u32,
        main_width: main.width as u32,
        main_height: main.height as u32,
        squared_error_divisor: search.bytes.len() as u32,
    }
}

/// The collector after the placement at `(x, y)` is examined: its error is
/// summed with the collector's ceiling as the pruning hint, and the placement
/// is offered to the collector where the error is within that ceiling.
pub open spec fn examine(
    main: PixelGrid,
    search: PixelGrid,
    collector: Collector,
    x: int,
    y: int,
) -> Collector {
    let tse = pruned_error(main, search, x, y, collector.ceiling as nat);
    if tse <= collector.ceiling {
        collector.push(SearchResult { x: x as u32, y: y as u32, tse: tse as u64 })
    } else {
        collector
    }
}

/// The collector after the first `count` placements of row `y` are examined,
/// from left to right.
pub open spec fn scan_row(
    main: PixelGrid,
    search: PixelGrid,
    collector: Collector,
    y: int,
    count: nat,
) -> Collector
    decreases count,
{
    if count == 0 {
        collector
    } else {
        examine(main, search, scan_row(main, search, collector, y, (count - 1) as nat), count - 1, y)
    }
}

/// The collector after the first `count` rows of placements are examined,
/// from top to bottom.
pub open spec fn scan_rows(
    main: PixelGrid,
    search: PixelGrid,
    collector: Collector,
    count: nat,
) -> Collector
    decreases count,
{
    if count == 0 {
        collector
    } else {
        scan_row(
            main,
            search,
            scan_rows(main, search, collector, (count - 1) as nat),
            count - 1,
            columns(main, search),
        )
    }
}

/// What a search of `main` for `search` finds: the collector after every
/// placement is examined in row-major order, starting with ceiling `max_tse`
/// and room for `max_results` matches.
pub open spec fn search_outcome(
    main: PixelGrid,
    search: PixelGrid,
    max_tse: u64,
    max_results: u16,
) -> Collector {
    scan_rows(
        main,
        search,
        initial_collector(main, search, max_tse, max_results),
        rows(main, search),
    )
}

/// What a call of `find_subimage` on these images and limits returns, up to
/// the view of the collector: the error for images that do not fit, and
/// else the outcome of the search.
pub open spec fn search_result(
    main: PixelGrid,
    search: PixelGrid,
    max_tse: u64,
    max_results: u16,
) -> Result<Collector, DimensionError> {
    match dimension_error(main, search) {
        Some(error) => Err(error),
        None => Ok(search_outcome(main, search, max_tse, max_results)),
    }
}

/// What a call of `find_subimage` has returned, up to the view of the
/// collector.
pub open spec fn found_view(found: Result<SearchResults, DimensionError>) -> Result<
    Collector,
    DimensionError,
> {
    match found {
        Ok(results) => Ok(results@),
        Err(error) => Err(error),
    }
}

/// The denominator of the fractions that a scan reports for its rows: the
/// number of the last row of placements, and one where there is one row only.
pub open spec fn total_rows(main: PixelGrid, search: PixelGrid) -> nat {
    if main.height > search.height {
        (main.height - search.height) as nat
    } else {
        1
    }
}

/// What the step after `done` steps of a scan reports: the row that it
/// examined while a row was left, and completion from then on.
pub open spec fn progress_at(main: PixelGrid, search: PixelGrid, done: nat) -> Progress {
    if done < rows(main, search) {
        Progress::Row { row: done as u32, total_rows: total_rows(main, search) as u32 }
    } else {
        Progress::Complete
    }
}

/// Examining a placement leaves a valid collector valid.
pub proof fn lemma_examine_wf(
    main: PixelGrid,
    search: PixelGrid,
    collector: Collector,
    x: int,
    y: int,
)
    requires
        collector.wf(),
    ensures
        examine(main, search, collector, x, y).wf(),
        examine(main, search, collector, x, y).same_frame(collector),
{
    let tse = pruned_error(main, search, x, y, collector.ceiling as nat);
    if tse <= collector.ceiling {
        lemma_push_wf(collector, SearchResult { x: x as u32, y: y as u32, tse: tse as u64 });
    }
}

/// Examines every placement of row `y`, from left to right.
fn scan_row_into(main: &ImageData, search: &ImageData, results: &mut SearchResults, y: u32)
    requires
        main.wf(),
        search.wf(),
        fits(main@, search@),
        y < rows(main@, search@),
        old(results).wf(),
    ensures
        final(results).wf(),
        final(results)@ == scan_row(
            main@,
            search@,
            old(results)@,
            y as int,
            columns(main@, search@),
        ),
{
    proof {
        lemma_dimensions_bounded(main@);
    }
    let column_count: u32 = main.width() - search.width() + 1;
    let mut x: u32 = 0;
    while x < column_count
        invariant
            main.wf(),
            search.wf(),
            fits(main@, search@),
            y < rows(main@, search@),
            column_count == columns(main@, search@),
            x <= column_count,
            results.wf(),
            results@ == scan_row(main@, search@, old(results)@, y as int, x as nat),
        decreases column_count - x,
    {
        let ceiling = results.get_tse_threshold();
        let tse = main.total_square_error(search, x, y, ceiling);
        proof {
            lemma_examine_wf(main@, search@, results@, x as int, y as int);
        }
        if tse <= ceiling {
            results.push(SearchResult { x, y, tse });
        }
        x = x + 1;
    }
}

/// The content of a scan in progress.
pub struct ScanState {
    pub main: PixelGrid,
    pub search: PixelGrid,
    /// The ceiling that the search started with.
    pub max_tse: u64,
    /// How many matches the search keeps at most.
    pub max_results: u16,
    /// How many rows of placements are examined.
    pub rows_done: nat,
    /// The collector as it stands.
    pub collector: Collector,
}

impl ScanState {
    /// The images are valid, the search image fits in the main image, and
    /// the collector is what the rows examined so far leave.
    pub open spec fn wf(self) -> bool {
        &&& self.main.wf()
        &&& self.search.wf()
        &&& fits(self.main, self.search)
        &&& self.rows_done <= rows(self.main, self.search)
        &&& self.collector == scan_rows(
            self.main,
            self.search,
            initial_collector(self.main, self.search, self.max_tse, self.max_results),
            self.rows_done,
        )
    }

    /// Whether every row has been examined.
    pub open spec fn is_complete(self) -> bool {
        self.rows_done >= rows(self.main, self.search)
    }

    /// The scan after its next step: one more row is examined, unless none
    /// is left.
    pub open spec fn step(self) -> ScanState {
        if self.is_complete() {
            self
        } else {
            ScanState {
                rows_done: self.rows_done + 1,
                collector: scan_row(
                    self.main,
                    self.search,
                    self.collector,
                    self.rows_done as int,
                    columns(self.main, self.search),
                ),
                ..self
            }
        }
    }

    /// What the next step reports.
    pub open spec fn progress(self) -> Progress {
        progress_at(self.main, self.search, self.rows_done)
    }
}

/// A search that is carried out row by row, so that its driver can report
/// progress and let other work run between two rows.
pub struct SubimageScan<'a> {
    main: &'a ImageData,
    search: &'a ImageData,
    max_tse: u64,
    max_results: u16,
    next_row: u32,
    results: SearchResults,
}

impl<'a> View for SubimageScan<'a> {
    type V = ScanState;

    closed spec fn view(&self) -> ScanState {
        ScanState {
            main: self.main@,
            search: self.search@,
            max_tse: self.max_tse,
            max_results: self.max_results,
            rows_done: self.next_row as nat,
            collector: self.results@,
        }
    }
}

impl<'a> SubimageScan<'a> {
    /// Validity of the scan: that of its content.
    pub open spec fn wf(&self) -> bool {
        self@.wf()
    }

    /// Starts a search of `main` for `search` with `max_tse` as the largest
    /// total squared error of a match and at most `max_results` matches. It is
    /// refused, before any placement is examined, exactly when the search
    /// image does not fit in the main image.
    pub fn begin(
        main: &'a ImageData,
        search: &'a ImageData,
        max_tse: u64,
        max_results: u16,
    ) -> (scan: Result<SubimageScan<'a>, DimensionError>)
        requires
            main.wf(),
            search.wf(),
        ensures
            match scan {
                Ok(scan) => {
                    &&& dimension_error(main@, search@) is None
                    &&& scan.wf()
                    &&& scan@ == (ScanState {
                        main: main@,
                        search: search@,
                        max_tse,
                        max_results,
                        rows_done: 0,
                        collector: initial_collector(main@, search@, max_tse, max_results),
                    })
                },
                Err(error) => dimension_error(main@, search@) == Some(error),
            },
    {
        if main.height() < search.height() {
            return Err(DimensionError::MainHeightTooSmall);
        }
        if main.width() < search.width() {
            return Err(DimensionError::MainWidthTooSmall);
        }
        let results = SearchResults::new(
            max_results,
            search.width(),
            search.height(),
            main.width(),
            main.height(),
            search.squared_errors_divisor(),
            max_tse,
        );
        Ok(SubimageScan { main, search, max_tse, max_results, next_row: 0, results })
    }

    /// Whether every row has been examined.
    pub fn is_complete(&self) -> (complete: bool)
        requires
            self.wf(),
        ensures
            complete == self@.is_complete(),
    {
        proof {
            lemma_dimensions_bounded(self.main@);
        }
        self.next_row > self.main.height() - self.search.height()
    }

    /// Examines the next row of placements and reports it; reports
    /// completion, and does nothing, once no row is left.
    pub fn step(&mut self) -> (progress: Progress)
        requires
            old(self).wf(),
        ensures
            final(self).wf(),
            final(self)@ == old(self)@.step(),
            progress == old(self)@.progress(),
            progress.denominator() > 0,
            progress.numerator() <= progress.denominator(),
    {
        proof {
            lemma_dimensions_bounded(self.main@);
        }
        let last_row: u32 = self.main.height() - self.search.height();
        if self.next_row > last_row {
            return Progress::Complete;
        }
        let total_rows: u32 = if last_row == 0 {
            1
        } else {
            last_row
        };
        let row = self.next_row;
        proof {
            lemma_scan_rows_wf(
                self@.main,
                self@.search,
                initial_collector(self@.main, self@.search, self@.max_tse, self@.max_results),
                self@.rows_done,
            );
        }
        scan_row_into(self.main, self.search, &mut self.results, row);
        self.next_row = row + 1;
        Progress::Row { row, total_rows }
    }

    /// Ends the scan and hands out the compacted collector, which holds what
    /// the rows examined so far have left.
    pub fn finish(self) -> (results: SearchResults)
        requires
            self.wf(),
        ensures
            results.wf(),
            results@ == self@.collector,
            results@.same_frame(
                initial_collector(self@.main, self@.search, self@.max_tse, self@.max_results),
            ),
    {
        proof {
            lemma_scan_rows_wf(
                self@.main,
                self@.search,
                initial_collector(self@.main, self@.search, self@.max_tse, self@.max_results),
                self@.rows_done,
            );
        }
        self.results.finalize()
    }
}

impl ImageData {
    /// Searches this image for the placements of `search_image` whose total
    /// squared error is at most `max_tse`, and returns the best of them, at
    /// most `max_results`, in ascending order of error.
    ///
    /// The search is refused, before anything is examined or reported,
    /// exactly when the search image does not fit in this image. Otherwise
    /// `progress_callback` is called once after each row of placements, and
    /// once more when all is done; where the search image fits, it has to
    /// accept what a scan of these images reports.
    pub fn find_subimage<F: Fn(Progress)>(
        &self,
        search_image: &ImageData,
        progress_callback: F,
        max_tse: u64,
        max_results: u16,
    ) -> (found: Result<SearchResults, DimensionError>)
        requires
            self.wf(),
            search_image.wf(),
            fits(self@, search_image@) ==> forall|done: nat|
                call_requires(
                    progress_callback,
                    (#[trigger] progress_at(self@, search_image@, done),),
                ),
        ensures
            found_view(found) == search_result(self@, search_image@, max_tse, max_results),
            found is Err <==> !fits(self@, search_image@),
            found matches Ok(results) ==> {
                &&& results.wf()
                &&& results@.capacity == max_results
                &&& results@.matches.len() <= max_results
                &&& ascending(results@.matches)
            },
    {
        let mut scan = match SubimageScan::begin(self, search_image, max_tse, max_results) {
            Ok(scan) => scan,
            Err(error) => {
                return Err(error);
            },
        };
        let mut complete = false;
        while !complete
            invariant
                scan.wf(),
                scan@.main == self@,
                scan@.search == search_image@,
                scan@.max_tse == max_tse,
                scan@.max_results == max_results,
                complete ==> scan@.is_complete(),
                forall|done: nat|
                    call_requires(
                        progress_callback,
                        (#[trigger] progress_at(self@, search_image@, done),),
                    ),
            decreases
                rows(self@, search_image@) - scan@.rows_done + (if complete {
                    0int
                } else {
                    1int
                }),
        {
            let progress = scan.step();
            progress_callback(progress);
            complete = match progress {
                Progress::Complete => true,
                Progress::Row { .. } => false,
            };
        }
        Ok(scan.finish())
    }
}

/// Two calls of `find_subimage` on the same images with the same limits
/// return the same: the same error, or the same matches in the same order
/// with the same overflow mark.
pub proof fn search_is_deterministic(
    main: ImageData,
    search: ImageData,
    max_tse: u64,
    max_results: u16,
    first: Result<SearchResults, DimensionError>,
    second: Result<SearchResults, DimensionError>,
)
    requires
        main.wf(),
        search.wf(),
        found_view(first) == search_result(main@, search@, max_tse, max_results),
        found_view(second) == search_result(main@, search@, max_tse, max_results),
    ensures
        found_view(first) == found_view(second),
        first matches Ok(a) ==> second matches Ok(b) && a@.matches == b@.matches && a@.overflown
            == b@.overflown,
{
}

/// Whatever number of steps a scan has made, what its next step reports is
/// a fraction from zero to one, with a denominator that is not zero.
pub proof fn progress_is_a_fraction(main: PixelGrid, search: PixelGrid, done: nat)
    requires
        main.wf(),
        search.wf(),
        fits(main, search),
    ensures
        progress_at(main, search, done).denominator() > 0,
        progress_at(main, search, done).numerator() <= progress_at(
            main,
            search,
            done,
        ).denominator(),
{
    lemma_dimensions_bounded(main);
}

/// What a scan reports is a fraction from zero to one, with a denominator
/// that is not zero, and it never decreases from one step to the next.
/// Completion is reported exactly from the step on that finds every row
/// examined; until then each step reports the row that it examined.
pub proof fn progress_never_decreases(scan: ScanState)
    requires
        scan.wf(),
    ensures
        scan.progress().denominator() > 0,
        scan.progress().numerator() <= scan.progress().denominator(),
        scan.progress().at_most(scan.step().progress()),
        scan.progress().at_most(Progress::Complete),
        scan.progress() == Progress::Complete <==> scan.is_complete(),
        scan.is_complete() ==> scan.step() == scan,
        !scan.is_complete() ==> scan.step().rows_done == scan.rows_done + 1 && scan.progress() == (
        Progress::Row {
            row: scan.rows_done as u32,
            total_rows: total_rows(scan.main, scan.search) as u32,
        }),
{
    lemma_dimensions_bounded(scan.main);
    let row = scan.rows_done as int;
    let total = total_rows(scan.main, scan.search) as int;
    if !scan.is_complete() {
        assert(row * total <= (row + 1) * total) by (nonlinear_arith)
            requires
                0 <= row,
                0 <= total,
        ;
    }
}

/// Examining placements leaves a valid collector valid.
pub proof fn lemma_scan_row_wf(
    main: PixelGrid,
    search: PixelGrid,
    collector: Collector,
    y: int,
    count: nat,
)
    requires
        collector.wf(),
    ensures
        scan_row(main, search, collector, y, count).wf(),
        scan_row(main, search, collector, y, count).same_frame(collector),
    decreases count,
{
    if count > 0 {
        lemma_scan_row_wf(main, search, collector, y, (count - 1) as nat);
        lemma_examine_wf(
            main,
            search,
            scan_row(main, search, collector, y, (count - 1) as nat),
            count - 1,
            y,
        );
    }
}

/// Examining rows of placements leaves a valid collector valid.
pub proof fn lemma_scan_rows_wf(main: PixelGrid, search: PixelGrid, collector: Collector, count: nat)
    requires
        collector.wf(),
    ensures
        scan_rows(main, search, collector, count).wf(),
        scan_rows(main, search, collector, count).same_frame(collector),
    decreases count,
{
    if count > 0 {
        lemma_scan_rows_wf(main, search, collector, (count - 1) as nat);
        lemma_scan_row_wf(
            main,
            search,
            scan_rows(main, search, collector, (count - 1) as nat),
            count - 1,
            columns(main, search),
        );
    }
}

} // verus!
