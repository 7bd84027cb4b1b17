//! The result collector: a bounded list of the best matches found so far,
//! kept in ascending order of error, with a ceiling that tightens once the
//! list is full.

use vstd::prelude::*;

verus! {

/// A placement of the search image in the main image, with its error.
#[derive(Clone, Copy, Debug, PartialEq, Eq)]
pub struct SearchResult {
    /// Column of the window's top-left corner in the main image.
    pub x: u32,
    /// Row of the window's top-left corner in the main image.
    pub y: u32,
    /// Total squared error of the window.
    pub tse: u64,
}

/// Where a candidate with error `tse` enters an ascending list: the index of
/// the first match with a strictly greater error, or the length of the list
/// where there is none.
pub open spec fn insert_position(matches: Seq<SearchResult>, tse: u64) -> int
    decreases matches.len(),
{
    if matches.len() == 0 || matches[0].tse > tse {
        0
    } else {
        1 + insert_position(matches.drop_first(), tse)
    }
}

/// Whether the errors of a list of matches never decrease.
pub open spec fn ascending(matches: Seq<SearchResult>) -> bool {
    forall|i: int, j: int| 0 <= i <= j < matches.len() ==> matches[i].tse <= matches[j].tse
}

/// The ceiling that rejects every candidate no better than a worst kept match
/// with error `worst`: one less, and zero where `worst` is zero.
pub open spec fn tightened(worst: u64) -> u64 {
    if worst == 0 {
        0
    } else {
        (worst - 1) as u64
    }
}

/// The mathematical content of a result collector.
pub struct Collector {
    /// The kept matches, best first.
    pub matches: Seq<SearchResult>,
    /// How many matches are kept at most.
    pub capacity: nat,
    /// Whether a candidate ever arrived when the collector was full.
    pub overflown: bool,
    /// The largest error with which a candidate is still of interest.
    pub ceiling: u64,
    /// Width of the search image.
    pub template_width: u32,
    /// Height of the search image.
    pub template_height: u32,
    /// Width of the main image.
    pub main_width: u32,
    /// Height of the main image.
    pub main_height: u32,
    /// Number of channel samples of the search image, by which a total
    /// squared error is divided for the mean.
    pub squared_error_divisor: u32,
}

impl Collector {
    /// The collector keeps no more matches than its capacity, keeps them in
    /// ascending order of error, and, once it is full, has its ceiling just
    /// below the error of the worst kept match.
    pub open spec fn wf(self) -> bool {
        &&& self.matches.len() <= self.capacity
        &&& ascending(self.matches)
        &&& (self.capacity > 0 && self.matches.len() == self.capacity ==> self.ceiling
            == tightened(self.matches.last().tse))
    }

    /// Whether two collectors agree on all that no search changes: the
    /// capacity, the dimensions of the two images, and the divisor.
    pub open spec fn same_frame(self, other: Collector) -> bool {
        &&& self.capacity == other.capacity
        &&& self.template_width == other.template_width
        &&& self.template_height == other.template_height
        &&& self.main_width == other.main_width
        &&& self.main_height == other.main_height
        &&& self.squared_error_divisor == other.squared_error_divisor
    }

    /// Whether the collector holds as many matches as it may.
    pub open spec fn is_full(self) -> bool {
        self.matches.len() >= self.capacity
    }

    /// The collector with `candidate` entered at its place in the order. Where
    /// that fills the collector, the ceiling is tightened.
    pub open spec fn insert_ordered(self, candidate: SearchResult) -> Collector {
        let matches = self.matches.insert(
            insert_position(self.matches, candidate.tse),
            candidate,
        );
        Collector {
            matches,
            ceiling: if matches.len() == self.capacity {
                tightened(matches.last().tse)
            } else {
                self.ceiling
            },
            ..self
        }
    }

    /// The collector after `candidate` is offered to it. A collector with
    /// room takes the candidate. A full one is marked as overflown; it gives up
    /// its worst match for the candidate where the candidate is strictly
    /// better, and is otherwise left as it is.
    pub open spec fn push(self, candidate: SearchResult) -> Collector {
        if !self.is_full() {
            self.insert_ordered(candidate)
        } else if self.matches.len() > 0 && candidate.tse < self.matches.last().tse {
            (Collector { matches: self.matches.drop_last(), overflown: true, ..self }).insert_ordered(
                candidate,
            )
        } else {
            Collector { overflown: true, ..self }
        }
    }
}

/// An index before which no match is worse than `tse`, and at which the list
/// ends or a worse match stands, is the insert position.
pub proof fn lemma_insert_position_is(matches: Seq<SearchResult>, tse: u64, pos: int)
    requires
        0 <= pos <= matches.len(),
        forall|j: int| 0 <= j < pos ==> matches[j].tse <= tse,
        pos < matches.len() ==> matches[pos].tse > tse,
    ensures
        insert_position(matches, tse) == pos,
    decreases matches.len(),
{
    if pos > 0 {
        let rest = matches.drop_first();
        assert forall|j: int| 0 <= j < pos - 1 implies rest[j].tse <= tse by {
            assert(rest[j] == matches[j + 1]);
        }
        lemma_insert_position_is(rest, tse, pos - 1);
    }
}

/// The insert position lies within the list, after every match that is no
/// worse than `tse` up to it, and before a match that is.
pub proof fn lemma_insert_position(matches: Seq<SearchResult>, tse: u64)
    ensures
        0 <= insert_position(matches, tse) <= matches.len(),
        forall|j: int| 0 <= j < insert_position(matches, tse) ==> matches[j].tse <= tse,
        insert_position(matches, tse) < matches.len() ==> matches[insert_position(
            matches,
            tse,
        )].tse > tse,
    decreases matches.len(),
{
    if matches.len() == 0 || matches[0].tse > tse {
    } else {
        let rest = matches.drop_first();
        lemma_insert_position(rest, tse);
        let p = insert_position(rest, tse);
        assert forall|j: int| 0 <= j < p + 1 implies matches[j].tse <= tse by {
            if j > 0 {
                assert(rest[j - 1] == matches[j]);
            }
        }
        if p + 1 < matches.len() {
            assert(rest[p] == matches[p + 1]);
        }
    }
}

/// Entering a candidate at its insert position keeps an ascending list
/// ascending.
pub proof fn lemma_insert_keeps_ascending(matches: Seq<SearchResult>, candidate: SearchResult)
    requires
        ascending(matches),
    ensures
        ascending(matches.insert(insert_position(matches, candidate.tse), candidate)),
{
    lemma_insert_position(matches, candidate.tse);
    let p = insert_position(matches, candidate.tse);
    let after = matches.insert(p, candidate);
    assert forall|i: int, j: int| 0 <= i <= j < after.len() implies after[i].tse
        <= after[j].tse by {
        if i < p && j > p {
            assert(after[i] == matches[i]);
            assert(after[j] == matches[j - 1]);
        } else if i > p {
            assert(after[i] == matches[i - 1]);
            assert(after[j] == matches[j - 1]);
        } else if j < p {
            assert(after[i] == matches[i]);
            assert(after[j] == matches[j]);
        } else if i == p && j > p {
            assert(after[j] == matches[j - 1]);
            assert(matches[p].tse <= matches[j - 1].tse);
        } else if i < p && j == p {
            assert(after[i] == matches[i]);
        }
    }
}

/// Entering a candidate into a valid collector with room leaves it valid.
pub proof fn lemma_insert_ordered_wf(collector: Collector, candidate: SearchResult)
    requires
        collector.wf(),
        !collector.is_full(),
    ensures
        collector.insert_ordered(candidate).wf(),
        collector.insert_ordered(candidate).matches.len() == collector.matches.len() + 1,
{
    lemma_insert_position(collector.matches, candidate.tse);
    lemma_insert_keeps_ascending(collector.matches, candidate);
}

/// A valid collector that gives up its worst match stays valid.
pub proof fn lemma_drop_last_wf(collector: Collector)
    requires
        collector.wf(),
        collector.matches.len() > 0,
    ensures
        ascending(collector.matches.drop_last()),
        (Collector { matches: collector.matches.drop_last(), overflown: true, ..collector }).wf(),
{
    let rest = collector.matches.drop_last();
    assert forall|i: int, j: int| 0 <= i <= j < rest.len() implies rest[i].tse
        <= rest[j].tse by {
        assert(rest[i] == collector.matches[i]);
        assert(rest[j] == collector.matches[j]);
    }
}

/// Offering a candidate to a valid collector leaves it valid, and changes
/// nothing but the matches, the ceiling and the overflow mark.
pub proof fn lemma_push_wf(collector: Collector, candidate: SearchResult)
    requires
        collector.wf(),
    ensures
        collector.push(candidate).wf(),
        collector.push(candidate).same_frame(collector),
{
    if !collector.is_full() {
        lemma_insert_ordered_wf(collector, candidate);
    } else if collector.matches.len() > 0 && candidate.tse < collector.matches.last().tse {
        lemma_drop_last_wf(collector);
        lemma_insert_ordered_wf(
            Collector { matches: collector.matches.drop_last(), overflown: true, ..collector },
            candidate,
        );
    }
}

/// Whether a list of matches holds one for the placement at `(x, y)`.
pub open spec fn holds_placement(matches: Seq<SearchResult>, x: int, y: int) -> bool {
    exists|i: int| 0 <= i < matches.len() && (#[trigger] matches[i]).x == x && matches[i].y == y
}

/// Whether no two matches of a list record the same placement.
pub open spec fn distinct_placements(matches: Seq<SearchResult>) -> bool {
    forall|i: int, j: int|
        0 <= i < j < matches.len() ==> !((#[trigger] matches[i]).x == (#[trigger] matches[j]).x
            && matches[i].y == matches[j].y)
}

/// What entering a candidate at its insert position does to a list: the
/// candidate stands in it, every match of before still does, and nothing
/// else.
pub proof fn lemma_insert_members(matches: Seq<SearchResult>, candidate: SearchResult)
    ensures
        ({
            let after = matches.insert(insert_position(matches, candidate.tse), candidate);
            &&& after.len() == matches.len() + 1
            &&& after.contains(candidate)
            &&& forall|i: int| 0 <= i < matches.len() ==> after.contains(#[trigger] matches[i])
            &&& forall|j: int|
                0 <= j < after.len() ==> #[trigger] after[j] == candidate || matches.contains(
                    after[j],
                )
        }),
{
    lemma_insert_position(matches, candidate.tse);
    let p = insert_position(matches, candidate.tse);
    let after = matches.insert(p, candidate);
    assert(after[p] == candidate);
    assert forall|i: int| 0 <= i < matches.len() implies after.contains(
        #[trigger] matches[i],
    ) by {
        if i < p {
            assert(after[i] == matches[i]);
        } else {
            assert(after[i + 1] == matches[i]);
        }
    }
    assert forall|j: int| 0 <= j < after.len() implies #[trigger] after[j] == candidate
        || matches.contains(after[j]) by {
        if j < p {
            assert(after[j] == matches[j]);
        } else if j > p {
            assert(after[j] == matches[j - 1]);
        }
    }
}

/// What offering a candidate does to a valid collector.
///
/// A collector with room grows by the candidate and keeps its overflow mark.
/// A full one keeps its length and is marked as overflown; where the
/// candidate does not replace the worst match, the matches and the ceiling
/// stay as they are. Every match of before but a replaced worst one is still
/// held, and nothing is held but matches of before and the candidate. The
/// ceiling changes only where the collector is full afterwards, to just below
/// the error of its worst match.
pub proof fn lemma_push_effect(collector: Collector, candidate: SearchResult)
    requires
        collector.wf(),
    ensures
        ({
            let pushed = collector.push(candidate);
            let matches = collector.matches;
            let replaces = matches.len() > 0 && candidate.tse < matches.last().tse;
            &&& !collector.is_full() ==> pushed.matches.len() == matches.len() + 1
                && pushed.overflown == collector.overflown
            &&& collector.is_full() ==> pushed.matches.len() == matches.len() && pushed.overflown
            &&& collector.is_full() && !replaces ==> pushed.matches == matches && pushed.ceiling
                == collector.ceiling
            &&& !collector.is_full() || replaces ==> pushed.matches.contains(candidate)
            &&& forall|i: int|
                0 <= i < matches.len() && (!collector.is_full() || i < matches.len() - 1)
                    ==> pushed.matches.contains(#[trigger] matches[i])
            &&& forall|j: int|
                0 <= j < pushed.matches.len() ==> #[trigger] pushed.matches[j] == candidate
                    || matches.contains(pushed.matches[j])
            &&& pushed.ceiling == collector.ceiling || (pushed.matches.len() == collector.capacity
                && collector.capacity > 0 && pushed.ceiling == tightened(
                pushed.matches.last().tse,
            ))
            &&& pushed.matches.len() < collector.capacity ==> pushed.ceiling == collector.ceiling
        }),
{
    let pushed = collector.push(candidate);
    let matches = collector.matches;
    if !collector.is_full() {
        lemma_insert_members(matches, candidate);
    } else if matches.len() > 0 && candidate.tse < matches.last().tse {
        let rest = matches.drop_last();
        lemma_insert_members(rest, candidate);
        assert forall|i: int| 0 <= i < matches.len() - 1 implies pushed.matches.contains(
            #[trigger] matches[i],
        ) by {
            assert(rest[i] == matches[i]);
        }
        assert forall|j: int| 0 <= j < pushed.matches.len() implies #[trigger] pushed.matches[j]
            == candidate || matches.contains(pushed.matches[j]) by {
            if pushed.matches[j] != candidate {
                let k = choose|k: int| 0 <= k < rest.len() && rest[k] == pushed.matches[j];
                assert(matches[k] == rest[k]);
            }
        }
    }
}

/// Offering a candidate for a placement that a valid collector does not hold
/// leaves it without a placement held twice, if it was so before.
pub proof fn lemma_push_keeps_distinct(collector: Collector, candidate: SearchResult)
    requires
        collector.wf(),
        distinct_placements(collector.matches),
        !holds_placement(collector.matches, candidate.x as int, candidate.y as int),
    ensures
        distinct_placements(collector.push(candidate).matches),
{
    let matches = collector.matches;
    let replaces = matches.len() > 0 && candidate.tse < matches.last().tse;
    if !collector.is_full() || replaces {
        let base = if collector.is_full() {
            matches.drop_last()
        } else {
            matches
        };
        lemma_insert_position(base, candidate.tse);
        let p = insert_position(base, candidate.tse);
        let after = base.insert(p, candidate);
        assert(collector.push(candidate).matches == after);
        assert forall|i: int, j: int| 0 <= i < j < after.len() implies !((
        #[trigger] after[i]).x == (#[trigger] after[j]).x && after[i].y == after[j].y) by {
            let i0 = if i < p {
                i
            } else {
                i - 1
            };
            let j0 = if j < p {
                j
            } else {
                j - 1
            };
            if i != p {
                assert(after[i] == matches[i0]);
            }
            if j != p {
                assert(after[j] == matches[j0]);
            }
        }
    }
}

/// The collector of the best matches of a search.
#[derive(Debug)]
pub struct SearchResults {
    results_ordered: Vec<SearchResult>,
    capacity: u16,
    overflown: bool,
    template_width: u32,
    template_height: u32,
    main_width: u32,
    main_height: u32,
    squared_error_divisor: u32,
    tse_threshold: u64,
}

impl View for SearchResults {
    type V = Collector;

    closed spec fn view(&self) -> Collector {
        Collector {
            matches: self.results_ordered@,
            capacity: self.capacity as nat,
            overflown: self.overflown,
            ceiling: self.tse_threshold,
            template_width: self.template_width,
            template_height: self.template_height,
            main_width: self.main_width,
            main_height: self.main_height,
            squared_error_divisor: self.squared_error_divisor,
        }
    }
}

/// `Vec::shrink_to_fit` gives back what the vector has reserved beyond its
/// length. Taken on trust: the elements stay as they are.
#[verifier::external_body]
fn shrink_to_fit(results: &mut Vec<SearchResult>)
    ensures
        final(results)@ == old(results)@,
{
    results.shrink_to_fit();
}

impl SearchResults {
    /// Validity of the collector: that of its content.
    pub open spec fn wf(&self) -> bool {
        self@.wf()
    }

    /// An empty collector for at most `capacity` matches, with the dimensions
    /// of the two images, the divisor that turns a total error into a mean,
    /// and the ceiling to start from.
    pub fn new(
        capacity: u16,
        template_width: u32,
        template_height: u32,
        main_width: u32,
        main_height: u32,
        squared_error_divisor: u32,
        tse_threshold: u64,
    ) -> (results: SearchResults)
        ensures
            results.wf(),
            results@ == (Collector {
                matches: Seq::empty(),
                capacity: capacity as nat,
                overflown: false,
                ceiling: tse_threshold,
                template_width,
                template_height,
                main_width,
                main_height,
                squared_error_divisor,
            }),
    {
        SearchResults {
            results_ordered: Vec::with_capacity(capacity as usize),
            capacity,
            overflown: false,
            template_height,
            template_width,
            main_width,
            main_height,
            squared_error_divisor,
            tse_threshold,
        }
    }

    /// Offers a candidate to the collector. A candidate that ties with the
    /// worst match of a full collector never replaces it.
    pub fn push(&mut self, result: SearchResult)
        requires
            old(self).wf(),
        ensures
            final(self).wf(),
            final(self)@ == old(self)@.push(result),
            final(self)@.matches.len() <= final(self)@.capacity,
            old(self)@.is_full() ==> final(self)@.overflown,
            old(self)@.is_full() && old(self)@.matches.len() > 0 && result.tse >= old(
                self,
            )@.matches.last().tse ==> final(self)@.matches == old(self)@.matches,
    {
        proof {
            lemma_push_wf(self@, result);
        }
        let len = self.results_ordered.len();
        if len < self.capacity as usize {
            self.insert_ordered(result);
        } else {
            self.overflown = true;
            if len > 0 && result.tse < self.results_ordered[len - 1].tse {
                self.results_ordered.pop();
                proof {
                    lemma_drop_last_wf(old(self)@);
                    assert(self.results_ordered@ == old(self)@.matches.drop_last());
                }
                self.insert_ordered(result);
            }
        }
    }

    /// Enters a candidate at its place in the order: before the first match
    /// with a strictly greater error. The collector has to have room.
    fn insert_ordered(&mut self, result: SearchResult)
        requires
            old(self).wf(),
            !old(self)@.is_full(),
        ensures
            final(self).wf(),
            final(self)@ == old(self)@.insert_ordered(result),
    {
        proof {
            lemma_insert_ordered_wf(self@, result);
        }
        let len = self.results_ordered.len();
        let mut pos: usize = 0;
        while pos < len && self.results_ordered[pos].tse <= result.tse
            invariant
                len == self.results_ordered@.len(),
                pos <= len,
                forall|j: int| 0 <= j < pos ==> self.results_ordered@[j].tse <= result.tse,
            decreases len - pos,
        {
            pos = pos + 1;
        }
        proof {
            lemma_insert_position_is(self.results_ordered@, result.tse, pos as int);
        }
        self.results_ordered.insert(pos, result);
        if self.results_ordered.len() == self.capacity as usize {
            let worst = self.results_ordered[self.results_ordered.len() - 1].tse;
            self.tse_threshold = worst.saturating_sub(1);
        }
    }

    /// Whether a candidate ever arrived when the collector was full, so that
    /// not every candidate that was offered is among the matches.
    pub fn has_overflown(&self) -> (overflown: bool)
        ensures
            overflown == self@.overflown,
    {
        self.overflown
    }

    /// Gives back the memory that the list of matches has reserved beyond its
    /// length.
    fn shrink(&mut self)
        ensures
            final(self)@ == old(self)@,
    {
        shrink_to_fit(&mut self.results_ordered);
    }

    /// Compacts the collector once the search is over. What it holds stays as
    /// it is, so doing it again changes nothing.
    pub fn finalize(self) -> (results: SearchResults)
        ensures
            results@ == self@,
    {
        let mut results = self;
        results.shrink();
        results
    }

    /// The kept matches, best first.
    pub fn get_matches(&self) -> (matches: &[SearchResult])
        ensures
            matches@ == self@.matches,
    {
        self.results_ordered.as_slice()
    }

    /// The largest error with which a candidate is still of interest.
    pub fn get_tse_threshold(&self) -> (ceiling: u64)
        ensures
            ceiling == self@.ceiling,
    {
        self.tse_threshold
    }

    pub fn get_template_height(&self) -> (height: u32)
        ensures
            height == self@.template_height,
    {
        self.template_height
    }

    pub fn get_template_width(&self) -> (width: u32)
        ensures
            width == self@.template_width,
    {
        self.template_width
    }

    pub fn get_main_height(&self) -> (height: u32)
        ensures
            height == self@.main_height,
    {
        self.main_height
    }

    pub fn get_main_width(&self) -> (width: u32)
        ensures
            width == self@.main_width,
    {
        self.main_width
    }

    /// The number of channel samples of the search image, by which a total
    /// squared error is divided for the mean.
    pub fn get_square_errors_divisor(&self) -> (divisor: u32)
        ensures
            divisor == self@.squared_error_divisor,
    {
        self.squared_error_divisor
    }
}

} // verus!
