//! The part of the log that a model still reads: what follows the most recent boundary.
use crate::session_log::{rows_view, Row, SessionLogEntry};
use vstd::prelude::*;
use vstd::slice::slice_subrange;

verus! {

/// A header or a compaction: what stands before it is no longer read.
pub open spec fn is_boundary(e: SessionLogEntry) -> bool {
    e is Header || e is Compress
}

/// The last boundary, if there is one.
pub open spec fn last_boundary(rows: Seq<(u64, SessionLogEntry)>) -> Option<int>
    decreases rows.len(),
{
    if rows.len() == 0 {
        None
    } else if is_boundary(rows.last().1) {
        Some(rows.len() - 1)
    } else {
        last_boundary(rows.drop_last())
    }
}

/// Where the active window starts: behind the last compaction, or at the last header, or at the
/// start of the log.
pub open spec fn window_start(rows: Seq<(u64, SessionLogEntry)>) -> int {
    match last_boundary(rows) {
        Some(b) => if rows[b].1 is Compress {
            b + 1
        } else {
            b
        },
        None => 0,
    }
}

/// The active window.
pub open spec fn window_of(rows: Seq<(u64, SessionLogEntry)>) -> Seq<(u64, SessionLogEntry)> {
    rows.skip(window_start(rows))
}

/// The active window of a log whose boundary is itself its first row.
pub open spec fn headed_window_of(rows: Seq<(u64, SessionLogEntry)>) -> Seq<(u64, SessionLogEntry)> {
    match last_boundary(rows) {
        Some(b) => rows.skip(b),
        None => rows,
    }
}

/// The places of the rows that a test accepts, in order.
pub open spec fn places(
    rows: Seq<(u64, SessionLogEntry)>,
    test: spec_fn((u64, SessionLogEntry)) -> bool,
) -> Seq<usize>
    decreases rows.len(),
{
    if rows.len() == 0 {
        Seq::empty()
    } else {
        let before = places(rows.drop_last(), test);
        if test(rows.last()) {
            before.push((rows.len() - 1) as usize)
        } else {
            before
        }
    }
}

/// Rows at one sequence number.
pub open spec fn at_seq(seq: u64) -> spec_fn((u64, SessionLogEntry)) -> bool {
    |r: (u64, SessionLogEntry)| r.0 == seq
}

/// Messages of the user at one sequence number.
pub open spec fn user_at_seq(seq: u64) -> spec_fn((u64, SessionLogEntry)) -> bool {
    |r: (u64, SessionLogEntry)| r.0 == seq && r.1.is_user_message()
}

/// The rows of the active window, and where its boundary stood in the log.
#[derive(Clone, Copy, Debug)]
pub struct ActiveContextWindow<'w, 'a> {
    entries: &'w [Row<'a>],
    boundary: Option<usize>,
}

impl<'w, 'a> ActiveContextWindow<'w, 'a> {
    /// The rows of the window.
    pub closed spec fn rows(&self) -> Seq<(u64, SessionLogEntry)> {
        rows_view(self.entries@)
    }

    /// Where the boundary stood in the log.
    pub closed spec fn boundary(&self) -> Option<usize> {
        self.boundary
    }

    pub fn boundary_index(&self) -> (r: Option<usize>)
        ensures
            r == self.boundary(),
    {
        self.boundary
    }

    pub fn entries(&self) -> (r: &'w [Row<'a>])
        ensures
            rows_view(r@) == self.rows(),
    {
        self.entries
    }

    /// The places in the window of the rows at a sequence number of the log.
    pub fn logical_indices_for_physical(&self, physical_seq: u64) -> (r: Vec<usize>)
        ensures
            r@ == places(self.rows(), at_seq(physical_seq)),
    {
        let ghost rows = self.rows();
        let mut r: Vec<usize> = Vec::new();
        let mut i: usize = 0;
        while i < self.entries.len()
            invariant
                i <= self.entries@.len(),
                rows == rows_view(self.entries@),
                r@ == places(rows.take(i as int), at_seq(physical_seq)),
            decreases self.entries@.len() - i,
        {
            assert(rows.take(i + 1).drop_last() =~= rows.take(i as int));
            assert(rows[i as int] == (self.entries@[i as int].0, *self.entries@[i as int].1));
            if self.entries[i].0 == physical_seq {
                r.push(i);
            }
            i += 1;
        }
        assert(rows.take(i as int) =~= rows);
        r
    }

    /// The places in the window of the user's messages at a sequence number of the log.
    pub fn user_indices_for_physical(&self, physical_seq: u64) -> (r: Vec<usize>)
        ensures
            r@ == places(self.rows(), user_at_seq(physical_seq)),
    {
        let ghost rows = self.rows();
        let mut r: Vec<usize> = Vec::new();
        let mut i: usize = 0;
        while i < self.entries.len()
            invariant
                i <= self.entries@.len(),
                rows == rows_view(self.entries@),
                r@ == places(rows.take(i as int), user_at_seq(physical_seq)),
            decreases self.entries@.len() - i,
        {
            assert(rows.take(i + 1).drop_last() =~= rows.take(i as int));
            assert(rows[i as int] == (self.entries@[i as int].0, *self.entries@[i as int].1));
            if self.entries[i].0 == physical_seq && self.entries[i].1.user_message() {
                r.push(i);
            }
            i += 1;
        }
        assert(rows.take(i as int) =~= rows);
        r
    }
}

/// Finds the last boundary.
pub fn find_boundary(rows: &[Row]) -> (r: Option<usize>)
    ensures
        match r {
            Some(b) => last_boundary(rows_view(rows@)) == Some(b as int) && b < rows@.len(),
            None => last_boundary(rows_view(rows@)) is None,
        },
{
    let ghost all = rows_view(rows@);
    let mut i: usize = rows.len();
    assert(all.take(i as int) =~= all);
    while i > 0
        invariant
            i <= rows@.len(),
            all == rows_view(rows@),
            last_boundary(all) == last_boundary(all.take(i as int)),
        decreases i,
    {
        assert(all.take(i as int).drop_last() =~= all.take(i - 1));
        assert(all.take(i as int).last() == all[i - 1]);
        match rows[i - 1].1 {
            SessionLogEntry::Header { .. } | SessionLogEntry::Compress { .. } => {
                return Some(i - 1);
            },
            _ => {},
        }
        i -= 1;
    }
    None
}

/// A last boundary is a boundary, and none stands behind it.
pub proof fn last_boundary_bounds(rows: Seq<(u64, SessionLogEntry)>)
    ensures
        last_boundary(rows) matches Some(b) ==> 0 <= b < rows.len() && is_boundary(rows[b].1)
            && forall|i: int| b < i < rows.len() ==> !is_boundary((#[trigger] rows[i]).1),
        last_boundary(rows) is None ==> forall|i: int|
            0 <= i < rows.len() ==> !is_boundary((#[trigger] rows[i]).1),
    decreases rows.len(),
{
    if rows.len() > 0 && !is_boundary(rows.last().1) {
        let t = rows.drop_last();
        last_boundary_bounds(t);
        assert forall|i: int|
            (last_boundary(rows) matches Some(b) ==> b < i) && 0 <= i < rows.len() implies !is_boundary(
            (#[trigger] rows[i]).1,
        ) by {
            if i < t.len() {
                assert(t[i] == rows[i]);
            }
        }
    }
}

/// The active window of the effective rows.
pub fn active_context_window<'w, 'a>(rows: &'w [Row<'a>]) -> (w: ActiveContextWindow<'w, 'a>)
    ensures
        w.rows() == window_of(rows_view(rows@)),
        match w.boundary() {
            Some(b) => last_boundary(rows_view(rows@)) == Some(b as int),
            None => last_boundary(rows_view(rows@)) is None,
        },
{
    let boundary = find_boundary(rows);
    let start: usize = match boundary {
        Some(b) => match rows[b].1 {
            SessionLogEntry::Compress { .. } => b + 1,
            _ => b,
        },
        None => 0,
    };
    let entries = slice_subrange(rows, start, rows.len());
    assert(rows_view(entries@) =~= window_of(rows_view(rows@)));
    ActiveContextWindow { entries, boundary }
}

/// The active window of a log that opens with a header: the boundary is its first row.
pub fn headed_context_window<'w, 'a>(rows: &'w [Row<'a>]) -> (w: ActiveContextWindow<'w, 'a>)
    ensures
        w.rows() == headed_window_of(rows_view(rows@)),
        match w.boundary() {
            Some(b) => last_boundary(rows_view(rows@)) == Some(b as int),
            None => last_boundary(rows_view(rows@)) is None,
        },
{
    let boundary = find_boundary(rows);
    let start: usize = match boundary {
        Some(b) => b,
        None => 0,
    };
    let entries = slice_subrange(rows, start, rows.len());
    assert(rows_view(entries@) =~= headed_window_of(rows_view(rows@)));
    ActiveContextWindow { entries, boundary }
}

/// Exactly headers and compactions part what is read from what is not.
pub proof fn law_boundaries_are_headers_and_compactions(e: SessionLogEntry)
    ensures
        is_boundary(e) <==> e is Header || e is Compress,
{
}

/// What is still read starts behind the last compaction, or at the last header, and reaches to the
/// end of the log. Where the log opens with a boundary that is itself a row, it starts at the
/// boundary.
pub proof fn law_window_reaches_from_the_last_boundary_to_the_end(
    rows: Seq<(u64, SessionLogEntry)>,
    at: int,
)
    requires
        0 <= at < rows.len(),
        rows[at].1 is Header || rows[at].1 is Compress,
        forall|i: int|
            at < i < rows.len() ==> !((#[trigger] rows[i]).1 is Header) && !(
            rows[i].1 is Compress),
    ensures
        last_boundary(rows) == Some(at),
        window_of(rows) == rows.subrange(
            if rows[at].1 is Compress {
                at + 1
            } else {
                at
            },
            rows.len() as int,
        ),
        headed_window_of(rows) == rows.subrange(at, rows.len() as int),
{
    last_boundary_bounds(rows);
    match last_boundary(rows) {
        Some(b) => {
            if b < at {
                assert(!is_boundary(rows[at].1));
            }
            if at < b {
                assert(!(rows[b].1 is Header) && !(rows[b].1 is Compress));
            }
        },
        None => {
            assert(!is_boundary(rows[at].1));
        },
    }
}

/// A log without a boundary is read from its first row.
pub proof fn law_log_without_boundary_is_read_whole(rows: Seq<(u64, SessionLogEntry)>)
    requires
        forall|i: int|
            0 <= i < rows.len() ==> !((#[trigger] rows[i]).1 is Header) && !(
            rows[i].1 is Compress),
    ensures
        last_boundary(rows) is None,
        window_of(rows) == rows,
        headed_window_of(rows) == rows,
{
    last_boundary_bounds(rows);
    if let Some(b) = last_boundary(rows) {
        assert(!(rows[b].1 is Header) && !(rows[b].1 is Compress));
    }
    assert(window_of(rows) =~= rows);
}

/// The places of the rows that a test accepts rise, and are exactly those of accepted rows.
#[verifier::spinoff_prover]
#[verifier::rlimit(40)]
pub proof fn law_places_are_those_of_accepted_rows(
    rows: Seq<(u64, SessionLogEntry)>,
    test: spec_fn((u64, SessionLogEntry)) -> bool,
)
    requires
        rows.len() <= usize::MAX,
    ensures
        forall|k: int|
            0 <= k < places(rows, test).len() ==> #[trigger] places(rows, test)[k] < rows.len(),
        forall|k: int, l: int|
            0 <= k < l < places(rows, test).len() ==> #[trigger] places(rows, test)[k]
                < #[trigger] places(rows, test)[l],
        forall|i: usize|
            #![trigger places(rows, test).contains(i)]
            places(rows, test).contains(i) <==> i < rows.len() && test(rows[i as int]),
    decreases rows.len(),
{
    if rows.len() > 0 {
        let t = rows.drop_last();
        law_places_are_those_of_accepted_rows(t, test);
        let p = places(rows, test);
        let q = places(t, test);
        assert forall|k: int| 0 <= k < p.len() implies #[trigger] p[k] < rows.len() by {
            if k < q.len() {
                assert(p[k] == q[k]);
            }
        }
        assert forall|k: int, l: int| 0 <= k < l < p.len() implies #[trigger] p[k]
            < #[trigger] p[l] by {
            assert(p[k] == q[k]);
            if l < q.len() {
                assert(p[l] == q[l]);
            }
        }
        assert forall|i: usize| #![trigger p.contains(i)] p.contains(i) <==> i < rows.len() && test(
            rows[i as int],
        ) by {
            if p.contains(i) {
                let k = choose|k: int| 0 <= k < p.len() && p[k] == i;
                if k < q.len() {
                    assert(q[k] == i);
                    assert(q.contains(i));
                }
            }
            if i < rows.len() && test(rows[i as int]) {
                if i < t.len() {
                    assert(t[i as int] == rows[i as int]);
                    assert(q.contains(i));
                    let k = choose|k: int| 0 <= k < q.len() && q[k] == i;
                    assert(p[k] == i);
                } else {
                    assert(p[q.len() as int] == i);
                }
            }
        }
    }
}

/// A row is looked up by its sequence number, and by who speaks where that is asked for.
pub proof fn law_rows_are_looked_up_by_their_sequence(row: (u64, SessionLogEntry), seq: u64)
    ensures
        at_seq(seq)(row) <==> row.0 == seq,
        user_at_seq(seq)(row) <==> row.0 == seq && row.1.is_user_message(),
{
}

} // verus!
