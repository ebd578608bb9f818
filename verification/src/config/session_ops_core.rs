//! What may be cut out of a session, and to where it may be rewound.
use crate::session_log::SessionLogEntry;
use crate::text::{decimal, decimal_of};
use crate::window::is_boundary;
use vstd::prelude::*;
use vstd::string::*;

verus! {

/// Why a range of a session cannot be edited.
#[derive(Clone, Copy, Debug, PartialEq, Eq, Structural)]
pub enum RangeError {
    /// The range starts at the results of a round whose calls stand outside it.
    OrphanedResults { seq: usize },
    /// The header stays.
    Header,
    /// What stands at or before the last boundary stays.
    Protected,
    /// The range is empty, or reaches beyond the log.
    OutOfRange,
    /// There is no such entry to rewind to.
    RewindOutOfRange { seq: usize, count: usize },
    /// What stands at or before the last boundary cannot be rewound to.
    RewindProtected,
    /// The calls of a round would lose their results.
    OrphanedCalls { seq: usize },
}

/// One less, but not below zero.
pub open spec fn one_less(n: usize) -> nat {
    if n > 0 {
        (n - 1) as nat
    } else {
        0
    }
}

impl RangeError {
    pub open spec fn text(self) -> Seq<char> {
        match self {
            RangeError::OrphanedResults { seq } => "Sequence "@ + decimal(seq as nat)
                + " is a tool-results entry; its paired tool-calls entry ("@ + decimal(
                one_less(seq),
            ) + ") would be outside the range. Expand your range to include it."@,
            RangeError::Header => "Cannot edit or delete the session header (sequence 0)"@,
            RangeError::Protected =>
            "Cannot delete protected session history at or before most-recent boundary"@,
            RangeError::OutOfRange => "Sequence numbers out of range"@,
            RangeError::RewindOutOfRange { seq, count } => "Sequence number "@ + decimal(
                seq as nat,
            ) + " is out of range (log has "@ + decimal(count as nat) + " entries)"@,
            RangeError::RewindProtected => "Cannot rewind to or before most-recent boundary"@,
            RangeError::OrphanedCalls { seq } => "Sequence "@ + decimal(seq as nat)
                + " is a tool-calls entry paired with tool-results at "@ + decimal(
                (seq + 1) as nat,
            ) + "; rewinding here would orphan the tool calls. Use "@ + decimal((seq + 1) as nat)
                + " to keep the pair or "@ + decimal(one_less(seq)) + " to exclude it."@,
        }
    }

    /// What the user is told.
    pub fn message(&self) -> (r: String)
        requires
            self matches RangeError::OrphanedCalls { seq } ==> seq < usize::MAX,
        ensures
            r@ == self.text(),
            r@ == match *self {
                RangeError::OrphanedResults { seq } => "Sequence "@ + decimal(seq as nat)
                    + " is a tool-results entry; its paired tool-calls entry ("@ + decimal((if seq > 0 {
                    (seq - 1) as nat
                } else {
                    0nat
                }),
                ) + ") would be outside the range. Expand your range to include it."@,
                RangeError::Header => "Cannot edit or delete the session header (sequence 0)"@,
                RangeError::Protected =>
                "Cannot delete protected session history at or before most-recent boundary"@,
                RangeError::OutOfRange => "Sequence numbers out of range"@,
                RangeError::RewindOutOfRange { seq, count } => "Sequence number "@ + decimal(
                    seq as nat,
                ) + " is out of range (log has "@ + decimal(count as nat) + " entries)"@,
                RangeError::RewindProtected => "Cannot rewind to or before most-recent boundary"@,
                RangeError::OrphanedCalls { seq } => "Sequence "@ + decimal(seq as nat)
                    + " is a tool-calls entry paired with tool-results at "@ + decimal(
                    (seq + 1) as nat,
                ) + "; rewinding here would orphan the tool calls. Use "@ + decimal((seq + 1) as nat)
                    + " to keep the pair or "@ + decimal((if seq > 0 {
                    (seq - 1) as nat
                } else {
                    0nat
                })) + " to exclude it."@,
            },
    {
        match self {
            RangeError::OrphanedResults { seq } => {
                let mut r = String::from_str("Sequence ");
                r.append(decimal_of(*seq as u64).as_str());
                r.append(" is a tool-results entry; its paired tool-calls entry (");
                r.append(decimal_of(less_one(*seq)).as_str());
                r.append(") would be outside the range. Expand your range to include it.");
                r
            },
            RangeError::Header => String::from_str(
                "Cannot edit or delete the session header (sequence 0)",
            ),
            RangeError::Protected => String::from_str(
                "Cannot delete protected session history at or before most-recent boundary",
            ),
            RangeError::OutOfRange => String::from_str("Sequence numbers out of range"),
            RangeError::RewindOutOfRange { seq, count } => {
                let mut r = String::from_str("Sequence number ");
                r.append(decimal_of(*seq as u64).as_str());
                r.append(" is out of range (log has ");
                r.append(decimal_of(*count as u64).as_str());
                r.append(" entries)");
                r
            },
            RangeError::RewindProtected => String::from_str(
                "Cannot rewind to or before most-recent boundary",
            ),
            RangeError::OrphanedCalls { seq } => {
                let next = decimal_of((*seq + 1) as u64);
                let mut r = String::from_str("Sequence ");
                r.append(decimal_of(*seq as u64).as_str());
                r.append(" is a tool-calls entry paired with tool-results at ");
                r.append(next.as_str());
                r.append("; rewinding here would orphan the tool calls. Use ");
                r.append(next.as_str());
                r.append(" to keep the pair or ");
                r.append(decimal_of(less_one(*seq)).as_str());
                r.append(" to exclude it.");
                r
            },
        }
    }
}

fn less_one(n: usize) -> (r: u64)
    ensures
        r == one_less(n),
{
    if n > 0 {
        (n - 1) as u64
    } else {
        0
    }
}

/// Whether the document at `i` reads as the calls of a round.
pub open spec fn is_calls(documents: Seq<Option<SessionLogEntry>>, i: int) -> bool {
    0 <= i < documents.len() && documents[i] is Some && documents[i]->0 is ToolCalls
}

/// Whether the document at `i` reads as the results of a round.
pub open spec fn is_results(documents: Seq<Option<SessionLogEntry>>, i: int) -> bool {
    0 <= i < documents.len() && documents[i] is Some && documents[i]->0 is ToolResults
}

fn reads_as_calls(documents: &[Option<SessionLogEntry>], i: usize) -> (r: bool)
    ensures
        r == is_calls(documents@, i as int),
{
    if i >= documents.len() {
        return false;
    }
    match &documents[i] {
        Some(SessionLogEntry::ToolCalls { .. }) => true,
        _ => false,
    }
}

fn reads_as_results(documents: &[Option<SessionLogEntry>], i: usize) -> (r: bool)
    ensures
        r == is_results(documents@, i as int),
{
    if i >= documents.len() {
        return false;
    }
    match &documents[i] {
        Some(SessionLogEntry::ToolResults { .. }) => true,
        _ => false,
    }
}

/// The end of a range that does not part the calls of a round from their results.
pub open spec fn paired_end(documents: Seq<Option<SessionLogEntry>>, to: usize) -> usize {
    if is_calls(documents, to as int) && is_results(documents, to + 1) {
        (to + 1) as usize
    } else {
        to
    }
}

/// Widens a range so that it does not part the calls of a round from their results. A document
/// that does not read as an entry is none of either.
pub fn adjust_range_for_tool_pairs(
    from: usize,
    to: usize,
    documents: &[Option<SessionLogEntry>],
) -> (r: Result<(usize, usize), RangeError>)
    ensures
        r == if is_results(documents@, from as int) {
            Err(RangeError::OrphanedResults { seq: from })
        } else {
            Ok::<(usize, usize), RangeError>((from, paired_end(documents@, to)))
        },
{
    if reads_as_results(documents, from) {
        return Err(RangeError::OrphanedResults { seq: from });
    }
    let count: usize = documents.len();
    if reads_as_calls(documents, to) && to < count - 1 && reads_as_results(documents, to + 1) {
        Ok((from, to + 1))
    } else {
        Ok((from, to))
    }
}

/// The last header or compaction, if there is one.
pub open spec fn boundary_of(entries: Seq<SessionLogEntry>) -> Option<int>
    decreases entries.len(),
{
    if entries.len() == 0 {
        None
    } else if is_boundary(entries.last()) {
        Some(entries.len() - 1)
    } else {
        boundary_of(entries.drop_last())
    }
}

/// The last header or compaction, if there is one.
pub fn boundary_index(entries: &[SessionLogEntry]) -> (r: Option<usize>)
    ensures
        match r {
            Some(b) => boundary_of(entries@) == Some(b as int) && b < entries@.len(),
            None => boundary_of(entries@) is None,
        },
{
    let mut i: usize = entries.len();
    assert(entries@.take(i as int) =~= entries@);
    while i > 0
        invariant
            i <= entries@.len(),
            boundary_of(entries@) == boundary_of(entries@.take(i as int)),
        decreases i,
    {
        assert(entries@.take(i as int).drop_last() =~= entries@.take(i - 1));
        assert(entries@.take(i as int).last() == entries@[i - 1]);
        match &entries[i - 1] {
            SessionLogEntry::Header { .. } | SessionLogEntry::Compress { .. } => {
                return Some(i - 1);
            },
            _ => {},
        }
        i -= 1;
    }
    None
}

/// Whether an entry stands at or before the last boundary.
pub open spec fn is_protected(entries: Seq<SessionLogEntry>, at: int) -> bool {
    boundary_of(entries) matches Some(b) && at <= b
}

/// Why an entry cannot be deleted, if it cannot.
pub open spec fn protection(entries: Seq<SessionLogEntry>, from: usize) -> Option<RangeError> {
    if from < entries.len() && entries[from as int] is Header {
        Some(RangeError::Header)
    } else if (from < entries.len() && entries[from as int] is Compress) || is_protected(
        entries,
        from as int,
    ) {
        Some(RangeError::Protected)
    } else {
        None
    }
}

/// Refuses to delete the header, a compaction, or what stands before one.
pub fn validate_not_deleting_protected(entries: &[SessionLogEntry], from: usize) -> (r: Result<
    (),
    RangeError,
>)
    ensures
        r == match protection(entries@, from) {
            Some(e) => Err(e),
            None => Ok::<(), RangeError>(()),
        },
{
    if from < entries.len() {
        match &entries[from] {
            SessionLogEntry::Header { .. } => {
                return Err(RangeError::Header);
            },
            SessionLogEntry::Compress { .. } => {
                return Err(RangeError::Protected);
            },
            _ => {},
        }
    }
    match boundary_index(entries) {
        Some(b) => if from <= b {
            Err(RangeError::Protected)
        } else {
            Ok(())
        },
        None => Ok(()),
    }
}

/// The range that is deleted when a user asks for one, or why none is.
pub open spec fn delete_range(
    from: usize,
    to: usize,
    entries: Seq<SessionLogEntry>,
    documents: Seq<Option<SessionLogEntry>>,
) -> Result<(usize, usize), RangeError> {
    match protection(entries, from) {
        Some(e) => Err(e),
        None => if to >= documents.len() {
            Err(RangeError::OutOfRange)
        } else if is_results(documents, from as int) {
            Err(RangeError::OrphanedResults { seq: from })
        } else if from > paired_end(documents, to) {
            Err(RangeError::OutOfRange)
        } else {
            Ok((from, paired_end(documents, to)))
        },
    }
}

/// The range that is deleted when a user asks for one, or why none is.
pub fn compute_delete_range(
    from: usize,
    to: usize,
    entries: &[SessionLogEntry],
    documents: &[Option<SessionLogEntry>],
) -> (r: Result<(usize, usize), RangeError>)
    ensures
        r == delete_range(from, to, entries@, documents@),
{
    match validate_not_deleting_protected(entries, from) {
        Err(e) => {
            return Err(e);
        },
        Ok(_) => {},
    }
    if to >= documents.len() {
        return Err(RangeError::OutOfRange);
    }
    match adjust_range_for_tool_pairs(from, to, documents) {
        Err(e) => Err(e),
        Ok((from, to)) => if from > to || to >= documents.len() {
            Err(RangeError::OutOfRange)
        } else {
            Ok((from, to))
        },
    }
}

/// The entry that a session is rewound to, or why it is not.
pub open spec fn rewind_point(
    after_seq: usize,
    log_entry_count: usize,
    entries: Seq<SessionLogEntry>,
) -> Result<usize, RangeError> {
    if after_seq >= log_entry_count {
        Err(RangeError::RewindOutOfRange { seq: after_seq, count: log_entry_count })
    } else if is_protected(entries, after_seq as int) {
        Err(RangeError::RewindProtected)
    } else if after_seq + 1 < entries.len() && entries[after_seq as int] is ToolCalls
        && entries[after_seq + 1] is ToolResults {
        Err(RangeError::OrphanedCalls { seq: after_seq })
    } else {
        Ok(after_seq)
    }
}

/// The entry that a session is rewound to, or why it is not.
pub fn compute_rewind_point(
    after_seq: usize,
    log_entry_count: usize,
    entries: &[SessionLogEntry],
) -> (r: Result<usize, RangeError>)
    ensures
        r == rewind_point(after_seq, log_entry_count, entries@),
{
    if after_seq >= log_entry_count {
        return Err(RangeError::RewindOutOfRange { seq: after_seq, count: log_entry_count });
    }
    match boundary_index(entries) {
        Some(b) => if after_seq <= b {
            return Err(RangeError::RewindProtected);
        },
        None => {},
    }
    if after_seq < entries.len() && after_seq + 1 < entries.len() {
        match (&entries[after_seq], &entries[after_seq + 1]) {
            (SessionLogEntry::ToolCalls { .. }, SessionLogEntry::ToolResults { .. }) => {
                return Err(RangeError::OrphanedCalls { seq: after_seq });
            },
            _ => {},
        }
    }
    Ok(after_seq)
}

/// A range that is deleted keeps the last boundary and everything before it.
pub proof fn law_deletion_spares_the_boundary(
    from: usize,
    to: usize,
    entries: Seq<SessionLogEntry>,
    documents: Seq<Option<SessionLogEntry>>,
)
    requires
        documents.len() <= usize::MAX,
        delete_range(from, to, entries, documents) is Ok,
    ensures
        ({
            let (first, last) = delete_range(from, to, entries, documents)->Ok_0;
            &&& first == from
            &&& to <= last <= to + 1
            &&& first <= last < documents.len()
            &&& boundary_of(entries) matches Some(b) ==> b < first
        }),
{
}

/// A range that is deleted never parts the calls of a round from the results that follow them.
pub proof fn law_deletion_keeps_rounds_whole(
    from: usize,
    to: usize,
    entries: Seq<SessionLogEntry>,
    documents: Seq<Option<SessionLogEntry>>,
)
    requires
        documents.len() <= usize::MAX,
        delete_range(from, to, entries, documents) is Ok,
    ensures
        ({
            let (first, last) = delete_range(from, to, entries, documents)->Ok_0;
            &&& !is_results(documents, first as int)
            &&& !(is_calls(documents, last as int) && is_results(documents, last + 1))
        }),
{
}

/// A session is rewound to exactly the entry that was asked for, behind the last boundary and
/// never between the calls of a round and their results.
pub proof fn law_rewind_keeps_rounds_whole(
    after_seq: usize,
    log_entry_count: usize,
    entries: Seq<SessionLogEntry>,
)
    requires
        rewind_point(after_seq, log_entry_count, entries) is Ok,
    ensures
        rewind_point(after_seq, log_entry_count, entries)->Ok_0 == after_seq,
        after_seq < log_entry_count,
        boundary_of(entries) matches Some(b) ==> b < after_seq,
        !(after_seq + 1 < entries.len() && entries[after_seq as int] is ToolCalls
            && entries[after_seq + 1] is ToolResults),
{
}

/// A document is one of calls, or of results, where it can be read and is an entry of that kind.
pub proof fn law_documents_are_what_they_read_as(documents: Seq<Option<SessionLogEntry>>, i: int)
    ensures
        is_calls(documents, i) <==> 0 <= i < documents.len() && (documents[i] matches Some(e)
            && e is ToolCalls),
        is_results(documents, i) <==> 0 <= i < documents.len() && (documents[i] matches Some(e)
            && e is ToolResults),
{
}

/// A range that ends in calls is stretched over their results, and else stays.
pub proof fn law_range_takes_results_with_their_calls(
    documents: Seq<Option<SessionLogEntry>>,
    to: usize,
)
    requires
        documents.len() <= usize::MAX,
    ensures
        is_calls(documents, to as int) && is_results(documents, to + 1) ==> paired_end(documents, to)
            == to + 1,
        !is_calls(documents, to as int) || !is_results(documents, to + 1) ==> paired_end(
            documents,
            to,
        ) == to,
{
}

/// The boundary of a log is its last header or compaction: one stands there and none behind it.
#[verifier::spinoff_prover]
#[verifier::rlimit(40)]
pub proof fn law_boundary_is_the_last_one(entries: Seq<SessionLogEntry>, b: int)
    ensures
        boundary_of(entries) == Some(b) <==> 0 <= b < entries.len() && (entries[b] is Header
            || entries[b] is Compress) && forall|i: int|
            b < i < entries.len() ==> !((#[trigger] entries[i]) is Header) && !(
            entries[i] is Compress),
        boundary_of(entries) is None <==> forall|i: int|
            0 <= i < entries.len() ==> !((#[trigger] entries[i]) is Header) && !(
            entries[i] is Compress),
    decreases entries.len(),
{
    if entries.len() > 0 {
        let t = entries.drop_last();
        let last = entries.len() - 1;
        law_boundary_is_the_last_one(t, b);
        assert(entries[last] == entries.last());
        assert forall|i: int| 0 <= i < t.len() implies #[trigger] entries[i] == t[i] by {}
        if !is_boundary(entries.last()) {
            if boundary_of(t) is Some {
                let k = choose|k: int|
                    0 <= k < t.len() && ((#[trigger] t[k]) is Header || t[k] is Compress);
                assert(entries[k] == t[k]);
            }
            if boundary_of(t) == Some(b) {
                assert forall|i: int| b < i < entries.len() implies !(
                (#[trigger] entries[i]) is Header) && !(entries[i] is Compress) by {
                    if i < last {
                        assert(t[i] == entries[i]);
                    }
                }
            }
        }
    }
}

/// A place is protected at the boundary and before it.
pub proof fn law_history_is_protected_up_to_the_boundary(entries: Seq<SessionLogEntry>, at: int)
    ensures
        is_protected(entries, at) <==> exists|b: int|
            0 <= b < entries.len() && at <= b && ((#[trigger] entries[b]) is Header
                || entries[b] is Compress),
{
    match boundary_of(entries) {
        Some(b) => {
            law_boundary_is_the_last_one(entries, b);
            if exists|k: int|
                0 <= k < entries.len() && at <= k && ((#[trigger] entries[k]) is Header
                    || entries[k] is Compress) {
                let k = choose|k: int|
                    0 <= k < entries.len() && at <= k && ((#[trigger] entries[k]) is Header
                        || entries[k] is Compress);
                if k > b {
                    assert(!(entries[k] is Header));
                }
            }
            assert(entries[b] is Header || entries[b] is Compress);
        },
        None => {
            law_boundary_is_the_last_one(entries, 0);
        },
    }
}

/// A range is refused for the first of these: it starts at a header; it starts at a compaction or
/// at a place that is protected; it ends outside the log; it starts at results; it ends before it
/// starts. A range that is not refused is taken from its start.
pub proof fn law_deletion_is_refused_for_the_first_reason(
    from: usize,
    to: usize,
    entries: Seq<SessionLogEntry>,
    documents: Seq<Option<SessionLogEntry>>,
)
    requires
        documents.len() <= usize::MAX,
    ensures
        ({
            let r = delete_range(from, to, entries, documents);
            let header = from < entries.len() && entries[from as int] is Header;
            let guarded = is_protected(entries, from as int);
            &&& header <==> r == Err::<(usize, usize), RangeError>(RangeError::Header)
            &&& !header && guarded <==> r == Err::<(usize, usize), RangeError>(
                RangeError::Protected,
            )
            &&& !header && !guarded && to >= documents.len() ==> r == Err::<
                (usize, usize),
                RangeError,
            >(RangeError::OutOfRange)
            &&& !header && !guarded && to < documents.len() && is_results(documents, from as int)
                <==> r == Err::<(usize, usize), RangeError>(
                RangeError::OrphanedResults { seq: from },
            )
            &&& !header && !guarded && to < documents.len() && !is_results(documents, from as int)
                && from > paired_end(documents, to) ==> r == Err::<(usize, usize), RangeError>(
                RangeError::OutOfRange,
            )
            &&& r is Ok <==> !header && !guarded && to < documents.len() && !is_results(
                documents,
                from as int,
            ) && from <= paired_end(documents, to)
            &&& r matches Ok(range) ==> range == (from, paired_end(documents, to))
        }),
        protection(entries, from) is None <==> !is_protected(entries, from as int),
{
    if from < entries.len() && (entries[from as int] is Compress || entries[from as int] is Header) {
        law_history_is_protected_up_to_the_boundary(entries, from as int);
        assert(is_protected(entries, from as int));
    }
}

/// A rewind is refused for the first of these: it goes to a place outside the log; to a place that
/// is protected; to calls whose results would be lost.
pub proof fn law_rewind_is_refused_for_the_first_reason(
    after_seq: usize,
    count: usize,
    entries: Seq<SessionLogEntry>,
)
    ensures
        ({
            let r = rewind_point(after_seq, count, entries);
            let guarded = is_protected(entries, after_seq as int);
            let parts = after_seq + 1 < entries.len() && entries[after_seq as int] is ToolCalls
                && entries[after_seq + 1] is ToolResults;
            &&& after_seq >= count <==> r == Err::<usize, RangeError>(
                RangeError::RewindOutOfRange { seq: after_seq, count },
            )
            &&& after_seq < count && guarded <==> r == Err::<usize, RangeError>(
                RangeError::RewindProtected,
            )
            &&& after_seq < count && !guarded && parts <==> r == Err::<usize, RangeError>(
                RangeError::OrphanedCalls { seq: after_seq },
            )
            &&& after_seq < count && !guarded && !parts <==> r == Ok::<usize, RangeError>(after_seq)
        }),
{
}

} // verus!
