//! Edits and rewinds: what the log says once they are applied.
use crate::session_log::{rows_of, rows_view, Replacement, Row, SessionLogEntry};
use vstd::prelude::*;

verus! {

/// Why a log has no effective form.
#[derive(Clone, Copy, Debug, PartialEq, Eq, Structural)]
pub enum MutationError {
    /// The edit at this sequence number holds a text that does not read as an entry.
    MalformedReplacement(u64),
}

/// Whether the entry changes what stands before it.
pub open spec fn is_mutation(e: SessionLogEntry) -> bool {
    e is EditEntries || e is Rewind
}

/// The rows with a sequence number outside `from ..= to`.
pub open spec fn outside(
    rows: Seq<(u64, SessionLogEntry)>,
    from: nat,
    to: nat,
) -> Seq<(u64, SessionLogEntry)>
    decreases rows.len(),
{
    if rows.len() == 0 {
        rows
    } else {
        let before = outside(rows.drop_last(), from, to);
        if from <= rows.last().0 <= to {
            before
        } else {
            before.push(rows.last())
        }
    }
}

/// The first row with a sequence number inside `from ..= to`, or the length.
pub open spec fn first_inside(rows: Seq<(u64, SessionLogEntry)>, from: nat, to: nat) -> int
    decreases rows.len(),
{
    if rows.len() == 0 {
        0
    } else {
        let before = first_inside(rows.drop_last(), from, to);
        if before < rows.len() - 1 {
            before
        } else if from <= rows.last().0 <= to {
            rows.len() - 1
        } else {
            rows.len() as int
        }
    }
}

/// Whether every replacement reads as an entry.
pub open spec fn well_formed(replacements: Seq<Replacement>) -> bool {
    forall|i: int| 0 <= i < replacements.len() ==> #[trigger] replacements[i] is Entry
}

/// The replacements as rows, all at the sequence number of the edit.
pub open spec fn inserted(seq: u64, replacements: Seq<Replacement>) -> Seq<(u64, SessionLogEntry)> {
    Seq::new(replacements.len(), |i: int| (seq, replacements[i]->Entry_0))
}

/// The rows after an edit: what stood inside the range gives way to `put`, which stands where
/// the first of it stood. An edit of rows that are not there changes nothing.
pub open spec fn edited(
    rows: Seq<(u64, SessionLogEntry)>,
    from: nat,
    to: nat,
    put: Seq<(u64, SessionLogEntry)>,
) -> Seq<(u64, SessionLogEntry)> {
    let at = first_inside(rows, from, to);
    if at == rows.len() {
        rows
    } else {
        rows.take(at) + put + outside(rows.skip(at), from, to)
    }
}

/// The rows up to and with sequence number `after`.
pub open spec fn rewound(rows: Seq<(u64, SessionLogEntry)>, after: nat) -> Seq<
    (u64, SessionLogEntry),
> {
    outside(rows, after + 1, u64::MAX as nat)
}

/// What one more entry makes of the rows before it.
pub open spec fn applied(
    rows: Seq<(u64, SessionLogEntry)>,
    row: (u64, SessionLogEntry),
) -> Seq<(u64, SessionLogEntry)> {
    match row.1 {
        SessionLogEntry::EditEntries { from, to, replacements } => edited(
            rows,
            from as nat,
            to as nat,
            inserted(row.0, replacements@),
        ),
        SessionLogEntry::Rewind { after_seq } => rewound(rows, after_seq as nat),
        _ => rows.push(row),
    }
}

/// Whether every edit of the log holds entries only.
pub open spec fn mutations_readable(log: Seq<(u64, SessionLogEntry)>) -> bool {
    forall|i: int|
        0 <= i < log.len() ==> (#[trigger] log[i].1 matches SessionLogEntry::EditEntries {
            replacements,
            ..
        } ==> well_formed(replacements@))
}

/// What the log says once its edits and rewinds are applied, in their order.
pub open spec fn effective(log: Seq<(u64, SessionLogEntry)>) -> Seq<(u64, SessionLogEntry)>
    decreases log.len(),
{
    if log.len() == 0 {
        log
    } else {
        applied(effective(log.drop_last()), log.last())
    }
}

/// Keeps the rows outside `from ..= to`.
fn keep_outside<'a>(rows: &[Row<'a>], start: usize, from: u64, to: u64) -> (kept: Vec<Row<'a>>)
    requires
        start <= rows@.len(),
    ensures
        rows_view(kept@) == outside(rows_view(rows@).skip(start as int), from as nat, to as nat),
{
    let ghost all = rows_view(rows@).skip(start as int);
    let mut kept: Vec<Row<'a>> = Vec::new();
    let mut i: usize = start;
    assert(rows_view(kept@) =~= outside(all.take(0), from as nat, to as nat));
    while i < rows.len()
        invariant
            start <= i <= rows@.len(),
            all == rows_view(rows@).skip(start as int),
            rows_view(kept@) == outside(all.take(i - start), from as nat, to as nat),
        decreases rows@.len() - i,
    {
        let ghost before = kept@;
        let row = rows[i];
        assert(all[i - start] == (row.0, *row.1));
        assert(all.take(i - start + 1).drop_last() =~= all.take(i - start));
        if row.0 < from || row.0 > to {
            kept.push(row);
            assert(rows_view(kept@) =~= rows_view(before).push((row.0, *row.1)));
        }
        i += 1;
    }
    assert(all.take(i - start) =~= all);
    kept
}

/// Finds the first row inside `from ..= to`.
fn find_inside(rows: &[Row], from: u64, to: u64) -> (at: usize)
    ensures
        at as int == first_inside(rows_view(rows@), from as nat, to as nat),
        at <= rows@.len(),
{
    let ghost all = rows_view(rows@);
    let mut at: usize = 0;
    let mut found = false;
    let mut i: usize = 0;
    while i < rows.len()
        invariant
            i <= rows@.len(),
            all == rows_view(rows@),
            at as int == first_inside(all.take(i as int), from as nat, to as nat),
            found ==> at < i,
            !found ==> at == i,
        decreases rows@.len() - i,
    {
        assert(all.take(i + 1).drop_last() =~= all.take(i as int));
        assert(all[i as int].0 == rows@[i as int].0);
        if !found {
            if from <= rows[i].0 && rows[i].0 <= to {
                found = true;
            } else {
                at = i + 1;
            }
        }
        i += 1;
    }
    assert(all.take(i as int) =~= all);
    at
}

/// The first index is no later than the length, and the rows before it lie outside.
pub proof fn first_inside_bounds(rows: Seq<(u64, SessionLogEntry)>, from: nat, to: nat)
    ensures
        0 <= first_inside(rows, from, to) <= rows.len(),
        first_inside(rows, from, to) < rows.len() ==> from <= rows[first_inside(rows, from, to)].0
            <= to,
        forall|i: int|
            0 <= i < first_inside(rows, from, to) ==> !(from <= (#[trigger] rows[i]).0 <= to),
    decreases rows.len(),
{
    if rows.len() > 0 {
        first_inside_bounds(rows.drop_last(), from, to);
        assert forall|i: int| 0 <= i < first_inside(rows, from, to) implies !(from <= (
        #[trigger] rows[i]).0 <= to) by {
            if i < rows.len() - 1 {
                assert(rows.drop_last()[i] == rows[i]);
            }
        }
    }
}

/// Applies one edit.
fn apply_edit<'a>(
    rows: Vec<Row<'a>>,
    seq: u64,
    from: u64,
    to: u64,
    replacements: &'a [Replacement],
) -> (r: Option<Vec<Row<'a>>>)
    ensures
        r is Some <==> well_formed(replacements@),
        r matches Some(out) ==> rows_view(out@) == edited(
            rows_view(rows@),
            from as nat,
            to as nat,
            inserted(seq, replacements@),
        ),
{
    let ghost all = rows_view(rows@);
    let ghost put = inserted(seq, replacements@);
    let mut middle: Vec<Row<'a>> = Vec::new();
    let mut i: usize = 0;
    while i < replacements.len()
        invariant
            i <= replacements@.len(),
            put == inserted(seq, replacements@),
            rows_view(middle@) == put.take(i as int),
            forall|k: int| 0 <= k < i ==> #[trigger] replacements@[k] is Entry,
        decreases replacements@.len() - i,
    {
        match &replacements[i] {
            Replacement::Entry(e) => {
                let ghost before = middle@;
                middle.push((seq, e));
                assert(rows_view(middle@) =~= rows_view(before).push((seq, *e)));
                assert(put.take(i + 1) =~= put.take(i as int).push(put[i as int]));
            },
            Replacement::Malformed(_) => {
                return None;
            },
        }
        i += 1;
    }
    assert(put.take(i as int) =~= put);
    let at: usize = find_inside(rows.as_slice(), from, to);
    if at == rows.len() {
        return Some(rows);
    }
    let mut rest = keep_outside(rows.as_slice(), at, from, to);
    let mut out: Vec<Row<'a>> = Vec::new();
    let mut j: usize = 0;
    while j < at
        invariant
            j <= at < rows@.len(),
            all == rows_view(rows@),
            rows_view(out@) == all.take(j as int),
        decreases at - j,
    {
        let ghost before = out@;
        out.push(rows[j]);
        assert(rows_view(out@) =~= rows_view(before).push(all[j as int]));
        assert(all.take(j + 1) =~= all.take(j as int).push(all[j as int]));
        j += 1;
    }
    let ghost (o, m, r) = (out@, middle@, rest@);
    out.append(&mut middle);
    out.append(&mut rest);
    assert(rows_view(out@) =~= rows_view(o) + rows_view(m) + rows_view(r));
    Some(out)
}

/// Which edit cannot be read: the first one that holds a malformed text.
pub open spec fn unreadable_at(log: Seq<(u64, SessionLogEntry)>, i: int) -> bool {
    &&& 0 <= i < log.len()
    &&& log[i].1 matches SessionLogEntry::EditEntries { replacements, .. } && !well_formed(
        replacements@,
    )
    &&& mutations_readable(log.take(i))
}

/// The effective rows of a log, or the first edit that cannot be read.
pub fn apply_row_mutations<'a>(log: &[Row<'a>]) -> (r: Result<Vec<Row<'a>>, MutationError>)
    ensures
        r is Ok <==> mutations_readable(rows_view(log@)),
        r matches Ok(rows) ==> rows_view(rows@) == effective(rows_view(log@)),
        r matches Err(MutationError::MalformedReplacement(seq)) ==> exists|i: int|
            unreadable_at(rows_view(log@), i) && #[trigger] rows_view(log@)[i].0 == seq,
{
    let ghost all = rows_view(log@);
    let mut rows: Vec<Row<'a>> = Vec::new();
    let mut i: usize = 0;
    assert(rows_view(rows@) =~= effective(all.take(0)));
    while i < log.len()
        invariant
            i <= log@.len(),
            all == rows_view(log@),
            rows_view(rows@) == effective(all.take(i as int)),
            mutations_readable(all.take(i as int)),
        decreases log@.len() - i,
    {
        let seq: u64 = log[i].0;
        let entry = log[i].1;
        assert(all[i as int] == (seq, *entry));
        assert(all.take(i + 1).drop_last() =~= all.take(i as int));
        assert(all.take(i + 1).last() == all[i as int]);
        let ghost before = rows@;
        match entry {
            SessionLogEntry::EditEntries { from, to, replacements } => {
                match apply_edit(rows, seq, *from as u64, *to as u64, replacements.as_slice()) {
                    Some(out) => {
                        rows = out;
                    },
                    None => {
                        assert(unreadable_at(all, i as int) && all[i as int].0 == seq);
                        return Err(MutationError::MalformedReplacement(seq));
                    },
                }
            },
            SessionLogEntry::Rewind { after_seq } => {
                if *after_seq as u64 == u64::MAX {
                    proof {
                        outside_of_nothing(
                            rows_view(before),
                            *after_seq as nat + 1,
                            u64::MAX as nat,
                        );
                    }
                } else {
                    assert(rows_view(before).skip(0) =~= rows_view(before));
                    rows = keep_outside(rows.as_slice(), 0, *after_seq as u64 + 1, u64::MAX);
                }
            },
            _ => {
                rows.push((seq, entry));
                assert(rows_view(rows@) =~= rows_view(before).push((seq, *entry)));
            },
        }
        assert(mutations_readable(all.take(i + 1))) by {
            let t = all.take(i + 1);
            assert forall|k: int| 0 <= k < t.len() implies (
            #[trigger] t[k].1 matches SessionLogEntry::EditEntries { replacements, .. }
                ==> well_formed(replacements@)) by {
                if k < i {
                    assert(t[k] == all.take(i as int)[k]);
                }
            }
        }
        i += 1;
    }
    assert(all.take(i as int) =~= all);
    Ok(rows)
}

/// The effective rows of a log, or the first edit that cannot be read.
pub fn apply_log_mutations<'a>(entries: &'a [(u64, SessionLogEntry)]) -> (r: Result<
    Vec<Row<'a>>,
    MutationError,
>)
    ensures
        r is Ok <==> mutations_readable(entries@),
        r matches Ok(rows) ==> rows_view(rows@) == effective(entries@),
        r matches Err(MutationError::MalformedReplacement(seq)) ==> exists|i: int|
            unreadable_at(entries@, i) && #[trigger] entries@[i].0 == seq,
{
    let rows = rows_of(entries);
    apply_row_mutations(rows.as_slice())
}

/// The rows with a sequence number above `seq`.
pub open spec fn rows_above(rows: Seq<(u64, SessionLogEntry)>, seq: u64) -> Seq<
    (u64, SessionLogEntry),
> {
    outside(rows, 0, seq as nat)
}

/// The rows with a sequence number above `seq`.
pub fn keep_above<'a>(rows: &[Row<'a>], seq: u64) -> (kept: Vec<Row<'a>>)
    ensures
        rows_view(kept@) == rows_above(rows_view(rows@), seq),
{
    assert(rows_view(rows@).skip(0) =~= rows_view(rows@));
    keep_outside(rows, 0, 0, seq)
}

/// A range that no sequence number lies in leaves the rows as they are.
pub proof fn outside_of_nothing(rows: Seq<(u64, SessionLogEntry)>, from: nat, to: nat)
    requires
        forall|i: int| 0 <= i < rows.len() ==> !(from <= (#[trigger] rows[i]).0 <= to),
    ensures
        outside(rows, from, to) == rows,
    decreases rows.len(),
{
    if rows.len() > 0 {
        let t = rows.drop_last();
        assert forall|i: int| 0 <= i < t.len() implies !(from <= (#[trigger] t[i]).0 <= to) by {
            assert(t[i] == rows[i]);
        }
        outside_of_nothing(t, from, to);
        assert(!(from <= rows[rows.len() - 1].0 <= to));
        assert(outside(rows, from, to) =~= rows);
    }
}

/// What lies outside a range joins up: first part, then second part.
proof fn outside_of_sum(
    a: Seq<(u64, SessionLogEntry)>,
    b: Seq<(u64, SessionLogEntry)>,
    from: nat,
    to: nat,
)
    ensures
        outside(a + b, from, to) == outside(a, from, to) + outside(b, from, to),
    decreases b.len(),
{
    if b.len() == 0 {
        assert(a + b =~= a);
        assert(outside(a, from, to) + outside(b, from, to) =~= outside(a, from, to));
    } else {
        outside_of_sum(a, b.drop_last(), from, to);
        assert((a + b).drop_last() =~= a + b.drop_last());
        assert(outside(a + b, from, to) =~= outside(a, from, to) + outside(b, from, to));
    }
}

/// Every row that is kept was there before, and lies outside.
proof fn outside_members(rows: Seq<(u64, SessionLogEntry)>, from: nat, to: nat)
    ensures
        forall|i: int|
            0 <= i < outside(rows, from, to).len() ==> rows.contains(
                #[trigger] outside(rows, from, to)[i],
            ) && !(from <= outside(rows, from, to)[i].0 <= to),
    decreases rows.len(),
{
    if rows.len() > 0 {
        let t = rows.drop_last();
        outside_members(t, from, to);
        let kept = outside(rows, from, to);
        assert forall|i: int| 0 <= i < kept.len() implies rows.contains(#[trigger] kept[i]) && !(
        from <= kept[i].0 <= to) by {
            if i < outside(t, from, to).len() {
                assert(kept[i] == outside(t, from, to)[i]);
                let k = choose|k: int| 0 <= k < t.len() && t[k] == kept[i];
                assert(rows[k] == kept[i]);
            } else {
                assert(kept[i] == rows[rows.len() - 1]);
            }
        }
    }
}

/// A log without edits and rewinds is its own effective form.
pub proof fn law_plain_log_is_effective(log: Seq<(u64, SessionLogEntry)>)
    requires
        forall|i: int| 0 <= i < log.len() ==> !is_mutation((#[trigger] log[i]).1),
    ensures
        effective(log) == log,
    decreases log.len(),
{
    if log.len() > 0 {
        let t = log.drop_last();
        assert forall|i: int| 0 <= i < t.len() implies !is_mutation((#[trigger] t[i]).1) by {
            assert(t[i] == log[i]);
        }
        law_plain_log_is_effective(t);
        assert(!is_mutation(log[log.len() - 1].1));
        assert(effective(log) =~= log);
    }
}

/// Retracting takes the rows at one sequence number out and leaves every other row where it is.
pub proof fn law_retraction_removes_exactly_one_sequence(
    log: Seq<(u64, SessionLogEntry)>,
    at: u64,
    seq: usize,
    edit: SessionLogEntry,
)
    requires
        edit matches SessionLogEntry::EditEntries { from, to, replacements } && from == seq && to
            == seq && replacements@.len() == 0,
    ensures
        effective(log.push((at, edit))) == outside(effective(log), seq as nat, seq as nat),
        forall|i: int|
            0 <= i < effective(log.push((at, edit))).len() ==> (#[trigger] effective(
                log.push((at, edit)),
            )[i]).0 != seq,
{
    let rows = effective(log);
    let all = log.push((at, edit));
    assert(all.drop_last() =~= log);
    let k = first_inside(rows, seq as nat, seq as nat);
    first_inside_bounds(rows, seq as nat, seq as nat);
    let put = inserted(at, edit->replacements@);
    assert(put =~= Seq::<(u64, SessionLogEntry)>::empty());
    if k == rows.len() {
        outside_of_nothing(rows, seq as nat, seq as nat);
    } else {
        let head = rows.take(k);
        let tail = rows.skip(k);
        assert(rows =~= head + tail);
        outside_of_sum(head, tail, seq as nat, seq as nat);
        assert forall|i: int| 0 <= i < head.len() implies !(seq as nat <= (#[trigger] head[i]).0
            <= seq as nat) by {
            assert(head[i] == rows[i]);
        }
        outside_of_nothing(head, seq as nat, seq as nat);
        assert(head + put + outside(tail, seq as nat, seq as nat) =~= head + outside(
            tail,
            seq as nat,
            seq as nat,
        ));
    }
    outside_members(rows, seq as nat, seq as nat);
}

/// After a rewind no row stands behind the point that it names, and rewinding there once more
/// changes nothing.
pub proof fn law_rewind_cuts_and_is_idempotent(
    log: Seq<(u64, SessionLogEntry)>,
    at: u64,
    again: u64,
    after: usize,
)
    ensures
        forall|i: int|
            0 <= i < effective(log.push((at, SessionLogEntry::Rewind { after_seq: after }))).len()
                ==> (#[trigger] effective(
                log.push((at, SessionLogEntry::Rewind { after_seq: after })),
            )[i]).0 <= after,
        effective(
            log.push((at, SessionLogEntry::Rewind { after_seq: after })).push(
                (again, SessionLogEntry::Rewind { after_seq: after }),
            ),
        ) == effective(log.push((at, SessionLogEntry::Rewind { after_seq: after }))),
{
    let once = log.push((at, SessionLogEntry::Rewind { after_seq: after }));
    let twice = once.push((again, SessionLogEntry::Rewind { after_seq: after }));
    assert(once.drop_last() =~= log);
    assert(twice.drop_last() =~= once);
    outside_members(effective(log), after as nat + 1, u64::MAX as nat);
    let rows = effective(once);
    assert forall|i: int| 0 <= i < rows.len() implies !(after as nat + 1 <= (#[trigger] rows[i]).0
        <= u64::MAX as nat) by {
        assert(!(after as nat + 1 <= rows[i].0));
    }
    outside_of_nothing(rows, after as nat + 1, u64::MAX as nat);
}

/// Edits and rewinds leave no trace of themselves: where no replacement is one either, every
/// effective row is an ordinary entry.
pub proof fn law_effective_rows_are_no_mutations(log: Seq<(u64, SessionLogEntry)>)
    requires
        mutations_readable(log),
        forall|i: int, k: int|
            #![trigger log[i].1->replacements@[k]]
            0 <= i < log.len() && log[i].1 is EditEntries && 0 <= k
                < log[i].1->replacements@.len() ==> !is_mutation(
                log[i].1->replacements@[k]->Entry_0,
            ),
    ensures
        forall|i: int|
            0 <= i < effective(log).len() ==> !is_mutation((#[trigger] effective(log)[i]).1),
    decreases log.len(),
{
    if log.len() > 0 {
        let t = log.drop_last();
        assert(mutations_readable(t)) by {
            assert forall|i: int| 0 <= i < t.len() implies (
            #[trigger] t[i].1 matches SessionLogEntry::EditEntries { replacements, .. }
                ==> well_formed(replacements@)) by {
                assert(t[i] == log[i]);
            }
        }
        assert forall|i: int, k: int|
            #![trigger t[i].1->replacements@[k]]
            0 <= i < t.len() && t[i].1 is EditEntries && 0 <= k
                < t[i].1->replacements@.len() implies !is_mutation(
            t[i].1->replacements@[k]->Entry_0,
        ) by {
            assert(t[i] == log[i]);
            assert(!is_mutation(log[i].1->replacements@[k]->Entry_0));
        }
        law_effective_rows_are_no_mutations(t);
        let rows = effective(t);
        let out = effective(log);
        let last = log[log.len() - 1];
        match last.1 {
            SessionLogEntry::EditEntries { from, to, replacements } => {
                let at = first_inside(rows, from as nat, to as nat);
                first_inside_bounds(rows, from as nat, to as nat);
                if at < rows.len() {
                    let put = inserted(last.0, replacements@);
                    let rest = outside(rows.skip(at), from as nat, to as nat);
                    outside_members(rows.skip(at), from as nat, to as nat);
                    assert forall|i: int| 0 <= i < out.len() implies !is_mutation(
                        (#[trigger] out[i]).1,
                    ) by {
                        if i < at {
                            assert(out[i] == rows[i]);
                        } else if i < at + put.len() {
                            assert(out[i] == put[i - at]);
                            assert(!is_mutation(
                                log[log.len() - 1].1->replacements@[i - at]->Entry_0,
                            ));
                        } else {
                            let r = rest[i - at - put.len()];
                            assert(out[i] == r);
                            let k = choose|k: int|
                                0 <= k < rows.skip(at).len() && rows.skip(at)[k] == r;
                            assert(rows[at + k] == r);
                        }
                    }
                }
            },
            SessionLogEntry::Rewind { after_seq } => {
                outside_members(rows, after_seq as nat + 1, u64::MAX as nat);
                assert forall|i: int| 0 <= i < out.len() implies !is_mutation(
                    (#[trigger] out[i]).1,
                ) by {
                    let k = choose|k: int| 0 <= k < rows.len() && rows[k] == out[i];
                    assert(!is_mutation(rows[k].1));
                }
            },
            _ => {
                assert forall|i: int| 0 <= i < out.len() implies !is_mutation(
                    (#[trigger] out[i]).1,
                ) by {
                    if i < rows.len() {
                        assert(out[i] == rows[i]);
                    }
                }
            },
        }
    }
}

/// What is kept of rows outside a range are exactly the rows outside it, each as often as it
/// stands there and in the same order.
pub proof fn law_outside_keeps_the_rest(rows: Seq<(u64, SessionLogEntry)>, from: nat, to: nat)
    ensures
        outside(rows, from, to) == rows.filter(
            |r: (u64, SessionLogEntry)| r.0 < from || r.0 > to,
        ),
    decreases rows.len(),
{
    reveal(Seq::filter);
    if rows.len() > 0 {
        law_outside_keeps_the_rest(rows.drop_last(), from, to);
    }
}

/// The rows above a sequence number are exactly those with a higher one, in order.
pub proof fn law_rows_above_are_the_higher_ones(rows: Seq<(u64, SessionLogEntry)>, seq: u64)
    ensures
        rows_above(rows, seq) == rows.filter(|r: (u64, SessionLogEntry)| r.0 > seq),
{
    law_outside_keeps_the_rest(rows, 0, seq as nat);
    let p = |r: (u64, SessionLogEntry)| r.0 < 0nat || r.0 > seq as nat;
    let q = |r: (u64, SessionLogEntry)| r.0 > seq;
    assert(p =~= q);
}

/// An ordinary entry is appended to what the log says so far, and changes nothing of it.
pub proof fn law_ordinary_entry_is_appended(
    log: Seq<(u64, SessionLogEntry)>,
    row: (u64, SessionLogEntry),
)
    requires
        !(row.1 is EditEntries),
        !(row.1 is Rewind),
    ensures
        effective(Seq::<(u64, SessionLogEntry)>::empty()) == Seq::<
            (u64, SessionLogEntry),
        >::empty(),
        effective(log.push(row)) == effective(log).push(row),
{
    assert(log.push(row).drop_last() =~= log);
}

/// A rewind keeps exactly the rows up to the point that it names, in order.
pub proof fn law_rewind_keeps_what_came_before(
    log: Seq<(u64, SessionLogEntry)>,
    at: u64,
    after: usize,
)
    ensures
        effective(log.push((at, SessionLogEntry::Rewind { after_seq: after }))) == effective(
            log,
        ).filter(|r: (u64, SessionLogEntry)| r.0 <= after),
{
    let all = log.push((at, SessionLogEntry::Rewind { after_seq: after }));
    assert(all.drop_last() =~= log);
    law_outside_keeps_the_rest(effective(log), after as nat + 1, u64::MAX as nat);
    let p = |r: (u64, SessionLogEntry)| r.0 < after as nat + 1 || r.0 > u64::MAX as nat;
    let q = |r: (u64, SessionLogEntry)| r.0 <= after;
    assert(p =~= q);
}

/// An edit puts its replacements where the first row of its range stood, each at the sequence
/// number of the edit and in their order; every other row of the range goes, and all rows outside
/// it stay in their order.
pub proof fn law_edit_replaces_its_range(
    log: Seq<(u64, SessionLogEntry)>,
    at: u64,
    edit: SessionLogEntry,
    first: int,
)
    requires
        edit is EditEntries,
        0 <= first < effective(log).len(),
        edit->from <= effective(log)[first].0 <= edit->to,
        forall|i: int|
            0 <= i < first ==> !(edit->from <= (#[trigger] effective(log)[i]).0 <= edit->to),
    ensures
        ({
            let rows = effective(log);
            let put = Seq::new(
                edit->replacements@.len(),
                |i: int| (at, edit->replacements@[i]->Entry_0),
            );
            effective(log.push((at, edit))) == rows.take(first) + put + rows.skip(first).filter(
                |r: (u64, SessionLogEntry)| r.0 < edit->from || r.0 > edit->to,
            )
        }),
{
    let rows = effective(log);
    assert(log.push((at, edit)).drop_last() =~= log);
    let from = edit->from as nat;
    let to = edit->to as nat;
    first_inside_bounds(rows, from, to);
    assert(first_inside(rows, from, to) == first) by {
        let k = first_inside(rows, from, to);
        if k < first {
            assert(!(edit->from <= rows[k].0 <= edit->to));
        }
        if first < k {
            assert(!(from <= rows[first].0 <= to));
        }
    }
    law_outside_keeps_the_rest(rows.skip(first), from, to);
    let p = |r: (u64, SessionLogEntry)| r.0 < from || r.0 > to;
    let q = |r: (u64, SessionLogEntry)| r.0 < edit->from || r.0 > edit->to;
    assert(p =~= q);
    let put = Seq::new(edit->replacements@.len(), |i: int| (at, edit->replacements@[i]->Entry_0));
    assert(inserted(at, edit->replacements@) =~= put);
}

/// An edit of rows that are not there changes nothing.
pub proof fn law_edit_of_nothing_changes_nothing(
    log: Seq<(u64, SessionLogEntry)>,
    at: u64,
    edit: SessionLogEntry,
)
    requires
        edit is EditEntries,
        forall|i: int|
            0 <= i < effective(log).len() ==> !(edit->from <= (#[trigger] effective(log)[i]).0
                <= edit->to),
    ensures
        effective(log.push((at, edit))) == effective(log),
{
    assert(log.push((at, edit)).drop_last() =~= log);
    first_inside_bounds(effective(log), edit->from as nat, edit->to as nat);
}

/// A log can be read exactly where no edit of it holds a text that is no entry, and the edit that
/// is complained of is the first one that does.
pub proof fn law_unreadable_edit_is_the_first_malformed_one(
    log: Seq<(u64, SessionLogEntry)>,
    at: int,
)
    ensures
        mutations_readable(log) <==> forall|i: int, k: int|
            #![trigger log[i].1->replacements@[k]]
            0 <= i < log.len() && log[i].1 is EditEntries && 0 <= k
                < log[i].1->replacements@.len() ==> log[i].1->replacements@[k] is Entry,
        unreadable_at(log, at) ==> {
            &&& 0 <= at < log.len()
            &&& log[at].1 is EditEntries
            &&& exists|k: int|
                0 <= k < log[at].1->replacements@.len()
                    && #[trigger] log[at].1->replacements@[k] is Malformed
            &&& forall|i: int, k: int|
                #![trigger log[i].1->replacements@[k]]
                0 <= i < at && log[i].1 is EditEntries && 0 <= k
                    < log[i].1->replacements@.len() ==> log[i].1->replacements@[k] is Entry
        },
{
    let fine = forall|i: int, k: int|
        #![trigger log[i].1->replacements@[k]]
        0 <= i < log.len() && log[i].1 is EditEntries && 0 <= k
            < log[i].1->replacements@.len() ==> log[i].1->replacements@[k] is Entry;
    if fine {
        assert forall|i: int| 0 <= i < log.len() implies (
        #[trigger] log[i].1 matches SessionLogEntry::EditEntries { replacements, .. }
            ==> well_formed(replacements@)) by {
            if log[i].1 is EditEntries {
                let r = log[i].1->replacements@;
                assert forall|k: int| 0 <= k < r.len() implies #[trigger] r[k] is Entry by {
                    assert(log[i].1->replacements@[k] is Entry);
                }
            }
        }
    }
    if mutations_readable(log) {
        assert forall|i: int, k: int|
            #![trigger log[i].1->replacements@[k]]
            0 <= i < log.len() && log[i].1 is EditEntries && 0 <= k
                < log[i].1->replacements@.len() implies log[i].1->replacements@[k] is Entry by {
            let e = log[i].1;
            assert(well_formed(e->replacements@));
        }
    }
    if unreadable_at(log, at) {
        let t = log.take(at);
        let bad = log[at].1->replacements@;
        let k = choose|k: int| 0 <= k < bad.len() && !(#[trigger] bad[k] is Entry);
        assert(log[at].1->replacements@[k] is Malformed);
        assert forall|i: int, k: int|
            #![trigger log[i].1->replacements@[k]]
            0 <= i < at && log[i].1 is EditEntries && 0 <= k
                < log[i].1->replacements@.len() implies log[i].1->replacements@[k] is Entry by {
            let e = t[i].1;
            assert(e == log[i].1);
            assert(well_formed(e->replacements@));
        }
    }
}

} // verus!
