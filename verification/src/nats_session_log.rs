//! The stream of a session: its names, and which part of it a reader asks for.
use crate::session_log::SessionLogEntry;
use crate::text::chars_of;
use vstd::prelude::*;
use vstd::string::*;

verus! {

/// The subject of the log of a session.
pub fn subject_for_session(session_id: &str) -> (r: String)
    ensures
        r@ == "sessions."@ + session_id@ + ".log"@,
{
    let mut r = String::from_str("sessions.");
    r.append(session_id);
    r.append(".log");
    r
}

/// Whether a character may stand in the name of a stream.
pub open spec fn valid_stream_char(c: char) -> bool {
    ('0' <= c <= '9') || ('a' <= c <= 'z') || ('A' <= c <= 'Z') || c == '-' || c == '_'
}

/// A character as it stands in the name of a stream: in upper case, or `_` for what may not
/// stand there.
pub open spec fn stream_char(c: char) -> char {
    if 'a' <= c <= 'z' {
        (c as u32 - 32) as char
    } else if valid_stream_char(c) {
        c
    } else {
        '_'
    }
}

pub fn is_valid_stream_name_char(ch: char) -> (r: bool)
    ensures
        r == valid_stream_char(ch),
{
    ('0' <= ch && ch <= '9') || ('a' <= ch && ch <= 'z') || ('A' <= ch && ch <= 'Z') || ch == '-'
        || ch == '_'
}

pub fn sanitize_stream_name_char(ch: char) -> (r: char)
    ensures
        r == stream_char(ch),
{
    if 'a' <= ch && ch <= 'z' {
        (ch as u8 - 32) as char
    } else if is_valid_stream_name_char(ch) {
        ch
    } else {
        '_'
    }
}

/// The name of the stream of a session.
pub open spec fn stream_name(session_id: Seq<char>) -> Seq<char> {
    "SESSION_"@ + Seq::new(session_id.len(), |i: int| stream_char(session_id[i]))
}

/// The name of the stream of a session.
pub fn stream_name_for_session(session_id: &str) -> (r: String)
    ensures
        r@ == stream_name(session_id@),
{
    let chars = chars_of(session_id);
    let ghost tail = Seq::new(session_id@.len(), |i: int| stream_char(session_id@[i]));
    let mut name = String::from_str("SESSION_");
    let mut i: usize = 0;
    assert("SESSION_"@ + tail.take(0) =~= "SESSION_"@);
    while i < chars.len()
        invariant
            i <= chars@.len(),
            chars@ == session_id@,
            tail == Seq::new(session_id@.len(), |i: int| stream_char(session_id@[i])),
            name@ == "SESSION_"@ + tail.take(i as int),
        decreases chars@.len() - i,
    {
        name.push(sanitize_stream_name_char(chars[i]));
        assert("SESSION_"@ + tail.take(i + 1) =~= ("SESSION_"@ + tail.take(i as int)).push(
            tail[i as int],
        ));
        i += 1;
    }
    assert(tail.take(i as int) =~= tail);
    name
}

/// Every character of the name of a stream may stand there, and none is a small letter.
pub proof fn law_stream_names_are_valid(session_id: Seq<char>)
    ensures
        forall|i: int|
            0 <= i < stream_name(session_id).len() ==> {
                &&& valid_stream_char(#[trigger] stream_name(session_id)[i])
                &&& !('a' <= stream_name(session_id)[i] <= 'z')
            },
{
    reveal_strlit("SESSION_");
    assert forall|i: int| 0 <= i < stream_name(session_id).len() implies {
        &&& valid_stream_char(#[trigger] stream_name(session_id)[i])
        &&& !('a' <= stream_name(session_id)[i] <= 'z')
    } by {
        if i >= 8 {
            let c = session_id[i - 8];
            assert(stream_name(session_id)[i] == stream_char(c));
            if 'a' <= c <= 'z' {
                let up = (c as u32 - 32) as char;
                assert(65 <= c as u32 - 32 <= 90);
                assert(up as u32 == c as u32 - 32);
                assert('A' <= up <= 'Z');
            }
        }
    }
}

/// Whether two characters are the same, or the small letter and the capital of one.
pub open spec fn same_letter(a: char, b: char) -> bool {
    ||| a == b
    ||| 'a' <= a <= 'z' && b as u32 == a as u32 - 32
    ||| 'a' <= b <= 'z' && a as u32 == b as u32 - 32
}

/// A small letter stands in the name of a stream as its capital does.
proof fn capital_stays(small: char, capital: char)
    ensures
        'a' <= small <= 'z' && capital as u32 == small as u32 - 32 ==> stream_char(small)
            == stream_char(capital),
{
    if 'a' <= small <= 'z' && capital as u32 == small as u32 - 32 {
        assert((small as u32 - 32) as char == capital);
        assert('A' <= capital <= 'Z');
    }
}

/// Sessions whose names differ only in small letters and capitals share a stream.
pub proof fn law_case_does_not_part_streams(a: Seq<char>, b: Seq<char>)
    requires
        a.len() == b.len(),
        forall|i: int| 0 <= i < a.len() ==> same_letter(#[trigger] a[i], b[i]),
    ensures
        stream_name(a) == stream_name(b),
{
    assert forall|i: int| 0 <= i < a.len() implies stream_char(#[trigger] a[i]) == stream_char(
        b[i],
    ) by {
        assert(same_letter(a[i], b[i]));
        capital_stays(a[i], b[i]);
        capital_stays(b[i], a[i]);
    }
    assert(stream_name(a) =~= stream_name(b));
}

/// Where reading on behind `seq` starts; nothing where no sequence number is left.
pub fn replay_start(seq: u64) -> (r: Option<u64>)
    ensures
        r == if seq == u64::MAX {
            None
        } else {
            Some((seq + 1) as u64)
        },
{
    if seq == u64::MAX {
        None
    } else {
        Some(seq + 1)
    }
}

/// The sequence numbers to read: from `start`, or the first that the stream still has, up to the
/// last. Nothing where the stream holds no message from `start` on.
pub fn read_bounds(
    start_sequence: u64,
    first_sequence: u64,
    last_sequence: u64,
    message_count: u64,
) -> (r: Option<(u64, u64)>)
    ensures
        r == {
            let low = if start_sequence >= first_sequence {
                start_sequence
            } else {
                first_sequence
            };
            let from = if low >= 1 {
                low
            } else {
                1u64
            };
            if message_count == 0 || last_sequence < start_sequence || last_sequence < from {
                None
            } else {
                Some((from, last_sequence))
            }
        },
{
    if message_count == 0 || last_sequence < start_sequence {
        return None;
    }
    let mut from: u64 = start_sequence;
    if first_sequence > from {
        from = first_sequence;
    }
    if from < 1 {
        from = 1;
    }
    if last_sequence < from {
        return None;
    }
    Some((from, last_sequence))
}

/// Whether a reader that must see its own write at `min_seq` stops waiting for the stream.
pub fn caught_up(last_sequence: u64, min_seq: u64, deadline_passed: bool) -> (r: bool)
    ensures
        r == (last_sequence >= min_seq || deadline_passed),
{
    last_sequence >= min_seq || deadline_passed
}

/// The rows with sequence numbers of the machine's own size, where they all fit.
pub fn host_sequences(rows: Vec<(u64, SessionLogEntry)>) -> (r: Option<
    Vec<(usize, SessionLogEntry)>,
>)
    ensures
        r is Some <==> forall|i: int| 0 <= i < rows@.len() ==> (#[trigger] rows@[i]).0 <= usize::MAX,
        r matches Some(out) ==> out@ == Seq::new(
            rows@.len(),
            |i: int| (rows@[i].0 as usize, rows@[i].1),
        ),
{
    let ghost all = rows@;
    let mut r: Vec<(usize, SessionLogEntry)> = Vec::new();
    for row in it: rows
        invariant
            it.seq() == all,
            r@ == Seq::new(it.index() as nat, |i: int| (all[i].0 as usize, all[i].1)),
            forall|i: int| 0 <= i < it.index() ==> (#[trigger] all[i]).0 <= usize::MAX,
    {
        if row.0 > usize::MAX as u64 {
            assert(all[it.index() as int] == row);
            return None;
        }
        r.push((row.0 as usize, row.1));
    }
    Some(r)
}

/// The entries without their sequence numbers.
pub fn entries_only(rows: Vec<(u64, SessionLogEntry)>) -> (r: Vec<SessionLogEntry>)
    ensures
        r@ == Seq::new(rows@.len(), |i: int| rows@[i].1),
{
    let ghost all = rows@;
    let mut r: Vec<SessionLogEntry> = Vec::new();
    for row in it: rows
        invariant
            it.seq() == all,
            r@ == Seq::new(it.index() as nat, |i: int| all[i].1),
    {
        r.push(row.1);
        assert(r@ =~= Seq::new((it.index() + 1) as nat, |i: int| all[i].1));
    }
    r
}

/// The name of a stream is its session's identifier behind a prefix, character for character: a
/// small letter as a capital, a digit, capital, dash or underscore as it is, and any other as an
/// underscore.
pub proof fn law_stream_name_spells_the_session(session_id: Seq<char>, c: char)
    ensures
        valid_stream_char(c) <==> '0' <= c <= '9' || 'a' <= c <= 'z' || 'A' <= c <= 'Z' || c == '-'
            || c == '_',
        'a' <= c <= 'z' ==> stream_char(c) as u32 == c as u32 - ('a' as u32 - 'A' as u32),
        '0' <= c <= '9' || 'A' <= c <= 'Z' || c == '-' ==> stream_char(c) == c,
        !valid_stream_char(c) || c == '_' ==> stream_char(c) == '_',
        stream_name(session_id).len() == 8 + session_id.len(),
        stream_name(session_id).take(8) == "SESSION_"@,
        forall|i: int|
            0 <= i < session_id.len() ==> #[trigger] stream_name(session_id)[8 + i] == stream_char(
                session_id[i],
            ),
{
    reveal_strlit("SESSION_");
    assert(stream_name(session_id).take(8) =~= "SESSION_"@);
}

} // verus!
