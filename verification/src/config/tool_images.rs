//! The images among the results of a round of tool calls. The data of an image go to a file, and a
//! reference takes their place in the result; a list in the log says which file a reference names.
use crate::config::session::{variables_view, Message, Session, SessionContent, ToolResult};
use crate::config::session_tool_results::{
    check_pending_round, only_round_differs, pending_round, refuses_results,
};
use crate::config::variables::{find_variable, place_of};
#[allow(unused_imports)]
use crate::config::variables::law_variable_stands_first;
use crate::nats_attachments::{classify_part, externalized_part, part_kind, PartKind};
use crate::session_log::{MessageContentPart, SessionLogEntry};
use crate::text::{starts_with, texts};
use vstd::prelude::*;
use vstd::string::*;

verus! {

/// The URLs of the parts that hold their data, in order.
pub open spec fn inline_urls(parts: Seq<MessageContentPart>) -> Seq<Seq<char>>
    decreases parts.len(),
{
    if parts.len() == 0 {
        Seq::empty()
    } else {
        let before = inline_urls(parts.drop_last());
        if part_kind(parts.last()) is Inline {
            before.push(parts.last()->url@)
        } else {
            before
        }
    }
}

/// The URLs of a round that hold their data, in order.
pub open spec fn round_urls(round: Seq<ToolResult>) -> Seq<Seq<char>>
    decreases round.len(),
{
    if round.len() == 0 {
        Seq::empty()
    } else {
        round_urls(round.drop_last()) + inline_urls(round.last().content@)
    }
}

/// Whether a part stands for another one: an image that has a reference is replaced by it, and
/// everything else stays.
pub open spec fn stands_for(
    before: MessageContentPart,
    references: Seq<(Seq<char>, Seq<char>)>,
    after: MessageContentPart,
) -> bool {
    let at = place_of(references, before->url@);
    if part_kind(before) is Inline && at is Some {
        after matches MessageContentPart::ImageUrl { url } && url@ == references[at->0].1
    } else {
        after == before
    }
}

/// Whether each part of a result stands for the one in its place, and the rest is as it was.
pub open spec fn is_referenced(
    before: ToolResult,
    references: Seq<(Seq<char>, Seq<char>)>,
    after: ToolResult,
) -> bool {
    &&& after == (ToolResult { content: after.content, ..before })
    &&& after.content@.len() == before.content@.len()
    &&& forall|p: int|
        0 <= p < before.content@.len() ==> stands_for(
            before.content@[p],
            references,
            #[trigger] after.content@[p],
        )
}

/// The data of the images of the round that the session ends with: what is to be stored.
pub fn pending_urls(session: &Session) -> (r: Vec<String>)
    ensures
        texts(r@) == match refuses_results(*session) {
            Some(_) => Seq::empty(),
            None => round_urls(pending_round(*session)),
        },
{
    let mut r: Vec<String> = Vec::new();
    if check_pending_round(session).is_err() {
        assert(texts(r@) =~= Seq::empty());
        return r;
    }
    match &session.messages[session.messages.len() - 1].content {
        SessionContent::ToolCalls { tool_results, .. } => {
            let ghost round = tool_results@;
            let mut k: usize = 0;
            assert(round.take(0) =~= Seq::empty());
            while k < tool_results.len()
                invariant
                    k <= tool_results@.len(),
                    round == tool_results@,
                    texts(r@) == round_urls(round.take(k as int)),
                decreases tool_results@.len() - k,
            {
                assert(round.take(k + 1).drop_last() =~= round.take(k as int));
                assert(round.take(k + 1).last() == round[k as int]);
                push_inline_urls(tool_results[k].content.as_slice(), &mut r);
                k += 1;
            }
            assert(round.take(k as int) =~= round);
        },
        _ => {},
    }
    r
}

fn push_inline_urls(parts: &[MessageContentPart], r: &mut Vec<String>)
    ensures
        texts(final(r)@) == texts(old(r)@) + inline_urls(parts@),
{
    let ghost start = r@;
    let mut p: usize = 0;
    assert(parts@.take(0) =~= Seq::empty());
    assert(texts(r@) =~= texts(start) + inline_urls(parts@.take(0)));
    while p < parts.len()
        invariant
            p <= parts@.len(),
            texts(r@) == texts(start) + inline_urls(parts@.take(p as int)),
        decreases parts@.len() - p,
    {
        assert(parts@.take(p + 1).drop_last() =~= parts@.take(p as int));
        assert(parts@.take(p + 1).last() == parts@[p as int]);
        match classify_part(&parts[p]) {
            PartKind::Inline => match &parts[p] {
                MessageContentPart::ImageUrl { url } => {
                    let ghost before = r@;
                    r.push(url.clone());
                    assert(texts(r@) =~= texts(before).push(url@));
                },
                MessageContentPart::Text { .. } => {},
            },
            _ => {},
        }
        assert(texts(r@) =~= texts(start) + inline_urls(parts@.take(p + 1)));
        p += 1;
    }
    assert(parts@.take(p as int) =~= parts@);
}

fn reference_part(part: MessageContentPart, references: &[(String, String)]) -> (r:
    MessageContentPart)
    ensures
        stands_for(part, variables_view(references@), r),
{
    let found: Option<usize> = match (classify_part(&part), &part) {
        (PartKind::Inline, MessageContentPart::ImageUrl { url }) => find_variable(
            references,
            url.as_str(),
        ),
        _ => None,
    };
    match found {
        Some(i) => externalized_part(part, references[i].1.clone()),
        None => part,
    }
}

fn reference_parts(parts: Vec<MessageContentPart>, references: &[(String, String)]) -> (r: Vec<
    MessageContentPart,
>)
    ensures
        r@.len() == parts@.len(),
        forall|p: int|
            0 <= p < parts@.len() ==> stands_for(
                parts@[p],
                variables_view(references@),
                #[trigger] r@[p],
            ),
{
    let mut r: Vec<MessageContentPart> = Vec::new();
    for part in it: parts
        invariant
            it.seq() == parts@,
            r@.len() == it.index(),
            forall|p: int|
                0 <= p < r@.len() ==> stands_for(
                    parts@[p],
                    variables_view(references@),
                    #[trigger] r@[p],
                ),
    {
        r.push(reference_part(part, references));
    }
    r
}

/// Puts references in the place of the images of the round that the session ends with: each pair
/// holds the URL of an image with its data, and the reference to it. An image without a reference
/// stays as it is.
pub fn put_references(session: &mut Session, references: &[(String, String)])
    ensures
        match refuses_results(*old(session)) {
            Some(_) => *final(session) == *old(session),
            None => {
                &&& only_round_differs(*old(session), *final(session))
                &&& forall|k: int|
                    0 <= k < pending_round(*old(session)).len() ==> is_referenced(
                        pending_round(*old(session))[k],
                        variables_view(references@),
                        #[trigger] pending_round(*final(session))[k],
                    )
            },
        },
{
    if check_pending_round(session).is_err() {
        return ;
    }
    let n: usize = session.messages.len();
    let ghost all = session.messages@;
    match session.messages.pop() {
        Some(last) => {
            match last.content {
                SessionContent::ToolCalls { text, tool_results } => {
                    let mut moved: Vec<ToolResult> = Vec::new();
                    for slot in it: tool_results
                        invariant
                            it.seq() == tool_results@,
                            moved@.len() == it.index(),
                            forall|k: int|
                                0 <= k < moved@.len() ==> is_referenced(
                                    tool_results@[k],
                                    variables_view(references@),
                                    #[trigger] moved@[k],
                                ),
                    {
                        let mut slot = slot;
                        let mut parts: Vec<MessageContentPart> = Vec::new();
                        std::mem::swap(&mut parts, &mut slot.content);
                        slot.content = reference_parts(parts, references);
                        moved.push(slot);
                    }
                    session.messages.push(
                        Message {
                            role: last.role,
                            content: SessionContent::ToolCalls { text, tool_results: moved },
                            log_seq: last.log_seq,
                        },
                    );
                    assert(session.messages@.take(n - 1) =~= all.take(n - 1));
                },
                _ => {},
            }
        },
        None => {},
    }
}

/// The entry for the log that says which file each reference names. It follows the results of the
/// round, and there is none where nothing was stored.
pub fn stored_images_entry(files: Vec<(String, String)>) -> (r: Option<SessionLogEntry>)
    ensures
        r is Some <==> files@.len() > 0,
        r matches Some(entry) ==> entry == (SessionLogEntry::DataUrls { urls: files }),
{
    if files.len() == 0 {
        None
    } else {
        Some(SessionLogEntry::DataUrls { urls: files })
    }
}

proof fn parts_lose_their_data(
    before: Seq<MessageContentPart>,
    references: Seq<(Seq<char>, Seq<char>)>,
    after: Seq<MessageContentPart>,
)
    requires
        after.len() == before.len(),
        forall|p: int|
            0 <= p < before.len() ==> stands_for(before[p], references, #[trigger] after[p]),
        forall|i: int|
            0 <= i < inline_urls(before).len() ==> place_of(
                references,
                #[trigger] inline_urls(before)[i],
            ) is Some,
        forall|i: int|
            0 <= i < references.len() ==> !starts_with((#[trigger] references[i]).1, "data:"@),
    ensures
        inline_urls(after) == Seq::<Seq<char>>::empty(),
    decreases before.len(),
{
    if before.len() > 0 {
        let rest = before.drop_last();
        let urls = inline_urls(rest);
        assert forall|i: int| 0 <= i < urls.len() implies place_of(
            references,
            #[trigger] urls[i],
        ) is Some by {
            assert(inline_urls(before)[i] == urls[i]);
        }
        assert forall|p: int| 0 <= p < rest.len() implies stands_for(
            rest[p],
            references,
            #[trigger] after.drop_last()[p],
        ) by {
            assert(after.drop_last()[p] == after[p]);
        }
        parts_lose_their_data(rest, references, after.drop_last());
        let last = before.len() - 1;
        assert(stands_for(before[last], references, after[last]));
        if part_kind(before[last]) is Inline {
            assert(inline_urls(before)[urls.len() as int] == before[last]->url@);
            place_is_inside(references, before[last]->url@);
        }
    }
}

proof fn place_is_inside(references: Seq<(Seq<char>, Seq<char>)>, name: Seq<char>)
    ensures
        place_of(references, name) matches Some(i) ==> 0 <= i < references.len(),
    decreases references.len(),
{
    if references.len() > 0 {
        place_is_inside(references.drop_last(), name);
    }
}

/// Once every image of a round has a reference, and no reference holds data itself, no data are
/// left in the round: none reach the log.
pub proof fn law_stored_images_leave_the_round(
    before: Seq<ToolResult>,
    references: Seq<(Seq<char>, Seq<char>)>,
    after: Seq<ToolResult>,
)
    requires
        after.len() == before.len(),
        forall|k: int|
            0 <= k < before.len() ==> is_referenced(before[k], references, #[trigger] after[k]),
        forall|i: int|
            0 <= i < round_urls(before).len() ==> place_of(
                references,
                #[trigger] round_urls(before)[i],
            ) is Some,
        forall|i: int|
            0 <= i < references.len() ==> !starts_with((#[trigger] references[i]).1, "data:"@),
    ensures
        round_urls(after) == Seq::<Seq<char>>::empty(),
    decreases before.len(),
{
    if before.len() > 0 {
        let rest = before.drop_last();
        let first = round_urls(rest);
        let last = inline_urls(before.last().content@);
        assert(round_urls(before) == first + last);
        assert forall|i: int| 0 <= i < first.len() implies place_of(
            references,
            #[trigger] first[i],
        ) is Some by {
            assert(round_urls(before)[i] == first[i]);
        }
        assert forall|i: int| 0 <= i < last.len() implies place_of(
            references,
            #[trigger] last[i],
        ) is Some by {
            assert(round_urls(before)[first.len() + i] == last[i]);
        }
        assert forall|k: int| 0 <= k < rest.len() implies is_referenced(
            rest[k],
            references,
            #[trigger] after.drop_last()[k],
        ) by {
            assert(after.drop_last()[k] == after[k]);
        }
        law_stored_images_leave_the_round(rest, references, after.drop_last());
        assert(is_referenced(before.last(), references, after[before.len() - 1]));
        parts_lose_their_data(before.last().content@, references, after.last().content@);
    }
}

/// The images of a content are the URLs of its parts that hold data, in order; those of a round
/// are those of its results, one behind the other.
pub proof fn law_images_are_the_parts_that_hold_data(
    parts: Seq<MessageContentPart>,
    round: Seq<ToolResult>,
    next: ToolResult,
)
    ensures
        inline_urls(parts) == parts.filter(
            |p: MessageContentPart| part_kind(p) is Inline,
        ).map_values(|p: MessageContentPart| p->url@),
        round_urls(round.push(next)) == round_urls(round) + inline_urls(next.content@),
        round_urls(Seq::empty()).len() == 0,
    decreases parts.len(),
{
    reveal(Seq::filter);
    assert(round.push(next).drop_last() =~= round);
    let p = |p: MessageContentPart| part_kind(p) is Inline;
    let f = |p: MessageContentPart| p->url@;
    if parts.len() > 0 {
        let t = parts.drop_last();
        let x = parts.last();
        law_images_are_the_parts_that_hold_data(t, round, next);
        if p(x) {
            assert(parts.filter(p) =~= t.filter(p).push(x));
            assert(t.filter(p).push(x).map_values(f) =~= t.filter(p).map_values(f).push(f(x)));
        } else {
            assert(parts.filter(p) =~= t.filter(p));
        }
    } else {
        assert(parts.filter(p).map_values(f) =~= Seq::<Seq<char>>::empty());
    }
}

/// A part that holds data is replaced by the first reference to it, where there is one; every
/// other part stays.
pub proof fn law_data_gives_way_to_its_reference(
    before: MessageContentPart,
    references: Seq<(Seq<char>, Seq<char>)>,
    after: MessageContentPart,
    at: int,
)
    requires
        stands_for(before, references, after),
    ensures
        !(part_kind(before) is Inline) ==> after == before,
        (forall|i: int| 0 <= i < references.len() ==> (#[trigger] references[i]).0 != before->url@)
            ==> after == before,
        part_kind(before) is Inline && 0 <= at < references.len() && references[at].0
            == before->url@ && (forall|j: int|
            0 <= j < at ==> (#[trigger] references[j]).0 != before->url@) ==> (
        after matches MessageContentPart::ImageUrl { url } && url@ == references[at].1),
{
    law_variable_stands_first(references, before->url@);
}

/// A result with references has the same parts, each standing for the one before, and is else as
/// it was.
pub proof fn law_referenced_result_keeps_the_rest(
    before: ToolResult,
    references: Seq<(Seq<char>, Seq<char>)>,
    after: ToolResult,
)
    requires
        is_referenced(before, references, after),
    ensures
        after.call == before.call && after.output == before.output && after.markdown
            == before.markdown && after.switch_agent == before.switch_agent
            && after.execution_context == before.execution_context && after.sub_agent_progress
            == before.sub_agent_progress,
        after.content@.len() == before.content@.len(),
        forall|p: int|
            0 <= p < before.content@.len() ==> stands_for(
                before.content@[p],
                references,
                #[trigger] after.content@[p],
            ),
{
}

} // verus!
