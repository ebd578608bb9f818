//! Attachments of a session: what is stored of them, and under which names.
use crate::session_log::{MessageContent, MessageContentPart};
use crate::text::{
    chars_of, find_text, has_prefix, occurs_at, starts_with, string_of, strip_prefix, texts,
};
use vstd::prelude::*;
use vstd::string::*;

verus! {

/// Where attachments are stored.
pub const SESSION_ATTACHMENTS_BUCKET: &'static str = "harnx_attachments";

/// What a reference to an attachment starts with.
pub const CID_PREFIX: &'static str = "cid:";

/// The type of an attachment that says nothing of its type.
pub const DEFAULT_CONTENT_TYPE: &'static str = "application/octet-stream";

/// The stream behind the store.
pub fn object_store_stream_name() -> (r: String)
    ensures
        r@ == "OBJ_"@ + SESSION_ATTACHMENTS_BUCKET@,
{
    let mut r = String::from_str("OBJ_");
    r.append(SESSION_ATTACHMENTS_BUCKET);
    r
}

/// What the names of all attachments of a session start with, by the digest of its identifier.
pub fn session_object_prefix(session_digest: &str) -> (r: String)
    ensures
        r@ == session_digest@ + "/"@,
{
    let mut r = String::from_str(session_digest);
    r.append("/");
    r
}

/// The name of an attachment of a session, by the digests of both.
pub fn attachment_object_name(session_digest: &str, cid_digest: &str) -> (r: String)
    ensures
        r@ == session_digest@ + "/"@ + cid_digest@,
{
    let mut r = session_object_prefix(session_digest);
    r.append(cid_digest);
    r
}

/// Why an attachment cannot be read.
#[derive(Clone, Copy, Debug, PartialEq, Eq, Structural)]
pub enum DataUrlError {
    NoData,
    NotEncoded,
}

impl DataUrlError {
    pub fn message(&self) -> (r: String)
        ensures
            r@ == match *self {
                DataUrlError::NoData => "attachment must be a data: URI"@,
                DataUrlError::NotEncoded => "attachment data URI must contain ;base64,"@,
            },
    {
        match self {
            DataUrlError::NoData => String::from_str("attachment must be a data: URI"),
            DataUrlError::NotEncoded => String::from_str(
                "attachment data URI must contain ;base64,",
            ),
        }
    }
}

/// Where a text first stands in another.
pub open spec fn first_at(s: Seq<char>, t: Seq<char>, i: int) -> bool {
    occurs_at(s, t, i) && forall|j: int| 0 <= j < i ==> !occurs_at(s, t, j)
}

/// Takes an address apart that holds its data: the type, and the data as they are encoded.
pub fn parse_data_url(data_url: &str) -> (r: Result<(String, String), DataUrlError>)
    ensures
        if !starts_with(data_url@, "data:"@) {
            r == Err::<(String, String), DataUrlError>(DataUrlError::NoData)
        } else {
            let rest = data_url@.subrange("data:"@.len() as int, data_url@.len() as int);
            match r {
                Ok((mime, encoded)) => {
                    &&& first_at(rest, ";base64,"@, mime@.len() as int)
                    &&& rest == mime@ + ";base64,"@ + encoded@
                },
                Err(e) => e is NotEncoded && forall|i: int| !occurs_at(rest, ";base64,"@, i),
            }
        },
{
    let rest = match strip_prefix(data_url, "data:") {
        Some(rest) => rest,
        None => {
            return Err(DataUrlError::NoData);
        },
    };
    match find_text(rest.as_str(), ";base64,") {
        Some(at) => {
            let v = chars_of(rest.as_str());
            let marker = chars_of(";base64,");
            let end: usize = v.len();
            let mime = string_of(v.as_slice(), 0, at);
            let encoded = string_of(v.as_slice(), at + marker.len(), end);
            assert(rest@ =~= mime@ + ";base64,"@ + encoded@);
            Ok((mime, encoded))
        },
        None => Err(DataUrlError::NotEncoded),
    }
}

/// What is done about a part of a message.
#[derive(Clone, Copy, Debug, PartialEq, Eq, Structural)]
pub enum PartKind {
    /// Nothing: it is no attachment.
    Plain,
    /// It holds its data.
    Inline,
    /// It names data that are stored.
    Reference,
}

pub open spec fn part_kind(part: MessageContentPart) -> PartKind {
    match part {
        MessageContentPart::ImageUrl { url } => if starts_with(url@, "data:"@) {
            PartKind::Inline
        } else if starts_with(url@, CID_PREFIX@) {
            PartKind::Reference
        } else {
            PartKind::Plain
        },
        MessageContentPart::Text { .. } => PartKind::Plain,
    }
}

/// What is done about a part of a message.
pub fn classify_part(part: &MessageContentPart) -> (r: PartKind)
    ensures
        r == part_kind(*part),
{
    match part {
        MessageContentPart::ImageUrl { url } => if has_prefix(url.as_str(), "data:") {
            PartKind::Inline
        } else if has_prefix(url.as_str(), CID_PREFIX) {
            PartKind::Reference
        } else {
            PartKind::Plain
        },
        MessageContentPart::Text { .. } => PartKind::Plain,
    }
}

/// Whether one of the parts is an attachment.
pub open spec fn has_attachment(parts: Seq<MessageContentPart>) -> bool {
    exists|i: int| 0 <= i < parts.len() && !(part_kind(#[trigger] parts[i]) is Plain)
}

fn any_attachment(parts: &[MessageContentPart]) -> (r: bool)
    ensures
        r == has_attachment(parts@),
{
    let mut i: usize = 0;
    while i < parts.len()
        invariant
            i <= parts@.len(),
            forall|k: int| 0 <= k < i ==> part_kind(#[trigger] parts@[k]) is Plain,
        decreases parts@.len() - i,
    {
        match classify_part(&parts[i]) {
            PartKind::Plain => {},
            _ => {
                return true;
            },
        }
        i += 1;
    }
    false
}

/// Whether the store is needed for a message: one of its parts is an attachment.
pub fn needs_store(content: &MessageContent) -> (r: bool)
    ensures
        r == match *content {
            MessageContent::Text(_) => false,
            MessageContent::Array { parts, .. } => has_attachment(parts@),
        },
{
    match content {
        MessageContent::Text(_) => false,
        MessageContent::Array { parts, .. } => any_attachment(parts.as_slice()),
    }
}

/// What is done about data that a message names.
#[derive(Clone, Copy, Debug, PartialEq, Eq, Structural)]
pub enum ReferenceStep {
    /// They are stored.
    Keep,
    /// Store them from where they came.
    Upload,
    /// Nobody knows where they came from.
    NoSource,
}

pub fn reference_step(stored: bool, has_source: bool) -> (r: ReferenceStep)
    ensures
        r == if stored {
            ReferenceStep::Keep
        } else if has_source {
            ReferenceStep::Upload
        } else {
            ReferenceStep::NoSource
        },
{
    if stored {
        ReferenceStep::Keep
    } else if has_source {
        ReferenceStep::Upload
    } else {
        ReferenceStep::NoSource
    }
}

/// The part of a message after its data are stored under a reference. What is no attachment stays
/// as it is.
pub fn externalized_part(part: MessageContentPart, cid: String) -> (r: MessageContentPart)
    ensures
        r == match part_kind(part) {
            PartKind::Plain => part,
            _ => MessageContentPart::ImageUrl { url: cid },
        },
{
    match classify_part(&part) {
        PartKind::Plain => part,
        _ => MessageContentPart::ImageUrl { url: cid },
    }
}

/// What a worker does about an attachment of its session.
#[derive(Clone, Copy, Debug, PartialEq, Eq, Structural)]
pub enum HydrateStep {
    /// It is here and in the store.
    Nothing,
    /// It is only here.
    Upload,
    /// It is not here.
    Download,
}

pub fn hydrate_step(local: bool, stored: bool) -> (r: HydrateStep)
    ensures
        r == if !local {
            HydrateStep::Download
        } else if stored {
            HydrateStep::Nothing
        } else {
            HydrateStep::Upload
        },
{
    if !local {
        HydrateStep::Download
    } else if stored {
        HydrateStep::Nothing
    } else {
        HydrateStep::Upload
    }
}

/// The type of an attachment that was downloaded.
pub fn content_type(stored: Option<String>) -> (r: String)
    ensures
        r@ == match stored {
            Some(t) => t@,
            None => DEFAULT_CONTENT_TYPE@,
        },
{
    match stored {
        Some(t) => t,
        None => String::from_str(DEFAULT_CONTENT_TYPE),
    }
}

/// Whether what was downloaded is what was asked for: its digest is its name.
pub fn verify_digest(session_id: &str, cid: &str, stored_cid: &str) -> (r: Result<(), String>)
    ensures
        r is Ok <==> cid@ == stored_cid@,
        r matches Err(e) ==> e@ == "attachment digest mismatch for session '"@ + session_id@
            + "': expected "@ + cid@ + ", got "@ + stored_cid@,
{
    if *cid == *stored_cid {
        return Ok(());
    }
    let mut e = String::from_str("attachment digest mismatch for session '");
    e.append(session_id);
    e.append("': expected ");
    e.append(cid);
    e.append(", got ");
    e.append(stored_cid);
    Err(e)
}

/// How often the store is to be kept, if more often than it is. It is never kept less often.
pub fn raised_replicas(wanted: usize, current: usize) -> (r: Option<usize>)
    ensures
        r == if wanted > current {
            Some(wanted)
        } else {
            None::<usize>
        },
{
    if wanted > current {
        Some(wanted)
    } else {
        None
    }
}

/// What a turn comes to whose attachments are stored at its end. A turn that failed has failed,
/// whatever became of them.
pub fn finish_sync<T>(result: Result<T, String>, sync: Result<(), String>) -> (r: Result<T, String>)
    ensures
        r == match result {
            Ok(value) => match sync {
                Ok(_) => Ok(value),
                Err(e) => Err(e),
            },
            Err(e) => Err(e),
        },
{
    match result {
        Ok(value) => match sync {
            Ok(_) => Ok(value),
            Err(e) => Err(e),
        },
        Err(e) => Err(e),
    }
}

/// The names that start like those of the attachments of a session.
pub open spec fn owned(names: Seq<Seq<char>>, prefix: Seq<char>) -> Seq<Seq<char>>
    decreases names.len(),
{
    if names.len() == 0 {
        Seq::empty()
    } else {
        let before = owned(names.drop_last(), prefix);
        if starts_with(names.last(), prefix) {
            before.push(names.last())
        } else {
            before
        }
    }
}

/// The attachments of a session among all that are stored.
pub fn owned_objects(names: Vec<String>, session_digest: &str) -> (r: Vec<String>)
    ensures
        texts(r@) == owned(texts(names@), session_digest@ + "/"@),
{
    let prefix = session_object_prefix(session_digest);
    let ghost all = texts(names@);
    let mut r: Vec<String> = Vec::new();
    let mut i: usize = 0;
    assert(texts(r@) =~= owned(all.take(0), prefix@));
    while i < names.len()
        invariant
            i <= names@.len(),
            all == texts(names@),
            texts(r@) == owned(all.take(i as int), prefix@),
        decreases names@.len() - i,
    {
        let ghost before = texts(r@);
        assert(all.take(i + 1).drop_last() =~= all.take(i as int));
        assert(all.take(i + 1).last() == names@[i as int]@);
        if has_prefix(names[i].as_str(), prefix.as_str()) {
            r.push(names[i].clone());
            assert(texts(r@) =~= before.push(names@[i as int]@));
        }
        i += 1;
    }
    assert(all.take(i as int) =~= all);
    r
}

/// What is deleted with a session belongs to it: the name of an attachment says whose it is.
pub proof fn law_deletion_stays_in_the_session(
    names: Seq<Seq<char>>,
    session: Seq<char>,
    other: Seq<char>,
    cid: Seq<char>,
)
    requires
        session.len() == other.len(),
        session != other,
    ensures
        !owned(names, session + "/"@).contains(other + "/"@ + cid),
    decreases names.len(),
{
    let prefix = session + "/"@;
    let name = other + "/"@ + cid;
    if starts_with(name, prefix) {
        reveal_strlit("/");
        assert(name.subrange(0, prefix.len() as int) == prefix);
        assert forall|i: int| 0 <= i < session.len() implies session[i] == other[i] by {
            assert(prefix[i] == session[i]);
            assert(name.subrange(0, prefix.len() as int)[i] == name[i]);
            assert(name[i] == other[i]);
        }
        assert(session =~= other);
    }
    if names.len() > 0 {
        law_deletion_stays_in_the_session(names.drop_last(), session, other, cid);
        let before = owned(names.drop_last(), prefix);
        let after = owned(names, prefix);
        if after.contains(name) {
            let k = choose|k: int| 0 <= k < after.len() && after[k] == name;
            if k < before.len() {
                assert(before[k] == name);
                assert(before.contains(name));
            } else {
                assert(after.last() == names.last());
            }
        }
    }
}

/// A part holds its data where it is an image under a data URL, refers to it where it is one under
/// a content identifier, and is plain else.
pub proof fn law_parts_are_told_apart_by_their_url(part: MessageContentPart)
    ensures
        part_kind(part) is Inline <==> (part matches MessageContentPart::ImageUrl { url }
            && starts_with(url@, "data:"@)),
        part_kind(part) is Reference <==> (part matches MessageContentPart::ImageUrl { url }
            && starts_with(url@, CID_PREFIX@) && !starts_with(url@, "data:"@)),
        part_kind(part) is Plain <==> !(part_kind(part) is Inline) && !(
        part_kind(part) is Reference),
        part is Text ==> part_kind(part) is Plain,
{
}

/// Content has an attachment exactly where some part of it is not plain.
pub proof fn law_one_part_makes_an_attachment(parts: Seq<MessageContentPart>)
    ensures
        has_attachment(parts) <==> exists|i: int|
            0 <= i < parts.len() && (part_kind(#[trigger] parts[i]) is Inline || part_kind(
                parts[i],
            ) is Reference),
{
    if has_attachment(parts) {
        let i = choose|i: int| 0 <= i < parts.len() && !(part_kind(#[trigger] parts[i]) is Plain);
        assert(part_kind(parts[i]) is Inline || part_kind(parts[i]) is Reference);
    }
}

/// A text stands first at a place where it stands there and nowhere before.
pub proof fn law_first_place_has_none_before_it(s: Seq<char>, t: Seq<char>, i: int)
    ensures
        first_at(s, t, i) <==> occurs_at(s, t, i) && forall|j: int|
            0 <= j < i ==> !occurs_at(s, t, j),
        forall|j: int| first_at(s, t, i) && #[trigger] first_at(s, t, j) ==> i == j,
{
    assert forall|j: int| first_at(s, t, i) && #[trigger] first_at(s, t, j) implies i == j by {
        if i < j {
            assert(!occurs_at(s, t, i));
        }
        if j < i {
            assert(!occurs_at(s, t, j));
        }
    }
}

/// What a session owns is every object under its prefix, in order, and nothing else.
pub proof fn law_session_owns_what_has_its_prefix(names: Seq<Seq<char>>, prefix: Seq<char>)
    ensures
        owned(names, prefix) == names.filter(|n: Seq<char>| starts_with(n, prefix)),
    decreases names.len(),
{
    reveal(Seq::filter);
    if names.len() > 0 {
        law_session_owns_what_has_its_prefix(names.drop_last(), prefix);
    }
}

} // verus!
