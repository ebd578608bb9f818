//! Fresh identifiers.
use vstd::prelude::*;

verus! {

/// Whether a character is a hexadecimal digit in lower case.
pub open spec fn is_hex(c: char) -> bool {
    ('0' <= c <= '9') || ('a' <= c <= 'f')
}

/// Whether a text is an identifier of this version: digits in groups of eight, four, four, four
/// and twelve with hyphens between them, the version at the head of the third group and the
/// variant of RFC 9562 at the head of the fourth.
pub open spec fn is_uuid(s: Seq<char>, version: char) -> bool {
    &&& s.len() == 36
    &&& s[8] == '-' && s[13] == '-' && s[18] == '-' && s[23] == '-'
    &&& forall|i: int|
        0 <= i < 36 && i != 8 && i != 13 && i != 18 && i != 23 ==> is_hex(#[trigger] s[i])
    &&& s[14] == version
    &&& s[19] == '8' || s[19] == '9' || s[19] == 'a' || s[19] == 'b'
}

/// `uuid::Uuid::new_v4`, in the form of its `to_string`. Of the value, which comes from the
/// random numbers of the system, only the form is claimed.
#[verifier::external_body]
fn new_v4() -> (r: String)
    ensures
        is_uuid(r@, '4'),
{
    uuid::Uuid::new_v4().to_string()
}

/// `uuid::Uuid::now_v7`, in the form of its `to_string`. Of the value, which comes from the clock
/// and from random numbers, only the form is claimed.
#[verifier::external_body]
fn now_v7() -> (r: String)
    ensures
        is_uuid(r@, '7'),
{
    uuid::Uuid::now_v7().to_string()
}

/// `uuid::Uuid::new_v4`, in the form of `simple`: thirty-two digits. Of the value only the form
/// is claimed.
#[verifier::external_body]
fn new_v4_simple() -> (r: String)
    ensures
        r@.len() == 32,
        forall|i: int| 0 <= i < 32 ==> is_hex(#[trigger] r@[i]),
        r@[12] == '4',
{
    uuid::Uuid::new_v4().simple().to_string()
}

/// An identifier for a message, a compaction or a server.
pub fn random_id() -> (r: String)
    ensures
        is_uuid(r@, '4'),
{
    new_v4()
}

/// An identifier that sorts by its time: for a cancellation, a call or an operation.
pub fn time_ordered_id() -> (r: String)
    ensures
        is_uuid(r@, '7'),
{
    now_v7()
}

/// A token that admits to a server.
pub fn random_token() -> (r: String)
    ensures
        r@.len() == 32,
        forall|i: int| 0 <= i < 32 ==> is_hex(#[trigger] r@[i]),
        r@[12] == '4',
{
    new_v4_simple()
}

/// An identifier has five groups of hexadecimal digits between dashes, and tells its version and
/// its variant.
pub proof fn law_identifiers_have_their_form(s: Seq<char>, version: char)
    ensures
        is_uuid(s, version) <==> s.len() == 36 && s[14] == version && (s[19] == '8' || s[19] == '9'
            || s[19] == 'a' || s[19] == 'b') && forall|i: int|
            0 <= i < 36 ==> if i == 8 || i == 13 || i == 18 || i == 23 {
                #[trigger] s[i] == '-'
            } else {
                ('0' <= s[i] <= '9') || ('a' <= s[i] <= 'f')
            },
{
    if is_uuid(s, version) {
        assert forall|i: int| 0 <= i < 36 implies if i == 8 || i == 13 || i == 18 || i == 23 {
            #[trigger] s[i] == '-'
        } else {
            ('0' <= s[i] <= '9') || ('a' <= s[i] <= 'f')
        } by {
            if i != 8 && i != 13 && i != 18 && i != 23 {
                assert(is_hex(s[i]));
            }
        }
    }
}

} // verus!
