//! The index of sessions: a copy of what the logs say, for listing only.
use vstd::prelude::*;
use vstd::string::*;

verus! {

/// The bucket that holds the index.
pub const SESSION_INDEX_BUCKET: &'static str = "harnx_sessions";

/// A session in the index.
#[derive(Debug, PartialEq, Eq)]
pub struct SessionIndexRecord {
    pub session_id: String,
    pub agent_name: String,
    pub working_dir: Option<String>,
    pub git_branch: Option<String>,
    pub git_remote: Option<String>,
    pub last_activity: u64,
}

/// The key of a session in the index.
pub fn session_index_key(session_id: &str) -> (r: String)
    ensures
        r@ == "sessions/"@ + session_id@ + "/meta"@,
{
    let mut r = String::from_str("sessions/");
    r.append(session_id);
    r.append("/meta");
    r
}

/// Two sessions never share a key.
pub proof fn law_index_keys_differ(a: Seq<char>, b: Seq<char>)
    requires
        "sessions/"@ + a + "/meta"@ == "sessions/"@ + b + "/meta"@,
    ensures
        a == b,
{
    let p = "sessions/"@;
    let q = "/meta"@;
    let left = p + a + q;
    let right = p + b + q;
    assert(left.len() == right.len());
    assert(a.len() == b.len());
    assert forall|i: int| 0 <= i < a.len() implies a[i] == b[i] by {
        assert(left[p.len() + i] == a[i]);
        assert(right[p.len() + i] == b[i]);
    }
    assert(a =~= b);
}

} // verus!
