//! The broker that all frontends of a user share on one machine.
use crate::text::{
    all_digits, chars_of, decimal, decimal_of, digit, digits_value, is_digit,
    parse_unsigned, pieces, split, split_words, string_of, texts,
    trim, trim_both, trim_set, trimmed, unsigned_up_to, words, CharSet,
};
#[allow(unused_imports)]
use crate::text::{
    law_decimal_reads_back, law_separator_parts_the_pieces, law_trimming_keeps_what_stands_between,
    law_unbroken_text_is_one_piece,
};
use vstd::prelude::*;
use vstd::string::*;

verus! {

pub const STARTUP_TIMEOUT_MS: u64 = 15000;

pub const PORT_REPORT_TIMEOUT_MS: u64 = 15000;

pub const SPAWN_ATTEMPTS: usize = 5;

/// What the owner of the broker publishes about it.
#[derive(Debug, PartialEq, Eq)]
pub struct ServerMetadata {
    pub port: u16,
    pub nonce: String,
    pub token: String,
}

/// The address of a broker that listens on this port of the machine.
pub open spec fn local_url(port: u16) -> Seq<char> {
    "nats://127.0.0.1:"@ + decimal(port as nat)
}

impl ServerMetadata {
    pub open spec fn same(&self, other: &ServerMetadata) -> bool {
        self.port == other.port && self.nonce@ == other.nonce@ && self.token@ == other.token@
    }

    pub fn url(&self) -> (r: String)
        ensures
            r@ == local_url(self.port),
    {
        url_of_port(self.port)
    }

    pub fn is_same(&self, other: &ServerMetadata) -> (r: bool)
        ensures
            r == self.same(other),
    {
        self.port == other.port && *self.nonce.as_str() == *other.nonce.as_str()
            && *self.token.as_str() == *other.token.as_str()
    }
}

/// The address of a broker that listens on this port of the machine.
pub fn url_of_port(port: u16) -> (r: String)
    ensures
        r@ == local_url(port),
{
    let mut r = String::from_str("nats://127.0.0.1:");
    r.append(decimal_of(port as u64).as_str());
    r
}

/// Whether a broker that was joined is still the one to use: the published data names it, and
/// somebody holds the lock. `locked` says whether the lock could be taken, where it could be
/// tried at all.
pub fn joiner_is_current(
    url: &str,
    token: &str,
    nonce: &str,
    metadata: Option<&ServerMetadata>,
    locked: Option<bool>,
) -> (r: bool)
    ensures
        r == {
            &&& metadata matches Some(m)
            &&& local_url(m.port) == url@
            &&& m.token@ == token@
            &&& m.nonce@ == nonce@
            &&& locked == Some(false)
        },
{
    match metadata {
        None => false,
        Some(m) => {
            if !(*m.url().as_str() == *url) || !(*m.token.as_str() == *token) || !(
            *m.nonce.as_str() == *nonce) {
                return false;
            }
            match locked {
                Some(taken) => !taken,
                None => false,
            }
        },
    }
}

/// Whether a broker that answered may be joined: what is published did not change meanwhile.
pub fn accept_join(before: &ServerMetadata, after: Option<&ServerMetadata>) -> (r: bool)
    ensures
        r == (before.nonce@.len() > 0 && after is Some && before.same(after->0)),
{
    match after {
        Some(after) => before.is_same(after) && !before.nonce.as_str().is_empty(),
        None => false,
    }
}

/// Whether the published data are those of the owner with this nonce.
pub fn owns_metadata(metadata: Option<&ServerMetadata>, nonce: &str) -> (r: bool)
    ensures
        r == (metadata is Some && metadata->0.nonce@ == nonce@),
{
    match metadata {
        Some(m) => *m.nonce.as_str() == *nonce,
        None => false,
    }
}

/// What a frontend does about the shared broker.
#[derive(Clone, Copy, Debug, PartialEq, Eq, Structural)]
pub enum EnsureServer {
    /// It holds the lock: start the broker.
    Start,
    /// Use the broker that another process runs.
    Join,
    /// Look again a little later.
    Wait,
    /// The owner published nothing valid in time.
    TimedOut,
}

/// What a frontend does about the shared broker.
pub fn ensure_server(locked: bool, joined: bool, now_ms: u64, deadline_ms: u64) -> (r: EnsureServer)
    ensures
        r == if locked {
            EnsureServer::Start
        } else if joined {
            EnsureServer::Join
        } else if now_ms >= deadline_ms {
            EnsureServer::TimedOut
        } else {
            EnsureServer::Wait
        },
{
    if locked {
        EnsureServer::Start
    } else if joined {
        EnsureServer::Join
    } else if now_ms >= deadline_ms {
        EnsureServer::TimedOut
    } else {
        EnsureServer::Wait
    }
}

/// The complaint about an owner that published nothing valid in time.
pub fn owner_timeout_message() -> (r: String)
    ensures
        r@ == "shared local NATS owner did not publish valid ports.json within "@ + decimal(
            (STARTUP_TIMEOUT_MS / 1000) as nat,
        ) + "s"@,
{
    let mut r = String::from_str(
        "shared local NATS owner did not publish valid ports.json within ",
    );
    r.append(decimal_of(STARTUP_TIMEOUT_MS / 1000).as_str());
    r.append("s");
    r
}

/// What a wait for the broker comes to.
#[derive(Clone, Copy, Debug, PartialEq, Eq, Structural)]
pub enum StartupStep {
    /// What was waited for is there.
    Ready,
    /// The process has left.
    Exited,
    /// It took too long.
    TimedOut,
    /// Look again a little later.
    Wait,
}

/// The wait for the broker to report its port. A report wins over an exit.
pub fn port_step(reported: bool, exited: bool, now_ms: u64, deadline_ms: u64) -> (r: StartupStep)
    ensures
        r == if reported {
            StartupStep::Ready
        } else if exited {
            StartupStep::Exited
        } else if now_ms >= deadline_ms {
            StartupStep::TimedOut
        } else {
            StartupStep::Wait
        },
{
    if reported {
        StartupStep::Ready
    } else if exited {
        StartupStep::Exited
    } else if now_ms >= deadline_ms {
        StartupStep::TimedOut
    } else {
        StartupStep::Wait
    }
}

/// The wait for the broker to admit a connection. An exit wins over a connection, so that a dead
/// process is never waited for.
pub fn ready_step(exited: bool, connected: bool, now_ms: u64, deadline_ms: u64) -> (r: StartupStep)
    ensures
        r == if exited {
            StartupStep::Exited
        } else if connected {
            StartupStep::Ready
        } else if now_ms >= deadline_ms {
            StartupStep::TimedOut
        } else {
            StartupStep::Wait
        },
{
    if exited {
        StartupStep::Exited
    } else if connected {
        StartupStep::Ready
    } else if now_ms >= deadline_ms {
        StartupStep::TimedOut
    } else {
        StartupStep::Wait
    }
}

/// The complaint about a broker that reported no port in time.
pub fn port_timeout_message() -> (r: String)
    ensures
        r@ == "shared local NATS did not report its port within "@ + decimal(
            (PORT_REPORT_TIMEOUT_MS / 1000) as nat,
        ) + "s"@,
{
    let mut r = String::from_str("shared local NATS did not report its port within ");
    r.append(decimal_of(PORT_REPORT_TIMEOUT_MS / 1000).as_str());
    r.append("s");
    r
}

/// The complaint about a broker that admitted no connection in time.
pub fn ready_timeout_message(url: &str, attempts: u32) -> (r: String)
    ensures
        r@ == "NATS server at "@ + url@ + " did not become ready within "@ + decimal(
            (STARTUP_TIMEOUT_MS / 1000) as nat,
        ) + "s after "@ + decimal(attempts as nat) + " attempts"@,
{
    let mut r = String::from_str("NATS server at ");
    r.append(url);
    r.append(" did not become ready within ");
    r.append(decimal_of(STARTUP_TIMEOUT_MS / 1000).as_str());
    r.append("s after ");
    r.append(decimal_of(attempts as u64).as_str());
    r.append(" attempts");
    r
}

/// Whether the broker is started once more after so many attempts.
pub fn spawn_again(attempts: usize) -> (r: bool)
    ensures
        r == (attempts < SPAWN_ATTEMPTS),
{
    attempts < SPAWN_ATTEMPTS
}

/// The complaint after the last attempt to start the broker.
pub fn spawn_message() -> (r: String)
    ensures
        r@ == "failed to start shared local NATS server after "@ + decimal(SPAWN_ATTEMPTS as nat)
            + " attempts"@,
{
    let mut r = String::from_str("failed to start shared local NATS server after ");
    r.append(decimal_of(SPAWN_ATTEMPTS as u64).as_str());
    r.append(" attempts");
    r
}

/// The end of the name of the file in which a broker reports its ports.
pub open spec fn ports_suffix(pid: u32) -> Seq<char> {
    "_"@ + decimal(pid as nat) + ".ports"@
}

/// The name of the file in which a broker reports its ports: that of its program, and its
/// process.
pub fn port_report_name(executable: Option<&str>, pid: u32) -> (r: String)
    ensures
        r@ == match executable {
            Some(name) => name@,
            None => "nats-server"@,
        } + ports_suffix(pid),
{
    let mut r = match executable {
        Some(name) => String::from_str(name),
        None => String::from_str("nats-server"),
    };
    let mut suffix = String::from_str("_");
    suffix.append(decimal_of(pid as u64).as_str());
    suffix.append(".ports");
    r.append(suffix.as_str());
    r
}

/// The text that stands in a JSON document at this place of the list under this key.
pub uninterp spec fn json_text_at(document: Seq<char>, key: Seq<char>, index: nat) -> Option<
    Seq<char>,
>;

/// `serde_json::from_str` to a `Value`, of which `Value::get` takes the member `key`, then the
/// element `index`, and `Value::as_str` the text. The result depends on the arguments alone; what
/// is JSON, and where such a text stands, is named here and not spelled out.
#[verifier::external_body]
fn json_text(document: &str, key: &str, index: usize) -> (r: Option<String>)
    ensures
        match r {
            Some(t) => json_text_at(document@, key@, index as nat) == Some(t@),
            None => json_text_at(document@, key@, index as nat) is None,
        },
{
    let parsed: serde_json::Value = serde_json::from_str(document).ok()?;
    Some(parsed.get(key)?.get(index)?.as_str()?.to_string())
}

/// Where the last colon stands.
pub open spec fn last_colon(s: Seq<char>) -> Option<int>
    decreases s.len(),
{
    if s.len() == 0 {
        None
    } else if s.last() == ':' {
        Some(s.len() - 1)
    } else {
        last_colon(s.drop_last())
    }
}

/// The port at the end of an address, after its last colon.
pub open spec fn port_in_url(url: Seq<char>) -> Option<u16> {
    match last_colon(url) {
        Some(i) => match unsigned_up_to(url.subrange(i + 1, url.len() as int), u16::MAX as nat) {
            Some(n) => Some(n as u16),
            None => None,
        },
        None => None,
    }
}

/// The port at the end of an address, after its last colon.
pub fn port_of_url(url: &str) -> (r: Option<u16>)
    ensures
        r == port_in_url(url@),
{
    let v = chars_of(url);
    let mut i: usize = v.len();
    assert(v@.take(i as int) =~= url@);
    while i > 0
        invariant
            i <= v@.len(),
            v@ == url@,
            last_colon(url@) == last_colon(v@.take(i as int)),
        decreases i,
    {
        assert(v@.take(i as int).drop_last() =~= v@.take(i - 1));
        assert(v@.take(i as int).last() == v@[i - 1]);
        if v[i - 1] == ':' {
            let digits = string_of(v.as_slice(), i, v.len());
            return match parse_unsigned(digits.as_str(), 0xffff) {
                Some(n) => Some(n as u16),
                None => None,
            };
        }
        i -= 1;
    }
    None
}

/// The port that a broker reports: that of the first of its addresses. Nothing while the report
/// is not complete.
pub fn parse_reported_port(contents: &str) -> (r: Option<u16>)
    ensures
        r == match json_text_at(contents@, "nats"@, 0) {
            Some(url) => port_in_url(url),
            None => None::<u16>,
        },
{
    match json_text(contents, "nats", 0) {
        Some(url) => port_of_url(url.as_str()),
        None => None,
    }
}

/// A digit of a number in hexadecimal.
pub open spec fn hex_digit(n: nat) -> char {
    if n < 10 {
        (48 + n) as char
    } else {
        (87 + n) as char
    }
}

/// A character as it stands in a JSON string.
pub open spec fn json_escaped(c: char) -> Seq<char> {
    let n = c as nat;
    if c == '"' || c == '\\' {
        seq!['\\', c]
    } else if n == 0x8 {
        seq!['\\', 'b']
    } else if n == 0x9 {
        seq!['\\', 't']
    } else if n == 0xA {
        seq!['\\', 'n']
    } else if n == 0xC {
        seq!['\\', 'f']
    } else if n == 0xD {
        seq!['\\', 'r']
    } else if n < 0x20 {
        seq!['\\', 'u', '0', '0', hex_digit(n / 16), hex_digit(n % 16)]
    } else {
        seq![c]
    }
}

/// The characters of a text as they stand in a JSON string.
pub open spec fn json_contents(s: Seq<char>) -> Seq<char>
    decreases s.len(),
{
    if s.len() == 0 {
        Seq::empty()
    } else {
        json_contents(s.drop_last()) + json_escaped(s.last())
    }
}

/// A text as a JSON string, in quotes and escaped.
pub open spec fn json_quoted(s: Seq<char>) -> Seq<char> {
    seq!['"'] + json_contents(s) + seq!['"']
}

/// `serde_json::to_string` on a text: it does not fail, and gives the text in double quotes, with
/// a backslash before quotes and backslashes, and with the escapes of JSON for the characters
/// below the space.
#[verifier::external_body]
fn json_string(s: &str) -> (r: Option<String>)
    ensures
        r is Some,
        r->0@ == json_quoted(s@),
{
    serde_json::to_string(s).ok()
}

/// The configuration of the broker, from three texts in quotes.
pub open spec fn config_text(ports: Seq<char>, store: Seq<char>, token: Seq<char>) -> Seq<char> {
    "host: \"127.0.0.1\"\nport: -1\nports_file_dir: "@ + ports + "\njetstream { store_dir: "@
        + store + " }\nauthorization { token: "@ + token + " }\n"@
}

/// The configuration of the broker, from three texts in quotes.
pub fn config_of(ports: &str, store: &str, token: &str) -> (r: String)
    ensures
        r@ == config_text(ports@, store@, token@),
        r@ == "host: \"127.0.0.1\"\nport: -1\nports_file_dir: "@ + ports@
            + "\njetstream { store_dir: "@ + store@ + " }\nauthorization { token: "@ + token@
            + " }\n"@,
{
    let mut r = String::from_str("host: \"127.0.0.1\"\nport: -1\nports_file_dir: ");
    r.append(ports);
    r.append("\njetstream { store_dir: ");
    r.append(store);
    r.append(" }\nauthorization { token: ");
    r.append(token);
    r.append(" }\n");
    r
}

/// The configuration of the broker: it takes a free port and reports it in `ports_dir`.
pub fn server_config(ports_dir: &str, store_dir: &str, token: &str) -> (r: String)
    ensures
        r@ == config_text(json_quoted(ports_dir@), json_quoted(store_dir@), json_quoted(token@)),
        r@ == "host: \"127.0.0.1\"\nport: -1\nports_file_dir: "@ + json_quoted(ports_dir@)
            + "\njetstream { store_dir: "@ + json_quoted(store_dir@)
            + " }\nauthorization { token: "@ + json_quoted(token@) + " }\n"@,
{
    let ports = json_string(ports_dir).unwrap();
    let store = json_string(store_dir).unwrap();
    let secret = json_string(token).unwrap();
    config_of(ports.as_str(), store.as_str(), secret.as_str())
}

/// Where the program of the broker was found.
#[derive(Clone, Copy, Debug, PartialEq, Eq, Structural)]
pub enum ServerBinary {
    /// The file that the environment names.
    Configured,
    /// A file on the search path.
    SearchPath,
    /// The environment names something that cannot be run.
    ConfiguredUnusable,
    /// There is none.
    NotFound,
}

/// Which program is the broker. What the environment names counts alone, where it names
/// something: it must be a file that may be run.
pub fn server_binary(configured: Option<(bool, bool)>, on_search_path: bool) -> (r: ServerBinary)
    ensures
        r == match configured {
            Some((is_file, executable)) => if is_file && executable {
                ServerBinary::Configured
            } else {
                ServerBinary::ConfiguredUnusable
            },
            None => if on_search_path {
                ServerBinary::SearchPath
            } else {
                ServerBinary::NotFound
            },
        },
{
    match configured {
        Some((is_file, executable)) => if is_file && executable {
            ServerBinary::Configured
        } else {
            ServerBinary::ConfiguredUnusable
        },
        None => if on_search_path {
            ServerBinary::SearchPath
        } else {
            ServerBinary::NotFound
        },
    }
}

/// The complaint about a program that the environment names.
pub fn unusable_binary_message(path: &str) -> (r: String)
    ensures
        r@ == "NATS_SERVER_BIN points to a missing or non-executable file: "@ + path@,
{
    let mut r = String::from_str("NATS_SERVER_BIN points to a missing or non-executable file: ");
    r.append(path);
    r
}

/// The complaint where there is no program.
pub fn missing_binary_message(error: &str) -> (r: String)
    ensures
        r@
            == "nats-server binary not found; set NATS_SERVER_BIN to its path or install nats-server on PATH: "@
            + error@,
{
    let mut r = String::from_str(
        "nats-server binary not found; set NATS_SERVER_BIN to its path or install nats-server on PATH: ",
    );
    r.append(error);
    r
}

/// Whether the mode of a file lets somebody run it.
pub fn is_executable(mode: u32) -> (r: bool)
    ensures
        r == (mode & 0o111 != 0),
{
    mode & 0o111 != 0
}

/// The version that a word stands for: two numbers with a point between them, behind marks that
/// do not belong to it and at most one `v`.
pub open spec fn version_of_word(word: Seq<char>) -> Option<(u64, u64)> {
    let bare = trim_both(word, CharSet::NoVersion);
    let number = if bare.len() > 0 && bare[0] == 'v' {
        bare.subrange(1, bare.len() as int)
    } else {
        bare
    };
    let parts = pieces(number, CharSet::Only('.'));
    if parts.len() < 2 {
        None
    } else {
        match (
            unsigned_up_to(parts[0], u64::MAX as nat),
            unsigned_up_to(parts[1], u64::MAX as nat),
        ) {
            (Some(major), Some(minor)) => Some((major as u64, minor as u64)),
            _ => None,
        }
    }
}

/// The version that the first of the words stands for that stands for one.
pub open spec fn first_version(words: Seq<Seq<char>>) -> Option<(u64, u64)>
    decreases words.len(),
{
    if words.len() == 0 {
        None
    } else {
        match version_of_word(words[0]) {
            Some(v) => Some(v),
            None => first_version(words.subrange(1, words.len() as int)),
        }
    }
}

fn parse_version_word(word: &str) -> (r: Option<(u64, u64)>)
    ensures
        r == version_of_word(word@),
{
    let bare = trim_set(word, CharSet::NoVersion);
    let v = chars_of(bare.as_str());
    let number = if v.len() > 0 && v[0] == 'v' {
        string_of(v.as_slice(), 1, v.len())
    } else {
        bare
    };
    let parts = split(number.as_str(), CharSet::Only('.'));
    assert(texts(parts@).len() == parts@.len());
    if parts.len() < 2 {
        return None;
    }
    assert(texts(parts@)[0] == parts@[0]@ && texts(parts@)[1] == parts@[1]@);
    match (
        parse_unsigned(parts[0].as_str(), u64::MAX),
        parse_unsigned(parts[1].as_str(), u64::MAX),
    ) {
        (Some(major), Some(minor)) => Some((major, minor)),
        _ => None,
    }
}

/// The first two numbers of the version that a program says it has.
pub fn parse_major_minor(version: &str) -> (r: Option<(u64, u64)>)
    ensures
        r == first_version(words(version@)),
{
    let list = split_words(version);
    let ghost all = texts(list@);
    let mut i: usize = 0;
    assert(all.subrange(0, all.len() as int) =~= all);
    while i < list.len()
        invariant
            i <= list@.len(),
            all == texts(list@),
            all == words(version@),
            first_version(all) == first_version(all.subrange(i as int, all.len() as int)),
        decreases list@.len() - i,
    {
        let ghost rest = all.subrange(i as int, all.len() as int);
        assert(rest[0] == list@[i as int]@);
        assert(rest.subrange(1, rest.len() as int) =~= all.subrange(i + 1, all.len() as int));
        match parse_version_word(list[i].as_str()) {
            Some(v) => {
                return Some(v);
            },
            None => {},
        }
        i += 1;
    }
    None
}

/// Why a program cannot be the broker.
#[derive(Clone, Copy, Debug, PartialEq, Eq, Structural)]
pub enum VersionError {
    /// It does not say which version it has.
    Unreadable,
    /// It is older than 2.11.
    TooOld,
}

/// Whether a program that prints this is new enough to be the broker.
pub fn verify_version(text: &str) -> (r: Result<(), VersionError>)
    ensures
        r == match first_version(words(text@)) {
            None => Err::<(), VersionError>(VersionError::Unreadable),
            Some((major, minor)) => if major > 2 || (major == 2 && minor >= 11) {
                Ok(())
            } else {
                Err(VersionError::TooOld)
            },
        },
{
    match parse_major_minor(text) {
        None => Err(VersionError::Unreadable),
        Some((major, minor)) => if major > 2 || (major == 2 && minor >= 11) {
            Ok(())
        } else {
            Err(VersionError::TooOld)
        },
    }
}

/// The complaint about a program that is too old.
pub fn too_old_message(binary: &str, text: &str) -> (r: String)
    ensures
        r@ == "nats-server version 2.11 or newer is required; "@ + binary@ + " reports "@
            + trimmed(text@),
{
    let mut r = String::from_str("nats-server version 2.11 or newer is required; ");
    r.append(binary);
    r.append(" reports ");
    r.append(trim(text).as_str());
    r
}

/// What a frontend knows of the shared broker.
#[derive(Debug)]
pub struct LocalBrokerStatus {
    pub url: String,
    pub token: String,
    pub nonce: String,
    pub owner: bool,
}

impl LocalBrokerStatus {
    /// Whether this process runs the broker.
    pub fn is_owner(&self) -> (r: bool)
        ensures
            r == self.owner,
    {
        self.owner
    }

    /// What is known of a broker now.
    pub fn snapshot(url: &str, token: &str, nonce: &str, owner: bool) -> (r: LocalBrokerStatus)
        ensures
            r.url@ == url@,
            r.token@ == token@,
            r.nonce@ == nonce@,
            r.owner == owner,
    {
        LocalBrokerStatus {
            url: String::from_str(url),
            token: String::from_str(token),
            nonce: String::from_str(nonce),
            owner,
        }
    }
}

/// What is published names a broker in one way only: another nonce, another token or another port
/// ends what was joined.
pub proof fn law_join_needs_unchanged_data(before: ServerMetadata, after: ServerMetadata)
    ensures
        before.same(&after) ==> local_url(before.port) == local_url(after.port),
        before.same(&after) == after.same(&before),
        before.nonce@ != after.nonce@ ==> !before.same(&after),
{
}

/// The port of the address of a broker is read back from the address.
pub proof fn law_port_is_read_back(port: u16)
    ensures
        port_in_url(local_url(port)) == Some(port),
{
    let url = local_url(port);
    let head = "nats://127.0.0.1:"@;
    let digits = decimal(port as nat);
    reveal_strlit("nats://127.0.0.1:");
    decimal_digits(port as nat);
    last_colon_before_digits(head.take(head.len() - 1), digits);
    assert(head.take(head.len() - 1).push(':') =~= head);
    assert(url =~= head.take(head.len() - 1).push(':') + digits);
    assert(url.subrange(head.len() as int, url.len() as int) =~= digits);
}

proof fn decimal_digits(n: nat)
    ensures
        decimal(n).len() > 0,
        all_digits(decimal(n)),
        digits_value(decimal(n)) == n,
        decimal(n)[0] != '+',
    decreases n,
{
    let s = decimal(n);
    if n < 10 {
        assert(s.drop_last() =~= Seq::<char>::empty());
        assert(digits_value(s.drop_last()) == 0);
        assert(s.last() == digit(n));
    } else {
        decimal_digits(n / 10);
        assert(s.drop_last() =~= decimal(n / 10));
        assert(s.last() == digit(n % 10));
    }
}

proof fn last_colon_before_digits(head: Seq<char>, digits: Seq<char>)
    requires
        all_digits(digits),
    ensures
        last_colon(head.push(':') + digits) == Some(head.len() as int),
    decreases digits.len(),
{
    let s = head.push(':') + digits;
    if digits.len() == 0 {
        assert(s =~= head.push(':'));
    } else {
        assert(s.last() == digits.last());
        assert(is_digit(digits[digits.len() - 1]));
        assert(s.drop_last() =~= head.push(':') + digits.drop_last());
        last_colon_before_digits(head, digits.drop_last());
    }
}

/// A server is reached on this machine at the port it reported, and is the same one only where
/// port, nonce and token agree. Its report ends in its process.
pub proof fn law_server_is_known_by_port_nonce_and_token(
    a: ServerMetadata,
    b: ServerMetadata,
    pid: u32,
)
    ensures
        local_url(a.port) == "nats://127.0.0.1:"@ + decimal(a.port as nat),
        a.same(&b) <==> a.port == b.port && a.nonce@ == b.nonce@ && a.token@ == b.token@,
        ports_suffix(pid) == "_"@ + decimal(pid as nat) + ".ports"@,
{
}

/// The last colon of a text has none behind it, and there is none exactly where no character is
/// one.
#[verifier::spinoff_prover]
#[verifier::rlimit(40)]
pub proof fn law_last_colon_has_none_behind_it(s: Seq<char>, i: int)
    ensures
        last_colon(s) == Some(i) <==> 0 <= i < s.len() && s[i] == ':' && forall|j: int|
            i < j < s.len() ==> #[trigger] s[j] != ':',
        last_colon(s) is None <==> forall|j: int| 0 <= j < s.len() ==> #[trigger] s[j] != ':',
    decreases s.len(),
{
    if s.len() > 0 {
        let t = s.drop_last();
        let last = s.len() - 1;
        law_last_colon_has_none_behind_it(t, i);
        assert(s[last] == s.last());
        assert forall|j: int| 0 <= j < last implies #[trigger] s[j] == t[j] by {}
        if s.last() != ':' {
            if last_colon(t) is Some && !(last_colon(t) is None) {
                let k = choose|k: int| 0 <= k < t.len() && #[trigger] t[k] == ':';
                assert(s[k] == ':');
            }
            if last_colon(t) == Some(i) {
                assert forall|j: int| i < j < s.len() implies #[trigger] s[j] != ':' by {
                    if j < last {
                        assert(t[j] != ':');
                    }
                }
            }
        }
    }
}

/// The port of a URL is the number behind its last colon, where it has one and that is a port.
pub proof fn law_port_stands_behind_the_last_colon(head: Seq<char>, tail: Seq<char>)
    requires
        forall|i: int| 0 <= i < tail.len() ==> #[trigger] tail[i] != ':',
    ensures
        unsigned_up_to(tail, 65535) is None <==> port_in_url(head.push(':') + tail) is None,
        unsigned_up_to(tail, 65535) matches Some(n) ==> port_in_url(head.push(':') + tail) == Some(
            n as u16,
        ),
        port_in_url(tail) is None,
{
    let url = head.push(':') + tail;
    let at = head.len() as int;
    assert forall|j: int| at < j < url.len() implies #[trigger] url[j] != ':' by {
        assert(url[j] == tail[j - at - 1]);
    }
    law_last_colon_has_none_behind_it(url, at);
    assert(last_colon(url) == Some(at));
    assert(url.subrange(at + 1, url.len() as int) =~= tail);
    law_last_colon_has_none_behind_it(tail, 0);
}

/// A text in JSON stands between quotes, each character written for itself: a quote, a backslash
/// and the control characters escaped, and any other as it is.
pub proof fn law_json_writes_each_character_for_itself(a: Seq<char>, b: Seq<char>, c: char)
    ensures
        json_quoted(a) == seq!['"'] + json_contents(a) + seq!['"'],
        json_contents(a + b) == json_contents(a) + json_contents(b),
        json_contents(seq![c]) == json_escaped(c),
        json_contents(Seq::<char>::empty()).len() == 0,
        c == '"' ==> json_escaped(c) == seq!['\\', '"'],
        c == '\\' ==> json_escaped(c) == seq!['\\', '\\'],
        c == '\n' ==> json_escaped(c) == seq!['\\', 'n'],
        c == '\r' ==> json_escaped(c) == seq!['\\', 'r'],
        c == '\t' ==> json_escaped(c) == seq!['\\', 't'],
        c as u32 == 0x8 ==> json_escaped(c) == seq!['\\', 'b'],
        c as u32 == 0xC ==> json_escaped(c) == seq!['\\', 'f'],
        c as u32 >= 0x20 && c != '"' && c != '\\' ==> json_escaped(c) == seq![c],
    decreases b.len(),
{
    reveal_with_fuel(json_contents, 2);
    assert(seq![c].drop_last() =~= Seq::<char>::empty());
    assert(Seq::<char>::empty() + json_escaped(c) =~= json_escaped(c));
    if b.len() == 0 {
        assert(a + b =~= a);
        assert(json_contents(a) + json_contents(b) =~= json_contents(a));
    } else {
        law_json_writes_each_character_for_itself(a, b.drop_last(), c);
        assert((a + b).drop_last() =~= a + b.drop_last());
        assert((a + b).last() == b.last());
        assert(json_contents(a + b) =~= json_contents(a) + json_contents(b));
    }
}

/// Any other control character is written as its code in four digits of base sixteen.
pub proof fn law_json_writes_other_controls_as_codes(c: char)
    requires
        (c as u32) < 0x20,
        c as u32 != 0x8 && c as u32 != 0x9 && c as u32 != 0xA && c as u32 != 0xC && c as u32 != 0xD,
    ensures
        json_escaped(c) == seq![
            '\\',
            'u',
            '0',
            '0',
            if (c as u32) < 0x10 {
                '0'
            } else {
                '1'
            },
            hex_digit((c as u32 % 16) as nat),
        ],
        forall|n: nat|
            n < 16 ==> #[trigger] hex_digit(n) == seq![
                '0',
                '1',
                '2',
                '3',
                '4',
                '5',
                '6',
                '7',
                '8',
                '9',
                'a',
                'b',
                'c',
                'd',
                'e',
                'f',
            ][n as int],
{
}

/// A word names a version by its first two numbers: with or without a `v` in front, and whatever
/// follows behind a further point.
#[verifier::spinoff_prover]
#[verifier::rlimit(40)]
pub proof fn law_version_is_the_first_two_numbers(major: u64, minor: u64, rest: Seq<char>)
    requires
        rest.len() == 0 || (rest[0] == '.' && !CharSet::NoVersion.spec_has(rest.last())),
    ensures
        version_of_word(decimal(major as nat) + seq!['.'] + decimal(minor as nat) + rest) == Some(
            (major, minor),
        ),
        version_of_word(
            seq!['v'] + decimal(major as nat) + seq!['.'] + decimal(minor as nat) + rest,
        ) == Some((major, minor)),
{
    let a = decimal(major as nat);
    let b = decimal(minor as nat);
    let word = a + seq!['.'] + b + rest;
    let marked = seq!['v'] + a + seq!['.'] + b + rest;
    law_decimal_reads_back(major as nat);
    law_decimal_reads_back(minor as nat);
    assert(is_digit(a[0]) && is_digit(b.last()) && is_digit(b[b.len() - 1]));
    let tail = b + rest;
    assert(word =~= a.push('.') + tail);
    assert(marked =~= seq!['v'] + word);
    assert(word.len() > 0 && word[0] == a[0]);
    assert(word.last() == if rest.len() == 0 {
        b.last()
    } else {
        rest.last()
    });
    untrimmed(word, CharSet::NoVersion);
    untrimmed(marked, CharSet::NoVersion);
    assert(marked.subrange(1, marked.len() as int) =~= word);
    assert(word[0] != 'v');
    let dot = CharSet::Only('.');
    digits_are_one_piece(a);
    digits_are_one_piece(b);
    law_separator_parts_the_pieces(a, '.', tail, dot);
    if rest.len() == 0 {
        assert(tail =~= b);
    } else {
        let more = rest.skip(1);
        assert(tail =~= b.push('.') + more);
        law_separator_parts_the_pieces(b, '.', more, dot);
    }
    let parts = pieces(word, dot);
    assert(parts[0] == a && parts[1] == b);
}

/// Nothing is trimmed off a text that neither starts nor ends with a character of the set.
proof fn untrimmed(s: Seq<char>, set: CharSet)
    requires
        s.len() > 0,
        !set.spec_has(s[0]),
        !set.spec_has(s.last()),
    ensures
        trim_both(s, set) == s,
{
}

proof fn digits_are_one_piece(s: Seq<char>)
    requires
        all_digits(s),
    ensures
        pieces(s, CharSet::Only('.')) == seq![s],
{
    assert forall|i: int| 0 <= i < s.len() implies !CharSet::Only('.').spec_has(#[trigger] s[i]) by {
        assert(is_digit(s[i]));
    }
    law_unbroken_text_is_one_piece(s, CharSet::Only('.'));
}

/// A word without a point names no version.
pub proof fn law_word_without_a_point_is_no_version(word: Seq<char>)
    requires
        forall|i: int| 0 <= i < word.len() ==> #[trigger] word[i] != '.',
    ensures
        version_of_word(word) is None,
{
    let bare = trim_both(word, CharSet::NoVersion);
    let ends = law_trimming_keeps_what_stands_between(word, CharSet::NoVersion);
    let number = if bare.len() > 0 && bare[0] == 'v' {
        bare.subrange(1, bare.len() as int)
    } else {
        bare
    };
    assert forall|i: int| 0 <= i < number.len() implies !CharSet::Only('.').spec_has(
        #[trigger] number[i],
    ) by {
        if number.len() < bare.len() {
            assert(number[i] == bare[i + 1]);
            assert(bare[i + 1] == word[ends.0 + i + 1]);
        } else {
            assert(bare[i] == word[ends.0 + i]);
        }
    }
    law_unbroken_text_is_one_piece(number, CharSet::Only('.'));
}

/// The version of a text is that of the first word that names one.
#[verifier::spinoff_prover]
#[verifier::rlimit(40)]
pub proof fn law_first_word_with_a_version_counts(words: Seq<Seq<char>>)
    ensures
        forall|i: int|
            0 <= i < words.len() && version_of_word(#[trigger] words[i]) is Some && (forall|j: int|
                0 <= j < i ==> version_of_word(#[trigger] words[j]) is None) ==> first_version(words)
                == version_of_word(words[i]),
        first_version(words) is None <==> forall|i: int|
            0 <= i < words.len() ==> version_of_word(#[trigger] words[i]) is None,
    decreases words.len(),
{
    if words.len() > 0 {
        let t = words.subrange(1, words.len() as int);
        law_first_word_with_a_version_counts(t);
        assert forall|i: int| 0 <= i < t.len() implies #[trigger] t[i] == words[i + 1] by {}
        if version_of_word(words[0]) is None {
            assert forall|i: int|
                0 <= i < words.len() && version_of_word(#[trigger] words[i]) is Some && (forall|
                    j: int,
                |
                    0 <= j < i ==> version_of_word(#[trigger] words[j]) is None) implies first_version(
                words,
            ) == version_of_word(words[i]) by {
                assert(t[i - 1] == words[i]);
                assert forall|j: int| 0 <= j < i - 1 implies version_of_word(#[trigger] t[j]) is None by {
                    assert(words[j + 1] == t[j]);
                }
            }
            if first_version(t) is None {
                assert forall|i: int| 0 <= i < words.len() implies version_of_word(
                    #[trigger] words[i],
                ) is None by {
                    if i > 0 {
                        assert(t[i - 1] == words[i]);
                    }
                }
            } else {
                let k = choose|k: int| 0 <= k < t.len() && version_of_word(#[trigger] t[k]) is Some;
                assert(version_of_word(words[k + 1]) is Some);
            }
        } else {
            assert(words[0] == words[0]);
        }
    }
}

} // verus!
