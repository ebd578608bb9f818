//! Titles: what a model is shown to make one, and what is kept of its answer.
use crate::config::session::{Message, Session};
use crate::config::settings::{record_title, setting_error_text, titled, SettingError};
use crate::config::Config;
use crate::events::{event_view, AgentEvent, EventView, SessionEvent};
use crate::text::{
    back_of, chars_of, front_of, is_closing, join, joined, opt_text, pieces, split, string_of, texts,
    trim, trim_back, trim_front, trimmed, CharSet,
};
#[allow(unused_imports)]
use crate::text::{
    law_end_is_trimmed_down_to_the_last_other, law_front_is_trimmed_up_to_the_first_other,
};
use vstd::prelude::*;
use vstd::string::*;

verus! {

/// How much of a conversation a model is shown.
pub const MAX_TRANSCRIPT_CHARS: usize = 8000;

/// How much of one part of a conversation a model is shown.
pub const MAX_SECTION_CHARS: usize = 4000;

/// How long a title may be.
pub const MAX_TITLE_CHARS: usize = 200;

/// What the search for the agent that makes titles came to.
#[derive(Debug)]
pub enum TitleAgentResolution<A> {
    /// Nobody asked for one.
    NotConfigured,
    /// There is no agent of this name.
    NotFound { name: String },
    /// There is one, but it cannot be loaded.
    LoadError { name: String, source: String },
    Found(A),
}

impl<A> TitleAgentResolution<A> {
    /// The agent, nothing where nobody asked for one, or what is wrong.
    pub fn into_result(self) -> (r: Result<Option<A>, String>)
        ensures
            match self {
                TitleAgentResolution::NotConfigured => r == Ok::<Option<A>, String>(None),
                TitleAgentResolution::NotFound { name } => r matches Err(e) && e@
                    == "title agent '"@ + name@ + "' not found"@,
                TitleAgentResolution::LoadError { name, source } => r matches Err(e) && e@
                    == "title agent '"@ + name@ + "' failed to load: "@ + source@,
                TitleAgentResolution::Found(agent) => r == Ok::<Option<A>, String>(Some(agent)),
            },
    {
        match self {
            TitleAgentResolution::NotConfigured => Ok(None),
            TitleAgentResolution::NotFound { name } => {
                let mut e = String::from_str("title agent '");
                e.append(name.as_str());
                e.append("' not found");
                Err(e)
            },
            TitleAgentResolution::LoadError { name, source } => {
                let mut e = String::from_str("title agent '");
                e.append(name.as_str());
                e.append("' failed to load: ");
                e.append(source.as_str());
                Err(e)
            },
            TitleAgentResolution::Found(agent) => Ok(Some(agent)),
        }
    }

    /// Whether a title is left out without a word. What is asked for and broken is reported.
    pub fn skips(&self) -> (r: bool)
        ensures
            r == (*self is NotConfigured),
    {
        match self {
            TitleAgentResolution::NotConfigured => true,
            _ => false,
        }
    }

    /// What became of loading an agent: the agent, whose variables may fail to resolve, or an
    /// error, which says that there is no such agent where there is no file.
    pub fn of_load(
        name: String,
        loaded: Result<A, String>,
        variables: Result<(), String>,
        file_exists: bool,
    ) -> (r: TitleAgentResolution<A>)
        ensures
            r == match loaded {
                Ok(agent) => match variables {
                    Ok(_) => TitleAgentResolution::Found(agent),
                    Err(source) => TitleAgentResolution::LoadError { name, source },
                },
                Err(source) => if file_exists {
                    TitleAgentResolution::LoadError { name, source }
                } else {
                    TitleAgentResolution::NotFound { name }
                },
            },
    {
        match loaded {
            Ok(agent) => match variables {
                Ok(_) => TitleAgentResolution::Found(agent),
                Err(source) => TitleAgentResolution::LoadError { name, source },
            },
            Err(source) => if file_exists {
                TitleAgentResolution::LoadError { name, source }
            } else {
                TitleAgentResolution::NotFound { name }
            },
        }
    }
}

/// A text without white space at its ends, cut to `max` characters and a mark where it is longer.
pub open spec fn shortened(text: Seq<char>, max: nat) -> Seq<char> {
    let t = trimmed(text);
    if t.len() <= max {
        t
    } else {
        t.take(max as int) + "…"@
    }
}

pub fn truncate_chars(text: &str, max: usize) -> (r: String)
    ensures
        r@ == shortened(text@, max as nat),
{
    let t = trim(text);
    let v = chars_of(t.as_str());
    if v.len() <= max {
        return t;
    }
    let mut r = string_of(v.as_slice(), 0, max);
    assert(v@.subrange(0, max as int) =~= t@.take(max as int));
    r.append("…");
    r
}

/// A part of a conversation under a label, if it says anything.
pub open spec fn section(label: Seq<char>, text: Seq<char>) -> Option<Seq<char>> {
    if trimmed(text).len() == 0 {
        None
    } else {
        Some(label + ":\n"@ + shortened(trimmed(text), MAX_SECTION_CHARS as nat))
    }
}

pub fn labeled_section(label: &str, text: &str) -> (r: Option<String>)
    ensures
        opt_text(r) == section(label@, text@),
{
    let t = trim(text);
    if t.as_str().is_empty() {
        None
    } else {
        let mut r = String::from_str(label);
        r.append(":\n");
        r.append(truncate_chars(t.as_str(), MAX_SECTION_CHARS).as_str());
        Some(r)
    }
}

/// The first message of the user.
pub open spec fn first_user(messages: Seq<Message>) -> Option<int>
    decreases messages.len(),
{
    if messages.len() == 0 {
        None
    } else {
        match first_user(messages.drop_last()) {
            Some(i) => Some(i),
            None => if messages.last().role is User {
                Some(messages.len() - 1)
            } else {
                None
            },
        }
    }
}

/// The last message of the user.
pub open spec fn last_user(messages: Seq<Message>) -> Option<int>
    decreases messages.len(),
{
    if messages.len() == 0 {
        None
    } else if messages.last().role is User {
        Some(messages.len() - 1)
    } else {
        last_user(messages.drop_last())
    }
}

/// The answers that say something, from the place `from` on.
pub open spec fn replies(messages: Seq<Message>, from: int) -> Seq<Seq<char>>
    decreases messages.len(),
{
    if messages.len() <= from || messages.len() == 0 {
        Seq::empty()
    } else {
        let before = replies(messages.drop_last(), from);
        let m = messages.last();
        if m.role is Assistant && trimmed(m.content.words()).len() > 0 {
            before.push(m.content.words())
        } else {
            before
        }
    }
}

fn find_first_user(messages: &[Message]) -> (r: Option<usize>)
    ensures
        match r {
            Some(i) => first_user(messages@) == Some(i as int) && i < messages@.len(),
            None => first_user(messages@) is None,
        },
{
    let mut found: Option<usize> = None;
    let mut i: usize = 0;
    while i < messages.len()
        invariant
            i <= messages@.len(),
            match found {
                Some(f) => first_user(messages@.take(i as int)) == Some(f as int) && f < i,
                None => first_user(messages@.take(i as int)) is None,
            },
        decreases messages@.len() - i,
    {
        assert(messages@.take(i + 1).drop_last() =~= messages@.take(i as int));
        if found.is_none() && messages[i].role.is_user() {
            found = Some(i);
        }
        i += 1;
    }
    assert(messages@.take(i as int) =~= messages@);
    found
}

fn find_last_user(messages: &[Message]) -> (r: Option<usize>)
    ensures
        match r {
            Some(i) => last_user(messages@) == Some(i as int) && i < messages@.len(),
            None => last_user(messages@) is None,
        },
{
    let mut i: usize = messages.len();
    assert(messages@.take(i as int) =~= messages@);
    while i > 0
        invariant
            i <= messages@.len(),
            last_user(messages@) == last_user(messages@.take(i as int)),
        decreases i,
    {
        assert(messages@.take(i as int).drop_last() =~= messages@.take(i - 1));
        assert(messages@.take(i as int).last() == messages@[i - 1]);
        if messages[i - 1].role.is_user() {
            return Some(i - 1);
        }
        i -= 1;
    }
    None
}

/// What the user said first, or nothing.
pub open spec fn first_user_text(messages: Seq<Message>) -> Seq<char> {
    match first_user(messages) {
        Some(i) => messages[i].content.words(),
        None => Seq::empty(),
    }
}

/// What the user said last, where that is another message.
pub open spec fn last_user_text(messages: Seq<Message>) -> Option<Seq<char>> {
    match (first_user(messages), last_user(messages)) {
        (Some(f), Some(l)) => if l != f {
            Some(messages[l].content.words())
        } else {
            None
        },
        _ => None,
    }
}

/// What the user said first and, where that is another message, last.
pub fn first_and_last_user_text(session: &Session) -> (r: (String, Option<String>))
    ensures
        r.0@ == first_user_text(session.messages@),
        opt_text(r.1) == last_user_text(session.messages@),
{
    let messages = session.messages.as_slice();
    let first = find_first_user(messages);
    let last = find_last_user(messages);
    let first_text = match first {
        Some(i) => messages[i].content.to_text(),
        None => String::new(),
    };
    let last_text = match (first, last) {
        (Some(f), Some(l)) => if l != f {
            Some(messages[l].content.to_text())
        } else {
            None
        },
        _ => None,
    };
    (first_text, last_text)
}

/// The answers to what the user said last.
pub open spec fn latest_reply(messages: Seq<Message>) -> Seq<char> {
    match last_user(messages) {
        Some(l) => joined(replies(messages, l + 1), "\n\n"@),
        None => Seq::empty(),
    }
}

/// The answers to what the user said last.
pub fn assistant_after_last_user(session: &Session) -> (r: String)
    ensures
        r@ == latest_reply(session.messages@),
{
    let messages = session.messages.as_slice();
    let last: usize = match find_last_user(messages) {
        Some(l) => l,
        None => {
            return String::new();
        },
    };
    let count: usize = messages.len();
    let mut parts: Vec<String> = Vec::new();
    let mut i: usize = last + 1;
    assert(texts(parts@) =~= replies(messages@.take(i as int), last + 1));
    while i < count
        invariant
            count == messages@.len(),
            last < i <= messages@.len(),
            texts(parts@) == replies(messages@.take(i as int), last + 1),
        decreases messages@.len() - i,
    {
        let ghost before = texts(parts@);
        assert(messages@.take(i + 1).drop_last() =~= messages@.take(i as int));
        assert(messages@.take(i + 1).last() == messages@[i as int]);
        if messages[i].role.is_assistant() {
            let text = messages[i].content.to_text();
            if !trim(text.as_str()).as_str().is_empty() {
                parts.push(text);
                assert(texts(parts@) =~= before.push(text@));
            }
        }
        i += 1;
    }
    assert(messages@.take(i as int) =~= messages@);
    join(parts.as_slice(), "\n\n")
}

/// The parts that are there, in order.
pub open spec fn present(parts: Seq<Option<Seq<char>>>) -> Seq<Seq<char>>
    decreases parts.len(),
{
    if parts.len() == 0 {
        Seq::empty()
    } else {
        match parts.last() {
            Some(p) => present(parts.drop_last()).push(p),
            None => present(parts.drop_last()),
        }
    }
}

/// What a model is shown of a session to make a title: what the user said first and last, and
/// the answers to the latter.
pub open spec fn title_transcript(messages: Seq<Message>) -> Seq<char> {
    let last = match last_user_text(messages) {
        Some(t) => t,
        None => ""@,
    };
    shortened(
        joined(
            present(
                seq![
                    section("First user message"@, first_user_text(messages)),
                    section("Latest user message"@, last),
                    section("Latest assistant response"@, latest_reply(messages)),
                ],
            ),
            "\n\n"@,
        ),
        MAX_TRANSCRIPT_CHARS as nat,
    )
}

fn add_section(sections: &mut Vec<String>, part: Option<String>, Ghost(done): Ghost<
    Seq<Option<Seq<char>>>,
>)
    requires
        texts(old(sections)@) == present(done),
    ensures
        texts(final(sections)@) == present(done.push(opt_text(part))),
{
    let ghost before = texts(sections@);
    let ghost all = done.push(opt_text(part));
    assert(all.drop_last() =~= done);
    match part {
        Some(t) => {
            sections.push(t);
            assert(texts(sections@) =~= before.push(t@));
        },
        None => {},
    }
}

/// What a model is shown of a session to make a title.
pub fn build_title_transcript(session: &Session) -> (r: String)
    ensures
        r@ == title_transcript(session.messages@),
{
    let (first_user, last_user) = first_and_last_user_text(session);
    let assistant = assistant_after_last_user(session);
    let last_text = match last_user {
        Some(t) => t,
        None => String::from_str(""),
    };
    let mut sections: Vec<String> = Vec::new();
    let ghost none = Seq::<Option<Seq<char>>>::empty();
    let ghost a = section("First user message"@, first_user@);
    let ghost b = section("Latest user message"@, last_text@);
    let ghost c = section("Latest assistant response"@, assistant@);
    assert(texts(sections@) =~= present(none));
    add_section(
        &mut sections,
        labeled_section("First user message", first_user.as_str()),
        Ghost(none),
    );
    add_section(
        &mut sections,
        labeled_section("Latest user message", last_text.as_str()),
        Ghost(none.push(a)),
    );
    add_section(
        &mut sections,
        labeled_section("Latest assistant response", assistant.as_str()),
        Ghost(none.push(a).push(b)),
    );
    assert(none.push(a).push(b).push(c) =~= seq![a, b, c]);
    truncate_chars(join(sections.as_slice(), "\n\n").as_str(), MAX_TRANSCRIPT_CHARS)
}

/// The first of the lines that says anything, without white space at its ends.
pub open spec fn first_said(lines: Seq<Seq<char>>) -> Seq<char>
    decreases lines.len(),
{
    if lines.len() == 0 {
        Seq::empty()
    } else if trimmed(lines[0]).len() > 0 {
        trimmed(lines[0])
    } else {
        first_said(lines.subrange(1, lines.len() as int))
    }
}

/// The first line of a text that says anything.
pub fn first_line(text: &str) -> (r: String)
    ensures
        r@ == first_said(pieces(text@, CharSet::Only('\n'))),
{
    let lines = split(text, CharSet::Only('\n'));
    let ghost all = texts(lines@);
    let mut i: usize = 0;
    assert(all.subrange(0, all.len() as int) =~= all);
    while i < lines.len()
        invariant
            i <= lines@.len(),
            all == texts(lines@),
            all == pieces(text@, CharSet::Only('\n')),
            first_said(all) == first_said(all.subrange(i as int, all.len() as int)),
        decreases lines@.len() - i,
    {
        let ghost rest = all.subrange(i as int, all.len() as int);
        assert(rest[0] == lines@[i as int]@);
        assert(rest.subrange(1, rest.len() as int) =~= all.subrange(i + 1, all.len() as int));
        let line = trim(lines[i].as_str());
        if !line.as_str().is_empty() {
            return line;
        }
        i += 1;
    }
    let r = String::new();
    assert(r@ =~= Seq::<char>::empty());
    r
}

/// Whether a text starts with the label `Title:`, in small letters or capitals.
pub open spec fn is_labeled(text: Seq<char>) -> bool {
    &&& text.len() >= 6
    &&& text[0] == 't' || text[0] == 'T'
    &&& text[1] == 'i' || text[1] == 'I'
    &&& text[2] == 't' || text[2] == 'T'
    &&& text[3] == 'l' || text[3] == 'L'
    &&& text[4] == 'e' || text[4] == 'E'
    &&& text[5] == ':'
}

/// A text without the label in front of it.
pub open spec fn unlabeled(text: Seq<char>) -> Seq<char> {
    if is_labeled(text) {
        trimmed(text.subrange(6, text.len() as int))
    } else {
        text
    }
}

pub fn strip_title_label(text: &str) -> (r: String)
    ensures
        r@ == unlabeled(text@),
{
    let v = chars_of(text);
    if v.len() >= 6 && (v[0] == 't' || v[0] == 'T') && (v[1] == 'i' || v[1] == 'I') && (v[2] == 't'
        || v[2] == 'T') && (v[3] == 'l' || v[3] == 'L') && (v[4] == 'e' || v[4] == 'E') && v[5]
        == ':' {
        trim(string_of(v.as_slice(), 6, v.len()).as_str())
    } else {
        String::from_str(text)
    }
}

/// A text without the quotes around it, if it has the same at both ends.
pub open spec fn unquoted(text: Seq<char>) -> Seq<char> {
    if text.len() >= 2 && (text[0] == '"' || text[0] == '\'') && text.last() == text[0] {
        trimmed(text.subrange(1, text.len() - 1))
    } else {
        text
    }
}

pub fn strip_surrounding_quotes(text: &str) -> (r: String)
    ensures
        r@ == unquoted(text@),
{
    let v = chars_of(text);
    if v.len() >= 2 && (v[0] == '"' || v[0] == '\'') && v[v.len() - 1] == v[0] {
        trim(string_of(v.as_slice(), 1, v.len() - 1).as_str())
    } else {
        String::from_str(text)
    }
}

/// A text without white space and emphasis at its ends, nor closing marks at its back, in
/// whatever order they stand there.
pub open spec fn plain(text: Seq<char>) -> Seq<char> {
    trim_back(trim_front(text, CharSet::Leading), CharSet::Trailing)
}

/// What is kept of the answer of a model as a title: its first line, without a label, quotes,
/// emphasis or punctuation at its end, and not too long.
pub open spec fn title_of(raw: Seq<char>) -> Seq<char> {
    let line = first_said(pieces(trimmed(raw), CharSet::Only('\n')));
    shortened(plain(unquoted(plain(unlabeled(line)))), MAX_TITLE_CHARS as nat)
}

fn make_plain(text: &str) -> (r: String)
    ensures
        r@ == plain(text@),
{
    let v = chars_of(text);
    let i: usize = front_of(v.as_slice(), CharSet::Leading);
    let j: usize = back_of(v.as_slice(), i, CharSet::Trailing);
    string_of(v.as_slice(), i, j)
}

/// A text that was trimmed at its back does not end in what was trimmed.
proof fn trimmed_back_is_clean(s: Seq<char>, set: CharSet)
    ensures
        trim_back(s, set).len() <= s.len(),
        trim_back(s, set) == s.take(trim_back(s, set).len() as int),
        trim_back(s, set).len() > 0 ==> !set.spec_has(trim_back(s, set).last()),
    decreases s.len(),
{
    if s.len() > 0 && set.spec_has(s.last()) {
        trimmed_back_is_clean(s.drop_last(), set);
        let n = trim_back(s, set).len() as int;
        assert(s.drop_last().take(n) =~= s.take(n));
    } else {
        assert(s.take(s.len() as int) =~= s);
    }
}

/// A text that was trimmed at its front does not start with what was trimmed.
proof fn trimmed_front_is_clean(s: Seq<char>, set: CharSet)
    ensures
        trim_front(s, set).len() > 0 ==> !set.spec_has(trim_front(s, set)[0]),
    decreases s.len(),
{
    if s.len() > 0 && set.spec_has(s[0]) {
        trimmed_front_is_clean(s.subrange(1, s.len() as int), set);
    }
}

/// A title starts with no white space and no emphasis. Unless it was cut, it ends in no white
/// space, no emphasis and no closing mark; the mark of a cut is none of these.
pub proof fn law_title_is_plain(raw: Seq<char>)
    ensures
        title_of(raw).len() > 0 ==> {
            &&& !CharSet::Leading.spec_has(title_of(raw)[0])
            &&& !CharSet::Trailing.spec_has(title_of(raw).last())
        },
{
    reveal_strlit("…");
    let line = first_said(pieces(trimmed(raw), CharSet::Only('\n')));
    let text = unquoted(plain(unlabeled(line)));
    let open = trim_front(text, CharSet::Leading);
    trimmed_front_is_clean(text, CharSet::Leading);
    trimmed_back_is_clean(open, CharSet::Trailing);
}

pub fn post_process_title(raw: &str) -> (r: String)
    ensures
        r@ == title_of(raw@),
        r@.len() > 0 ==> !is_closing(r@.last()),
{
    let title = first_line(trim(raw).as_str());
    let title = strip_title_label(title.as_str());
    let title = make_plain(title.as_str());
    let title = strip_surrounding_quotes(title.as_str());
    let title = make_plain(title.as_str());
    proof {
        law_title_is_plain(raw@);
    }
    truncate_chars(title.as_str(), MAX_TITLE_CHARS)
}

/// What a frontend is told of an attempt to make a title: nothing where there was nothing to
/// make one of.
pub fn handle_title_result(result: Result<Option<String>, String>) -> (r: Option<AgentEvent>)
    ensures
        match result {
            Ok(Some(title)) => r matches Some(e) && event_view(e) == EventView::TitleUpdated(
                title@,
            ),
            Ok(None) => r is None,
            Err(error) => r matches Some(e) && event_view(e) == EventView::TitleGenerationFailed(
                error@,
            ),
        },
{
    match result {
        Ok(Some(title)) => Some(AgentEvent::Session(SessionEvent::TitleUpdated(title))),
        Ok(None) => None,
        Err(error) => Some(AgentEvent::Session(SessionEvent::TitleGenerationFailed(error))),
    }
}

/// The full name of an agent that is named from inside a package: a leading slash leads out of
/// the package, a name with a slash is full, any other is a peer in the package.
pub open spec fn package_relative(name: Seq<char>, package: Option<Seq<char>>) -> Seq<char> {
    if name.len() > 0 && name[0] == '/' {
        name.subrange(1, name.len() as int)
    } else if name.contains('/') {
        name
    } else {
        match package {
            Some(p) => p + "/"@ + name,
            None => name,
        }
    }
}

pub fn resolve_package_relative_name(name: &str, package: Option<&str>) -> (r: String)
    ensures
        r@ == package_relative(
            name@,
            match package {
                Some(p) => Some(p@),
                None => None,
            },
        ),
{
    let v = chars_of(name);
    if v.len() > 0 && v[0] == '/' {
        return string_of(v.as_slice(), 1, v.len());
    }
    let mut i: usize = 0;
    while i < v.len()
        invariant
            i <= v@.len(),
            v@ == name@,
            !(v@.len() > 0 && v@[0] == '/'),
            forall|k: int| 0 <= k < i ==> v@[k] != '/',
        decreases v@.len() - i,
    {
        if v[i] == '/' {
            assert(name@[i as int] == '/');
            return String::from_str(name);
        }
        i += 1;
    }
    match package {
        Some(p) => {
            let mut r = String::from_str(p);
            r.append("/");
            r.append(name);
            r
        },
        None => String::from_str(name),
    }
}

/// Which agent makes the title, by the name it was given and by its full name. An agent names a
/// peer in its package; the configuration names an agent outside all packages.
pub fn resolve_title_agent_name(
    agent_title_agent: Option<&str>,
    global_title_agent: Option<&str>,
    active_pkg: Option<&str>,
) -> (r: Option<(String, String)>)
    ensures
        match (agent_title_agent, global_title_agent) {
            (Some(name), _) => r matches Some((n, full)) && n@ == name@ && full@
                == package_relative(
                name@,
                match active_pkg {
                    Some(p) => Some(p@),
                    None => None,
                },
            ),
            (None, Some(name)) => r matches Some((n, full)) && n@ == name@ && full@
                == package_relative(name@, None),
            (None, None) => r is None,
        },
{
    match agent_title_agent {
        Some(name) => Some(
            (String::from_str(name), resolve_package_relative_name(name, active_pkg)),
        ),
        None => match global_title_agent {
            Some(name) => Some(
                (String::from_str(name), resolve_package_relative_name(name, None)),
            ),
            None => None,
        },
    }
}

/// The name under which the agent is looked for.
pub open spec fn lookup_name(name: Seq<char>, resolved: Seq<char>, exists: bool) -> Seq<char> {
    if resolved != name && !exists {
        if name.len() > 0 && name[0] == '/' {
            name.subrange(1, name.len() as int)
        } else {
            name
        }
    } else {
        resolved
    }
}

/// The name under which the agent is looked for: the full one, unless it was made from another
/// and there is no such file. A file that is there and broken is not passed over.
pub fn title_agent_lookup_name(name: &str, resolved_name: &str, resolved_file_exists: bool) -> (r:
    String)
    ensures
        r@ == lookup_name(name@, resolved_name@, resolved_file_exists),
{
    if !(*resolved_name == *name) && !resolved_file_exists {
        let v = chars_of(name);
        if v.len() > 0 && v[0] == '/' {
            string_of(v.as_slice(), 1, v.len())
        } else {
            String::from_str(name)
        }
    } else {
        String::from_str(resolved_name)
    }
}

/// What a model needs to make a title, and where the session stood then.
#[derive(Debug)]
pub struct TitleRequest {
    pub transcript: String,
    pub session_id: String,
    pub tokens: usize,
}

/// Why no title was made.
#[derive(Debug, PartialEq, Eq)]
pub enum TitleError {
    /// The agent that makes titles is broken.
    Agent(String),
    NotConfigured,
    NoSession,
    /// The title could not be written down.
    NotRecorded(SettingError),
}

/// What an error says.
pub open spec fn title_error_text(e: TitleError) -> Seq<char> {
    match e {
        TitleError::Agent(e) => e@,
        TitleError::NotConfigured => "no title agent configured"@,
        TitleError::NoSession => "No session"@,
        TitleError::NotRecorded(e) => setting_error_text(e),
    }
}

impl TitleError {
    pub fn message(&self) -> (r: String)
        ensures
            r@ == title_error_text(*self),
            *self matches TitleError::Agent(e) ==> r@ == e@,
            *self matches TitleError::NotConfigured ==> r@ == "no title agent configured"@,
            *self matches TitleError::NoSession ==> r@ == "No session"@,
            *self matches TitleError::NotRecorded(e) ==> r@ == setting_error_text(e),
    {
        match self {
            TitleError::Agent(e) => e.clone(),
            TitleError::NotConfigured => String::from_str("no title agent configured"),
            TitleError::NoSession => String::from_str("No session"),
            TitleError::NotRecorded(e) => e.message(),
        }
    }
}

/// The agent that makes the title, where a title was asked for.
pub fn require_title_agent<A>(resolution: TitleAgentResolution<A>) -> (r: Result<A, TitleError>)
    ensures
        match resolution {
            TitleAgentResolution::NotConfigured => r == Err::<A, TitleError>(
                TitleError::NotConfigured,
            ),
            TitleAgentResolution::Found(agent) => r == Ok::<A, TitleError>(agent),
            TitleAgentResolution::NotFound { name } => r matches Err(TitleError::Agent(e)) && e@
                == "title agent '"@ + name@ + "' not found"@,
            TitleAgentResolution::LoadError { name, source } => r matches Err(
                TitleError::Agent(e),
            ) && e@ == "title agent '"@ + name@ + "' failed to load: "@ + source@,
        },
{
    match resolution.into_result() {
        Ok(Some(agent)) => Ok(agent),
        Ok(None) => Err(TitleError::NotConfigured),
        Err(e) => Err(TitleError::Agent(e)),
    }
}

impl Config {
    /// Marks the session as one for which a title is being made, if one is due.
    pub fn claim_titling(&mut self) -> (r: bool)
        ensures
            match old(self).session {
                Some(s) => {
                    &&& r == s.title_due(old(self).title_update_threshold)
                    &&& *final(self) == if r {
                        old(self).with_session(Some(Session { titling: true, ..s }))
                    } else {
                        *old(self)
                    }
                },
                None => !r && *final(self) == *old(self),
            },
    {
        let threshold: usize = self.title_update_threshold;
        match &mut self.session {
            Some(session) => {
                if !session.need_generate_title(threshold) {
                    return false;
                }
                session.titling = true;
                true
            },
            None => false,
        }
    }

    /// Takes the mark back, but only from the session for which it was set, where that is known.
    pub fn clear_titling(&mut self, session_id: Option<&str>)
        ensures
            *final(self) == match old(self).session {
                Some(s) => if session_id is None || session_id->0@ == s.id@ {
                    old(self).with_session(Some(Session { titling: false, ..s }))
                } else {
                    *old(self)
                },
                None => *old(self),
            },
    {
        match &mut self.session {
            Some(session) => {
                let same: bool = match session_id {
                    Some(id) => *session.id.as_str() == *id,
                    None => true,
                };
                if same {
                    session.titling = false;
                }
            },
            None => {},
        }
    }

    /// Starts to make a title, if one is due and an agent is asked for it: the session that it
    /// is for. An agent that is broken is asked too, so that the user hears of it.
    pub fn maybe_generate_title(&mut self, configured: bool) -> (r: Option<String>)
        ensures
            match old(self).session {
                Some(s) => if s.title_due(old(self).title_update_threshold) && configured {
                    &&& opt_text(r) == Some(s.id@)
                    &&& *final(self) == old(self).with_session(Some(Session { titling: true, ..s }))
                } else {
                    r is None && *final(self) == *old(self)
                },
                None => r is None && *final(self) == *old(self),
            },
    {
        if !self.claim_titling() {
            return None;
        }
        let id: Option<String> = match &self.session {
            Some(session) => Some(session.id.clone()),
            None => None,
        };
        if !configured {
            match &id {
                Some(id) => self.clear_titling(Some(id.as_str())),
                None => self.clear_titling(None),
            }
            return None;
        }
        id
    }

    /// What a model needs to make a title. Nothing where the session says nothing.
    pub fn title_request(&self) -> (r: Result<Option<TitleRequest>, TitleError>)
        ensures
            match self.session {
                None => r == Err::<Option<TitleRequest>, TitleError>(TitleError::NoSession),
                Some(s) => if trimmed(title_transcript(s.messages@)).len() == 0 {
                    r == Ok::<Option<TitleRequest>, TitleError>(None)
                } else {
                    r matches Ok(Some(q)) && q.transcript@ == title_transcript(s.messages@)
                        && q.session_id == s.id && q.tokens == s.tokens
                },
            },
    {
        match &self.session {
            None => Err(TitleError::NoSession),
            Some(session) => {
                let transcript = build_title_transcript(session);
                if trim(transcript.as_str()).as_str().is_empty() {
                    return Ok(None);
                }
                Ok(
                    Some(
                        TitleRequest {
                            transcript,
                            session_id: session.id.clone(),
                            tokens: session.tokens,
                        },
                    ),
                )
            },
        }
    }

    /// Takes the answer of a model as the title of the session, if it says anything and the
    /// session is still the one that was asked for.
    pub fn accept_title(
        &mut self,
        raw: &str,
        session_id: &str,
        tokens: usize,
        persist_error: Option<String>,
    ) -> (r: Result<Option<String>, TitleError>)
        ensures
            match old(self).session {
                Some(s) => if title_of(raw@).len() > 0 && s.id@ == session_id@ {
                    match persist_error {
                        Some(e) => r == Err::<Option<String>, TitleError>(
                            TitleError::NotRecorded(SettingError::TitleNotPersisted(e)),
                        ) && *final(self) == *old(self),
                        None => {
                            &&& r matches Ok(Some(title))
                            &&& title@ == title_of(raw@)
                            &&& *final(self) == old(self).with_session(
                                Some(titled(s, title, tokens)),
                            )
                        },
                    }
                } else {
                    r == Ok::<Option<String>, TitleError>(None) && *final(self) == *old(self)
                },
                None => r == Ok::<Option<String>, TitleError>(None) && *final(self) == *old(self),
            },
    {
        let title = post_process_title(raw);
        if title.as_str().is_empty() {
            return Ok(None);
        }
        match &mut self.session {
            Some(session) => {
                if !(*session.id.as_str() == *session_id) {
                    return Ok(None);
                }
                match record_title(session, title.clone(), false, tokens, persist_error) {
                    Ok(_) => Ok(Some(title)),
                    Err(e) => Err(TitleError::NotRecorded(e)),
                }
            },
            None => Ok(None),
        }
    }
}

/// A title is never longer than its limit and the mark that shows the cut.
pub proof fn law_title_is_bounded(raw: Seq<char>)
    ensures
        title_of(raw).len() <= MAX_TITLE_CHARS + 1,
{
    reveal_strlit("…");
}

/// What a model is shown of a session is bounded, however long the session has grown.
pub proof fn law_transcript_is_bounded(messages: Seq<Message>)
    ensures
        title_transcript(messages).len() <= MAX_TRANSCRIPT_CHARS + 1,
{
    reveal_strlit("…");
}

/// An agent that the configuration names is looked for under the same name in every package.
pub proof fn law_global_name_ignores_the_package(name: Seq<char>)
    requires
        !name.contains('/'),
    ensures
        package_relative(name, None) == name,
{
    if name.len() > 0 && name[0] == '/' {
        assert(name.contains(name[0]));
    }
}

/// A text is shortened to so many characters without white space at its ends, and marked where
/// something was cut off.
pub proof fn law_shortened_text_is_a_start(text: Seq<char>, max: nat)
    ensures
        trimmed(text).len() <= max ==> shortened(text, max) == trimmed(text),
        trimmed(text).len() > max ==> shortened(text, max) == trimmed(text).take(max as int) + "…"@,
{
}

/// A section has its label on a line of its own, then its text, shortened; there is none without
/// anything said.
pub proof fn law_section_has_its_label_above_it(label: Seq<char>, text: Seq<char>)
    ensures
        section(label, text) is None <==> trimmed(text).len() == 0,
        section(label, text) matches Some(s) ==> s == label + ":\n"@ + shortened(
            trimmed(text),
            4000,
        ),
{
}

/// The first message of the user has none before it, the last has none behind it, and there are
/// none exactly where the user said nothing.
#[verifier::spinoff_prover]
#[verifier::rlimit(40)]
pub proof fn law_users_first_and_last_message(messages: Seq<Message>, i: int)
    ensures
        first_user(messages) == Some(i) <==> 0 <= i < messages.len() && messages[i].role is User
            && forall|j: int| 0 <= j < i ==> !((#[trigger] messages[j]).role is User),
        last_user(messages) == Some(i) <==> 0 <= i < messages.len() && messages[i].role is User
            && forall|j: int| i < j < messages.len() ==> !((#[trigger] messages[j]).role is User),
        first_user(messages) is None <==> forall|j: int|
            0 <= j < messages.len() ==> !((#[trigger] messages[j]).role is User),
        last_user(messages) is None <==> first_user(messages) is None,
    decreases messages.len(),
{
    if messages.len() > 0 {
        let t = messages.drop_last();
        let last = messages.len() - 1;
        law_users_first_and_last_message(t, i);
        assert(messages[last] == messages.last());
        assert forall|j: int| 0 <= j < t.len() implies #[trigger] messages[j] == t[j] by {}
        if first_user(t) is Some {
            let k = choose|k: int| 0 <= k < t.len() && (#[trigger] t[k]).role is User;
            assert(messages[k].role is User);
            if 0 <= i < messages.len() && messages[i].role is User && (forall|j: int|
                0 <= j < i ==> !((#[trigger] messages[j]).role is User)) {
                if i == last {
                    assert(!(messages[k].role is User));
                }
                assert(t[i] == messages[i]);
                assert forall|j: int| 0 <= j < i implies !((#[trigger] t[j]).role is User) by {
                    assert(messages[j] == t[j]);
                }
            }
        } else {
            assert forall|j: int| 0 <= j < t.len() implies !(
            (#[trigger] messages[j]).role is User) by {
                assert(t[j] == messages[j]);
            }
        }
        if !(messages.last().role is User) && last_user(t) == Some(i) {
            assert forall|j: int| i < j < messages.len() implies !(
            (#[trigger] messages[j]).role is User) by {
                if j < last {
                    assert(t[j] == messages[j]);
                }
            }
        }
        if !(messages.last().role is User) && 0 <= i < messages.len() && messages[i].role is User
            && (forall|j: int|
            i < j < messages.len() ==> !((#[trigger] messages[j]).role is User)) {
            assert(t[i] == messages[i]);
            assert forall|j: int| i < j < t.len() implies !((#[trigger] t[j]).role is User) by {
                assert(messages[j] == t[j]);
            }
        }
    }
}

/// What the user said first is the text of the first message; what they said last is that of the
/// last one, where that is another one.
pub proof fn law_users_first_and_last_words(messages: Seq<Message>, first: int, last: int)
    ensures
        first_user(messages) == Some(first) ==> first_user_text(messages)
            == messages[first].content.words(),
        first_user(messages) is None ==> first_user_text(messages).len() == 0 && last_user_text(
            messages,
        ) is None,
        first_user(messages) == Some(first) && last_user(messages) == Some(last) && first != last
            ==> last_user_text(messages) == Some(messages[last].content.words()),
        first_user(messages) == Some(first) && last_user(messages) == Some(first)
            ==> last_user_text(messages) is None,
{
}

/// The latest reply is what the assistant said behind the last message of the user, message by
/// message, without those that say nothing.
pub proof fn law_latest_reply_follows_the_last_question(messages: Seq<Message>, last: int)
    ensures
        last_user(messages) == Some(last) ==> latest_reply(messages) == joined(
            messages.skip(last + 1).filter(
                |m: Message| m.role is Assistant && trimmed(m.content.words()).len() > 0,
            ).map_values(|m: Message| m.content.words()),
            "\n\n"@,
        ),
        last_user(messages) is None ==> latest_reply(messages).len() == 0,
{
    if last_user(messages) == Some(last) {
        law_users_first_and_last_message(messages, last);
        replies_are_those_behind(messages, last + 1);
    }
}

proof fn replies_are_those_behind(messages: Seq<Message>, from: int)
    requires
        0 <= from <= messages.len(),
    ensures
        replies(messages, from) == messages.skip(from).filter(
            |m: Message| m.role is Assistant && trimmed(m.content.words()).len() > 0,
        ).map_values(|m: Message| m.content.words()),
    decreases messages.len(),
{
    reveal(Seq::filter);
    let p = |m: Message| m.role is Assistant && trimmed(m.content.words()).len() > 0;
    let f = |m: Message| m.content.words();
    let rest = messages.skip(from);
    if messages.len() <= from {
        assert(rest.filter(p).map_values(f) =~= Seq::<Seq<char>>::empty());
    } else {
        let t = messages.drop_last();
        replies_are_those_behind(t, from);
        assert(rest.drop_last() =~= t.skip(from));
        assert(rest.last() == messages.last());
        let head = t.skip(from);
        let x = messages.last();
        if p(x) {
            assert(rest.filter(p) =~= head.filter(p).push(x));
            assert(head.filter(p).push(x).map_values(f) =~= head.filter(p).map_values(f).push(
                f(x),
            ));
        } else {
            assert(rest.filter(p) =~= head.filter(p));
        }
    }
}

/// Of parts some of which are missing, those that are there, in order.
pub proof fn law_present_parts_keep_their_order(parts: Seq<Option<Seq<char>>>)
    ensures
        present(parts) == parts.filter(|p: Option<Seq<char>>| p is Some).map_values(
            |p: Option<Seq<char>>| p->0,
        ),
    decreases parts.len(),
{
    reveal(Seq::filter);
    let p = |p: Option<Seq<char>>| p is Some;
    let f = |p: Option<Seq<char>>| p->0;
    if parts.len() > 0 {
        let t = parts.drop_last();
        let x = parts.last();
        law_present_parts_keep_their_order(t);
        if p(x) {
            assert(parts.filter(p) =~= t.filter(p).push(x));
            assert(t.filter(p).push(x).map_values(f) =~= t.filter(p).map_values(f).push(f(x)));
        } else {
            assert(parts.filter(p) =~= t.filter(p));
        }
    } else {
        assert(parts.filter(p).map_values(f) =~= Seq::<Seq<char>>::empty());
    }
}

/// The transcript for a title has the first question, the latest one and the latest reply, in that
/// order, each under its label, as far as they say anything, and is shortened as a whole.
pub proof fn law_transcript_is_first_latest_and_reply(messages: Seq<Message>)
    ensures
        ({
            let latest = match last_user_text(messages) {
                Some(t) => t,
                None => Seq::empty(),
            };
            title_transcript(messages) == shortened(
                joined(
                    present(
                        seq![
                            section("First user message"@, first_user_text(messages)),
                            section("Latest user message"@, latest),
                            section("Latest assistant response"@, latest_reply(messages)),
                        ],
                    ),
                    "\n\n"@,
                ),
                8000,
            )
        }),
{
    reveal_strlit("");
    assert(""@ =~= Seq::<char>::empty());
}

/// The first line that says anything counts, without white space at its ends.
pub proof fn law_first_line_that_says_anything_counts(lines: Seq<Seq<char>>)
    ensures
        forall|i: int|
            0 <= i < lines.len() && trimmed(#[trigger] lines[i]).len() > 0 && (forall|j: int|
                0 <= j < i ==> trimmed(#[trigger] lines[j]).len() == 0) ==> first_said(lines)
                == trimmed(lines[i]),
        (forall|i: int| 0 <= i < lines.len() ==> trimmed(#[trigger] lines[i]).len() == 0)
            ==> first_said(lines).len() == 0,
    decreases lines.len(),
{
    if lines.len() > 0 {
        let t = lines.subrange(1, lines.len() as int);
        law_first_line_that_says_anything_counts(t);
        assert forall|i: int| 0 <= i < t.len() implies #[trigger] t[i] == lines[i + 1] by {}
        if trimmed(lines[0]).len() == 0 {
            assert forall|i: int|
                0 <= i < lines.len() && trimmed(#[trigger] lines[i]).len() > 0 && (forall|j: int|
                    0 <= j < i ==> trimmed(#[trigger] lines[j]).len() == 0) implies first_said(lines)
                == trimmed(lines[i]) by {
                assert(t[i - 1] == lines[i]);
                assert forall|j: int| 0 <= j < i - 1 implies trimmed(#[trigger] t[j]).len() == 0 by {
                    assert(lines[j + 1] == t[j]);
                }
            }
        }
    }
}

/// A label before a title is taken off, whatever the case of its letters, with the white space
/// behind it.
pub proof fn law_label_is_taken_off(text: Seq<char>)
    ensures
        is_labeled(text) <==> text.len() >= 6 && (text[0] == 't' || text[0] == 'T') && (text[1]
            == 'i' || text[1] == 'I') && (text[2] == 't' || text[2] == 'T') && (text[3] == 'l'
            || text[3] == 'L') && (text[4] == 'e' || text[4] == 'E') && text[5] == ':',
        is_labeled(text) ==> unlabeled(text) == trimmed(text.skip(6)),
        !is_labeled(text) ==> unlabeled(text) == text,
{
    if is_labeled(text) {
        assert(text.skip(6) =~= text.subrange(6, text.len() as int));
    }
}

/// Quotes of one kind around a whole title are taken off, with the white space inside them; any
/// other title stays.
pub proof fn law_quotes_around_a_title_are_taken_off(inner: Seq<char>, q: char, text: Seq<char>)
    ensures
        q == '"' || q == '\'' ==> unquoted(seq![q] + inner + seq![q]) == trimmed(inner),
        text.len() < 2 || text[0] != text.last() || (text[0] != '"' && text[0] != '\'')
            ==> unquoted(text) == text,
{
    let whole = seq![q] + inner + seq![q];
    assert(whole.subrange(1, whole.len() - 1) =~= inner);
    assert(whole.last() == q);
}

/// A title is made plain at its front and at its end: neither starts with white space or marks,
/// nor ends with them or with marks that close a sentence.
pub proof fn law_plain_title_is_trimmed_at_both_ends(text: Seq<char>) -> (ends: (int, int))
    ensures
        0 <= ends.0 <= ends.1 <= text.len(),
        plain(text) == text.subrange(ends.0, ends.1),
        forall|i: int| 0 <= i < ends.0 ==> CharSet::Leading.spec_has(#[trigger] text[i]),
        forall|i: int| ends.1 <= i < text.len() ==> CharSet::Trailing.spec_has(#[trigger] text[i]),
        ends.0 < ends.1 ==> !CharSet::Leading.spec_has(text[ends.0]) && !CharSet::Trailing.spec_has(
            text[ends.1 - 1],
        ),
{
    let k = law_front_is_trimmed_up_to_the_first_other(text, CharSet::Leading);
    let t = text.subrange(k, text.len() as int);
    let l = law_end_is_trimmed_down_to_the_last_other(t, CharSet::Trailing);
    assert(t.subrange(0, l) =~= text.subrange(k, k + l));
    assert forall|i: int| k + l <= i < text.len() implies CharSet::Trailing.spec_has(
        #[trigger] text[i],
    ) by {
        assert(t[i - k] == text[i]);
    }
    if l > 0 {
        assert(t[0] == text[k]);
        assert(t[l - 1] == text[k + l - 1]);
    }
    (k, k + l)
}

/// A title is the first line that says anything, without its label and its quotes, made plain
/// after each, and shortened.
pub proof fn law_title_is_the_first_line_made_plain(raw: Seq<char>, line: Seq<char>)
    requires
        line == first_said(pieces(trimmed(raw), CharSet::Only('\n'))),
    ensures
        title_of(raw) == shortened(plain(unquoted(plain(unlabeled(line)))), 200),
{
}

/// A name with a slash in front, or in it, is no name of the package: the slash in front is taken
/// off. Any other is one of the package, where there is one.
pub proof fn law_plain_name_is_one_of_the_package(name: Seq<char>, package: Seq<char>)
    ensures
        package_relative(seq!['/'] + name, Some(package)) == name,
        package_relative(seq!['/'] + name, None) == name,
        name.len() > 0 && name[0] != '/' && name.contains('/') ==> package_relative(
            name,
            Some(package),
        ) == name && package_relative(name, None) == name,
        !name.contains('/') ==> package_relative(name, Some(package)) == package + "/"@ + name
            && package_relative(name, None) == name,
{
    let slashed = seq!['/'] + name;
    assert(slashed.subrange(1, slashed.len() as int) =~= name);
    if name.len() > 0 && name[0] == '/' {
        assert(name.contains('/'));
    }
}

/// A name is looked up as it was resolved, unless that is another name of which there is no file:
/// then as it was given, without a slash in front.
pub proof fn law_name_is_looked_up_where_it_exists(
    name: Seq<char>,
    resolved: Seq<char>,
    exists: bool,
)
    ensures
        exists || resolved == name ==> lookup_name(name, resolved, exists) == resolved,
        !exists && resolved != name && (name.len() == 0 || name[0] != '/') ==> lookup_name(
            name,
            resolved,
            exists,
        ) == name,
        !exists && resolved != name && name.len() > 0 && name[0] == '/' ==> lookup_name(
            name,
            resolved,
            exists,
        ) == name.skip(1),
{
    if name.len() > 0 {
        assert(name.skip(1) =~= name.subrange(1, name.len() as int));
    }
}

} // verus!
