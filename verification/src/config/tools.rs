//! Tools: which of those that are known a selector picks.
use crate::config::session::Agent;
use crate::config::Config;
use crate::text::{chars_of, string_of, texts, trim, trimmed};
use vstd::prelude::*;
use vstd::string::*;

verus! {

/// The tool that reads the history of a session.
pub const SESSION_HISTORY_TOOL: &'static str = "harnx_agent_session_history_read";

/// What that tool says of itself.
pub const SESSION_HISTORY_DESCRIPTION: &'static str = "Read the history of this session.";

/// A tool that a model can be offered.
#[derive(Debug, PartialEq, Eq)]
pub struct ToolDeclaration {
    pub name: String,
    pub description: String,
    /// What its arguments look like, where it says so.
    pub parameters: Option<serde_json::Value>,
}

impl ToolDeclaration {
    pub fn copy(&self) -> (r: ToolDeclaration)
        ensures
            r == *self,
    {
        ToolDeclaration {
            name: self.name.clone(),
            description: self.description.clone(),
            parameters: match &self.parameters {
                Some(parameters) => Some(parameters.clone()),
                None => None,
            },
        }
    }
}

/// How many braces are open at the end of a text. A brace that closes nothing does not count.
pub open spec fn open_braces(s: Seq<char>) -> nat
    decreases s.len(),
{
    if s.len() == 0 {
        0
    } else {
        let before = open_braces(s.drop_last());
        if s.last() == '{' {
            before + 1
        } else if s.last() == '}' && before > 0 {
            (before - 1) as nat
        } else {
            before
        }
    }
}

/// The parts of a text between the commas that stand in no braces.
pub open spec fn selectors_in(s: Seq<char>) -> Seq<Seq<char>>
    decreases s.len(),
{
    if s.len() == 0 {
        seq![Seq::<char>::empty()]
    } else {
        let before = selectors_in(s.drop_last());
        if s.last() == ',' && open_braces(s.drop_last()) == 0 {
            before.push(Seq::<char>::empty())
        } else {
            before.update(before.len() - 1, before.last().push(s.last()))
        }
    }
}

proof fn open_braces_bound(s: Seq<char>)
    ensures
        open_braces(s) <= s.len(),
    decreases s.len(),
{
    if s.len() > 0 {
        open_braces_bound(s.drop_last());
    }
}

/// The parts of a text between the commas that stand in no braces.
pub fn split_tool_selectors(s: &str) -> (r: Vec<String>)
    ensures
        texts(r@) == selectors_in(s@),
{
    let v = chars_of(s);
    let mut done: Vec<String> = Vec::new();
    let mut cur = String::new();
    let mut depth: usize = 0;
    let mut i: usize = 0;
    assert(texts(done@).push(cur@) =~= selectors_in(v@.take(0)));
    while i < v.len()
        invariant
            i <= v@.len(),
            depth == open_braces(v@.take(i as int)),
            texts(done@).push(cur@) == selectors_in(v@.take(i as int)),
        decreases v@.len() - i,
    {
        let ghost before = texts(done@).push(cur@);
        assert(v@.take(i + 1).drop_last() =~= v@.take(i as int));
        proof {
            open_braces_bound(v@.take(i as int));
        }
        let c = v[i];
        if c == ',' && depth == 0 {
            done.push(cur);
            cur = String::new();
            assert(texts(done@) =~= before);
        } else {
            cur.push(c);
            assert(texts(done@).push(cur@) =~= before.update(before.len() - 1, before.last().push(c)));
        }
        if c == '{' {
            depth = depth + 1;
        } else if c == '}' && depth > 0 {
            depth = depth - 1;
        }
        i += 1;
    }
    assert(v@.take(i as int) =~= v@);
    let ghost before = texts(done@).push(cur@);
    done.push(cur);
    assert(texts(done@) =~= before);
    done
}

/// The texts without white space at their ends that say anything.
pub open spec fn said(parts: Seq<Seq<char>>) -> Seq<Seq<char>>
    decreases parts.len(),
{
    if parts.len() == 0 {
        Seq::empty()
    } else {
        let before = said(parts.drop_last());
        let t = trimmed(parts.last());
        if t.len() > 0 {
            before.push(t)
        } else {
            before
        }
    }
}

/// The texts without white space at their ends that say anything.
pub fn trimmed_parts(parts: &[String]) -> (r: Vec<String>)
    ensures
        texts(r@) == said(texts(parts@)),
{
    let ghost all = texts(parts@);
    let mut r: Vec<String> = Vec::new();
    let mut i: usize = 0;
    assert(texts(r@) =~= said(all.take(0)));
    while i < parts.len()
        invariant
            i <= parts@.len(),
            all == texts(parts@),
            texts(r@) == said(all.take(i as int)),
        decreases parts@.len() - i,
    {
        let ghost before = texts(r@);
        assert(all.take(i + 1).drop_last() =~= all.take(i as int));
        assert(all.take(i + 1).last() == parts@[i as int]@);
        let t = trim(parts[i].as_str());
        if !t.as_str().is_empty() {
            r.push(t);
            assert(texts(r@) =~= before.push(t@));
        }
        i += 1;
    }
    assert(all.take(i as int) =~= all);
    r
}

/// Whether a pattern without alternatives fits a text: a `*` stands for any characters, any other
/// character for itself.
pub open spec fn fits(pattern: Seq<char>, text: Seq<char>) -> bool
    decreases pattern.len() + text.len(),
{
    if pattern.len() == 0 {
        text.len() == 0
    } else if pattern[0] == '*' {
        fits(pattern.skip(1), text) || (text.len() > 0 && fits(pattern, text.skip(1)))
    } else {
        text.len() > 0 && text[0] == pattern[0] && fits(pattern.skip(1), text.skip(1))
    }
}

fn fits_from(pattern: &[char], i: usize, text: &[char], j: usize) -> (r: bool)
    requires
        i <= pattern@.len(),
        j <= text@.len(),
    ensures
        r == fits(pattern@.skip(i as int), text@.skip(j as int)),
    decreases pattern@.len() - i + text@.len() - j,
{
    let ghost p = pattern@.skip(i as int);
    let ghost t = text@.skip(j as int);
    if i == pattern.len() {
        return j == text.len();
    }
    assert(p[0] == pattern@[i as int]);
    assert(p.skip(1) =~= pattern@.skip(i + 1));
    if j < text.len() {
        assert(t[0] == text@[j as int]);
        assert(t.skip(1) =~= text@.skip(j + 1));
    }
    if pattern[i] == '*' {
        fits_from(pattern, i + 1, text, j) || (j < text.len() && fits_from(pattern, i, text, j + 1))
    } else {
        j < text.len() && text[j] == pattern[i] && fits_from(pattern, i + 1, text, j + 1)
    }
}

/// Where the next brace opens, or the length where none does.
pub open spec fn opens_from(s: Seq<char>, at: int) -> int
    decreases s.len() - at,
{
    if at < 0 || at >= s.len() {
        s.len() as int
    } else if s[at] == '{' {
        at
    } else {
        opens_from(s, at + 1)
    }
}

/// Where the brace closes inside which `at` stands, with `depth` more braces open there, or the
/// length where it does not close.
pub open spec fn closes_from(s: Seq<char>, at: int, depth: nat) -> int
    decreases s.len() - at,
{
    if at < 0 || at >= s.len() {
        s.len() as int
    } else if s[at] == '}' {
        if depth == 0 {
            at
        } else {
            closes_from(s, at + 1, (depth - 1) as nat)
        }
    } else if s[at] == '{' {
        closes_from(s, at + 1, depth + 1)
    } else {
        closes_from(s, at + 1, depth)
    }
}

/// Whether a pattern holds alternatives: its first brace closes.
pub open spec fn has_choice(pattern: Seq<char>) -> bool {
    closes_from(pattern, opens_from(pattern, 0) + 1, 0) < pattern.len()
}

/// What the first braces of a pattern offer.
pub open spec fn choices(pattern: Seq<char>) -> Seq<Seq<char>> {
    let a = opens_from(pattern, 0);
    selectors_in(pattern.subrange(a + 1, closes_from(pattern, a + 1, 0)))
}

/// A pattern in which the first braces gave way to what they offer.
pub open spec fn chosen(pattern: Seq<char>, choice: Seq<char>) -> Seq<char> {
    let a = opens_from(pattern, 0);
    pattern.take(a) + choice + pattern.skip(closes_from(pattern, a + 1, 0) + 1)
}

/// The patterns without alternatives that a pattern comes to.
pub open spec fn alternatives(pattern: Seq<char>) -> Seq<Seq<char>>
    decreases pattern.len(), 1int, 0int,
{
    if has_choice(pattern) {
        first_alternatives(pattern, choices(pattern).len() as int)
    } else {
        seq![pattern]
    }
}

/// The patterns without alternatives to which the first `n` choices lead.
pub open spec fn first_alternatives(pattern: Seq<char>, n: int) -> Seq<Seq<char>>
    decreases pattern.len(), 0int, n,
{
    if n <= 0 || n > choices(pattern).len() || !has_choice(pattern) {
        Seq::empty()
    } else {
        proof {
            choice_is_shorter(pattern, n - 1);
        }
        first_alternatives(pattern, n - 1) + alternatives(chosen(pattern, choices(pattern)[n - 1]))
    }
}

proof fn opens_within(s: Seq<char>, at: int)
    requires
        0 <= at <= s.len(),
    ensures
        at <= opens_from(s, at) <= s.len(),
        opens_from(s, at) < s.len() ==> s[opens_from(s, at)] == '{',
    decreases s.len() - at,
{
    if at < s.len() && s[at] != '{' {
        opens_within(s, at + 1);
    }
}

proof fn closes_within(s: Seq<char>, at: int, depth: nat)
    requires
        0 <= at,
    ensures
        closes_from(s, at, depth) < s.len() ==> at <= closes_from(s, at, depth),
        closes_from(s, at, depth) <= s.len(),
    decreases s.len() - at,
{
    if at < s.len() {
        if s[at] == '}' {
            if depth > 0 {
                closes_within(s, at + 1, (depth - 1) as nat);
            }
        } else if s[at] == '{' {
            closes_within(s, at + 1, depth + 1);
        } else {
            closes_within(s, at + 1, depth);
        }
    }
}

proof fn selectors_within(s: Seq<char>)
    ensures
        0 < selectors_in(s).len() <= s.len() + 1,
        forall|k: int|
            0 <= k < selectors_in(s).len() ==> (#[trigger] selectors_in(s)[k]).len() <= s.len(),
    decreases s.len(),
{
    if s.len() > 0 {
        selectors_within(s.drop_last());
    }
}

/// A pattern grows shorter with each choice, so that choosing comes to an end.
pub proof fn choice_is_shorter(pattern: Seq<char>, k: int)
    requires
        has_choice(pattern),
        0 <= k < choices(pattern).len(),
    ensures
        0 <= opens_from(pattern, 0) < closes_from(pattern, opens_from(pattern, 0) + 1, 0),
        chosen(pattern, choices(pattern)[k]).len() < pattern.len(),
{
    opens_within(pattern, 0);
    let a = opens_from(pattern, 0);
    closes_within(pattern, a + 1, 0);
    selectors_within(pattern.subrange(a + 1, closes_from(pattern, a + 1, 0)));
}

fn find_open(v: &[char]) -> (r: usize)
    ensures
        r == opens_from(v@, 0),
        r <= v@.len(),
{
    let mut i: usize = 0;
    while i < v.len() && v[i] != '{'
        invariant
            i <= v@.len(),
            opens_from(v@, 0) == opens_from(v@, i as int),
        decreases v@.len() - i,
    {
        i += 1;
    }
    i
}

fn find_close(v: &[char], from: usize) -> (r: usize)
    requires
        from <= v@.len(),
    ensures
        r == closes_from(v@, from as int, 0),
        from <= r <= v@.len(),
{
    let mut i: usize = from;
    let mut depth: usize = 0;
    while i < v.len()
        invariant
            from <= i <= v@.len(),
            depth <= i,
            closes_from(v@, from as int, 0) == closes_from(v@, i as int, depth as nat),
        decreases v@.len() - i,
    {
        if v[i] == '}' {
            if depth == 0 {
                return i;
            }
            depth -= 1;
        } else if v[i] == '{' {
            depth += 1;
        }
        i += 1;
    }
    i
}

/// The patterns without alternatives that a pattern comes to.
pub fn expand_selector(pattern: &str) -> (r: Vec<String>)
    ensures
        texts(r@) == alternatives(pattern@),
    decreases pattern@.len(),
{
    let v = chars_of(pattern);
    let open: usize = find_open(v.as_slice());
    let mut r: Vec<String> = Vec::new();
    let close: usize = if open < v.len() {
        find_close(v.as_slice(), open + 1)
    } else {
        v.len()
    };
    if close == v.len() {
        r.push(String::from_str(pattern));
        assert(texts(r@) =~= seq![pattern@]);
        return r;
    }
    let parts = split_tool_selectors(string_of(v.as_slice(), open + 1, close).as_str());
    let head = string_of(v.as_slice(), 0, open);
    let tail = string_of(v.as_slice(), close + 1, v.len());
    let ghost offered = choices(pattern@);
    assert(texts(parts@) == offered);
    assert(head@ =~= pattern@.take(open as int));
    assert(tail@ =~= pattern@.skip(close + 1));
    let mut i: usize = 0;
    assert(texts(r@) =~= first_alternatives(pattern@, 0));
    while i < parts.len()
        invariant
            i <= parts@.len(),
            has_choice(pattern@),
            offered == choices(pattern@),
            texts(parts@) == offered,
            open == opens_from(pattern@, 0),
            close == closes_from(pattern@, open + 1, 0),
            head@ == pattern@.take(open as int),
            tail@ == pattern@.skip(close + 1),
            texts(r@) == first_alternatives(pattern@, i as int),
        decreases parts@.len() - i,
    {
        let mut one = head.clone();
        one.append(parts[i].as_str());
        one.append(tail.as_str());
        assert(offered[i as int] == parts@[i as int]@);
        assert(one@ == chosen(pattern@, offered[i as int]));
        proof {
            choice_is_shorter(pattern@, i as int);
        }
        let mut more = expand_selector(one.as_str());
        let ghost before = texts(r@);
        let ghost found = texts(more@);
        r.append(&mut more);
        assert(texts(r@) =~= before + found);
        i += 1;
    }
    r
}

/// Whether a pattern stands for a text: one of its alternatives fits.
pub open spec fn stands_for(pattern: Seq<char>, text: Seq<char>) -> bool {
    exists|k: int|
        0 <= k < alternatives(pattern).len() && fits(#[trigger] alternatives(pattern)[k], text)
}

/// Whether a pattern stands for a text.
pub fn selector_matches(pattern: &str, text: &str) -> (r: bool)
    ensures
        r == stands_for(pattern@, text@),
{
    let plain = expand_selector(pattern);
    let t = chars_of(text);
    assert(t@.skip(0) =~= t@);
    let mut i: usize = 0;
    while i < plain.len()
        invariant
            i <= plain@.len(),
            texts(plain@) == alternatives(pattern@),
            t@ == text@,
            t@.skip(0) == t@,
            forall|k: int| 0 <= k < i ==> !fits(#[trigger] alternatives(pattern@)[k], text@),
        decreases plain@.len() - i,
    {
        let p = chars_of(plain[i].as_str());
        assert(p@.skip(0) =~= p@);
        assert(alternatives(pattern@)[i as int] == p@);
        if fits_from(p.as_slice(), 0, t.as_slice(), 0) {
            return true;
        }
        i += 1;
    }
    false
}

/// Whether one of the patterns stands for a text.
pub open spec fn any_stands_for(patterns: Seq<Seq<char>>, text: Seq<char>) -> bool {
    exists|i: int| 0 <= i < patterns.len() && stands_for(#[trigger] patterns[i], text)
}

/// Whether one of the patterns stands for a text.
pub fn any_selector_matches(patterns: &[String], text: &str) -> (r: bool)
    ensures
        r == any_stands_for(texts(patterns@), text@),
{
    let mut i: usize = 0;
    while i < patterns.len()
        invariant
            i <= patterns@.len(),
            forall|k: int| 0 <= k < i ==> !stands_for(#[trigger] texts(patterns@)[k], text@),
        decreases patterns@.len() - i,
    {
        assert(texts(patterns@)[i as int] == patterns@[i as int]@);
        if selector_matches(patterns[i].as_str(), text) {
            return true;
        }
        i += 1;
    }
    false
}

/// The tools that one of the patterns stands for, in order.
pub open spec fn selected(tools: Seq<ToolDeclaration>, patterns: Seq<Seq<char>>) -> Seq<
    ToolDeclaration,
>
    decreases tools.len(),
{
    if tools.len() == 0 {
        Seq::empty()
    } else {
        let before = selected(tools.drop_last(), patterns);
        if any_stands_for(patterns, tools.last().name@) {
            before.push(tools.last())
        } else {
            before
        }
    }
}

/// Adds to a list the tools that one of the patterns stands for, in order.
pub fn select_into(
    found: &mut Vec<ToolDeclaration>,
    tools: &[ToolDeclaration],
    patterns: &[String],
)
    ensures
        final(found)@ == old(found)@ + selected(tools@, texts(patterns@)),
{
    let ghost before = found@;
    let mut i: usize = 0;
    assert(found@ =~= before + selected(tools@.take(0), texts(patterns@)));
    while i < tools.len()
        invariant
            i <= tools@.len(),
            found@ == before + selected(tools@.take(i as int), texts(patterns@)),
        decreases tools@.len() - i,
    {
        assert(tools@.take(i + 1).drop_last() =~= tools@.take(i as int));
        assert(tools@.take(i + 1).last() == tools@[i as int]);
        let ghost so_far = selected(tools@.take(i as int), texts(patterns@));
        if any_selector_matches(patterns, tools[i].name.as_str()) {
            found.push(tools[i].copy());
            assert(found@ =~= before + so_far.push(tools@[i as int]));
        }
        i += 1;
    }
    assert(tools@.take(i as int) =~= tools@);
}

/// The name of a server in a selector as it stands in the names of its tools.
pub open spec fn sanitized(selector: Seq<char>) -> Seq<char>
    decreases selector.len(),
{
    if selector.len() == 0 {
        Seq::empty()
    } else if selector.last() == '@' {
        sanitized(selector.drop_last()) + "__at__"@
    } else {
        sanitized(selector.drop_last()).push(selector.last())
    }
}

/// The name of a server in a selector as it stands in the names of its tools.
pub fn sanitize_selector(selector: &str) -> (r: String)
    ensures
        r@ == sanitized(selector@),
{
    let v = chars_of(selector);
    let mut r = String::new();
    let mut i: usize = 0;
    assert(r@ =~= sanitized(v@.take(0)));
    while i < v.len()
        invariant
            i <= v@.len(),
            r@ == sanitized(v@.take(i as int)),
        decreases v@.len() - i,
    {
        assert(v@.take(i + 1).drop_last() =~= v@.take(i as int));
        if v[i] == '@' {
            r.append("__at__");
        } else {
            r.push(v[i]);
        }
        i += 1;
    }
    assert(v@.take(i as int) =~= v@);
    r
}

/// Whether a pattern without alternatives fits some text that starts like this.
pub open spec fn fits_start(pattern: Seq<char>, start: Seq<char>) -> bool
    decreases start.len(),
{
    if start.len() == 0 {
        true
    } else if pattern.len() == 0 {
        false
    } else if pattern[0] == '*' {
        true
    } else {
        pattern[0] == start[0] && fits_start(pattern.skip(1), start.skip(1))
    }
}

fn may_start_with(pattern: &[char], start: &[char]) -> (r: bool)
    ensures
        r == fits_start(pattern@, start@),
{
    let mut i: usize = 0;
    assert(pattern@.skip(0) =~= pattern@);
    assert(start@.skip(0) =~= start@);
    while i < start.len()
        invariant
            i <= start@.len(),
            i <= pattern@.len(),
            fits_start(pattern@, start@) == fits_start(
                pattern@.skip(i as int),
                start@.skip(i as int),
            ),
        decreases start@.len() - i,
    {
        let ghost p = pattern@.skip(i as int);
        let ghost s = start@.skip(i as int);
        if i >= pattern.len() {
            return false;
        }
        assert(p[0] == pattern@[i as int] && s[0] == start@[i as int]);
        assert(p.skip(1) =~= pattern@.skip(i + 1));
        assert(s.skip(1) =~= start@.skip(i + 1));
        if pattern[i] == '*' {
            return true;
        }
        if pattern[i] != start[i] {
            return false;
        }
        i += 1;
    }
    true
}

/// Whether a pattern stands for some text that starts like this.
pub open spec fn could_start_with(pattern: Seq<char>, start: Seq<char>) -> bool {
    exists|k: int|
        0 <= k < alternatives(pattern).len() && fits_start(
            #[trigger] alternatives(pattern)[k],
            start,
        )
}

/// Whether a selector can pick anything of a server: it names the server, or stands for some name
/// of a tool, which starts with that of the server.
pub fn selector_could_match_server(selector: &str, server: &str) -> (r: bool)
    ensures
        r == (alternatives(sanitized(selector@)).contains(server@) || could_start_with(
            sanitized(selector@),
            server@ + "_"@,
        )),
{
    let name = sanitize_selector(selector);
    let plain = expand_selector(name.as_str());
    let mut prefix = String::from_str(server);
    prefix.append("_");
    let start = chars_of(prefix.as_str());
    let mut i: usize = 0;
    while i < plain.len()
        invariant
            i <= plain@.len(),
            name@ == sanitized(selector@),
            texts(plain@) == alternatives(name@),
            start@ == server@ + "_"@,
            forall|k: int|
                0 <= k < i ==> #[trigger] alternatives(name@)[k] != server@ && !fits_start(
                    alternatives(name@)[k],
                    start@,
                ),
        decreases plain@.len() - i,
    {
        assert(alternatives(name@)[i as int] == plain@[i as int]@);
        if *plain[i].as_str() == *server || may_start_with(
            chars_of(plain[i].as_str()).as_slice(),
            start.as_slice(),
        ) {
            return true;
        }
        i += 1;
    }
    false
}

/// The names of tools.
pub open spec fn names_of(tools: Seq<ToolDeclaration>) -> Seq<Seq<char>> {
    Seq::new(tools.len(), |i: int| tools[i].name@)
}

impl Config {
    /// The tools that the patterns pick: of those that are installed, then of those that servers
    /// offer, then the one that reads the history of a session.
    pub open spec fn picks(&self, patterns: Seq<Seq<char>>, tools: Seq<ToolDeclaration>) -> bool {
        let known = selected(self.tools@, patterns) + selected(
            self.nats_tool_declarations@,
            patterns,
        );
        if any_stands_for(patterns, SESSION_HISTORY_TOOL@) {
            &&& tools.len() == known.len() + 1
            &&& tools.drop_last() == known
            &&& tools.last().name@ == SESSION_HISTORY_TOOL@
            &&& tools.last().description@ == SESSION_HISTORY_DESCRIPTION@
            &&& tools.last().parameters is None
        } else {
            tools == known
        }
    }

    /// The names of the tools that the patterns pick.
    pub open spec fn picked(&self, patterns: Seq<Seq<char>>) -> Seq<Seq<char>> {
        names_of(selected(self.tools@, patterns)) + names_of(
            selected(self.nats_tool_declarations@, patterns),
        ) + if any_stands_for(patterns, SESSION_HISTORY_TOOL@) {
            seq![SESSION_HISTORY_TOOL@]
        } else {
            Seq::empty()
        }
    }

    fn pick(&self, patterns: &[String]) -> (r: Vec<ToolDeclaration>)
        ensures
            self.picks(texts(patterns@), r@),
            names_of(r@) == self.picked(texts(patterns@)),
    {
        let mut found: Vec<ToolDeclaration> = Vec::new();
        select_into(&mut found, self.tools.as_slice(), patterns);
        select_into(&mut found, self.nats_tool_declarations.as_slice(), patterns);
        let ghost installed = selected(self.tools@, texts(patterns@));
        let ghost offered = selected(self.nats_tool_declarations@, texts(patterns@));
        assert(found@ =~= installed + offered);
        assert(names_of(found@) =~= names_of(installed) + names_of(offered));
        let ghost before = found@;
        if any_selector_matches(patterns, SESSION_HISTORY_TOOL) {
            found.push(
                ToolDeclaration {
                    name: String::from_str(SESSION_HISTORY_TOOL),
                    description: String::from_str(SESSION_HISTORY_DESCRIPTION),
                    parameters: None,
                },
            );
            assert(found@.drop_last() =~= before);
            assert(names_of(found@) =~= names_of(before) + seq![SESSION_HISTORY_TOOL@]);
        } else {
            assert(names_of(found@) =~= names_of(before) + Seq::<Seq<char>>::empty());
        }
        found
    }

    /// The tools that a list of selectors picks. Without a list there are none.
    pub fn tool_declarations_for_use_tools(&self, selectors: Option<&str>) -> (r: Vec<
        ToolDeclaration,
    >)
        ensures
            match selectors {
                Some(s) => self.picks(said(selectors_in(s@)), r@),
                None => r@.len() == 0,
            },
            names_of(r@) == match selectors {
                Some(s) => self.picked(said(selectors_in(s@))),
                None => Seq::empty(),
            },
    {
        match selectors {
            Some(s) => self.pick(trimmed_parts(split_tool_selectors(s).as_slice()).as_slice()),
            None => {
                let none: Vec<ToolDeclaration> = Vec::new();
                assert(names_of(none@) =~= Seq::<Seq<char>>::empty());
                none
            },
        }
    }

    /// The names of the tools that selectors pick. Without selectors there are none.
    pub fn expand_use_tools(&self, selectors: Option<&[String]>) -> (r: Vec<String>)
        ensures
            texts(r@) == match selectors {
                Some(s) => self.picked(texts(s@)),
                None => Seq::empty(),
            },
    {
        let mut r: Vec<String> = Vec::new();
        match selectors {
            Some(s) => {
                let tools = self.pick(s);
                let mut i: usize = 0;
                while i < tools.len()
                    invariant
                        i <= tools@.len(),
                        texts(r@) == names_of(tools@).take(i as int),
                    decreases tools@.len() - i,
                {
                    let ghost before = texts(r@);
                    r.push(tools[i].name.clone());
                    assert(texts(r@) =~= before.push(tools@[i as int].name@));
                    assert(names_of(tools@).take(i + 1) =~= names_of(tools@).take(i as int).push(
                        names_of(tools@)[i as int],
                    ));
                    i += 1;
                }
                assert(names_of(tools@).take(i as int) =~= names_of(tools@));
            },
            None => {
                assert(texts(r@) =~= Seq::<Seq<char>>::empty());
            },
        }
        r
    }

    /// The tools that an agent is offered: those that its selectors pick, if tools may be used at
    /// all and any are picked.
    pub fn select_tools(&self, agent: &Agent) -> (r: Option<Vec<ToolDeclaration>>)
        ensures
            match agent.use_tools {
                Some(selectors) => {
                    let names = self.picked(texts(selectors@));
                    if self.tool_use && names.len() > 0 {
                        r matches Some(tools) && self.picks(texts(selectors@), tools@)
                            && names_of(tools@) == names
                    } else {
                        r is None
                    }
                },
                None => r is None,
            },
    {
        if !self.tool_use {
            return None;
        }
        match &agent.use_tools {
            Some(selectors) => {
                let tools = self.pick(selectors.as_slice());
                assert(names_of(tools@).len() == tools@.len());
                if tools.len() > 0 {
                    Some(tools)
                } else {
                    None
                }
            },
            None => None,
        }
    }
}

/// A pattern fits what its characters spell, with nothing for each `*`.
pub open spec fn without_stars(pattern: Seq<char>) -> Seq<char>
    decreases pattern.len(),
{
    if pattern.len() == 0 {
        Seq::empty()
    } else if pattern[0] == '*' {
        without_stars(pattern.skip(1))
    } else {
        seq![pattern[0]] + without_stars(pattern.skip(1))
    }
}

proof fn fits_without_stars(pattern: Seq<char>)
    ensures
        fits(pattern, without_stars(pattern)),
    decreases pattern.len(),
{
    if pattern.len() > 0 {
        fits_without_stars(pattern.skip(1));
        let t = without_stars(pattern);
        if pattern[0] != '*' {
            assert(t.skip(1) =~= without_stars(pattern.skip(1)));
        }
    }
}

proof fn star_absorbs(pattern: Seq<char>, front: Seq<char>, rest: Seq<char>)
    requires
        pattern.len() > 0,
        pattern[0] == '*',
        fits(pattern, rest),
    ensures
        fits(pattern, front + rest),
    decreases front.len(),
{
    if front.len() == 0 {
        assert(front + rest =~= rest);
    } else {
        let t = front + rest;
        assert(t.skip(1) =~= front.skip(1) + rest);
        star_absorbs(pattern, front.skip(1), rest);
    }
}

/// The test of a start is exact for a pattern without alternatives.
proof fn fits_start_is_exact(pattern: Seq<char>, start: Seq<char>)
    ensures
        fits_start(pattern, start) <==> exists|rest: Seq<char>|
            fits(pattern, #[trigger] (start + rest)),
    decreases start.len(),
{
    if start.len() == 0 {
        fits_without_stars(pattern);
        assert(start + without_stars(pattern) =~= without_stars(pattern));
    } else if pattern.len() == 0 {
        assert forall|rest: Seq<char>| !fits(pattern, #[trigger] (start + rest)) by {}
    } else if pattern[0] == '*' {
        fits_without_stars(pattern);
        star_absorbs(pattern, start, without_stars(pattern));
    } else {
        fits_start_is_exact(pattern.skip(1), start.skip(1));
        if fits_start(pattern, start) {
            let rest = choose|rest: Seq<char>|
                fits(pattern.skip(1), #[trigger] (start.skip(1) + rest));
            let t = start + rest;
            assert(t.skip(1) =~= start.skip(1) + rest);
            assert(fits(pattern, t));
        }
        if exists|rest: Seq<char>| fits(pattern, #[trigger] (start + rest)) {
            let rest = choose|rest: Seq<char>| fits(pattern, #[trigger] (start + rest));
            let t = start + rest;
            assert(t.skip(1) =~= start.skip(1) + rest);
            assert(fits(pattern.skip(1), start.skip(1) + rest));
        }
    }
}

/// A pattern can pick something of a server exactly when there is a name that starts like those
/// of the tools of the server and for which it stands.
pub proof fn law_prefix_test_is_exact(pattern: Seq<char>, start: Seq<char>)
    ensures
        could_start_with(pattern, start) <==> exists|rest: Seq<char>|
            stands_for(pattern, #[trigger] (start + rest)),
{
    let all = alternatives(pattern);
    if could_start_with(pattern, start) {
        let k = choose|k: int| 0 <= k < all.len() && fits_start(#[trigger] all[k], start);
        fits_start_is_exact(all[k], start);
        let rest = choose|rest: Seq<char>| fits(all[k], #[trigger] (start + rest));
        assert(stands_for(pattern, start + rest));
    }
    if exists|rest: Seq<char>| stands_for(pattern, #[trigger] (start + rest)) {
        let rest = choose|rest: Seq<char>| stands_for(pattern, #[trigger] (start + rest));
        let k = choose|k: int| 0 <= k < all.len() && fits(#[trigger] all[k], start + rest);
        fits_start_is_exact(all[k], start);
        assert(fits_start(all[k], start));
    }
}

proof fn first_alternatives_cover(pattern: Seq<char>, n: int, text: Seq<char>)
    requires
        has_choice(pattern),
        0 <= n <= choices(pattern).len(),
    ensures
        (exists|k: int|
            0 <= k < first_alternatives(pattern, n).len() && fits(
                #[trigger] first_alternatives(pattern, n)[k],
                text,
            )) <==> (exists|c: int|
            0 <= c < n && stands_for(chosen(pattern, #[trigger] choices(pattern)[c]), text)),
    decreases n,
{
    if n > 0 {
        first_alternatives_cover(pattern, n - 1, text);
        let before = first_alternatives(pattern, n - 1);
        let last = alternatives(chosen(pattern, choices(pattern)[n - 1]));
        let all = first_alternatives(pattern, n);
        assert(all == before + last);
        if exists|k: int| 0 <= k < all.len() && fits(#[trigger] all[k], text) {
            let k = choose|k: int| 0 <= k < all.len() && fits(#[trigger] all[k], text);
            if k < before.len() {
                assert(before[k] == all[k]);
            } else {
                assert(last[k - before.len()] == all[k]);
                assert(stands_for(chosen(pattern, choices(pattern)[n - 1]), text));
            }
        }
        if exists|c: int|
            0 <= c < n && stands_for(chosen(pattern, #[trigger] choices(pattern)[c]), text) {
            let c = choose|c: int|
                0 <= c < n && stands_for(chosen(pattern, #[trigger] choices(pattern)[c]), text);
            if c < n - 1 {
                let k = choose|k: int| 0 <= k < before.len() && fits(#[trigger] before[k], text);
                assert(all[k] == before[k]);
            } else {
                let k = choose|k: int| 0 <= k < last.len() && fits(#[trigger] last[k], text);
                assert(all[before.len() + k] == last[k]);
            }
        }
    }
}

/// Braces offer alternatives: a selector with braces picks what it would pick with one of the
/// choices in their place.
pub proof fn law_braces_offer_alternatives(pattern: Seq<char>, text: Seq<char>)
    requires
        has_choice(pattern),
    ensures
        stands_for(pattern, text) <==> exists|c: int|
            0 <= c < choices(pattern).len() && stands_for(
                chosen(pattern, #[trigger] choices(pattern)[c]),
                text,
            ),
{
    first_alternatives_cover(pattern, choices(pattern).len() as int, text);
}

proof fn fits_exactly(pattern: Seq<char>, text: Seq<char>)
    requires
        !pattern.contains('*'),
    ensures
        fits(pattern, text) <==> pattern == text,
    decreases pattern.len(),
{
    if pattern.len() == 0 {
        if text.len() == 0 {
            assert(pattern =~= text);
        }
    } else {
        assert(pattern.contains(pattern[0]));
        assert forall|c: char| pattern.skip(1).contains(c) implies pattern.contains(c) by {
            let k = choose|k: int| 0 <= k < pattern.skip(1).len() && pattern.skip(1)[k] == c;
            assert(pattern[k + 1] == c);
        }
        if text.len() > 0 {
            fits_exactly(pattern.skip(1), text.skip(1));
            if pattern[0] == text[0] && pattern.skip(1) == text.skip(1) {
                assert(pattern =~= seq![pattern[0]] + pattern.skip(1));
                assert(text =~= seq![text[0]] + text.skip(1));
            }
        }
    }
}

proof fn plain_has_no_choice(pattern: Seq<char>)
    requires
        !pattern.contains('{'),
    ensures
        alternatives(pattern) == seq![pattern],
{
    opens_within(pattern, 0);
}

/// A selector without a `*` and without braces picks exactly the tool that it names.
pub proof fn law_plain_selector_picks_one_name(pattern: Seq<char>, text: Seq<char>)
    requires
        !pattern.contains('*'),
        !pattern.contains('{'),
    ensures
        stands_for(pattern, text) <==> pattern == text,
{
    plain_has_no_choice(pattern);
    fits_exactly(pattern, text);
    assert(alternatives(pattern)[0] == pattern);
}

proof fn star_fits(text: Seq<char>)
    ensures
        fits(seq!['*'], text),
    decreases text.len(),
{
    let p = seq!['*'];
    assert(p.skip(1) =~= Seq::<char>::empty());
    if text.len() > 0 {
        star_fits(text.skip(1));
    } else {
        assert(fits(p.skip(1), text));
    }
}

/// The selector `*` picks every tool.
pub proof fn law_star_picks_everything(text: Seq<char>)
    ensures
        stands_for(seq!['*'], text),
{
    star_fits(text);
    plain_has_no_choice(seq!['*']);
    assert(alternatives(seq!['*'])[0] == seq!['*']);
}

/// An opening brace opens one more, a closing one closes one where one is open, and nothing else
/// changes how many are open.
pub proof fn law_braces_open_and_close(s: Seq<char>, c: char)
    ensures
        open_braces(Seq::<char>::empty()) == 0,
        open_braces(s.push('{')) == open_braces(s) + 1,
        open_braces(s) > 0 ==> open_braces(s.push('}')) == open_braces(s) - 1,
        open_braces(s) == 0 ==> open_braces(s.push('}')) == 0,
        c != '{' && c != '}' ==> open_braces(s.push(c)) == open_braces(s),
{
    assert(s.push(c).drop_last() =~= s);
    assert(s.push('{').drop_last() =~= s);
    assert(s.push('}').drop_last() =~= s);
}

/// A comma outside braces parts the selectors before it from those behind it.
pub proof fn law_comma_outside_braces_parts_selectors(before: Seq<char>, after: Seq<char>)
    requires
        open_braces(before) == 0,
    ensures
        selectors_in(before.push(',') + after) == selectors_in(before) + selectors_in(after),
        open_braces(before.push(',') + after) == open_braces(after),
        selectors_in(after).len() >= 1,
    decreases after.len(),
{
    let s = before.push(',') + after;
    if after.len() == 0 {
        assert(s =~= before.push(','));
        assert(s.drop_last() =~= before);
        assert(selectors_in(s) =~= selectors_in(before) + selectors_in(after));
    } else {
        let t = after.drop_last();
        law_comma_outside_braces_parts_selectors(before, t);
        assert(s.drop_last() =~= before.push(',') + t);
        assert(s.last() == after.last());
        assert(selectors_in(s) =~= selectors_in(before) + selectors_in(after));
    }
}

/// A text with no comma outside braces is one selector, whole.
pub proof fn law_commas_inside_braces_part_nothing(s: Seq<char>)
    requires
        forall|i: int| 0 <= i < s.len() && #[trigger] s[i] == ',' ==> open_braces(s.take(i)) > 0,
    ensures
        selectors_in(s) == seq![s],
    decreases s.len(),
{
    if s.len() > 0 {
        let t = s.drop_last();
        assert forall|i: int| 0 <= i < t.len() && #[trigger] t[i] == ',' implies open_braces(
            t.take(i),
        ) > 0 by {
            assert(s[i] == t[i]);
            assert(t.take(i) =~= s.take(i));
        }
        law_commas_inside_braces_part_nothing(t);
        assert(s.take(s.len() - 1) =~= t);
        assert(s[s.len() - 1] == s.last());
        assert(t.push(s.last()) =~= s);
        assert(selectors_in(s) =~= seq![s]);
    } else {
        assert(s =~= Seq::<char>::empty());
    }
}

/// What is said of parts is each of them trimmed, in order, without those that are then empty.
pub proof fn law_parts_are_said_trimmed(parts: Seq<Seq<char>>)
    ensures
        said(parts) == parts.filter(|p: Seq<char>| trimmed(p).len() > 0).map_values(
            |p: Seq<char>| trimmed(p),
        ),
    decreases parts.len(),
{
    reveal(Seq::filter);
    let p = |p: Seq<char>| trimmed(p).len() > 0;
    let f = |p: Seq<char>| trimmed(p);
    if parts.len() > 0 {
        let t = parts.drop_last();
        let x = parts.last();
        law_parts_are_said_trimmed(t);
        if p(x) {
            assert(parts.filter(p) =~= t.filter(p).push(x));
            assert(t.filter(p).push(x).map_values(f) =~= t.filter(p).map_values(f).push(f(x)));
        } else {
            assert(parts.filter(p) =~= t.filter(p));
        }
    } else {
        assert(parts.filter(p).map_values(f) =~= Seq::<Seq<char>>::empty());
    }
}

/// A star stands for any run of characters, and any other character for itself alone.
pub proof fn law_star_stands_for_any_run(pattern: Seq<char>, text: Seq<char>, c: char)
    ensures
        fits(Seq::<char>::empty(), text) <==> text.len() == 0,
        fits(seq!['*'] + pattern, text) <==> exists|k: int|
            0 <= k <= text.len() && fits(pattern, #[trigger] text.skip(k)),
        c != '*' ==> (fits(seq![c] + pattern, text) <==> text.len() > 0 && text[0] == c && fits(
            pattern,
            text.skip(1),
        )),
    decreases text.len(),
{
    let star = seq!['*'] + pattern;
    assert(star.skip(1) =~= pattern);
    assert((seq![c] + pattern).skip(1) =~= pattern);
    assert(text.skip(0) =~= text);
    if text.len() > 0 {
        let t = text.skip(1);
        law_star_stands_for_any_run(pattern, t, c);
        if fits(star, t) {
            let k = choose|k: int| 0 <= k <= t.len() && fits(pattern, #[trigger] t.skip(k));
            assert(text.skip(k + 1) =~= t.skip(k));
        }
        if exists|k: int| 0 <= k <= text.len() && fits(pattern, #[trigger] text.skip(k)) {
            let k = choose|k: int| 0 <= k <= text.len() && fits(pattern, #[trigger] text.skip(k));
            if k > 0 {
                assert(t.skip(k - 1) =~= text.skip(k));
            }
        }
    }
}

/// How many more braces a text opens than it closes.
pub open spec fn brace_depth(s: Seq<char>) -> int
    decreases s.len(),
{
    if s.len() == 0 {
        0
    } else {
        brace_depth(s.drop_last()) + if s.last() == '{' {
            1int
        } else if s.last() == '}' {
            -1
        } else {
            0
        }
    }
}

/// The first opening brace of a pattern, with the brace that closes it, encloses the choices: each
/// of them may stand between what comes before and what comes behind.
pub proof fn law_first_braces_enclose_the_choices(
    before: Seq<char>,
    inner: Seq<char>,
    after: Seq<char>,
    choice: Seq<char>,
)
    requires
        forall|i: int| 0 <= i < before.len() ==> #[trigger] before[i] != '{',
        forall|i: int| 0 <= i <= inner.len() ==> brace_depth(#[trigger] inner.take(i)) >= 0,
        brace_depth(inner) == 0,
    ensures
        ({
            let pattern = before.push('{') + inner.push('}') + after;
            &&& has_choice(pattern)
            &&& choices(pattern) == selectors_in(inner)
            &&& chosen(pattern, choice) == before + choice + after
        }),
{
    let pattern = before.push('{') + inner.push('}') + after;
    let a = before.len() as int;
    first_open(pattern, 0, a);
    assert(pattern[a] == '{');
    closing_brace(pattern, a + 1, inner, inner.len() as int);
    assert(inner.take(inner.len() as int) =~= inner);
    let b = a + 1 + inner.len();
    assert(pattern[b] == '}');
    assert(closes_from(pattern, a + 1, 0) == b);
    assert(pattern.subrange(a + 1, b) =~= inner);
    assert(pattern.take(a) =~= before);
    assert(pattern.skip(b + 1) =~= after);
}

proof fn first_open(s: Seq<char>, from: int, at: int)
    requires
        0 <= from <= at < s.len(),
        s[at] == '{',
        forall|i: int| from <= i < at ==> #[trigger] s[i] != '{',
    ensures
        opens_from(s, from) == at,
    decreases at - from,
{
    if from < at {
        assert(s[from] != '{');
        first_open(s, from + 1, at);
    }
}

proof fn closing_brace(s: Seq<char>, from: int, inner: Seq<char>, i: int)
    requires
        0 <= from,
        from + inner.len() < s.len(),
        forall|k: int| 0 <= k < inner.len() ==> s[from + k] == #[trigger] inner[k],
        forall|k: int| 0 <= k <= inner.len() ==> brace_depth(#[trigger] inner.take(k)) >= 0,
        0 <= i <= inner.len(),
    ensures
        closes_from(s, from, 0) == closes_from(s, from + i, brace_depth(inner.take(i)) as nat),
    decreases i,
{
    if i > 0 {
        closing_brace(s, from, inner, i - 1);
        assert(inner.take(i).drop_last() =~= inner.take(i - 1));
        assert(inner.take(i).last() == inner[i - 1]);
        assert(brace_depth(inner.take(i)) >= 0);
        assert(brace_depth(inner.take(i - 1)) >= 0);
        assert(s[from + i - 1] == inner[i - 1]);
    } else {
        assert(inner.take(0).len() == 0);
    }
}

/// A pattern whose braces never close offers no choice.
pub proof fn law_open_brace_without_end_offers_no_choice(before: Seq<char>, inner: Seq<char>)
    requires
        forall|i: int| 0 <= i < before.len() ==> #[trigger] before[i] != '{',
        forall|i: int| 0 <= i <= inner.len() ==> brace_depth(#[trigger] inner.take(i)) >= 0,
    ensures
        !has_choice(before.push('{') + inner),
        !has_choice(before),
{
    let pattern = before.push('{') + inner;
    let a = before.len() as int;
    first_open(pattern, 0, a);
    unclosed(pattern, a + 1, inner, inner.len() as int);
    assert(inner.take(inner.len() as int) =~= inner);
    no_open(before, 0);
}

proof fn no_open(s: Seq<char>, from: int)
    requires
        0 <= from <= s.len(),
        forall|i: int| from <= i < s.len() ==> #[trigger] s[i] != '{',
    ensures
        opens_from(s, from) == s.len(),
    decreases s.len() - from,
{
    if from < s.len() {
        assert(s[from] != '{');
        no_open(s, from + 1);
    }
}

proof fn unclosed(s: Seq<char>, from: int, inner: Seq<char>, i: int)
    requires
        0 <= from,
        from + inner.len() == s.len(),
        forall|k: int| 0 <= k < inner.len() ==> s[from + k] == #[trigger] inner[k],
        forall|k: int| 0 <= k <= inner.len() ==> brace_depth(#[trigger] inner.take(k)) >= 0,
        0 <= i <= inner.len(),
    ensures
        closes_from(s, from, 0) == closes_from(s, from + i, brace_depth(inner.take(i)) as nat),
    decreases i,
{
    if i > 0 {
        unclosed(s, from, inner, i - 1);
        assert(inner.take(i).drop_last() =~= inner.take(i - 1));
        assert(inner.take(i).last() == inner[i - 1]);
        assert(brace_depth(inner.take(i)) >= 0);
        assert(brace_depth(inner.take(i - 1)) >= 0);
        assert(s[from + i - 1] == inner[i - 1]);
    } else {
        assert(inner.take(0).len() == 0);
    }
}

/// A pattern expands to what it becomes with each of its choices, in their order, and without a
/// choice to itself.
pub proof fn law_pattern_expands_choice_by_choice(pattern: Seq<char>)
    ensures
        !has_choice(pattern) ==> alternatives(pattern) == seq![pattern],
        has_choice(pattern) ==> alternatives(pattern) == Seq::new(
            choices(pattern).len(),
            |c: int| alternatives(chosen(pattern, choices(pattern)[c])),
        ).flatten(),
{
    if has_choice(pattern) {
        expanded_up_to(pattern, choices(pattern).len() as int);
    }
}

proof fn expanded_up_to(pattern: Seq<char>, n: int)
    requires
        has_choice(pattern),
        0 <= n <= choices(pattern).len(),
    ensures
        first_alternatives(pattern, n) == Seq::new(
            n as nat,
            |c: int| alternatives(chosen(pattern, choices(pattern)[c])),
        ).flatten(),
    decreases n,
{
    let f = |c: int| alternatives(chosen(pattern, choices(pattern)[c]));
    let all = Seq::new(n as nat, f);
    if n > 0 {
        expanded_up_to(pattern, n - 1);
        let t = Seq::new((n - 1) as nat, f);
        assert(all =~= t.push(f(n - 1)));
        t.lemma_flatten_push(f(n - 1));
    } else {
        assert(all.flatten() =~= Seq::<Seq<char>>::empty());
    }
}

/// Some pattern of several stands for a text exactly where one of them does, and a pattern does
/// where one of its alternatives fits.
pub proof fn law_one_pattern_of_several_is_enough(patterns: Seq<Seq<char>>, text: Seq<char>)
    ensures
        any_stands_for(patterns, text) <==> exists|i: int, k: int|
            0 <= i < patterns.len() && 0 <= k < alternatives(patterns[i]).len() && fits(
                #[trigger] alternatives(patterns[i])[k],
                text,
            ),
{
    if any_stands_for(patterns, text) {
        let i = choose|i: int| 0 <= i < patterns.len() && stands_for(#[trigger] patterns[i], text);
        let k = choose|k: int|
            0 <= k < alternatives(patterns[i]).len() && fits(
                #[trigger] alternatives(patterns[i])[k],
                text,
            );
        assert(fits(alternatives(patterns[i])[k], text));
    }
    if exists|i: int, k: int|
        0 <= i < patterns.len() && 0 <= k < alternatives(patterns[i]).len() && fits(
            #[trigger] alternatives(patterns[i])[k],
            text,
        ) {
        let (i, k) = choose|i: int, k: int|
            0 <= i < patterns.len() && 0 <= k < alternatives(patterns[i]).len() && fits(
                #[trigger] alternatives(patterns[i])[k],
                text,
            );
        assert(stands_for(patterns[i], text));
    }
}

/// The tools that are selected are those whose names some pattern stands for, in order and each as
/// it is.
pub proof fn law_selected_tools_are_those_named(
    tools: Seq<ToolDeclaration>,
    patterns: Seq<Seq<char>>,
)
    ensures
        selected(tools, patterns) == tools.filter(
            |t: ToolDeclaration| any_stands_for(patterns, t.name@),
        ),
        names_of(tools).len() == tools.len(),
        forall|i: int| 0 <= i < tools.len() ==> #[trigger] names_of(tools)[i] == tools[i].name@,
    decreases tools.len(),
{
    reveal(Seq::filter);
    if tools.len() > 0 {
        law_selected_tools_are_those_named(tools.drop_last(), patterns);
    }
}

/// A selector is made safe character for character: only `@` is spelled out.
pub proof fn law_selector_spells_out_the_at_sign(a: Seq<char>, b: Seq<char>, c: char)
    ensures
        sanitized(Seq::<char>::empty()).len() == 0,
        sanitized(seq!['@']) == "__at__"@,
        c != '@' ==> sanitized(seq![c]) == seq![c],
        sanitized(a + b) == sanitized(a) + sanitized(b),
    decreases b.len(),
{
    reveal_with_fuel(sanitized, 2);
    assert(seq!['@'].drop_last() =~= Seq::<char>::empty());
    assert(seq![c].drop_last() =~= Seq::<char>::empty());
    assert(Seq::<char>::empty() + "__at__"@ =~= "__at__"@);
    assert(Seq::<char>::empty().push(c) =~= seq![c]);
    if b.len() == 0 {
        assert(a + b =~= a);
        assert(sanitized(a) + sanitized(b) =~= sanitized(a));
    } else {
        law_selector_spells_out_the_at_sign(a, b.drop_last(), c);
        assert((a + b).drop_last() =~= a + b.drop_last());
        assert((a + b).last() == b.last());
        assert(sanitized(a + b) =~= sanitized(a) + sanitized(b));
    }
}

/// What a configuration picks is its own tools, then those of servers, then the tool that reads
/// the history, each only where a pattern stands for its name.
pub proof fn law_tools_are_picked_own_first(
    c: Config,
    patterns: Seq<Seq<char>>,
    tools: Seq<ToolDeclaration>,
)
    requires
        c.picks(patterns, tools),
    ensures
        ({
            let own = selected(c.tools@, patterns);
            let served = selected(c.nats_tool_declarations@, patterns);
            let history = any_stands_for(patterns, "harnx_agent_session_history_read"@);
            &&& tools.len() == own.len() + served.len() + if history {
                1nat
            } else {
                0nat
            }
            &&& tools.take(own.len() as int) == own
            &&& tools.subrange(own.len() as int, own.len() as int + served.len()) == served
            &&& history ==> tools.last().name@ == "harnx_agent_session_history_read"@
                && tools.last().description@ == "Read the history of this session."@
                && tools.last().parameters is None
            &&& names_of(tools) == c.picked(patterns)
        }),
{
    let own = selected(c.tools@, patterns);
    let served = selected(c.nats_tool_declarations@, patterns);
    let known = own + served;
    if any_stands_for(patterns, SESSION_HISTORY_TOOL@) {
        assert(tools =~= known.push(tools.last()));
    }
    assert(tools.take(own.len() as int) =~= own);
    assert(tools.subrange(own.len() as int, own.len() as int + served.len()) =~= served);
    assert(names_of(tools) =~= c.picked(patterns));
}

} // verus!
