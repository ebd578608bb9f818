//! The variables of a session.
use crate::config::session::{copy_variables, distinct, variables_view, Agent, Session};
use crate::config::Config;
use crate::text::{chars_of, join, joined, opt_text, string_of, texts};
use vstd::prelude::*;
use vstd::string::*;

verus! {

/// How much of a value is shown in a list.
pub const SHOWN_VALUE_CHARS: usize = 200;

/// Why a variable was not read or set.
#[derive(Debug, PartialEq, Eq)]
pub enum VariableError {
    NoSession,
    NoAgent,
    NotSet(String),
    /// Somebody else works on the session.
    Locked(String),
    /// The session could not be saved.
    NotSaved(String),
}

impl VariableError {
    pub open spec fn text(self) -> Seq<char> {
        match self {
            VariableError::NoSession => "No active session"@,
            VariableError::NoAgent => "No active agent"@,
            VariableError::NotSet(name) => "Variable '"@ + name@ + "' not set"@,
            VariableError::Locked(e) => e@,
            VariableError::NotSaved(e) => e@,
        }
    }

    pub fn message(&self) -> (r: String)
        ensures
            r@ == self.text(),
            r@ == match *self {
                VariableError::NoSession => "No active session"@,
                VariableError::NoAgent => "No active agent"@,
                VariableError::NotSet(name) => "Variable '"@ + name@ + "' not set"@,
                VariableError::Locked(e) => e@,
                VariableError::NotSaved(e) => e@,
            },
    {
        match self {
            VariableError::NoSession => String::from_str("No active session"),
            VariableError::NoAgent => String::from_str("No active agent"),
            VariableError::NotSet(name) => {
                let mut r = String::from_str("Variable '");
                r.append(name.as_str());
                r.append("' not set");
                r
            },
            VariableError::Locked(e) => e.clone(),
            VariableError::NotSaved(e) => e.clone(),
        }
    }
}

/// A text of at most `max` characters as it is, and of a longer one both ends with a mark between
/// them.
pub open spec fn middle_cut(text: Seq<char>, max: nat) -> Seq<char> {
    if text.len() <= max {
        text
    } else {
        let head = max / 2;
        text.take(head as int) + "…"@ + text.skip(text.len() - (max - head))
    }
}

pub fn truncate_middle(text: &str, max: usize) -> (r: String)
    ensures
        r@ == middle_cut(text@, max as nat),
{
    let v = chars_of(text);
    if v.len() <= max {
        return String::from_str(text);
    }
    let head: usize = max / 2;
    let tail: usize = v.len() - (max - head);
    let mut r = string_of(v.as_slice(), 0, head);
    r.append("…");
    r.append(string_of(v.as_slice(), tail, v.len()).as_str());
    assert(v@.subrange(0, head as int) =~= text@.take(head as int));
    assert(v@.subrange(tail as int, v@.len() as int) =~= text@.skip(tail as int));
    r
}

/// The lines of a list of variables.
pub open spec fn variable_lines(v: Seq<(Seq<char>, Seq<char>)>) -> Seq<Seq<char>> {
    Seq::new(
        v.len(),
        |i: int| v[i].0 + " = "@ + middle_cut(v[i].1, SHOWN_VALUE_CHARS as nat),
    )
}

/// Where a variable stands.
pub open spec fn place_of(v: Seq<(Seq<char>, Seq<char>)>, name: Seq<char>) -> Option<int>
    decreases v.len(),
{
    if v.len() == 0 {
        None
    } else {
        match place_of(v.drop_last(), name) {
            Some(i) => Some(i),
            None => if v.last().0 == name {
                Some(v.len() - 1)
            } else {
                None
            },
        }
    }
}

/// Variables of which one has another value: in its old place, or as the last one.
pub open spec fn with_variable(
    v: Seq<(Seq<char>, Seq<char>)>,
    name: Seq<char>,
    value: Seq<char>,
) -> Seq<(Seq<char>, Seq<char>)> {
    match place_of(v, name) {
        Some(i) => v.update(i, (name, value)),
        None => v.push((name, value)),
    }
}

/// Finds where a variable stands.
pub fn find_variable(v: &[(String, String)], name: &str) -> (r: Option<usize>)
    ensures
        match r {
            Some(i) => place_of(variables_view(v@), name@) == Some(i as int) && i < v@.len()
                && v@[i as int].0@ == name@,
            None => place_of(variables_view(v@), name@) is None,
        },
{
    let ghost all = variables_view(v@);
    let mut i: usize = 0;
    while i < v.len()
        invariant
            i <= v@.len(),
            all == variables_view(v@),
            place_of(all.take(i as int), name@) is None,
        decreases v@.len() - i,
    {
        assert(all.take(i + 1).drop_last() =~= all.take(i as int));
        assert(all.take(i + 1).last() == all[i as int]);
        if *v[i].0.as_str() == *name {
            proof {
                place_stays(all, name@, i + 1);
            }
            return Some(i);
        }
        i += 1;
    }
    assert(all.take(i as int) =~= all);
    None
}

/// A variable that stands among the first ones stands in the same place among all.
proof fn place_stays(v: Seq<(Seq<char>, Seq<char>)>, name: Seq<char>, n: int)
    requires
        0 <= n <= v.len(),
        place_of(v.take(n), name) is Some,
    ensures
        place_of(v, name) == place_of(v.take(n), name),
    decreases v.len(),
{
    if n == v.len() {
        assert(v.take(n) =~= v);
    } else {
        assert(v.drop_last().take(n) =~= v.take(n));
        place_stays(v.drop_last(), name, n);
    }
}

fn put_variable(v: &mut Vec<(String, String)>, name: &str, value: &str)
    ensures
        variables_view(final(v)@) == with_variable(variables_view(old(v)@), name@, value@),
{
    let ghost before = variables_view(v@);
    let pair = (String::from_str(name), String::from_str(value));
    match find_variable(v.as_slice(), name) {
        Some(i) => {
            v.set(i, pair);
            assert(variables_view(v@) =~= before.update(i as int, (name@, value@)));
        },
        None => {
            v.push(pair);
            assert(variables_view(v@) =~= before.push((name@, value@)));
        },
    }
}

/// The variables that a list of names and values sets one after another.
pub open spec fn gathered(v: Seq<(Seq<char>, Seq<char>)>) -> Seq<(Seq<char>, Seq<char>)>
    decreases v.len(),
{
    if v.len() == 0 {
        Seq::empty()
    } else {
        with_variable(gathered(v.drop_last()), v.last().0, v.last().1)
    }
}

/// The variables that a list of names and values sets one after another: each name once, with the
/// last of its values.
pub fn gather_variables(pairs: &[(String, String)]) -> (r: Vec<(String, String)>)
    ensures
        variables_view(r@) == gathered(variables_view(pairs@)),
        distinct(variables_view(r@)),
{
    let ghost all = variables_view(pairs@);
    let mut r: Vec<(String, String)> = Vec::new();
    let mut i: usize = 0;
    assert(variables_view(r@) =~= gathered(all.take(0)));
    while i < pairs.len()
        invariant
            i <= pairs@.len(),
            all == variables_view(pairs@),
            variables_view(r@) == gathered(all.take(i as int)),
            distinct(variables_view(r@)),
        decreases pairs@.len() - i,
    {
        assert(all.take(i + 1).drop_last() =~= all.take(i as int));
        assert(all.take(i + 1).last() == all[i as int]);
        proof {
            law_names_stay_distinct(variables_view(r@), pairs@[i as int].0@, pairs@[i as int].1@);
        }
        put_variable(&mut r, pairs[i].0.as_str(), pairs[i].1.as_str());
        i += 1;
    }
    assert(all.take(i as int) =~= all);
    r
}

impl Config {
    /// The variables of the session, one on a line, long values cut in the middle.
    pub fn list_variables(&self) -> (r: Result<String, VariableError>)
        ensures
            match self.session {
                None => r == Err::<String, VariableError>(VariableError::NoSession),
                Some(s) => r matches Ok(t) && t@ == if s.agent_variables@.len() == 0 {
                    "No session variables"@
                } else {
                    joined(variable_lines(variables_view(s.agent_variables@)), "\n"@)
                },
            },
    {
        let session = match &self.session {
            Some(session) => session,
            None => {
                return Err(VariableError::NoSession);
            },
        };
        if session.agent_variables.len() == 0 {
            return Ok(String::from_str("No session variables"));
        }
        let ghost all = variable_lines(variables_view(session.agent_variables@));
        let mut lines: Vec<String> = Vec::new();
        let mut i: usize = 0;
        while i < session.agent_variables.len()
            invariant
                i <= session.agent_variables@.len(),
                all == variable_lines(variables_view(session.agent_variables@)),
                texts(lines@) == all.take(i as int),
            decreases session.agent_variables@.len() - i,
        {
            let ghost before = texts(lines@);
            let mut line = session.agent_variables[i].0.clone();
            line.append(" = ");
            line.append(
                truncate_middle(
                    session.agent_variables[i].1.as_str(),
                    SHOWN_VALUE_CHARS,
                ).as_str(),
            );
            lines.push(line);
            assert(texts(lines@) =~= before.push(line@));
            assert(all.take(i + 1) =~= all.take(i as int).push(all[i as int]));
            i += 1;
        }
        assert(all.take(i as int) =~= all);
        Ok(join(lines.as_slice(), "\n"))
    }

    /// The value of a variable of the session.
    pub fn get_variable(&self, name: &str) -> (r: Result<String, VariableError>)
        ensures
            match self.session {
                None => r == Err::<String, VariableError>(VariableError::NoSession),
                Some(s) => match place_of(variables_view(s.agent_variables@), name@) {
                    Some(i) => r matches Ok(t) && t@ == s.agent_variables@[i].1@,
                    None => r matches Err(VariableError::NotSet(n)) && n@ == name@,
                },
            },
    {
        match &self.session {
            None => Err(VariableError::NoSession),
            Some(session) => match find_variable(session.agent_variables.as_slice(), name) {
                Some(i) => Ok(session.agent_variables[i].1.clone()),
                None => Err(VariableError::NotSet(String::from_str(name))),
            },
        }
    }

    /// The value that an editor starts from: that of the variable, or nothing.
    pub fn variable_to_edit(&self, name: &str) -> (r: Result<String, VariableError>)
        ensures
            match self.session {
                None => r == Err::<String, VariableError>(VariableError::NoSession),
                Some(s) => r matches Ok(t) && t@ == match place_of(
                    variables_view(s.agent_variables@),
                    name@,
                ) {
                    Some(i) => s.agent_variables@[i].1@,
                    None => Seq::empty(),
                },
            },
    {
        match &self.session {
            None => Err(VariableError::NoSession),
            Some(session) => match find_variable(session.agent_variables.as_slice(), name) {
                Some(i) => Ok(session.agent_variables[i].1.clone()),
                None => Ok(String::new()),
            },
        }
    }

    /// Sets a variable of the session, in the agent too. `lock_error` says why the session
    /// cannot be worked on, `save_error` why it could not be saved afterwards.
    pub fn set_variable(
        &mut self,
        name: &str,
        value: &str,
        lock_error: Option<String>,
        save_error: Option<String>,
    ) -> (r: Result<(), VariableError>)
        ensures
            old(self).well_formed() ==> final(self).well_formed(),
            match (old(self).session, lock_error, old(self).agent) {
                (None, _, _) => r == Err::<(), VariableError>(VariableError::NoSession)
                    && *final(self) == *old(self),
                (Some(_), Some(e), _) => r == Err::<(), VariableError>(VariableError::Locked(e))
                    && *final(self) == *old(self),
                (Some(_), None, None) => r == Err::<(), VariableError>(VariableError::NoAgent)
                    && *final(self) == *old(self),
                (Some(s), None, Some(a)) => {
                    &&& r == match save_error {
                        Some(e) => Err::<(), VariableError>(VariableError::NotSaved(e)),
                        None => Ok(()),
                    }
                    &&& final(self).session matches Some(t)
                    &&& final(self).agent matches Some(b)
                    &&& variables_view(t.agent_variables@) == with_variable(
                        variables_view(s.agent_variables@),
                        name@,
                        value@,
                    )
                    &&& variables_view(b.variables@) == variables_view(t.agent_variables@)
                    &&& opt_text(t.agent_name) == Some(a.name@)
                    &&& t == (Session {
                        agent_name: t.agent_name,
                        agent_variables: t.agent_variables,
                        ..s
                    })
                    &&& b == (Agent { variables: b.variables, ..a })
                    &&& *final(self) == (Config {
                        session: final(self).session,
                        agent: final(self).agent,
                        ..*old(self)
                    })
                },
            },
    {
        if self.session.is_none() {
            return Err(VariableError::NoSession);
        }
        match lock_error {
            Some(e) => {
                return Err(VariableError::Locked(e));
            },
            None => {},
        }
        match (&mut self.agent, &mut self.session) {
            (Some(agent), Some(session)) => {
                let mut variables = copy_variables(session.agent_variables.as_slice());
                proof {
                    law_names_stay_distinct(
                        variables_view(session.agent_variables@),
                        name@,
                        value@,
                    );
                }
                put_variable(&mut variables, name, value);
                agent.variables = variables;
                session.sync_agent(agent);
            },
            _ => {
                return Err(VariableError::NoAgent);
            },
        }
        match save_error {
            Some(e) => Err(VariableError::NotSaved(e)),
            None => Ok(()),
        }
    }
}

/// A variable that was set is read back, and no other has changed.
pub proof fn law_variable_is_read_back(
    v: Seq<(Seq<char>, Seq<char>)>,
    name: Seq<char>,
    value: Seq<char>,
    other: Seq<char>,
)
    requires
        name != other,
    ensures
        place_of(with_variable(v, name, value), name) matches Some(i) && with_variable(
            v,
            name,
            value,
        )[i].1 == value,
        place_of(with_variable(v, name, value), other) == place_of(v, other),
        place_of(v, other) matches Some(i) ==> with_variable(v, name, value)[i] == v[i],
{
    let w = with_variable(v, name, value);
    place_bounds(v, name);
    place_bounds(v, other);
    match place_of(v, name) {
        Some(i) => {
            same_names(v, w, name);
            same_names(v, w, other);
        },
        None => {
            assert(w.drop_last() =~= v);
        },
    }
}

/// Setting a variable leaves no name twice.
pub proof fn law_names_stay_distinct(
    v: Seq<(Seq<char>, Seq<char>)>,
    name: Seq<char>,
    value: Seq<char>,
)
    ensures
        distinct(v) ==> distinct(with_variable(v, name, value)),
{
    place_bounds(v, name);
    if place_of(v, name) is None {
        absent(v, name);
    }
}

/// A variable that has no place stands nowhere.
proof fn absent(v: Seq<(Seq<char>, Seq<char>)>, name: Seq<char>)
    requires
        place_of(v, name) is None,
    ensures
        forall|i: int| 0 <= i < v.len() ==> (#[trigger] v[i]).0 != name,
    decreases v.len(),
{
    if v.len() > 0 {
        absent(v.drop_last(), name);
        assert forall|i: int| 0 <= i < v.len() implies (#[trigger] v[i]).0 != name by {
            if i < v.len() - 1 {
                assert(v.drop_last()[i] == v[i]);
            }
        }
    }
}

/// Where no name stands twice, a value is that of its name: to read a variable is to look it up.
pub proof fn law_value_is_unique(v: Seq<(Seq<char>, Seq<char>)>, i: int)
    requires
        distinct(v),
        0 <= i < v.len(),
    ensures
        place_of(v, v[i].0) == Some(i),
{
    place_bounds(v, v[i].0);
    match place_of(v, v[i].0) {
        Some(j) => {
            assert(v[j].0 == v[i].0);
        },
        None => {
            absent(v, v[i].0);
        },
    }
}

proof fn place_bounds(v: Seq<(Seq<char>, Seq<char>)>, name: Seq<char>)
    ensures
        place_of(v, name) matches Some(i) ==> 0 <= i < v.len() && v[i].0 == name,
    decreases v.len(),
{
    if v.len() > 0 {
        place_bounds(v.drop_last(), name);
    }
}

/// Where a variable stands depends on the names alone.
proof fn same_names(
    v: Seq<(Seq<char>, Seq<char>)>,
    w: Seq<(Seq<char>, Seq<char>)>,
    name: Seq<char>,
)
    requires
        v.len() == w.len(),
        forall|i: int| 0 <= i < v.len() ==> (#[trigger] v[i]).0 == w[i].0,
    ensures
        place_of(v, name) == place_of(w, name),
    decreases v.len(),
{
    if v.len() > 0 {
        same_names(v.drop_last(), w.drop_last(), name);
    }
}

/// A name leads to the first variable that has it, and to none exactly where none does.
#[verifier::spinoff_prover]
#[verifier::rlimit(40)]
pub proof fn law_variable_stands_first(v: Seq<(Seq<char>, Seq<char>)>, name: Seq<char>)
    ensures
        forall|i: int|
            0 <= i < v.len() && (#[trigger] v[i]).0 == name && (forall|j: int|
                0 <= j < i ==> (#[trigger] v[j]).0 != name) ==> place_of(v, name) == Some(i),
        place_of(v, name) is None <==> forall|i: int|
            0 <= i < v.len() ==> (#[trigger] v[i]).0 != name,
    decreases v.len(),
{
    if v.len() > 0 {
        let t = v.drop_last();
        let last = v.len() - 1;
        law_variable_stands_first(t, name);
        assert(v[last] == v.last());
        assert forall|i: int| 0 <= i < t.len() implies #[trigger] v[i] == t[i] by {}
        place_bounds(t, name);
        if let Some(k) = place_of(t, name) {
            assert(v[k].0 == name);
            assert forall|i: int|
                0 <= i < v.len() && (#[trigger] v[i]).0 == name && (forall|j: int|
                    0 <= j < i ==> (#[trigger] v[j]).0 != name) implies place_of(v, name) == Some(
                i,
            ) by {
                if i == last {
                    assert(v[k].0 != name);
                }
                assert(t[i] == v[i]);
                assert forall|j: int| 0 <= j < i implies (#[trigger] t[j]).0 != name by {
                    assert(v[j] == t[j]);
                }
            }
        } else {
            assert forall|i: int| 0 <= i < t.len() implies (#[trigger] v[i]).0 != name by {
                assert(t[i] == v[i]);
            }
        }
    }
}

/// A variable that is set again keeps its place, and a new one goes behind the others; all others
/// stay as they are.
pub proof fn law_variable_keeps_its_place(
    v: Seq<(Seq<char>, Seq<char>)>,
    name: Seq<char>,
    value: Seq<char>,
)
    ensures
        ({
            let w = with_variable(v, name, value);
            &&& place_of(v, name) is None ==> w == v.push((name, value))
            &&& place_of(v, name) matches Some(i) ==> w.len() == v.len() && w[i] == (name, value)
                && forall|j: int| 0 <= j < v.len() && j != i ==> #[trigger] w[j] == v[j]
        }),
{
    place_bounds(v, name);
}

/// Of several values for a name the last one is gathered, and nothing is gathered that was not
/// there.
#[verifier::spinoff_prover]
#[verifier::rlimit(40)]
pub proof fn law_last_value_is_gathered(v: Seq<(Seq<char>, Seq<char>)>, name: Seq<char>)
    ensures
        place_of(gathered(v), name) is None <==> forall|i: int|
            0 <= i < v.len() ==> (#[trigger] v[i]).0 != name,
        forall|i: int|
            0 <= i < v.len() && (#[trigger] v[i]).0 == name && (forall|j: int|
                i < j < v.len() ==> (#[trigger] v[j]).0 != name) ==> (place_of(
                gathered(v),
                name,
            ) matches Some(k) && 0 <= k < gathered(v).len() && gathered(v)[k] == (name, v[i].1)),
        distinct(gathered(v)),
    decreases v.len(),
{
    if v.len() > 0 {
        let t = v.drop_last();
        let last = v.len() - 1;
        let x = v.last();
        law_last_value_is_gathered(t, name);
        law_names_stay_distinct(gathered(t), x.0, x.1);
        assert(v[last] == x);
        assert forall|i: int| 0 <= i < t.len() implies #[trigger] v[i] == t[i] by {}
        let g = gathered(v);
        place_bounds(g, name);
        place_bounds(gathered(t), name);
        place_bounds(gathered(t), x.0);
        if x.0 == name {
            let other = name.push('x');
            assert(other.len() != name.len());
            law_variable_is_read_back(gathered(t), x.0, x.1, other);
            assert forall|i: int|
                0 <= i < v.len() && (#[trigger] v[i]).0 == name && (forall|j: int|
                    i < j < v.len() ==> (#[trigger] v[j]).0 != name) implies (place_of(
                g,
                name,
            ) matches Some(k) && 0 <= k < g.len() && g[k] == (name, v[i].1)) by {
                if i < last {
                    assert(v[last].0 != name);
                }
            }
        } else {
            law_variable_is_read_back(gathered(t), x.0, x.1, name);
            assert forall|i: int|
                0 <= i < v.len() && (#[trigger] v[i]).0 == name && (forall|j: int|
                    i < j < v.len() ==> (#[trigger] v[j]).0 != name) implies (place_of(
                g,
                name,
            ) matches Some(k) && 0 <= k < g.len() && g[k] == (name, v[i].1)) by {
                assert(i < last);
                assert(t[i] == v[i]);
                assert forall|j: int| i < j < t.len() implies (#[trigger] t[j]).0 != name by {
                    assert(v[j] == t[j]);
                }
            }
            if place_of(gathered(t), name) is None {
                assert forall|i: int| 0 <= i < v.len() implies (#[trigger] v[i]).0 != name by {
                    if i < last {
                        assert(t[i] == v[i]);
                    }
                }
            } else {
                let k = choose|k: int| 0 <= k < t.len() && (#[trigger] t[k]).0 == name;
                assert(v[k].0 == name);
            }
        }
    }
}

/// A text that is too long is cut in the middle: both ends of it stay, around one mark, and as
/// many characters as are allowed.
pub proof fn law_long_text_keeps_both_ends(text: Seq<char>, max: nat)
    ensures
        text.len() <= max ==> middle_cut(text, max) == text,
        text.len() > max ==> {
            let cut = middle_cut(text, max);
            let head = (max / 2) as int;
            &&& cut.len() == max + 1
            &&& cut.take(head) == text.take(head)
            &&& cut.subrange(head, head + 1) == "…"@
            &&& cut.skip(head + 1) == text.skip(text.len() - (max - head))
        },
{
    reveal_strlit("…");
    if text.len() > max {
        let cut = middle_cut(text, max);
        let head = (max / 2) as int;
        assert(cut.take(head) =~= text.take(head));
        assert(cut.subrange(head, head + 1) =~= "…"@);
        assert(cut.skip(head + 1) =~= text.skip(text.len() - (max - head)));
    }
}

/// Variables are listed one a line, each with its name and its value, cut where it is long.
pub proof fn law_variables_are_listed_by_name_and_value(v: Seq<(Seq<char>, Seq<char>)>)
    ensures
        variable_lines(v).len() == v.len(),
        forall|i: int|
            0 <= i < v.len() ==> #[trigger] variable_lines(v)[i] == v[i].0 + " = "@ + middle_cut(
                v[i].1,
                200,
            ),
{
}

} // verus!
