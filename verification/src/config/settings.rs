//! Settings: how a command names one, and where its value goes.
use crate::config::session::{Agent, Model, Session};
use crate::config::tools::{
    names_of, said, selectors_in, split_tool_selectors, trimmed_parts,
};
use crate::config::{Config, Rag};
use crate::events::{event_view, AgentEvent, EventView, SessionEvent};
use crate::text::{
    chars_of, front_of, is_white, opt_text, parse_signed, parse_unsigned, pieces, signed_value,
    split, split_words, starts_with, string_of, strip_prefix, texts, trim, trim_front, trimmed,
    unsigned_up_to, unsigned_value, words, CharSet,
};
use vstd::prelude::*;
use vstd::string::*;

verus! {

/// A setting with its value.
#[derive(Debug)]
pub enum Setting {
    Temperature(Option<String>),
    TopP(Option<String>),
    UseTools(Option<Vec<String>>),
    ModelFallbacks(Vec<String>),
    CompactionAgent(Option<String>),
    MaxOutputTokens(Option<isize>),
    CompressThreshold(Option<usize>),
    RagRerankerModel(Option<String>),
    RagTopK(usize),
    DryRun(bool),
    ShowSequenceNumbers(bool),
    ShowTimestamps(bool),
    ToolUse(bool),
    Stream(bool),
    Save(bool),
    Highlight(bool),
    Title(String),
}

/// What a setting says.
pub enum SettingView {
    Temperature(Option<Seq<char>>),
    TopP(Option<Seq<char>>),
    UseTools(Option<Seq<Seq<char>>>),
    ModelFallbacks(Seq<Seq<char>>),
    CompactionAgent(Option<Seq<char>>),
    MaxOutputTokens(Option<isize>),
    CompressThreshold(Option<usize>),
    RagRerankerModel(Option<Seq<char>>),
    RagTopK(usize),
    DryRun(bool),
    ShowSequenceNumbers(bool),
    ShowTimestamps(bool),
    ToolUse(bool),
    Stream(bool),
    Save(bool),
    Highlight(bool),
    Title(Seq<char>),
}

pub open spec fn opt_texts(v: Option<Vec<String>>) -> Option<Seq<Seq<char>>> {
    match v {
        Some(v) => Some(texts(v@)),
        None => None,
    }
}

impl Setting {
    pub open spec fn view(&self) -> SettingView {
        match *self {
            Setting::Temperature(v) => SettingView::Temperature(opt_text(v)),
            Setting::TopP(v) => SettingView::TopP(opt_text(v)),
            Setting::UseTools(v) => SettingView::UseTools(opt_texts(v)),
            Setting::ModelFallbacks(v) => SettingView::ModelFallbacks(texts(v@)),
            Setting::CompactionAgent(v) => SettingView::CompactionAgent(opt_text(v)),
            Setting::MaxOutputTokens(v) => SettingView::MaxOutputTokens(v),
            Setting::CompressThreshold(v) => SettingView::CompressThreshold(v),
            Setting::RagRerankerModel(v) => SettingView::RagRerankerModel(opt_text(v)),
            Setting::RagTopK(v) => SettingView::RagTopK(v),
            Setting::DryRun(v) => SettingView::DryRun(v),
            Setting::ShowSequenceNumbers(v) => SettingView::ShowSequenceNumbers(v),
            Setting::ShowTimestamps(v) => SettingView::ShowTimestamps(v),
            Setting::ToolUse(v) => SettingView::ToolUse(v),
            Setting::Stream(v) => SettingView::Stream(v),
            Setting::Save(v) => SettingView::Save(v),
            Setting::Highlight(v) => SettingView::Highlight(v),
            Setting::Title(v) => SettingView::Title(v@),
        }
    }

    /// Whether a session keeps the setting for later turns, so that it is written down before it
    /// takes effect.
    pub open spec fn overrides(&self) -> bool {
        self is Temperature || self is TopP || self is UseTools || self is ModelFallbacks
            || self is CompactionAgent || self is MaxOutputTokens || self is CompressThreshold
    }

    pub fn is_override(&self) -> (r: bool)
        ensures
            r == self.overrides(),
    {
        match self {
            Setting::Temperature(_) | Setting::TopP(_) | Setting::UseTools(_)
            | Setting::ModelFallbacks(_) | Setting::CompactionAgent(_)
            | Setting::MaxOutputTokens(_) | Setting::CompressThreshold(_) => true,
            _ => false,
        }
    }
}

/// Why a setting was not changed.
#[derive(Debug, PartialEq, Eq)]
pub enum SettingError {
    /// There must be a key and a value.
    Usage,
    UnknownKey(String),
    InvalidValue,
    /// A title must say something.
    TitleUsage,
    /// There is no session to give a title.
    NoSessionForTitle,
    /// The title could not be written down.
    TitleNotPersisted(String),
    /// There are no tools to use.
    NoTools,
    /// The setting could not be written down.
    NotPersisted(String),
    /// There is no such model.
    UnknownModel(String),
    /// The documents could not be changed.
    RagNotUpdated(String),
}

/// What an error says.
pub open spec fn setting_error_text(e: SettingError) -> Seq<char> {
    match e {
        SettingError::Usage => "Usage: .set <key> <value>. If value is null, unset key."@,
        SettingError::UnknownKey(key) => "Unknown key '"@ + key@ + "'"@,
        SettingError::InvalidValue => "Invalid value"@,
        SettingError::TitleUsage => "Usage: .set title <text>"@,
        SettingError::NoSessionForTitle => "No active session to set a title on"@,
        SettingError::TitleNotPersisted(e) => "failed to durably persist session title: "@ + e@,
        SettingError::NoTools => "Tool use cannot be enabled because no tools are installed."@,
        SettingError::NotPersisted(e) => e@,
        SettingError::UnknownModel(e) => e@,
        SettingError::RagNotUpdated(e) => e@,
    }
}

impl SettingError {
    pub fn message(&self) -> (r: String)
        ensures
            r@ == setting_error_text(*self),
            r@ == match *self {
                SettingError::Usage => "Usage: .set <key> <value>. If value is null, unset key."@,
                SettingError::UnknownKey(key) => "Unknown key '"@ + key@ + "'"@,
                SettingError::InvalidValue => "Invalid value"@,
                SettingError::TitleUsage => "Usage: .set title <text>"@,
                SettingError::NoSessionForTitle => "No active session to set a title on"@,
                SettingError::TitleNotPersisted(e) => "failed to durably persist session title: "@ + e@,
                SettingError::NoTools => "Tool use cannot be enabled because no tools are installed."@,
                SettingError::NotPersisted(e) => e@,
                SettingError::UnknownModel(e) => e@,
                SettingError::RagNotUpdated(e) => e@,
            },
    {
        match self {
            SettingError::Usage => String::from_str(
                "Usage: .set <key> <value>. If value is null, unset key.",
            ),
            SettingError::UnknownKey(key) => {
                let mut r = String::from_str("Unknown key '");
                r.append(key.as_str());
                r.append("'");
                r
            },
            SettingError::InvalidValue => String::from_str("Invalid value"),
            SettingError::TitleUsage => String::from_str("Usage: .set title <text>"),
            SettingError::NoSessionForTitle => String::from_str(
                "No active session to set a title on",
            ),
            SettingError::TitleNotPersisted(e) => {
                let mut r = String::from_str("failed to durably persist session title: ");
                r.append(e.as_str());
                r
            },
            SettingError::NoTools => String::from_str(
                "Tool use cannot be enabled because no tools are installed.",
            ),
            SettingError::NotPersisted(e) => e.clone(),
            SettingError::UnknownModel(e) => e.clone(),
            SettingError::RagNotUpdated(e) => e.clone(),
        }
    }
}

/// Why a command names no setting.
pub enum ParseErrorView {
    Usage,
    UnknownKey(Seq<char>),
    InvalidValue,
    TitleUsage,
}

pub open spec fn bool_value(s: Seq<char>) -> Option<bool> {
    if s == "true"@ {
        Some(true)
    } else if s == "false"@ {
        Some(false)
    } else {
        None
    }
}

pub fn parse_bool(s: &str) -> (r: Option<bool>)
    ensures
        r == bool_value(s@),
{
    if *s == *"true" {
        Some(true)
    } else if *s == *"false" {
        Some(false)
    } else {
        None
    }
}

pub open spec fn usize_value(s: Seq<char>) -> Option<usize> {
    match unsigned_up_to(s, usize::MAX as nat) {
        Some(n) => Some(n as usize),
        None => None,
    }
}

pub fn parse_usize(s: &str) -> (r: Option<usize>)
    ensures
        r == usize_value(s@),
{
    match parse_unsigned(s, usize::MAX as u64) {
        Some(n) => Some(n as usize),
        None => None,
    }
}

pub open spec fn isize_value(s: Seq<char>) -> Option<isize> {
    match signed_value(s) {
        Some(n) => if isize::MIN <= n <= isize::MAX {
            Some(n as isize)
        } else {
            None
        },
        None => None,
    }
}

pub fn parse_isize(s: &str) -> (r: Option<isize>)
    ensures
        r == isize_value(s@),
{
    match parse_signed(s) {
        Some(n) => if isize::MIN as i64 <= n && n <= isize::MAX as i64 {
            Some(n as isize)
        } else {
            None
        },
        None => None,
    }
}

/// The value of a setting that can be taken back: `null` takes it back, anything else must be a
/// value.
pub open spec fn optional<T>(value: Seq<char>, parsed: Option<T>) -> Option<Option<T>> {
    if value == "null"@ {
        Some(None)
    } else {
        match parsed {
            Some(v) => Some(Some(v)),
            None => None,
        }
    }
}

/// The value of a setting that can be taken back.
pub fn parse_value<T>(value: &str, parsed: Option<T>) -> (r: Option<Option<T>>)
    ensures
        r == optional(value@, parsed),
{
    if *value == *"null" {
        Some(None)
    } else {
        match parsed {
            Some(v) => Some(Some(v)),
            None => None,
        }
    }
}

pub open spec fn wrapped(v: Option<SettingView>) -> Result<SettingView, ParseErrorView> {
    match v {
        Some(v) => Ok(v),
        None => Err(ParseErrorView::InvalidValue),
    }
}

/// The setting that a key and a value stand for. Whether the value is a number with a fraction is
/// told by the caller.
pub open spec fn setting_for(key: Seq<char>, value: Seq<char>, is_number: bool) -> Result<
    SettingView,
    ParseErrorView,
> {
    let text = if value == "null"@ {
        None
    } else {
        Some(value)
    };
    let number_ok = value == "null"@ || is_number;
    if key == "temperature"@ {
        if number_ok {
            Ok(SettingView::Temperature(text))
        } else {
            Err(ParseErrorView::InvalidValue)
        }
    } else if key == "top_p"@ {
        if number_ok {
            Ok(SettingView::TopP(text))
        } else {
            Err(ParseErrorView::InvalidValue)
        }
    } else if key == "use_tools"@ {
        Ok(
            SettingView::UseTools(
                if value == "null"@ {
                    None
                } else {
                    Some(said(selectors_in(value)))
                },
            ),
        )
    } else if key == "model_fallbacks"@ {
        Ok(
            SettingView::ModelFallbacks(
                if value == "null"@ {
                    Seq::empty()
                } else {
                    said(pieces(value, CharSet::Only(',')))
                },
            ),
        )
    } else if key == "compaction_agent"@ {
        Ok(SettingView::CompactionAgent(text))
    } else if key == "max_output_tokens"@ {
        match optional(value, isize_value(value)) {
            Some(v) => Ok(SettingView::MaxOutputTokens(v)),
            None => Err(ParseErrorView::InvalidValue),
        }
    } else if key == "compress_threshold"@ {
        match optional(value, usize_value(value)) {
            Some(v) => Ok(SettingView::CompressThreshold(v)),
            None => Err(ParseErrorView::InvalidValue),
        }
    } else if key == "rag_reranker_model"@ {
        Ok(SettingView::RagRerankerModel(text))
    } else if key == "rag_top_k"@ {
        match usize_value(value) {
            Some(v) => Ok(SettingView::RagTopK(v)),
            None => Err(ParseErrorView::InvalidValue),
        }
    } else if key == "title"@ {
        if trimmed(value).len() == 0 {
            Err(ParseErrorView::TitleUsage)
        } else {
            Ok(SettingView::Title(trimmed(value)))
        }
    } else {
        switch_for(key, value)
    }
}

/// The setting that a key stands for whose value is on or off.
pub open spec fn switch_for(key: Seq<char>, value: Seq<char>) -> Result<
    SettingView,
    ParseErrorView,
> {
    let known = key == "dry_run"@ || key == "show_sequence_numbers"@ || key == "show_timestamps"@
        || key == "tool_use"@ || key == "stream"@ || key == "save"@ || key == "highlight"@;
    if !known {
        Err(ParseErrorView::UnknownKey(key))
    } else {
        match bool_value(value) {
            None => Err(ParseErrorView::InvalidValue),
            Some(on) => Ok(
                if key == "dry_run"@ {
                    SettingView::DryRun(on)
                } else if key == "show_sequence_numbers"@ {
                    SettingView::ShowSequenceNumbers(on)
                } else if key == "show_timestamps"@ {
                    SettingView::ShowTimestamps(on)
                } else if key == "tool_use"@ {
                    SettingView::ToolUse(on)
                } else if key == "stream"@ {
                    SettingView::Stream(on)
                } else if key == "save"@ {
                    SettingView::Save(on)
                } else {
                    SettingView::Highlight(on)
                },
            ),
        }
    }
}

/// What a result of parsing says.
pub open spec fn parse_view(r: Result<Setting, SettingError>) -> Result<
    SettingView,
    ParseErrorView,
> {
    match r {
        Ok(s) => Ok(s@),
        Err(SettingError::UnknownKey(key)) => Err(ParseErrorView::UnknownKey(key@)),
        Err(SettingError::Usage) => Err(ParseErrorView::Usage),
        Err(SettingError::TitleUsage) => Err(ParseErrorView::TitleUsage),
        Err(_) => Err(ParseErrorView::InvalidValue),
    }
}

/// An error of parsing is one of four.
pub open spec fn is_parse_error(e: SettingError) -> bool {
    e is Usage || e is UnknownKey || e is InvalidValue || e is TitleUsage
}

fn parse_switch(key: &str, value: &str) -> (r: Result<Setting, SettingError>)
    ensures
        parse_view(r) == switch_for(key@, value@),
        r matches Err(e) ==> is_parse_error(e),
{
    let known = *key == *"dry_run" || *key == *"show_sequence_numbers" || *key
        == *"show_timestamps" || *key == *"tool_use" || *key == *"stream" || *key == *"save"
        || *key == *"highlight";
    if !known {
        return Err(SettingError::UnknownKey(String::from_str(key)));
    }
    let on: bool = match parse_bool(value) {
        Some(on) => on,
        None => {
            return Err(SettingError::InvalidValue);
        },
    };
    if *key == *"dry_run" {
        Ok(Setting::DryRun(on))
    } else if *key == *"show_sequence_numbers" {
        Ok(Setting::ShowSequenceNumbers(on))
    } else if *key == *"show_timestamps" {
        Ok(Setting::ShowTimestamps(on))
    } else if *key == *"tool_use" {
        Ok(Setting::ToolUse(on))
    } else if *key == *"stream" {
        Ok(Setting::Stream(on))
    } else if *key == *"save" {
        Ok(Setting::Save(on))
    } else {
        Ok(Setting::Highlight(on))
    }
}

/// The setting that a key and a value stand for.
pub fn parse_setting(key: &str, value: &str, is_number: bool) -> (r: Result<Setting, SettingError>)
    ensures
        parse_view(r) == setting_for(key@, value@, is_number),
        r matches Err(e) ==> is_parse_error(e),
{
    let null: bool = *value == *"null";
    let text: Option<String> = if null {
        None
    } else {
        Some(String::from_str(value))
    };
    if *key == *"temperature" {
        if null || is_number {
            Ok(Setting::Temperature(text))
        } else {
            Err(SettingError::InvalidValue)
        }
    } else if *key == *"top_p" {
        if null || is_number {
            Ok(Setting::TopP(text))
        } else {
            Err(SettingError::InvalidValue)
        }
    } else if *key == *"use_tools" {
        if null {
            Ok(Setting::UseTools(None))
        } else {
            Ok(Setting::UseTools(Some(trimmed_parts(split_tool_selectors(value).as_slice()))))
        }
    } else if *key == *"model_fallbacks" {
        if null {
            let none: Vec<String> = Vec::new();
            assert(texts(none@) =~= Seq::<Seq<char>>::empty());
            Ok(Setting::ModelFallbacks(none))
        } else {
            Ok(
                Setting::ModelFallbacks(
                    trimmed_parts(split(value, CharSet::Only(',')).as_slice()),
                ),
            )
        }
    } else if *key == *"compaction_agent" {
        Ok(Setting::CompactionAgent(text))
    } else if *key == *"max_output_tokens" {
        match parse_value(value, parse_isize(value)) {
            Some(v) => Ok(Setting::MaxOutputTokens(v)),
            None => Err(SettingError::InvalidValue),
        }
    } else if *key == *"compress_threshold" {
        match parse_value(value, parse_usize(value)) {
            Some(v) => Ok(Setting::CompressThreshold(v)),
            None => Err(SettingError::InvalidValue),
        }
    } else if *key == *"rag_reranker_model" {
        Ok(Setting::RagRerankerModel(text))
    } else if *key == *"rag_top_k" {
        match parse_usize(value) {
            Some(v) => Ok(Setting::RagTopK(v)),
            None => Err(SettingError::InvalidValue),
        }
    } else if *key == *"title" {
        let title = trim(value);
        if title.as_str().is_empty() {
            Err(SettingError::TitleUsage)
        } else {
            Ok(Setting::Title(title))
        }
    } else {
        parse_switch(key, value)
    }
}

/// What follows the word `title` at the start of a command, if the command starts with it.
pub open spec fn title_command(data: Seq<char>) -> Option<Seq<char>> {
    let d = trim_front(data, CharSet::White);
    if starts_with(d, "title"@) {
        let rest = d.subrange("title"@.len() as int, d.len() as int);
        if rest.len() == 0 || is_white(rest[0]) {
            Some(rest)
        } else {
            None
        }
    } else {
        None
    }
}

/// The setting that a command names. A title is everything after its key; any other setting has
/// a value of one word.
pub open spec fn command_setting(data: Seq<char>, is_number: bool) -> Result<
    SettingView,
    ParseErrorView,
> {
    match title_command(data) {
        Some(rest) => setting_for("title"@, trimmed(rest), is_number),
        None => {
            let parts = words(data);
            if parts.len() != 2 {
                Err(ParseErrorView::Usage)
            } else {
                setting_for(parts[0], parts[1], is_number)
            }
        },
    }
}

fn parse_title_command(data: &str) -> (r: Option<String>)
    ensures
        opt_text(r) == title_command(data@),
{
    let v = chars_of(data);
    let i: usize = front_of(v.as_slice(), CharSet::White);
    let d = string_of(v.as_slice(), i, v.len());
    match strip_prefix(d.as_str(), "title") {
        Some(rest) => {
            let w = chars_of(rest.as_str());
            if w.len() == 0 || CharSet::White.has(w[0]) {
                Some(rest)
            } else {
                None
            }
        },
        None => None,
    }
}

/// The setting that a command names.
pub fn parse_command(data: &str, is_number: bool) -> (r: Result<Setting, SettingError>)
    ensures
        parse_view(r) == command_setting(data@, is_number),
        r matches Err(e) ==> is_parse_error(e),
{
    match parse_title_command(data) {
        Some(rest) => parse_setting("title", trim(rest.as_str()).as_str(), is_number),
        None => {
            let parts = split_words(data);
            assert(texts(parts@).len() == parts@.len());
            if parts.len() != 2 {
                return Err(SettingError::Usage);
            }
            assert(texts(parts@)[0] == parts@[0]@ && texts(parts@)[1] == parts@[1]@);
            parse_setting(parts[0].as_str(), parts[1].as_str(), is_number)
        },
    }
}

/// What the world around a command answers.
#[derive(Debug)]
pub struct UpdateOutside {
    /// Why the setting could not be written down for the session.
    pub persist_error: Option<String>,
    /// Why a model that the setting names is none.
    pub model_error: Option<String>,
    /// Why the documents could not be changed.
    pub rag_error: Option<String>,
}

impl Config {
    /// The session, or else the agent, or else the whole program takes the value.
    pub fn set_temperature(&mut self, value: Option<String>)
        ensures
            *final(self) == match old(self).session {
                Some(s) => old(self).with_session(Some(Session { temperature: value, ..s })),
                None => match old(self).agent {
                    Some(a) => old(self).with_agent(Some(Agent { temperature: value, ..a })),
                    None => Config { temperature: value, ..*old(self) },
                },
            },
    {
        match &mut self.session {
            Some(session) => {
                session.temperature = value;
            },
            None => match &mut self.agent {
                Some(agent) => {
                    agent.temperature = value;
                },
                None => {
                    self.temperature = value;
                },
            },
        }
    }

    /// The session, or else the agent, or else the whole program takes the value.
    pub fn set_top_p(&mut self, value: Option<String>)
        ensures
            *final(self) == match old(self).session {
                Some(s) => old(self).with_session(Some(Session { top_p: value, ..s })),
                None => match old(self).agent {
                    Some(a) => old(self).with_agent(Some(Agent { top_p: value, ..a })),
                    None => Config { top_p: value, ..*old(self) },
                },
            },
    {
        match &mut self.session {
            Some(session) => {
                session.top_p = value;
            },
            None => match &mut self.agent {
                Some(agent) => {
                    agent.top_p = value;
                },
                None => {
                    self.top_p = value;
                },
            },
        }
    }

    /// The session, or else the agent, or else the whole program takes the value.
    pub fn set_use_tools(&mut self, value: Option<Vec<String>>)
        ensures
            *final(self) == match old(self).session {
                Some(s) => old(self).with_session(Some(Session { use_tools: value, ..s })),
                None => match old(self).agent {
                    Some(a) => old(self).with_agent(Some(Agent { use_tools: value, ..a })),
                    None => Config { use_tools: value, ..*old(self) },
                },
            },
    {
        match &mut self.session {
            Some(session) => {
                session.use_tools = value;
            },
            None => match &mut self.agent {
                Some(agent) => {
                    agent.use_tools = value;
                },
                None => {
                    self.use_tools = value;
                },
            },
        }
    }

    /// The session, or else the agent takes the value.
    pub fn set_model_fallbacks(&mut self, value: Vec<String>)
        ensures
            *final(self) == match old(self).session {
                Some(s) => old(self).with_session(Some(Session { model_fallbacks: value, ..s })),
                None => match old(self).agent {
                    Some(a) => old(self).with_agent(Some(Agent { model_fallbacks: value, ..a })),
                    None => *old(self),
                },
            },
    {
        match &mut self.session {
            Some(session) => {
                session.model_fallbacks = value;
            },
            None => match &mut self.agent {
                Some(agent) => {
                    agent.model_fallbacks = value;
                },
                None => {},
            },
        }
    }

    /// The session, or else the agent takes the value.
    pub fn set_compaction_agent(&mut self, value: Option<String>)
        ensures
            *final(self) == match old(self).session {
                Some(s) => old(self).with_session(Some(Session { compaction_agent: value, ..s })),
                None => match old(self).agent {
                    Some(a) => old(self).with_agent(Some(Agent { compaction_agent: value, ..a })),
                    None => *old(self),
                },
            },
    {
        match &mut self.session {
            Some(session) => {
                session.compaction_agent = value;
            },
            None => match &mut self.agent {
                Some(agent) => {
                    agent.compaction_agent = value;
                },
                None => {},
            },
        }
    }

    /// The session, or else the whole program takes the value.
    pub fn set_compress_threshold(&mut self, value: Option<usize>)
        ensures
            *final(self) == match old(self).session {
                Some(s) => old(self).with_session(Some(Session { compress_threshold: value, ..s })),
                None => Config {
                    compress_threshold: match value {
                        Some(v) => v,
                        None => 0,
                    },
                    ..*old(self)
                },
            },
    {
        match &mut self.session {
            Some(session) => {
                session.compress_threshold = value;
            },
            None => {
                self.compress_threshold = match value {
                    Some(v) => v,
                    None => 0,
                };
            },
        }
    }

    /// The documents, or where there are none the whole program, take the value. A model that
    /// cannot be found, or documents that cannot be changed, leave everything as it is.
    pub fn set_rag_reranker_model(
        &mut self,
        value: Option<String>,
        outside: &UpdateOutside,
    ) -> (r: Result<(), SettingError>)
        ensures
            match (value, outside.model_error) {
                (Some(_), Some(e)) => r == Err::<(), SettingError>(SettingError::UnknownModel(e))
                    && *final(self) == *old(self),
                _ => match (old(self).rag, outside.rag_error) {
                    (Some(_), Some(e)) => r == Err::<(), SettingError>(
                        SettingError::RagNotUpdated(e),
                    ) && *final(self) == *old(self),
                    (Some(rag), None) => r is Ok && *final(self) == (Config {
                        rag: Some(Rag { reranker_model: value, ..rag }),
                        ..*old(self)
                    }),
                    (None, _) => r is Ok && *final(self) == (Config {
                        rag_reranker_model: value,
                        ..*old(self)
                    }),
                },
            },
    {
        if value.is_some() {
            match &outside.model_error {
                Some(e) => {
                    return Err(SettingError::UnknownModel(e.clone()));
                },
                None => {},
            }
        }
        match &mut self.rag {
            Some(rag) => {
                match &outside.rag_error {
                    Some(e) => {
                        return Err(SettingError::RagNotUpdated(e.clone()));
                    },
                    None => {},
                }
                rag.reranker_model = value;
            },
            None => {
                self.rag_reranker_model = value;
            },
        }
        Ok(())
    }

    /// The documents, or where there are none the whole program, take the value.
    pub fn set_rag_top_k(&mut self, value: usize, outside: &UpdateOutside) -> (r: Result<
        (),
        SettingError,
    >)
        ensures
            match (old(self).rag, outside.rag_error) {
                (Some(_), Some(e)) => r == Err::<(), SettingError>(SettingError::RagNotUpdated(e))
                    && *final(self) == *old(self),
                (Some(rag), None) => r is Ok && *final(self) == (Config {
                    rag: Some(Rag { top_k: value, ..rag }),
                    ..*old(self)
                }),
                (None, _) => r is Ok && *final(self) == (Config { rag_top_k: value, ..*old(self) }),
            },
    {
        match &mut self.rag {
            Some(rag) => {
                match &outside.rag_error {
                    Some(e) => {
                        return Err(SettingError::RagNotUpdated(e.clone()));
                    },
                    None => {},
                }
                rag.top_k = value;
            },
            None => {
                self.rag_top_k = value;
            },
        }
        Ok(())
    }

    /// How lines are wrapped: not at all, as wide as the terminal, or at a column.
    pub fn set_wrap(&mut self, value: &str) -> (r: Result<(), String>)
        ensures
            if value@ == "no"@ {
                r is Ok && *final(self) == (Config { wrap: None, ..*old(self) })
            } else if value@ == "auto"@ || unsigned_up_to(value@, u16::MAX as nat) is Some {
                &&& r is Ok
                &&& opt_text(final(self).wrap) == Some(value@)
                &&& *final(self) == (Config { wrap: final(self).wrap, ..*old(self) })
            } else {
                &&& r matches Err(e)
                &&& e@ == "Invalid wrap value"@
                &&& *final(self) == *old(self)
            },
    {
        if *value == *"no" {
            self.wrap = None;
        } else if *value == *"auto" {
            self.wrap = Some(String::from_str(value));
        } else {
            match parse_unsigned(value, 0xffff) {
                Some(_) => {
                    self.wrap = Some(String::from_str(value));
                },
                None => {
                    return Err(String::from_str("Invalid wrap value"));
                },
            }
        }
        Ok(())
    }

    /// The model of the session, or else of the agent, or else of the whole program takes the
    /// limit.
    pub fn set_max_output_tokens(&mut self, value: Option<isize>)
        ensures
            *final(self) == match old(self).session {
                Some(s) => old(self).with_session(
                    Some(Session { model: s.model.limited(value, true), ..s }),
                ),
                None => match old(self).agent {
                    Some(a) => old(self).with_agent(
                        Some(Agent { model: a.model.limited(value, true), ..a }),
                    ),
                    None => Config { model: old(self).model.limited(value, true), ..*old(self) },
                },
            },
    {
        match &mut self.session {
            Some(session) => {
                session.model.set_max_tokens(value, true);
            },
            None => match &mut self.agent {
                Some(agent) => {
                    agent.model.set_max_tokens(value, true);
                },
                None => {
                    self.model.set_max_tokens(value, true);
                },
            },
        }
    }

    /// The session, or else the agent, or else the whole program takes the model that was found
    /// under a name. A session takes it only once it is written down.
    pub fn set_model(&mut self, found: Result<Model, String>, persist_error: Option<String>) -> (r:
        Result<(), SettingError>)
        ensures
            match found {
                Err(e) => r == Err::<(), SettingError>(SettingError::UnknownModel(e))
                    && *final(self) == *old(self),
                Ok(model) => match (old(self).session, persist_error) {
                    (Some(_), Some(e)) => r == Err::<(), SettingError>(
                        SettingError::NotPersisted(e),
                    ) && *final(self) == *old(self),
                    (Some(s), None) => r is Ok && *final(self) == old(self).with_session(
                        Some(Session { model, ..s }),
                    ),
                    (None, _) => r is Ok && *final(self) == match old(self).agent {
                        Some(a) => old(self).with_agent(Some(Agent { model, ..a })),
                        None => Config { model, ..*old(self) },
                    },
                },
            },
    {
        let model = match found {
            Ok(model) => model,
            Err(e) => {
                return Err(SettingError::UnknownModel(e));
            },
        };
        match &mut self.session {
            Some(session) => {
                match persist_error {
                    Some(e) => {
                        return Err(SettingError::NotPersisted(e));
                    },
                    None => {},
                }
                session.model = model;
            },
            None => match &mut self.agent {
                Some(agent) => {
                    agent.model = model;
                },
                None => {
                    self.model = model;
                },
            },
        }
        Ok(())
    }
}

/// Why a setting does not take effect, if it does not.
pub open spec fn refused(c: Config, s: Setting, outside: UpdateOutside) -> Option<SettingError> {
    match s {
        Setting::RagRerankerModel(value) => match (value, outside.model_error) {
            (Some(_), Some(e)) => Some(SettingError::UnknownModel(e)),
            _ => match (c.rag, outside.rag_error) {
                (Some(_), Some(e)) => Some(SettingError::RagNotUpdated(e)),
                _ => None,
            },
        },
        Setting::RagTopK(_) => match (c.rag, outside.rag_error) {
            (Some(_), Some(e)) => Some(SettingError::RagNotUpdated(e)),
            _ => None,
        },
        Setting::ToolUse(on) => if on && c.picked(said(selectors_in("*"@))).len() == 0 {
            Some(SettingError::NoTools)
        } else {
            None
        },
        Setting::Title(_) => match (c.session, outside.persist_error) {
            (None, _) => Some(SettingError::NoSessionForTitle),
            (Some(_), Some(e)) => Some(SettingError::TitleNotPersisted(e)),
            (Some(_), None) => None,
        },
        _ => match (s.overrides() && c.session is Some, outside.persist_error) {
            (true, Some(e)) => Some(SettingError::NotPersisted(e)),
            _ => None,
        },
    }
}

/// The state after a setting has taken effect: the session holds it, or else the agent, or else
/// the whole program.
pub open spec fn changed(c: Config, s: Setting) -> Config {
    match s {
        Setting::Temperature(value) => match (c.session, c.agent) {
            (Some(x), _) => c.with_session(Some(Session { temperature: value, ..x })),
            (None, Some(a)) => c.with_agent(Some(Agent { temperature: value, ..a })),
            (None, None) => Config { temperature: value, ..c },
        },
        Setting::TopP(value) => match (c.session, c.agent) {
            (Some(x), _) => c.with_session(Some(Session { top_p: value, ..x })),
            (None, Some(a)) => c.with_agent(Some(Agent { top_p: value, ..a })),
            (None, None) => Config { top_p: value, ..c },
        },
        Setting::UseTools(value) => match (c.session, c.agent) {
            (Some(x), _) => c.with_session(Some(Session { use_tools: value, ..x })),
            (None, Some(a)) => c.with_agent(Some(Agent { use_tools: value, ..a })),
            (None, None) => Config { use_tools: value, ..c },
        },
        Setting::ModelFallbacks(value) => match (c.session, c.agent) {
            (Some(x), _) => c.with_session(Some(Session { model_fallbacks: value, ..x })),
            (None, Some(a)) => c.with_agent(Some(Agent { model_fallbacks: value, ..a })),
            (None, None) => c,
        },
        Setting::CompactionAgent(value) => match (c.session, c.agent) {
            (Some(x), _) => c.with_session(Some(Session { compaction_agent: value, ..x })),
            (None, Some(a)) => c.with_agent(Some(Agent { compaction_agent: value, ..a })),
            (None, None) => c,
        },
        Setting::MaxOutputTokens(value) => match (c.session, c.agent) {
            (Some(x), _) => c.with_session(
                Some(Session { model: x.model.limited(value, true), ..x }),
            ),
            (None, Some(a)) => c.with_agent(
                Some(Agent { model: a.model.limited(value, true), ..a }),
            ),
            (None, None) => Config { model: c.model.limited(value, true), ..c },
        },
        Setting::CompressThreshold(value) => match c.session {
            Some(x) => c.with_session(Some(Session { compress_threshold: value, ..x })),
            None => Config {
                compress_threshold: match value {
                    Some(v) => v,
                    None => 0,
                },
                ..c
            },
        },
        Setting::RagRerankerModel(value) => match c.rag {
            Some(rag) => Config { rag: Some(Rag { reranker_model: value, ..rag }), ..c },
            None => Config { rag_reranker_model: value, ..c },
        },
        Setting::RagTopK(value) => match c.rag {
            Some(rag) => Config { rag: Some(Rag { top_k: value, ..rag }), ..c },
            None => Config { rag_top_k: value, ..c },
        },
        Setting::DryRun(on) => Config { dry_run: on, ..c },
        Setting::ShowSequenceNumbers(on) => Config { show_sequence_numbers: on, ..c },
        Setting::ShowTimestamps(on) => Config { show_timestamps: on, ..c },
        Setting::ToolUse(on) => Config { tool_use: on, ..c },
        Setting::Stream(on) => Config { stream: on, ..c },
        Setting::Save(on) => Config { save: on, ..c },
        Setting::Highlight(on) => Config { highlight: on, ..c },
        Setting::Title(title) => match c.session {
            Some(x) => c.with_session(Some(titled(x, title, usize::MAX))),
            None => c,
        },
    }
}

/// A session with another title, which it got at so many tokens.
pub open spec fn titled(session: Session, title: String, tokens: usize) -> Session {
    Session { title: Some(title), title_last_updated_tokens: tokens, ..session }
}

/// Gives a session a title, once it is written down. One that the user gave is never replaced by
/// another that a model made.
pub fn record_title(
    session: &mut Session,
    title: String,
    manual: bool,
    tokens: usize,
    persist_error: Option<String>,
) -> (r: Result<(), SettingError>)
    ensures
        match persist_error {
            Some(e) => r == Err::<(), SettingError>(SettingError::TitleNotPersisted(e))
                && *final(session) == *old(session),
            None => r is Ok && *final(session) == titled(
                *old(session),
                title,
                if manual {
                    usize::MAX
                } else {
                    tokens
                },
            ),
        },
{
    match persist_error {
        Some(e) => {
            return Err(SettingError::TitleNotPersisted(e));
        },
        None => {},
    }
    session.title = Some(title);
    session.title_last_updated_tokens = if manual {
        usize::MAX
    } else {
        tokens
    };
    Ok(())
}

/// What a frontend is told of a setting that has taken effect: a new title.
pub open spec fn is_update_event(s: Setting, event: Option<AgentEvent>) -> bool {
    match s {
        Setting::Title(title) => event matches Some(e) && event_view(e)
            == EventView::TitleUpdated(title@),
        _ => event is None,
    }
}

impl Config {
    fn set_session_title(&mut self, title: String, persist_error: Option<String>) -> (r: Result<
        AgentEvent,
        SettingError,
    >)
        ensures
            match (old(self).session, persist_error) {
                (None, _) => r == Err::<AgentEvent, SettingError>(
                    SettingError::NoSessionForTitle,
                ) && *final(self) == *old(self),
                (Some(_), Some(e)) => r == Err::<AgentEvent, SettingError>(
                    SettingError::TitleNotPersisted(e),
                ) && *final(self) == *old(self),
                (Some(x), None) => {
                    &&& r matches Ok(e)
                    &&& event_view(e) == EventView::TitleUpdated(title@)
                    &&& *final(self) == old(self).with_session(Some(titled(x, title, usize::MAX)))
                },
            },
    {
        match &mut self.session {
            Some(session) => {
                let shown = title.clone();
                let tokens: usize = session.tokens;
                match record_title(session, title, true, tokens, persist_error) {
                    Ok(_) => Ok(AgentEvent::Session(SessionEvent::TitleUpdated(shown))),
                    Err(e) => Err(e),
                }
            },
            None => Err(SettingError::NoSessionForTitle),
        }
    }

    /// Lets a setting take effect, unless something stands against it: then nothing changes.
    pub fn apply_update(&mut self, setting: Setting, outside: &UpdateOutside) -> (r: Result<
        Option<AgentEvent>,
        SettingError,
    >)
        ensures
            match refused(*old(self), setting, *outside) {
                Some(e) => r == Err::<Option<AgentEvent>, SettingError>(e) && *final(self) == *old(
                    self,
                ),
                None => {
                    &&& *final(self) == changed(*old(self), setting)
                    &&& r matches Ok(event)
                    &&& is_update_event(setting, event)
                },
            },
    {
        if setting.is_override() && self.session.is_some() {
            match &outside.persist_error {
                Some(e) => {
                    return Err(SettingError::NotPersisted(e.clone()));
                },
                None => {},
            }
        }
        match setting {
            Setting::Temperature(value) => self.set_temperature(value),
            Setting::TopP(value) => self.set_top_p(value),
            Setting::UseTools(value) => self.set_use_tools(value),
            Setting::ModelFallbacks(value) => self.set_model_fallbacks(value),
            Setting::CompactionAgent(value) => self.set_compaction_agent(value),
            Setting::MaxOutputTokens(value) => self.set_max_output_tokens(value),
            Setting::CompressThreshold(value) => self.set_compress_threshold(value),
            Setting::RagRerankerModel(value) => {
                match self.set_rag_reranker_model(value, outside) {
                    Ok(_) => {},
                    Err(e) => {
                        return Err(e);
                    },
                }
            },
            Setting::RagTopK(value) => {
                match self.set_rag_top_k(value, outside) {
                    Ok(_) => {},
                    Err(e) => {
                        return Err(e);
                    },
                }
            },
            Setting::DryRun(on) => self.dry_run = on,
            Setting::ShowSequenceNumbers(on) => self.show_sequence_numbers = on,
            Setting::ShowTimestamps(on) => self.show_timestamps = on,
            Setting::ToolUse(on) => {
                if on {
                    let tools = self.tool_declarations_for_use_tools(Some("*"));
                    assert(names_of(tools@).len() == tools@.len());
                    if tools.len() == 0 {
                        return Err(SettingError::NoTools);
                    }
                }
                self.tool_use = on;
            },
            Setting::Stream(on) => self.stream = on,
            Setting::Save(on) => self.save = on,
            Setting::Highlight(on) => self.highlight = on,
            Setting::Title(title) => {
                let persist_error = match &outside.persist_error {
                    Some(e) => Some(e.clone()),
                    None => None,
                };
                return match self.set_session_title(title, persist_error) {
                    Ok(event) => Ok(Some(event)),
                    Err(e) => Err(e),
                };
            },
        }
        Ok(None)
    }

    /// Runs a command that changes a setting. A command that names none, or a setting that
    /// something stands against, changes nothing. Whether the value is a number with a fraction
    /// is told by the caller.
    pub fn update(&mut self, data: &str, is_number: bool, outside: &UpdateOutside) -> (r: Result<
        Option<AgentEvent>,
        SettingError,
    >)
        ensures
            match command_setting(data@, is_number) {
                Err(e) => {
                    &&& *final(self) == *old(self)
                    &&& r matches Err(found)
                    &&& is_parse_error(found)
                    &&& parse_view(Err(found)) == Err::<SettingView, ParseErrorView>(e)
                },
                Ok(wanted) => exists|setting: Setting|
                    {
                        &&& #[trigger] setting@ == wanted
                        &&& match refused(*old(self), setting, *outside) {
                            Some(e) => r == Err::<Option<AgentEvent>, SettingError>(e)
                                && *final(self) == *old(self),
                            None => {
                                &&& *final(self) == changed(*old(self), setting)
                                &&& r matches Ok(event)
                                &&& is_update_event(setting, event)
                            },
                        }
                    },
            },
    {
        match parse_command(data, is_number) {
            Ok(setting) => {
                let ghost wanted = setting;
                let r = self.apply_update(setting, outside);
                assert(wanted@ == command_setting(data@, is_number)->Ok_0);
                r
            },
            Err(e) => Err(e),
        }
    }
}

/// A title that the user gave stays: no model makes another for the session.
pub proof fn law_manual_title_is_final(session: Session, title: String, threshold: usize)
    ensures
        !titled(session, title, usize::MAX).title_due(threshold),
{
}

/// A setting that is kept for a session never takes effect before it is written down.
pub proof fn law_override_is_written_down_first(c: Config, s: Setting, outside: UpdateOutside)
    requires
        c.session is Some,
        s.overrides(),
        outside.persist_error is Some,
    ensures
        refused(c, s, outside) == Some(SettingError::NotPersisted(outside.persist_error->0)),
{
}

/// A setting of a session changes neither its agent nor the defaults of the program.
pub proof fn law_session_setting_stays_in_the_session(c: Config, s: Setting)
    requires
        c.session is Some,
        s.overrides() || s is Title,
    ensures
        changed(c, s).session is Some,
        changed(c, s) == c.with_session(changed(c, s).session),
{
}

/// The keys of settings are told apart by their lengths, and where these agree by a letter.
proof fn keys_differ()
    ensures
        "temperature"@.len() == 11,
        "top_p"@.len() == 5,
        "use_tools"@.len() == 9,
        "model_fallbacks"@.len() == 15,
        "compaction_agent"@.len() == 16,
        "max_output_tokens"@.len() == 17,
        "compress_threshold"@.len() == 18,
        "rag_reranker_model"@.len() == 18,
        "rag_top_k"@.len() == 9,
        "title"@.len() == 5,
        "dry_run"@.len() == 7,
        "show_sequence_numbers"@.len() == 21,
        "show_timestamps"@.len() == 15,
        "tool_use"@.len() == 8,
        "stream"@.len() == 6,
        "save"@.len() == 4,
        "highlight"@.len() == 9,
        "top_p"@ != "title"@,
        "use_tools"@ != "rag_top_k"@,
        "use_tools"@ != "highlight"@,
        "model_fallbacks"@ != "show_timestamps"@,
        "compress_threshold"@ != "rag_reranker_model"@,
        "rag_top_k"@ != "highlight"@,
{
    reveal_strlit("temperature");
    reveal_strlit("top_p");
    reveal_strlit("use_tools");
    reveal_strlit("model_fallbacks");
    reveal_strlit("compaction_agent");
    reveal_strlit("max_output_tokens");
    reveal_strlit("compress_threshold");
    reveal_strlit("rag_reranker_model");
    reveal_strlit("rag_top_k");
    reveal_strlit("title");
    reveal_strlit("dry_run");
    reveal_strlit("show_sequence_numbers");
    reveal_strlit("show_timestamps");
    reveal_strlit("tool_use");
    reveal_strlit("stream");
    reveal_strlit("save");
    reveal_strlit("highlight");
    assert("top_p"@[1] != "title"@[1]);
    assert("use_tools"@[0] != "rag_top_k"@[0]);
    assert("use_tools"@[0] != "highlight"@[0]);
    assert("model_fallbacks"@[0] != "show_timestamps"@[0]);
    assert("compress_threshold"@[0] != "rag_reranker_model"@[0]);
    assert("rag_top_k"@[0] != "highlight"@[0]);
}

/// `null` unsets, and any other value must be one of its kind.
pub proof fn law_null_unsets<T>(value: Seq<char>, parsed: Option<T>)
    ensures
        value == "null"@ ==> optional(value, parsed) == Some(None::<T>),
        value != "null"@ ==> (parsed matches Some(v) ==> optional(value, parsed) == Some(Some(v))),
        value != "null"@ && parsed is None ==> optional(value, parsed) is None,
{
}

/// Only `true` and `false` are truth values, and numbers are those that fit.
pub proof fn law_values_are_read_as_their_kind(s: Seq<char>)
    ensures
        bool_value(s) == Some(true) <==> s == "true"@,
        bool_value(s) == Some(false) <==> s == "false"@,
        usize_value(s) is Some <==> (unsigned_value(s) matches Some(n) && n <= usize::MAX),
        usize_value(s) matches Some(v) ==> unsigned_value(s) == Some(v as nat),
        isize_value(s) is Some <==> (signed_value(s) matches Some(n) && isize::MIN <= n
            <= isize::MAX),
        isize_value(s) matches Some(v) ==> signed_value(s) == Some(v as int),
{
    reveal_strlit("true");
    reveal_strlit("false");
    assert("true"@.len() != "false"@.len());
}

/// A key that takes a text, a number or a list names the setting that is called so; `null` unsets
/// it.
pub proof fn law_key_names_its_setting(key: Seq<char>, value: Seq<char>, is_number: bool)
    ensures
        ({
            let r = setting_for(key, value, is_number);
            let text = if value == "null"@ {
                None
            } else {
                Some(value)
            };
            let bad = Err::<SettingView, ParseErrorView>(ParseErrorView::InvalidValue);
            let ok = |v: SettingView| Ok::<SettingView, ParseErrorView>(v);
            let numeric = is_number || value == "null"@;
            &&& key == "temperature"@ ==> r == if numeric {
                ok(SettingView::Temperature(text))
            } else {
                bad
            }
            &&& key == "top_p"@ ==> r == if numeric {
                ok(SettingView::TopP(text))
            } else {
                bad
            }
            &&& key == "use_tools"@ ==> r == if value == "null"@ {
                ok(SettingView::UseTools(None))
            } else {
                ok(SettingView::UseTools(Some(said(selectors_in(value)))))
            }
            &&& key == "model_fallbacks"@ ==> r == if value == "null"@ {
                ok(SettingView::ModelFallbacks(Seq::empty()))
            } else {
                ok(SettingView::ModelFallbacks(said(pieces(value, CharSet::Only(',')))))
            }
            &&& key == "compaction_agent"@ ==> r == ok(SettingView::CompactionAgent(text))
            &&& key == "rag_reranker_model"@ ==> r == ok(SettingView::RagRerankerModel(text))
        }),
{
    keys_differ();
}

/// A key that takes a count names the setting that is called so, where the value is such a count;
/// only the count of documents cannot be unset. A title is what is left without white space at its
/// ends.
pub proof fn law_counts_and_titles_are_read_by_their_key(
    key: Seq<char>,
    value: Seq<char>,
    is_number: bool,
)
    ensures
        ({
            let r = setting_for(key, value, is_number);
            let bad = Err::<SettingView, ParseErrorView>(ParseErrorView::InvalidValue);
            let ok = |v: SettingView| Ok::<SettingView, ParseErrorView>(v);
            &&& key == "max_output_tokens"@ ==> r == (if value == "null"@ {
                ok(SettingView::MaxOutputTokens(None))
            } else if isize_value(value) is Some {
                ok(SettingView::MaxOutputTokens(isize_value(value)))
            } else {
                bad
            })
            &&& key == "compress_threshold"@ ==> r == (if value == "null"@ {
                ok(SettingView::CompressThreshold(None))
            } else if usize_value(value) is Some {
                ok(SettingView::CompressThreshold(usize_value(value)))
            } else {
                bad
            })
            &&& key == "rag_top_k"@ ==> r == (if usize_value(value) is Some {
                ok(SettingView::RagTopK(usize_value(value)->0))
            } else {
                bad
            })
            &&& key == "title"@ ==> r == (if trimmed(value).len() > 0 {
                ok(SettingView::Title(trimmed(value)))
            } else {
                Err(ParseErrorView::TitleUsage)
            })
        }),
{
    keys_differ();
}

/// A switch is turned on or off under its own name and takes nothing but a truth value; a key that
/// is called otherwise than any setting is unknown.
pub proof fn law_switch_is_turned_under_its_name(
    key: Seq<char>,
    value: Seq<char>,
    is_number: bool,
)
    ensures
        key == "dry_run"@ ==> (bool_value(value) matches Some(on) ==> setting_for(key, value, is_number)
            == Ok::<SettingView, ParseErrorView>(SettingView::DryRun(on))),
        key == "show_sequence_numbers"@ ==> (bool_value(value) matches Some(on) ==> setting_for(
            key,
            value,
            is_number,
        ) == Ok::<SettingView, ParseErrorView>(SettingView::ShowSequenceNumbers(on))),
        key == "show_timestamps"@ ==> (bool_value(value) matches Some(on) ==> setting_for(
            key,
            value,
            is_number,
        ) == Ok::<SettingView, ParseErrorView>(SettingView::ShowTimestamps(on))),
        key == "tool_use"@ ==> (bool_value(value) matches Some(on) ==> setting_for(key, value, is_number)
            == Ok::<SettingView, ParseErrorView>(SettingView::ToolUse(on))),
        key == "stream"@ ==> (bool_value(value) matches Some(on) ==> setting_for(key, value, is_number)
            == Ok::<SettingView, ParseErrorView>(SettingView::Stream(on))),
        key == "save"@ ==> (bool_value(value) matches Some(on) ==> setting_for(key, value, is_number)
            == Ok::<SettingView, ParseErrorView>(SettingView::Save(on))),
        key == "highlight"@ ==> (bool_value(value) matches Some(on) ==> setting_for(key, value, is_number)
            == Ok::<SettingView, ParseErrorView>(SettingView::Highlight(on))),
        (key == "dry_run"@ || key == "show_sequence_numbers"@ || key == "show_timestamps"@ || key
            == "tool_use"@ || key == "stream"@ || key == "save"@ || key == "highlight"@)
            && bool_value(value) is None ==> setting_for(key, value, is_number) == Err::<
            SettingView,
            ParseErrorView,
        >(ParseErrorView::InvalidValue),
        key != "temperature"@ && key != "top_p"@ && key != "use_tools"@ && key
            != "model_fallbacks"@ && key != "compaction_agent"@ && key != "max_output_tokens"@
            && key != "compress_threshold"@ && key != "rag_reranker_model"@ && key != "rag_top_k"@
            && key != "title"@ && key != "dry_run"@ && key != "show_sequence_numbers"@ && key
            != "show_timestamps"@ && key != "tool_use"@ && key != "stream"@ && key != "save"@
            && key != "highlight"@ ==> setting_for(key, value, is_number) == Err::<
            SettingView,
            ParseErrorView,
        >(ParseErrorView::UnknownKey(key)),
{
    keys_differ();
}

/// A command is a key and a value, each a word, but for a title, which takes the rest of the line.
pub proof fn law_command_is_a_key_and_a_value(data: Seq<char>, is_number: bool)
    ensures
        title_command(data) matches Some(rest) ==> command_setting(data, is_number) == setting_for(
            "title"@,
            trimmed(rest),
            is_number,
        ),
        title_command(data) is None && words(data).len() == 2 ==> command_setting(data, is_number)
            == setting_for(words(data)[0], words(data)[1], is_number),
        title_command(data) is None && words(data).len() != 2 ==> command_setting(data, is_number)
            == Err::<SettingView, ParseErrorView>(ParseErrorView::Usage),
{
}

/// A line sets a title where it starts with that word, behind white space, and the word ends there.
pub proof fn law_title_command_starts_with_its_word(data: Seq<char>, rest: Seq<char>)
    ensures
        trim_front(data, CharSet::White) == "title"@ + rest && (rest.len() == 0 || is_white(rest[0]))
            ==> title_command(data) == Some(rest),
        title_command(data) == Some(rest) ==> trim_front(data, CharSet::White) == "title"@ + rest
            && (rest.len() == 0 || is_white(rest[0])),
{
    let d = trim_front(data, CharSet::White);
    let t = "title"@;
    if d == t + rest {
        assert(d.subrange(0, t.len() as int) =~= t);
        assert(d.subrange(t.len() as int, d.len() as int) =~= rest);
    }
    if title_command(data) == Some(rest) {
        assert(d =~= d.subrange(0, t.len() as int) + d.subrange(t.len() as int, d.len() as int));
    }
}

/// A setting is told with its value, under its own kind.
pub proof fn law_settings_are_told_in_full(s: Setting)
    ensures
        s matches Setting::Temperature(v) ==> s@ == SettingView::Temperature(opt_text(v)),
        s matches Setting::TopP(v) ==> s@ == SettingView::TopP(opt_text(v)),
        s matches Setting::UseTools(Some(v)) ==> s@ == SettingView::UseTools(Some(texts(v@))),
        s matches Setting::UseTools(None) ==> s@ == SettingView::UseTools(None),
        s matches Setting::ModelFallbacks(v) ==> s@ == SettingView::ModelFallbacks(texts(v@)),
        s matches Setting::CompactionAgent(v) ==> s@ == SettingView::CompactionAgent(opt_text(v)),
        s matches Setting::MaxOutputTokens(v) ==> s@ == SettingView::MaxOutputTokens(v),
        s matches Setting::CompressThreshold(v) ==> s@ == SettingView::CompressThreshold(v),
        s matches Setting::RagRerankerModel(v) ==> s@ == SettingView::RagRerankerModel(
            opt_text(v),
        ),
        s matches Setting::RagTopK(v) ==> s@ == SettingView::RagTopK(v),
        s matches Setting::Title(v) ==> s@ == SettingView::Title(v@),
        s matches Setting::DryRun(on) ==> s@ == SettingView::DryRun(on),
        s matches Setting::ShowSequenceNumbers(on) ==> s@ == SettingView::ShowSequenceNumbers(on),
        s matches Setting::ShowTimestamps(on) ==> s@ == SettingView::ShowTimestamps(on),
        s matches Setting::ToolUse(on) ==> s@ == SettingView::ToolUse(on),
        s matches Setting::Stream(on) ==> s@ == SettingView::Stream(on),
        s matches Setting::Save(on) ==> s@ == SettingView::Save(on),
        s matches Setting::Highlight(on) ==> s@ == SettingView::Highlight(on),
{
}

/// What is written down for a session is what a session can have of its own.
pub proof fn law_overrides_are_what_a_session_has(s: Setting)
    ensures
        s.overrides() <==> s is Temperature || s is TopP || s is UseTools || s is ModelFallbacks
            || s is CompactionAgent || s is MaxOutputTokens || s is CompressThreshold,
{
}

/// What a parser says of a line is told with all that it holds.
pub proof fn law_parse_results_are_told_in_full(r: Result<Setting, SettingError>)
    ensures
        r matches Ok(s) ==> parse_view(r) == Ok::<SettingView, ParseErrorView>(s@),
        r matches Err(SettingError::UnknownKey(key)) ==> parse_view(r) == Err::<
            SettingView,
            ParseErrorView,
        >(ParseErrorView::UnknownKey(key@)),
        r matches Err(SettingError::Usage) ==> parse_view(r) == Err::<SettingView, ParseErrorView>(
            ParseErrorView::Usage,
        ),
        r matches Err(SettingError::TitleUsage) ==> parse_view(r) == Err::<
            SettingView,
            ParseErrorView,
        >(ParseErrorView::TitleUsage),
        r matches Err(SettingError::InvalidValue) ==> parse_view(r) == Err::<
            SettingView,
            ParseErrorView,
        >(ParseErrorView::InvalidValue),
        r matches Err(e) ==> (is_parse_error(e) <==> e is Usage || e is UnknownKey
            || e is InvalidValue || e is TitleUsage),
{
}

/// With a session, a setting of its own changes that one field of the session.
pub proof fn law_session_setting_changes_its_field(c: Config, x: Session, s: Setting)
    requires
        c.session == Some(x),
    ensures
        ({
            let to = |t: Session| c.with_session(Some(t));
            &&& s matches Setting::Temperature(v) ==> changed(c, s) == to(
                Session { temperature: v, ..x },
            )
            &&& s matches Setting::TopP(v) ==> changed(c, s) == to(Session { top_p: v, ..x })
            &&& s matches Setting::UseTools(v) ==> changed(c, s) == to(
                Session { use_tools: v, ..x },
            )
            &&& s matches Setting::ModelFallbacks(v) ==> changed(c, s) == to(
                Session { model_fallbacks: v, ..x },
            )
            &&& s matches Setting::CompactionAgent(v) ==> changed(c, s) == to(
                Session { compaction_agent: v, ..x },
            )
            &&& s matches Setting::MaxOutputTokens(v) ==> changed(c, s) == to(
                Session {
                    model: Model {
                        id: x.model.id,
                        max_output_tokens: v,
                        require_max_tokens: true,
                    },
                    ..x
                },
            )
            &&& s matches Setting::CompressThreshold(v) ==> changed(c, s) == to(
                Session { compress_threshold: v, ..x },
            )
            &&& s matches Setting::Title(v) ==> changed(c, s) == to(
                Session { title: Some(v), title_last_updated_tokens: usize::MAX, ..x },
            )
        }),
{
}

/// Without a session, a setting changes the agent, where there is one that can have it, and else
/// the configuration; one that neither can have changes nothing.
pub proof fn law_setting_without_session_changes_agent_or_config(c: Config, s: Setting)
    requires
        c.session is None,
    ensures
        c.agent matches Some(a) ==> {
            let to = |b: Agent| c.with_agent(Some(b));
            &&& s matches Setting::Temperature(v) ==> changed(c, s) == to(
                Agent { temperature: v, ..a },
            )
            &&& s matches Setting::TopP(v) ==> changed(c, s) == to(Agent { top_p: v, ..a })
            &&& s matches Setting::UseTools(v) ==> changed(c, s) == to(Agent { use_tools: v, ..a })
            &&& s matches Setting::ModelFallbacks(v) ==> changed(c, s) == to(
                Agent { model_fallbacks: v, ..a },
            )
            &&& s matches Setting::CompactionAgent(v) ==> changed(c, s) == to(
                Agent { compaction_agent: v, ..a },
            )
            &&& s matches Setting::MaxOutputTokens(v) ==> changed(c, s) == to(
                Agent {
                    model: Model {
                        id: a.model.id,
                        max_output_tokens: v,
                        require_max_tokens: true,
                    },
                    ..a
                },
            )
        },
        c.agent is None ==> {
            &&& s matches Setting::Temperature(v) ==> changed(c, s) == (Config {
                temperature: v,
                ..c
            })
            &&& s matches Setting::TopP(v) ==> changed(c, s) == (Config { top_p: v, ..c })
            &&& s matches Setting::UseTools(v) ==> changed(c, s) == (Config { use_tools: v, ..c })
            &&& s is ModelFallbacks || s is CompactionAgent ==> changed(c, s) == c
            &&& s matches Setting::MaxOutputTokens(v) ==> changed(c, s) == (Config {
                model: Model {
                    id: c.model.id,
                    max_output_tokens: v,
                    require_max_tokens: true,
                },
                ..c
            })
        },
        s matches Setting::CompressThreshold(Some(v)) ==> changed(c, s) == (Config {
            compress_threshold: v,
            ..c
        }),
        s matches Setting::CompressThreshold(None) ==> changed(c, s) == (Config {
            compress_threshold: 0,
            ..c
        }),
        s is Title ==> changed(c, s) == c,
{
}

/// Settings of the documents change those in use, or the configuration where there are none.
pub proof fn law_document_setting_changes_those_in_use(c: Config, s: Setting)
    ensures
        c.rag matches Some(rag) ==> {
            &&& s matches Setting::RagRerankerModel(v) ==> changed(c, s) == (Config {
                rag: Some(Rag { reranker_model: v, ..rag }),
                ..c
            })
            &&& s matches Setting::RagTopK(v) ==> changed(c, s) == (Config {
                rag: Some(Rag { top_k: v, ..rag }),
                ..c
            })
        },
        c.rag is None ==> {
            &&& s matches Setting::RagRerankerModel(v) ==> changed(c, s) == (Config {
                rag_reranker_model: v,
                ..c
            })
            &&& s matches Setting::RagTopK(v) ==> changed(c, s) == (Config { rag_top_k: v, ..c })
        },
{
}

/// A switch changes its own field of the configuration.
pub proof fn law_switch_changes_its_field(c: Config, s: Setting)
    ensures
        s matches Setting::DryRun(on) ==> changed(c, s) == (Config { dry_run: on, ..c }),
        s matches Setting::ShowSequenceNumbers(on) ==> changed(c, s) == (Config {
            show_sequence_numbers: on,
            ..c
        }),
        s matches Setting::ShowTimestamps(on) ==> changed(c, s) == (Config { show_timestamps: on, ..c }),
        s matches Setting::ToolUse(on) ==> changed(c, s) == (Config { tool_use: on, ..c }),
        s matches Setting::Stream(on) ==> changed(c, s) == (Config { stream: on, ..c }),
        s matches Setting::Save(on) ==> changed(c, s) == (Config { save: on, ..c }),
        s matches Setting::Highlight(on) ==> changed(c, s) == (Config { highlight: on, ..c }),
{
}

/// A setting is refused where the model or the documents that it needs cannot be had, where there
/// is no tool to switch on, no session to name, or where it cannot be written down; and never else.
pub proof fn law_setting_is_refused_for_its_reason(c: Config, s: Setting, outside: UpdateOutside)
    ensures
        ({
            let r = refused(c, s, outside);
            &&& s matches Setting::RagRerankerModel(Some(_)) ==> (outside.model_error matches Some(e)
                ==> r == Some(SettingError::UnknownModel(e)))
            &&& s is RagTopK || (s matches Setting::RagRerankerModel(v) && (v is None
                || outside.model_error is None)) ==> (if c.rag is Some && outside.rag_error is Some {
                r == Some(SettingError::RagNotUpdated(outside.rag_error->0))
            } else {
                r is None
            })
            &&& s matches Setting::ToolUse(true) ==> (if c.picked(said(selectors_in("*"@))).len()
                == 0 {
                r == Some(SettingError::NoTools)
            } else {
                r is None
            })
            &&& s matches Setting::ToolUse(false) ==> r is None
            &&& s is Title && c.session is None ==> r == Some(SettingError::NoSessionForTitle)
            &&& s is Title && c.session is Some ==> (match outside.persist_error {
                Some(e) => r == Some(SettingError::TitleNotPersisted(e)),
                None => r is None,
            })
            &&& s.overrides() && c.session is Some ==> (match outside.persist_error {
                Some(e) => r == Some(SettingError::NotPersisted(e)),
                None => r is None,
            })
            &&& s.overrides() && c.session is None ==> r is None
            &&& s is DryRun || s is ShowSequenceNumbers || s is ShowTimestamps || s is Stream
                || s is Save || s is Highlight ==> r is None
        }),
{
}

/// A title is recorded with where the session stood, and everything else stays; only a title is
/// announced.
pub proof fn law_title_is_recorded_and_announced(
    session: Session,
    title: String,
    tokens: usize,
    s: Setting,
    event: Option<AgentEvent>,
)
    ensures
        titled(session, title, tokens).title == Some(title),
        titled(session, title, tokens).title_last_updated_tokens == tokens,
        titled(session, title, tokens).id == session.id && titled(session, title, tokens).tokens
            == session.tokens && titled(session, title, tokens).messages == session.messages
            && titled(session, title, tokens).titling == session.titling,
        s matches Setting::Title(t) ==> (is_update_event(s, event) <==> (event matches Some(e)
            && event_view(e) == EventView::TitleUpdated(t@))),
        !(s is Title) ==> (is_update_event(s, event) <==> event is None),
{
}

} // verus!
