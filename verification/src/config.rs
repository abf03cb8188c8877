//! The program's settings, assembled from configuration entries.
//!
//! The entries are configuration values flattened to dotted keys such as
//! `knowledge.folders`. The program reads its sources (the settings file,
//! then the environment) with the `config` crate, which already merges them,
//! so it hands over one entry per key. When entries do repeat a key, the
//! later one counts.
use crate::rag::strings_view;
use crate::text::copy_strings;
use vstd::prelude::*;

verus! {

/// A configuration value: a piece of text or a list of texts.
pub enum ConfigValue {
    Text(String),
    List(Vec<String>),
}

/// One configuration entry: a dotted key and its value.
pub struct ConfigEntry {
    pub key: String,
    pub value: ConfigValue,
}

/// The mathematical view of a configuration value.
pub enum ValueModel {
    Text(Seq<char>),
    List(Seq<Seq<char>>),
}

impl View for ConfigValue {
    type V = ValueModel;

    open spec fn view(&self) -> ValueModel {
        match self {
            ConfigValue::Text(t) => ValueModel::Text(t@),
            ConfigValue::List(l) => ValueModel::List(strings_view(l@)),
        }
    }
}

/// Why the settings could not be assembled.
pub enum SettingsError {
    /// No entry has this key.
    Missing { key: String },
    /// The entry for this key holds a list where a text is expected, or the
    /// other way round.
    WrongKind { key: String },
}

/// The mathematical view of a settings error.
pub enum Problem {
    Missing(Seq<char>),
    WrongKind(Seq<char>),
}

impl View for SettingsError {
    type V = Problem;

    open spec fn view(&self) -> Problem {
        match self {
            SettingsError::Missing { key } => Problem::Missing(key@),
            SettingsError::WrongKind { key } => Problem::WrongKind(key@),
        }
    }
}

/// The agents' settings.
pub struct Agents {
    pub model: String,
}

/// The knowledge base's settings.
pub struct Knowledge {
    /// Pattern of the file names to take (key `knowledge.include`).
    pub include_pattern: String,
    /// Pattern of the file names to leave out (key `knowledge.exclude`).
    pub exclude_pattern: String,
    pub database_uri: String,
    pub model: String,
    pub folders: Vec<String>,
}

/// The server's settings.
pub struct Server {
    pub host: String,
}

/// All settings of the program.
pub struct Settings {
    pub agents: Agents,
    pub knowledge: Knowledge,
    pub server: Server,
}

/// The value configured for `key`: that of the last entry with this key.
pub open spec fn lookup(entries: Seq<ConfigEntry>, key: Seq<char>) -> Option<ValueModel>
    decreases entries.len(),
{
    if entries.len() == 0 {
        None
    } else if entries.last().key@ == key {
        Some(entries.last().value@)
    } else {
        lookup(entries.drop_last(), key)
    }
}

/// What is wrong with `key` when a text is expected there, if anything.
pub open spec fn text_problem(entries: Seq<ConfigEntry>, key: Seq<char>) -> Option<Problem> {
    match lookup(entries, key) {
        None => Some(Problem::Missing(key)),
        Some(ValueModel::Text(_)) => None,
        Some(ValueModel::List(_)) => Some(Problem::WrongKind(key)),
    }
}

/// What is wrong with `key` when a list is expected there, if anything.
pub open spec fn list_problem(entries: Seq<ConfigEntry>, key: Seq<char>) -> Option<Problem> {
    match lookup(entries, key) {
        None => Some(Problem::Missing(key)),
        Some(ValueModel::List(_)) => None,
        Some(ValueModel::Text(_)) => Some(Problem::WrongKind(key)),
    }
}

/// The text configured for `key` (meaningful when there is no problem).
pub open spec fn text_at(entries: Seq<ConfigEntry>, key: Seq<char>) -> Seq<char> {
    match lookup(entries, key) {
        Some(ValueModel::Text(t)) => t,
        _ => seq![],
    }
}

/// The list configured for `key` (meaningful when there is no problem).
pub open spec fn list_at(entries: Seq<ConfigEntry>, key: Seq<char>) -> Seq<Seq<char>> {
    match lookup(entries, key) {
        Some(ValueModel::List(l)) => l,
        _ => seq![],
    }
}

/// The first problem met when the settings are read field by field, in the
/// order `agents.model`, `knowledge.include`, `knowledge.exclude`,
/// `knowledge.database_uri`, `knowledge.model`, `knowledge.folders`,
/// `server.host`; `None` when every field is present with the right kind.
pub open spec fn first_problem(entries: Seq<ConfigEntry>) -> Option<Problem> {
    if text_problem(entries, "agents.model"@) is Some {
        text_problem(entries, "agents.model"@)
    } else if text_problem(entries, "knowledge.include"@) is Some {
        text_problem(entries, "knowledge.include"@)
    } else if text_problem(entries, "knowledge.exclude"@) is Some {
        text_problem(entries, "knowledge.exclude"@)
    } else if text_problem(entries, "knowledge.database_uri"@) is Some {
        text_problem(entries, "knowledge.database_uri"@)
    } else if text_problem(entries, "knowledge.model"@) is Some {
        text_problem(entries, "knowledge.model"@)
    } else if list_problem(entries, "knowledge.folders"@) is Some {
        list_problem(entries, "knowledge.folders"@)
    } else {
        text_problem(entries, "server.host"@)
    }
}

/// The settings read from `entries`, field by field.
pub open spec fn settings_match(s: Settings, entries: Seq<ConfigEntry>) -> bool {
    &&& s.agents.model@ == text_at(entries, "agents.model"@)
    &&& s.knowledge.include_pattern@ == text_at(entries, "knowledge.include"@)
    &&& s.knowledge.exclude_pattern@ == text_at(entries, "knowledge.exclude"@)
    &&& s.knowledge.database_uri@ == text_at(entries, "knowledge.database_uri"@)
    &&& s.knowledge.model@ == text_at(entries, "knowledge.model"@)
    &&& strings_view(s.knowledge.folders@) == list_at(entries, "knowledge.folders"@)
    &&& s.server.host@ == text_at(entries, "server.host"@)
}

/// The last entry with key `key`, if any.
fn find<'a>(entries: &'a Vec<ConfigEntry>, key: &String) -> (r: Option<&'a ConfigValue>)
    ensures
        match r {
            Some(v) => lookup(entries@, key@) == Some(v@),
            None => lookup(entries@, key@) is None,
        },
{
    let mut i: usize = entries.len();
    assert(entries@.take(i as int) =~= entries@);
    while i > 0
        invariant
            i <= entries@.len(),
            lookup(entries@, key@) == lookup(entries@.take(i as int), key@),
        decreases i,
    {
        let ghost prefix = entries@.take(i as int);
        assert(prefix.drop_last() =~= entries@.take(i - 1));
        if entries[i - 1].key == *key {
            return Some(&entries[i - 1].value);
        }
        i = i - 1;
    }
    None
}

/// The text configured for `key`.
fn text_field(entries: &Vec<ConfigEntry>, key: &str) -> (r: Result<String, SettingsError>)
    ensures
        match r {
            Ok(t) => text_problem(entries@, key@) is None && t@ == text_at(entries@, key@),
            Err(e) => text_problem(entries@, key@) == Some(e@),
        },
{
    let k = key.to_owned();
    match find(entries, &k) {
        Some(ConfigValue::Text(t)) => Ok(t.clone()),
        Some(ConfigValue::List(_)) => Err(SettingsError::WrongKind { key: k }),
        None => Err(SettingsError::Missing { key: k }),
    }
}

/// The list configured for `key`.
fn list_field(entries: &Vec<ConfigEntry>, key: &str) -> (r: Result<Vec<String>, SettingsError>)
    ensures
        match r {
            Ok(l) => list_problem(entries@, key@) is None && strings_view(l@) == list_at(
                entries@,
                key@,
            ),
            Err(e) => list_problem(entries@, key@) == Some(e@),
        },
{
    let k = key.to_owned();
    match find(entries, &k) {
        Some(ConfigValue::List(l)) => {
            let copy = copy_strings(l);
            assert(strings_view(copy@) =~= strings_view(l@));
            Ok(copy)
        },
        Some(ConfigValue::Text(_)) => Err(SettingsError::WrongKind { key: k }),
        None => Err(SettingsError::Missing { key: k }),
    }
}

impl Settings {
    /// Assembles the settings from the configuration entries; where a key
    /// repeats, the last entry counts. Fails on the first field, in
    /// declaration order, that no entry configures or that holds the wrong
    /// kind of value.
    pub fn build(entries: &Vec<ConfigEntry>) -> (r: Result<Settings, SettingsError>)
        ensures
            r is Ok <==> first_problem(entries@) is None,
            r matches Ok(s) ==> settings_match(s, entries@),
            r matches Err(e) ==> first_problem(entries@) == Some(e@),
    {
        let model = match text_field(entries, "agents.model") {
            Ok(v) => v,
            Err(e) => return Err(e),
        };
        let include_pattern = match text_field(entries, "knowledge.include") {
            Ok(v) => v,
            Err(e) => return Err(e),
        };
        let exclude_pattern = match text_field(entries, "knowledge.exclude") {
            Ok(v) => v,
            Err(e) => return Err(e),
        };
        let database_uri = match text_field(entries, "knowledge.database_uri") {
            Ok(v) => v,
            Err(e) => return Err(e),
        };
        let knowledge_model = match text_field(entries, "knowledge.model") {
            Ok(v) => v,
            Err(e) => return Err(e),
        };
        let folders = match list_field(entries, "knowledge.folders") {
            Ok(v) => v,
            Err(e) => return Err(e),
        };
        let host = match text_field(entries, "server.host") {
            Ok(v) => v,
            Err(e) => return Err(e),
        };
        Ok(
            Settings {
                agents: Agents { model },
                knowledge: Knowledge {
                    include_pattern,
                    exclude_pattern,
                    database_uri,
                    model: knowledge_model,
                    folders,
                },
                server: Server { host },
            },
        )
    }
}

/// Among entries that repeat a key, a later one overrides every earlier one
/// with the same key, and leaves the values of the other keys as they were.
/// (The program itself passes the already merged configuration, one entry
/// per key.)
pub proof fn lemma_later_entry_overrides(entries: Seq<ConfigEntry>, e: ConfigEntry, key: Seq<char>)
    ensures
        lookup(entries.push(e), key) == if key == e.key@ {
            Some(e.value@)
        } else {
            lookup(entries, key)
        },
{
    assert(entries.push(e).drop_last() =~= entries);
}

} // verus!
