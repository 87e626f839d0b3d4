//! The settings of a run: the header names to ignore, the repository that the
//! packages come from, and the search prefixes. They are read from a YAML
//! text, which the `yaml_rust` crate parses.

use vstd::prelude::*;
use crate::text::{chars_of, views};

verus! {

/// The repository that packages are looked up in. Informational.
#[derive(Debug)]
pub struct Repository {
    pub name: String,
    pub version: String,
    pub arch: String,
}

/// The settings of a run.
#[derive(Debug)]
pub struct Settings {
    /// The header names that need no provider.
    pub ignored: Vec<String>,
    pub repository: Repository,
    /// The search prefixes, in the order in which they are tried.
    pub paths: Vec<String>,
}

/// Why a text holds no settings.
#[derive(Debug, Clone, Copy, PartialEq, Eq, Structural)]
pub enum ConfigError {
    /// The text is not handed to the parser (a line is too long, or an anchor
    /// is declared), is no YAML, or holds no document.
    Unreadable,
    /// An entry that must be a list is absent or is no list.
    NotAList,
}

/// The longest line, in characters, of a text that is handed to the parser.
pub const LINE_LIMIT: usize = 256;

/// The number of characters behind the last line feed of `text`.
pub open spec fn last_line_len(text: Seq<char>) -> nat
    decreases text.len(),
{
    if text.len() == 0 || text.last() == '\n' {
        0
    } else {
        last_line_len(text.drop_last()) + 1
    }
}

/// Whether no line of `text` holds more than `limit` characters.
pub open spec fn lines_within(text: Seq<char>, limit: nat) -> bool
    decreases text.len(),
{
    if text.len() == 0 {
        true
    } else {
        lines_within(text.drop_last(), limit) && last_line_len(text) <= limit
    }
}

/// Whether `text` is handed to the parser: no line of it is longer than
/// `LINE_LIMIT`, and it declares no anchor (it holds no `&`).
pub open spec fn is_loadable(text: Seq<char>) -> bool {
    lines_within(text, LINE_LIMIT as nat) && !text.contains('&')
}

/// Where no line of a text is too long, none is in what the text starts with.
pub proof fn lemma_lines_within_prefix(text: Seq<char>, n: int, limit: nat)
    requires
        0 <= n <= text.len(),
        lines_within(text, limit),
    ensures
        lines_within(text.take(n), limit),
    decreases text.len(),
{
    if n == text.len() {
        assert(text.take(n) == text);
    } else {
        assert(text.take(n) == text.drop_last().take(n));
        lemma_lines_within_prefix(text.drop_last(), n, limit);
    }
}

/// Whether `text` is handed to the parser.
pub fn check_loadable(text: &str) -> (r: bool)
    ensures
        r == is_loadable(text@),
{
    let chars = chars_of(text);
    let mut run: usize = 0;
    let mut i: usize = 0;
    assert(chars@.take(0) == Seq::<char>::empty());
    while i < chars.len()
        invariant
            i <= chars.len(),
            chars@ == text@,
            lines_within(chars@.take(i as int), LINE_LIMIT as nat),
            forall|j: int| 0 <= j < i ==> chars@[j] != '&',
            run == last_line_len(chars@.take(i as int)),
            run <= LINE_LIMIT,
        decreases chars.len() - i,
    {
        let c = chars[i];
        proof {
            assert(chars@.take(i + 1).drop_last() == chars@.take(i as int));
            assert(chars@.take(i + 1).last() == c);
        }
        if c == '&' {
            assert(chars@.contains(chars@[i as int]));
            return false;
        }
        if c == '\n' {
            run = 0;
        } else {
            run += 1;
            if run > LINE_LIMIT {
                proof {
                    if lines_within(chars@, LINE_LIMIT as nat) {
                        lemma_lines_within_prefix(chars@, i + 1, LINE_LIMIT as nat);
                    }
                }
                return false;
            }
        }
        i += 1;
    }
    assert(chars@.take(chars.len() as int) == chars@);
    true
}

/// What the first YAML document of `text` holds under `key`, read as a list:
/// for each item its text, or `None` where the item is no text. `Some(None)`
/// where the entry is absent or is no list; `None` where `text` does not parse
/// or holds no document.
pub uninterp spec fn yaml_list(text: Seq<char>, key: Seq<char>) -> Option<
    Option<Seq<Option<Seq<char>>>>,
>;

/// What the first YAML document of `text` holds under `key` within the entry
/// `section`, read as a text. `Some(None)` where there is no such entry or it
/// is no text; `None` where `text` does not parse or holds no document.
pub uninterp spec fn yaml_field(text: Seq<char>, section: Seq<char>, key: Seq<char>) -> Option<
    Option<Seq<char>>,
>;

/// The view of an optional string.
pub open spec fn text_view(value: Option<String>) -> Option<Seq<char>> {
    match value {
        Some(s) => Some(s@),
        None => None,
    }
}

/// The views of a list of optional strings.
pub open spec fn text_views(values: Seq<Option<String>>) -> Seq<Option<Seq<char>>> {
    Seq::new(values.len(), |i: int| text_view(values[i]))
}

/// The view of what was read as a list.
pub open spec fn list_view(read: Option<Option<Vec<Option<String>>>>) -> Option<
    Option<Seq<Option<Seq<char>>>>,
> {
    match read {
        Some(Some(items)) => Some(Some(text_views(items@))),
        Some(None) => Some(None),
        None => None,
    }
}

/// The view of what was read as a text.
pub open spec fn field_view(read: Option<Option<String>>) -> Option<Option<Seq<char>>> {
    match read {
        Some(value) => Some(text_view(value)),
        None => None,
    }
}

/// Parses `text` with `yaml_rust::YamlLoader::load_from_str`, looks `key` up
/// in the first document (`Yaml`'s index by `&str`), and reads the entry as a
/// list (`Yaml::as_vec`) of texts (`Yaml::as_str`). Trusted: the result is
/// what the parser finds, which depends on `text` and `key` alone.
///
/// The parser calls itself once for each level of nesting, and copies an
/// anchored node for each alias of it. Only loadable texts are admitted: a
/// block level needs a column of its own, so the bound on the lines bounds the
/// block levels, the parser itself refuses more than 255 flow levels, and
/// without an anchor there is nothing to copy.
#[verifier::external_body]
pub(crate) fn read_list(text: &str, key: &str) -> (r: Option<Option<Vec<Option<String>>>>)
    requires
        is_loadable(text@),
    ensures
        list_view(r) == yaml_list(text@, key@),
{
    match yaml_rust::YamlLoader::load_from_str(text) {
        Ok(docs) => docs.first().map(
            |doc|
                doc[key].as_vec().map(
                    |items| items.iter().map(|item| item.as_str().map(String::from)).collect(),
                ),
        ),
        Err(_) => None,
    }
}

/// Parses `text` with `yaml_rust::YamlLoader::load_from_str`, looks `section`
/// and then `key` up in the first document (`Yaml`'s index by `&str`), and
/// reads the entry as a text (`Yaml::as_str`). Trusted: the result is what the
/// parser finds, which depends on `text`, `section` and `key` alone. Only
/// loadable texts are admitted, as for `read_list`.
#[verifier::external_body]
pub(crate) fn read_field(text: &str, section: &str, key: &str) -> (r: Option<Option<String>>)
    requires
        is_loadable(text@),
    ensures
        field_view(r) == yaml_field(text@, section@, key@),
{
    match yaml_rust::YamlLoader::load_from_str(text) {
        Ok(docs) => docs.first().map(|doc| doc[section][key].as_str().map(String::from)),
        Err(_) => None,
    }
}

/// The text of a setting: empty where the setting is absent or is no text.
pub open spec fn text_or_empty(value: Option<Seq<char>>) -> Seq<char> {
    match value {
        Some(t) => t,
        None => Seq::empty(),
    }
}

/// The texts of a list of settings, in order.
pub open spec fn texts_or_empty(values: Seq<Option<Seq<char>>>) -> Seq<Seq<char>> {
    Seq::new(values.len(), |i: int| text_or_empty(values[i]))
}

/// The text of a setting: empty where the setting is absent or is no text.
pub fn unwrap_string(value: &Option<String>) -> (r: String)
    ensures
        r@ == text_or_empty(text_view(*value)),
{
    match value {
        Some(s) => s.clone(),
        None => String::new(),
    }
}

/// The texts of a list of settings, in order.
pub fn unwrap_strings(values: &Vec<Option<String>>) -> (r: Vec<String>)
    ensures
        views(r@) == texts_or_empty(text_views(values@)),
{
    let mut out: Vec<String> = Vec::new();
    let mut i: usize = 0;
    let ghost all = texts_or_empty(text_views(values@));
    while i < values.len()
        invariant
            i <= values.len(),
            all == texts_or_empty(text_views(values@)),
            views(out@) == all.take(i as int),
        decreases values.len() - i,
    {
        let ghost before = views(out@);
        out.push(unwrap_string(&values[i]));
        assert(views(out@) == before.push(all[i as int]));
        i += 1;
    }
    out
}

/// What a list entry of the settings comes to.
pub open spec fn list_setting(read: Option<Option<Seq<Option<Seq<char>>>>>) -> Result<
    Seq<Seq<char>>,
    ConfigError,
> {
    match read {
        Some(Some(items)) => Ok(texts_or_empty(items)),
        Some(None) => Err(ConfigError::NotAList),
        None => Err(ConfigError::Unreadable),
    }
}

/// What a text entry of the settings comes to.
pub open spec fn field_setting(read: Option<Option<Seq<char>>>) -> Result<Seq<char>, ConfigError> {
    match read {
        Some(value) => Ok(text_or_empty(value)),
        None => Err(ConfigError::Unreadable),
    }
}

/// A list entry of the settings, from what was read of it.
pub fn list_of(read: &Option<Option<Vec<Option<String>>>>) -> (r: Result<Vec<String>, ConfigError>)
    ensures
        match list_setting(list_view(*read)) {
            Ok(items) => r matches Ok(v) && views(v@) == items,
            Err(e) => r matches Err(f) && f == e,
        },
{
    match read {
        Some(Some(items)) => Ok(unwrap_strings(items)),
        Some(None) => Err(ConfigError::NotAList),
        None => Err(ConfigError::Unreadable),
    }
}

/// A text entry of the settings, from what was read of it.
pub fn field_of(read: &Option<Option<String>>) -> (r: Result<String, ConfigError>)
    ensures
        match field_setting(field_view(*read)) {
            Ok(value) => r matches Ok(s) && s@ == value,
            Err(e) => r matches Err(f) && f == e,
        },
{
    match read {
        Some(value) => Ok(unwrap_string(value)),
        None => Err(ConfigError::Unreadable),
    }
}

/// The settings as plain texts.
pub struct SettingsView {
    pub ignored: Seq<Seq<char>>,
    pub paths: Seq<Seq<char>>,
    pub name: Seq<char>,
    pub version: Seq<char>,
    pub arch: Seq<char>,
}

impl View for Settings {
    type V = SettingsView;

    open spec fn view(&self) -> SettingsView {
        SettingsView {
            ignored: views(self.ignored@),
            paths: views(self.paths@),
            name: self.repository.name@,
            version: self.repository.version@,
            arch: self.repository.arch@,
        }
    }
}

/// The settings that the YAML text `text` holds. The ignored names are the
/// list under `glibc`, the prefixes the list under `paths`; both must be
/// lists. The repository's name, version and architecture are `title`,
/// `version` and `arch` under `repository`. An item or a field that is absent
/// or is no text counts as the empty text. The first entry that fails, in
/// this order, gives the error. A text that is not loadable is unreadable.
pub open spec fn settings_of(text: Seq<char>) -> Result<SettingsView, ConfigError> {
    if is_loadable(text) {
        loaded_settings(text)
    } else {
        Err(ConfigError::Unreadable)
    }
}

/// The settings that the parser finds in the YAML text `text`.
pub open spec fn loaded_settings(text: Seq<char>) -> Result<SettingsView, ConfigError> {
    match list_setting(yaml_list(text, "glibc"@)) {
        Err(e) => Err(e),
        Ok(ignored) => match list_setting(yaml_list(text, "paths"@)) {
            Err(e) => Err(e),
            Ok(paths) => match field_setting(yaml_field(text, "repository"@, "title"@)) {
                Err(e) => Err(e),
                Ok(name) => match field_setting(yaml_field(text, "repository"@, "version"@)) {
                    Err(e) => Err(e),
                    Ok(version) => match field_setting(yaml_field(text, "repository"@, "arch"@)) {
                        Err(e) => Err(e),
                        Ok(arch) => Ok(SettingsView { ignored, paths, name, version, arch }),
                    },
                },
            },
        },
    }
}

/// The settings that the YAML text `text` holds. The text is tested first, and
/// only a loadable one reaches the parser.
pub fn load_settings(text: &str) -> (r: Result<Settings, ConfigError>)
    ensures
        match settings_of(text@) {
            Ok(settings) => r matches Ok(s) && s@ == settings,
            Err(e) => r matches Err(f) && f == e,
        },
{
    if !check_loadable(text) {
        return Err(ConfigError::Unreadable);
    }
    let ignored = match list_of(&read_list(text, "glibc")) {
        Ok(v) => v,
        Err(e) => {
            return Err(e);
        },
    };
    let paths = match list_of(&read_list(text, "paths")) {
        Ok(v) => v,
        Err(e) => {
            return Err(e);
        },
    };
    let name = match field_of(&read_field(text, "repository", "title")) {
        Ok(v) => v,
        Err(e) => {
            return Err(e);
        },
    };
    let version = match field_of(&read_field(text, "repository", "version")) {
        Ok(v) => v,
        Err(e) => {
            return Err(e);
        },
    };
    let arch = match field_of(&read_field(text, "repository", "arch")) {
        Ok(v) => v,
        Err(e) => {
            return Err(e);
        },
    };
    Ok(Settings { ignored, repository: Repository { name, version, arch }, paths })
}

} // verus!
