//! Loading and validating the user's Adapt configuration.

use vstd::prelude::*;
use vstd::string::*;

use crate::path::{join, joined};
use crate::text::{
    debug_quoted, has_prefix, is_whitespace, option_view, quoted, same_text, starts_with, trim,
    trim_end, trimmed, trimming_takes_off_the_whitespace_around,
};
use serde::de::{Deserialize, IgnoredAny, IntoDeserializer};

verus! {

/// Adapt's hosted endpoint, used where the configuration names none.
pub const DEFAULT_ADAPT_ENDPOINT: &'static str = "https://mcp.adapt.ai/mcp";

/// The pause between two chunks of a revealed response, used where the configuration names none.
pub const DEFAULT_STREAM_DELAY_MS: u64 = 35;

/// A validated configuration.
#[derive(PartialEq, Eq)]
pub struct AdaptConfig {
    pub bearer_token: String,
    pub endpoint: String,
    /// The file that the configuration came from.
    pub source: String,
    pub stream_delay_ms: u64,
}

/// The mathematical counterpart of `AdaptConfig`.
pub struct AdaptConfigView {
    pub bearer_token: Seq<char>,
    pub endpoint: Seq<char>,
    pub source: Seq<char>,
    pub stream_delay_ms: u64,
}

impl View for AdaptConfig {
    type V = AdaptConfigView;

    open spec fn view(&self) -> AdaptConfigView {
        AdaptConfigView {
            bearer_token: self.bearer_token@,
            endpoint: self.endpoint@,
            source: self.source@,
            stream_delay_ms: self.stream_delay_ms,
        }
    }
}

impl Clone for AdaptConfig {
    fn clone(&self) -> (copy: Self)
        ensures
            copy@ == self@,
    {
        AdaptConfig {
            bearer_token: self.bearer_token.clone(),
            endpoint: self.endpoint.clone(),
            source: self.source.clone(),
            stream_delay_ms: self.stream_delay_ms,
        }
    }
}

/// What is shown of a configuration for diagnosis: everything but the token.
pub open spec fn debug_shown(config: AdaptConfigView) -> Seq<char> {
    "AdaptConfig { bearer_token: \"[redacted]\", endpoint: "@ + debug_quoted(config.endpoint)
        + ", source: "@ + debug_quoted(config.source) + " }"@
}

impl AdaptConfig {
    /// The configuration as text for diagnosis, without the token.
    pub fn debug_text(&self) -> (text: String)
        ensures
            text@ == debug_shown(self@),
    {
        let mut text = "AdaptConfig { bearer_token: \"[redacted]\", endpoint: ".to_owned();
        text.append(quoted(self.endpoint.as_str()).as_str());
        text.append(", source: ");
        text.append(quoted(self.source.as_str()).as_str());
        text.append(" }");
        text
    }
}

/// Why there is no usable configuration.
#[derive(Debug, PartialEq, Eq)]
pub enum ConfigError {
    Missing { path: String },
    Malformed { path: String },
    MissingToken { path: String },
    InvalidEndpoint { path: String },
    Read { path: String },
    /// Others may access the file, and they could not be shut out.
    Exposed { path: String },
}

/// The mathematical counterpart of `ConfigError`.
pub enum ConfigErrorView {
    Missing { path: Seq<char> },
    Malformed { path: Seq<char> },
    MissingToken { path: Seq<char> },
    InvalidEndpoint { path: Seq<char> },
    Read { path: Seq<char> },
    Exposed { path: Seq<char> },
}

impl View for ConfigError {
    type V = ConfigErrorView;

    open spec fn view(&self) -> ConfigErrorView {
        match self {
            ConfigError::Missing { path } => ConfigErrorView::Missing { path: path@ },
            ConfigError::Malformed { path } => ConfigErrorView::Malformed { path: path@ },
            ConfigError::MissingToken { path } => ConfigErrorView::MissingToken { path: path@ },
            ConfigError::InvalidEndpoint { path } => ConfigErrorView::InvalidEndpoint {
                path: path@,
            },
            ConfigError::Read { path } => ConfigErrorView::Read { path: path@ },
            ConfigError::Exposed { path } => ConfigErrorView::Exposed { path: path@ },
        }
    }
}

/// The message that an error shows.
pub open spec fn config_error_message(error: ConfigErrorView) -> Seq<char> {
    match error {
        ConfigErrorView::Missing { path } => "Adapt configuration is missing at "@ + path
            + "; create it with a bearer_token"@,
        ConfigErrorView::Malformed { path } => "Adapt configuration at "@ + path
            + " is malformed TOML"@,
        ConfigErrorView::MissingToken { path } => "Adapt configuration at "@ + path
            + " does not contain a bearer_token"@,
        ConfigErrorView::InvalidEndpoint { path } => "Adapt configuration at "@ + path
            + " has an invalid endpoint"@,
        ConfigErrorView::Read { path } => "could not read Adapt configuration at "@ + path,
        ConfigErrorView::Exposed { path } => "could not restrict the permissions of Adapt configuration at "@
            + path + "; run chmod 600 on it"@,
    }
}

impl ConfigError {
    /// The message shown to the user.
    pub fn message(&self) -> (text: String)
        ensures
            text@ == config_error_message(self@),
    {
        match self {
            ConfigError::Missing { path } => {
                let mut text = "Adapt configuration is missing at ".to_owned();
                text.append(path.as_str());
                text.append("; create it with a bearer_token");
                text
            },
            ConfigError::Malformed { path } => {
                let mut text = "Adapt configuration at ".to_owned();
                text.append(path.as_str());
                text.append(" is malformed TOML");
                text
            },
            ConfigError::MissingToken { path } => {
                let mut text = "Adapt configuration at ".to_owned();
                text.append(path.as_str());
                text.append(" does not contain a bearer_token");
                text
            },
            ConfigError::InvalidEndpoint { path } => {
                let mut text = "Adapt configuration at ".to_owned();
                text.append(path.as_str());
                text.append(" has an invalid endpoint");
                text
            },
            ConfigError::Read { path } => {
                let mut text = "could not read Adapt configuration at ".to_owned();
                text.append(path.as_str());
                text
            },
            ConfigError::Exposed { path } => {
                let mut text =
                    "could not restrict the permissions of Adapt configuration at ".to_owned();
                text.append(path.as_str());
                text.append("; run chmod 600 on it");
                text
            },
        }
    }
}

/// One entry of a TOML document's root table, read in each of the ways in which a setting may ask
/// for it.
#[derive(Debug, PartialEq, Eq)]
pub struct TomlEntry {
    pub key: String,
    /// The value as a string, if it is one.
    pub text: Option<String>,
    /// The value as a `u64`, if it is an integer in that range.
    pub number: Option<u64>,
    /// The value can be skipped: it holds no number that is out of every range.
    pub skippable: bool,
}

/// The key of an entry, its value as a string, its value as a `u64`, and whether it can be skipped.
pub type TomlEntryView = (Seq<char>, Option<Seq<char>>, Option<u64>, bool);

impl View for TomlEntry {
    type V = TomlEntryView;

    open spec fn view(&self) -> TomlEntryView {
        (self.key@, option_view(self.text), self.number, self.skippable)
    }
}

pub open spec fn entry_views(entries: Seq<TomlEntry>) -> Seq<TomlEntryView> {
    Seq::new(entries.len(), |i: int| entries[i]@)
}

/// The error of the TOML parser.
#[verifier::external_type_specification]
#[verifier::external_body]
pub struct ExTomlError(toml::de::Error);

/// The entries of the root table of the TOML document with the given text, or `None` where the
/// text is no TOML document.
pub uninterp spec fn toml_document(text: Seq<char>) -> Option<
    Seq<(Seq<char>, Option<Seq<char>>, Option<u64>, bool)>,
>;

/// `toml::de::DeTable::parse` parses the text of a TOML document into its root table. Its entries
/// come out in the table's own order, each value as toml's deserializer gives it to a `String`, to
/// a `u64` and to serde's `IgnoredAny`. All of this depends on the text alone.
#[verifier::external_body]
fn parse_toml(text: &str) -> (entries: Result<Vec<TomlEntry>, toml::de::Error>)
    ensures
        toml_document(text@) == (match entries {
            Ok(entries) => Some(entry_views(entries@)),
            Err(_) => None,
        }),
{
    let table = toml::de::DeTable::parse(text)?.into_inner();
    Ok(table.into_iter().map(|(key, value)| TomlEntry {
        key: key.into_inner().into_owned(),
        text: String::deserialize(value.clone().into_deserializer()).ok(),
        number: u64::deserialize(value.clone().into_deserializer()).ok(),
        skippable: IgnoredAny::deserialize(value.into_deserializer()).is_ok(),
    }).collect())
}

/// The settings of a configuration file, as far as it names them.
#[derive(Debug, PartialEq, Eq)]
pub struct FileConfig {
    pub bearer_token: Option<String>,
    pub endpoint: Option<String>,
    pub stream_delay_ms: Option<u64>,
}

/// The mathematical counterpart of `FileConfig`.
pub struct FileConfigView {
    pub bearer_token: Option<Seq<char>>,
    pub endpoint: Option<Seq<char>>,
    pub stream_delay_ms: Option<u64>,
}

impl View for FileConfig {
    type V = FileConfigView;

    open spec fn view(&self) -> FileConfigView {
        FileConfigView {
            bearer_token: option_view(self.bearer_token),
            endpoint: option_view(self.endpoint),
            stream_delay_ms: self.stream_delay_ms,
        }
    }
}

/// The settings with one more entry taken in. A setting must have its type and may occur once;
/// what belongs to no setting is skipped.
pub open spec fn with_setting(config: FileConfigView, entry: TomlEntryView) -> Option<
    FileConfigView,
> {
    if entry.0 == "bearer_token"@ {
        if config.bearer_token is None && entry.1 is Some {
            Some(FileConfigView { bearer_token: entry.1, ..config })
        } else {
            None
        }
    } else if entry.0 == "endpoint"@ {
        if config.endpoint is None && entry.1 is Some {
            Some(FileConfigView { endpoint: entry.1, ..config })
        } else {
            None
        }
    } else if entry.0 == "stream_delay_ms"@ {
        if config.stream_delay_ms is None && entry.2 is Some {
            Some(FileConfigView { stream_delay_ms: entry.2, ..config })
        } else {
            None
        }
    } else if entry.3 {
        Some(config)
    } else {
        None
    }
}

/// The settings that the entries hold, or `None` where an entry is unfit.
pub open spec fn settings(entries: Seq<TomlEntryView>) -> Option<FileConfigView>
    decreases entries.len(),
{
    if entries.len() == 0 {
        Some(FileConfigView { bearer_token: None, endpoint: None, stream_delay_ms: None })
    } else {
        match settings(entries.drop_last()) {
            Some(config) => with_setting(config, entries.last()),
            None => None,
        }
    }
}

/// Once an entry is unfit, the entries after it change nothing.
proof fn lemma_unfit_entries_stay_unfit(entries: Seq<TomlEntryView>, n: int)
    requires
        0 <= n <= entries.len(),
        settings(entries.take(n)) is None,
    ensures
        settings(entries) is None,
    decreases entries.len(),
{
    if n == entries.len() {
        assert(entries.take(n) =~= entries);
    } else {
        assert(entries.drop_last().take(n) =~= entries.take(n));
        lemma_unfit_entries_stay_unfit(entries.drop_last(), n);
    }
}

/// Read the settings from the entries of a document.
pub fn read_settings(entries: &Vec<TomlEntry>) -> (config: Option<FileConfig>)
    ensures
        settings(entry_views(entries@)) == (match config {
            Some(config) => Some(config@),
            None => None,
        }),
{
    let mut config = FileConfig { bearer_token: None, endpoint: None, stream_delay_ms: None };
    let mut i: usize = 0;
    while i < entries.len()
        invariant
            i <= entries@.len(),
            settings(entry_views(entries@).take(i as int)) == Some(config@),
        decreases entries@.len() - i,
    {
        let entry = &entries[i];
        let ghost before = config@;
        let ghost next = entry_views(entries@).take(i + 1);
        assert(next.drop_last() =~= entry_views(entries@).take(i as int));
        assert(next.last() == entry@);
        proof {
            if settings(next) is None {
                lemma_unfit_entries_stay_unfit(entry_views(entries@), i + 1);
            }
        }
        if same_text(entry.key.as_str(), "bearer_token") {
            match (&config.bearer_token, &entry.text) {
                (None, Some(text)) => config.bearer_token = Some(text.clone()),
                _ => return None,
            }
        } else if same_text(entry.key.as_str(), "endpoint") {
            match (&config.endpoint, &entry.text) {
                (None, Some(text)) => config.endpoint = Some(text.clone()),
                _ => return None,
            }
        } else if same_text(entry.key.as_str(), "stream_delay_ms") {
            match (config.stream_delay_ms, entry.number) {
                (None, Some(number)) => config.stream_delay_ms = Some(number),
                _ => return None,
            }
        } else if !entry.skippable {
            return None;
        }
        assert(settings(next) == with_setting(before, entry@));
        i += 1;
    }
    assert(entry_views(entries@).take(i as int) =~= entry_views(entries@));
    Some(config)
}

/// The configuration that the settings of a file give, with the defaults filled in. The token must
/// hold more than whitespace, and it is sent over HTTPS only.
pub open spec fn validated(path: Seq<char>, config: FileConfigView) -> Result<
    AdaptConfigView,
    ConfigErrorView,
> {
    let endpoint = match config.endpoint {
        Some(endpoint) => endpoint,
        None => DEFAULT_ADAPT_ENDPOINT@,
    };
    match config.bearer_token {
        Some(token) if trim(token).len() > 0 => if starts_with(endpoint, "https://"@) {
            Ok(
                AdaptConfigView {
                    bearer_token: token,
                    endpoint,
                    source: path,
                    stream_delay_ms: match config.stream_delay_ms {
                        Some(delay) => delay,
                        None => DEFAULT_STREAM_DELAY_MS,
                    },
                },
            )
        } else {
            Err(ConfigErrorView::InvalidEndpoint { path })
        },
        _ => Err(ConfigErrorView::MissingToken { path }),
    }
}

/// The view of a loaded configuration.
pub open spec fn config_view(config: Result<AdaptConfig, ConfigError>) -> Result<
    AdaptConfigView,
    ConfigErrorView,
> {
    match config {
        Ok(config) => Ok(config@),
        Err(error) => Err(error@),
    }
}

/// Validate the settings of the file at `path`.
pub fn validate(path: &str, config: FileConfig) -> (validated_config: Result<
    AdaptConfig,
    ConfigError,
>)
    ensures
        config_view(validated_config) == validated(path@, config@),
{
    let token = match config.bearer_token {
        Some(token) => token,
        None => {
            return Err(ConfigError::MissingToken { path: path.to_owned() });
        },
    };
    if trimmed(token.as_str()).as_str().is_empty() {
        return Err(ConfigError::MissingToken { path: path.to_owned() });
    }
    let endpoint = match config.endpoint {
        Some(endpoint) => endpoint,
        None => DEFAULT_ADAPT_ENDPOINT.to_owned(),
    };
    if !has_prefix(endpoint.as_str(), "https://") {
        return Err(ConfigError::InvalidEndpoint { path: path.to_owned() });
    }
    let stream_delay_ms: u64 = match config.stream_delay_ms {
        Some(delay) => delay,
        None => DEFAULT_STREAM_DELAY_MS,
    };
    Ok(AdaptConfig { bearer_token: token, endpoint, source: path.to_owned(), stream_delay_ms })
}

/// The configuration that the entries of a document give.
pub open spec fn document_config(path: Seq<char>, document: Option<Seq<TomlEntryView>>) -> Result<
    AdaptConfigView,
    ConfigErrorView,
> {
    match document {
        Some(entries) => match settings(entries) {
            Some(config) => validated(path, config),
            None => Err(ConfigErrorView::Malformed { path }),
        },
        None => Err(ConfigErrorView::Malformed { path }),
    }
}

/// What reading a configuration file gave.
#[derive(Debug, PartialEq, Eq)]
pub enum FileRead {
    Missing,
    Unreadable,
    /// Others may access the file, and `restricted_mode` could not be set.
    Exposed,
    Text(String),
}

/// A Unix file mode grants something to others than the owner of the file.
pub open spec fn is_exposed(mode: u32) -> bool {
    mode & 0o77 != 0
}

/// The Unix file mode to set before the credential in a file is used, if others than its owner may
/// access the file: the mode without what it grants to them.
pub fn restricted_mode(mode: u32) -> (restricted: Option<u32>)
    ensures
        restricted == (if is_exposed(mode) {
            Some(mode & !0o77u32)
        } else {
            None
        }),
{
    if mode & 0o77 != 0 {
        Some(mode & !0o77u32)
    } else {
        None
    }
}

/// A restricted mode grants nothing to others, and to the owner what it granted before.
pub proof fn restricted_modes_are_private(mode: u32)
    ensures
        !is_exposed(mode & !0o77u32),
        (mode & !0o77u32) & 0o700 == mode & 0o700,
{
    assert((mode & !0o77u32) & 0o77 == 0) by (bit_vector);
    assert((mode & !0o77u32) & 0o700 == mode & 0o700) by (bit_vector);
}

/// The configuration in the file at `path`, given what reading it gave.
pub fn load_from(path: &str, read: FileRead) -> (config: Result<AdaptConfig, ConfigError>)
    ensures
        config_view(config) == (match read {
            FileRead::Missing => Err(ConfigErrorView::Missing { path: path@ }),
            FileRead::Unreadable => Err(ConfigErrorView::Read { path: path@ }),
            FileRead::Exposed => Err(ConfigErrorView::Exposed { path: path@ }),
            FileRead::Text(text) => document_config(path@, toml_document(text@)),
        }),
{
    match read {
        FileRead::Missing => Err(ConfigError::Missing { path: path.to_owned() }),
        FileRead::Unreadable => Err(ConfigError::Read { path: path.to_owned() }),
        FileRead::Exposed => Err(ConfigError::Exposed { path: path.to_owned() }),
        FileRead::Text(text) => match parse_toml(text.as_str()) {
            Ok(entries) => match read_settings(&entries) {
                Some(config) => validate(path, config),
                None => Err(ConfigError::Malformed { path: path.to_owned() }),
            },
            Err(_) => Err(ConfigError::Malformed { path: path.to_owned() }),
        },
    }
}

/// Where the configuration file of a user with the given home directory is.
pub fn default_config_path(home: Option<&str>) -> (path: Result<String, ConfigError>)
    ensures
        match home {
            Some(home) => path is Ok && path->Ok_0@ == joined(home@, ".adapt/config.toml"@),
            None => path is Err && path->Err_0@ == (ConfigErrorView::Missing {
                path: "~/.adapt/config.toml"@,
            }),
        },
{
    match home {
        Some(home) => Ok(join(home, ".adapt/config.toml")),
        None => Err(ConfigError::Missing { path: "~/.adapt/config.toml".to_owned() }),
    }
}

/// The configuration of a user with the given home directory, given what reading the file at
/// `default_config_path` gave.
pub fn load(home: Option<&str>, read: FileRead) -> (config: Result<AdaptConfig, ConfigError>)
    ensures
        config_view(config) == (match home {
            Some(home) => {
                let path = joined(home@, ".adapt/config.toml"@);
                match read {
                    FileRead::Missing => Err(ConfigErrorView::Missing { path }),
                    FileRead::Unreadable => Err(ConfigErrorView::Read { path }),
                    FileRead::Exposed => Err(ConfigErrorView::Exposed { path }),
                    FileRead::Text(text) => document_config(path, toml_document(text@)),
                }
            },
            None => Err(ConfigErrorView::Missing { path: "~/.adapt/config.toml"@ }),
        }),
{
    let path = default_config_path(home)?;
    load_from(path.as_str(), read)
}

/// What is shown of a configuration does not depend on its token.
pub proof fn shown_configuration_hides_the_token(
    config: AdaptConfigView,
    other_token: Seq<char>,
)
    ensures
        debug_shown(AdaptConfigView { bearer_token: other_token, ..config }) == debug_shown(
            config,
        ),
{
}

/// A configuration that is accepted has a token and sends it over HTTPS only.
pub proof fn accepted_configuration_uses_https(path: Seq<char>, config: FileConfigView)
    requires
        validated(path, config) is Ok,
    ensures
        starts_with(validated(path, config)->Ok_0.endpoint, "https://"@),
        Some(validated(path, config)->Ok_0.bearer_token) == config.bearer_token,
        trim(validated(path, config)->Ok_0.bearer_token).len() > 0,
        validated(path, config)->Ok_0.source == path,
{
}

/// An entry of a document that is not fit for the setting that it names: it has another type, or it
/// names no setting and cannot be skipped.
pub open spec fn is_unfit(entry: TomlEntryView) -> bool {
    if entry.0 == "bearer_token"@ || entry.0 == "endpoint"@ {
        entry.1 is None
    } else if entry.0 == "stream_delay_ms"@ {
        entry.2 is None
    } else {
        !entry.3
    }
}

/// A document in which every key occurs once gives each setting the value of the entry that names
/// it, wherever that stands, and leaves out the settings that no entry names. One unfit entry makes
/// the whole document unfit.
pub proof fn settings_are_found_by_their_names(entries: Seq<TomlEntryView>)
    requires
        forall|i: int, j: int|
            0 <= i < j < entries.len() ==> (#[trigger] entries[i]).0 != (#[trigger] entries[j]).0,
    ensures
        settings(entries) is None <==> exists|i: int|
            0 <= i < entries.len() && is_unfit(#[trigger] entries[i]),
        settings(entries) matches Some(config) ==> {
            &&& forall|i: int|
                0 <= i < entries.len() ==> {
                    &&& (#[trigger] entries[i]).0 == "bearer_token"@ ==> config.bearer_token
                        == entries[i].1
                    &&& entries[i].0 == "endpoint"@ ==> config.endpoint == entries[i].1
                    &&& entries[i].0 == "stream_delay_ms"@ ==> config.stream_delay_ms
                        == entries[i].2
                }
            &&& (forall|i: int|
                0 <= i < entries.len() ==> (#[trigger] entries[i]).0 != "bearer_token"@)
                ==> config.bearer_token is None
            &&& (forall|i: int|
                0 <= i < entries.len() ==> (#[trigger] entries[i]).0 != "endpoint"@)
                ==> config.endpoint is None
            &&& (forall|i: int|
                0 <= i < entries.len() ==> (#[trigger] entries[i]).0 != "stream_delay_ms"@)
                ==> config.stream_delay_ms is None
        },
    decreases entries.len(),
{
    reveal_strlit("bearer_token");
    reveal_strlit("endpoint");
    reveal_strlit("stream_delay_ms");
    assert("bearer_token"@.len() == 12 && "endpoint"@.len() == 8 && "stream_delay_ms"@.len() == 15);
    if entries.len() > 0 {
        let start = entries.drop_last();
        let last = entries.last();
        let n = start.len() as int;
        assert(entries[n] == last);
        assert forall|i: int| 0 <= i < n implies start[i] == #[trigger] entries[i] by {}
        assert forall|i: int, j: int| 0 <= i < j < start.len() implies (#[trigger] start[i]).0 != (
        #[trigger] start[j]).0 by {
            assert(start[i] == entries[i] && start[j] == entries[j]);
        }
        settings_are_found_by_their_names(start);
        assert forall|i: int| 0 <= i < n implies (#[trigger] start[i]).0 != last.0 by {
            assert(entries[i].0 != entries[n].0);
        }
        if settings(start) is None {
            let i = choose|i: int| 0 <= i < start.len() && is_unfit(#[trigger] start[i]);
            assert(is_unfit(entries[i]));
        } else {
            if exists|i: int| 0 <= i < entries.len() && is_unfit(#[trigger] entries[i]) {
                let i = choose|i: int| 0 <= i < entries.len() && is_unfit(#[trigger] entries[i]);
                if i < n {
                    assert(is_unfit(start[i]));
                }
                assert(i == n);
            }
        }
        if let Some(config) = settings(entries) {
            assert forall|i: int| 0 <= i < entries.len() implies {
                &&& (#[trigger] entries[i]).0 == "bearer_token"@ ==> config.bearer_token
                    == entries[i].1
                &&& entries[i].0 == "endpoint"@ ==> config.endpoint == entries[i].1
                &&& entries[i].0 == "stream_delay_ms"@ ==> config.stream_delay_ms == entries[i].2
            } by {
                if i < n {
                    assert(start[i] == entries[i]);
                    assert(start[i].0 != last.0);
                }
            }
            if forall|i: int| 0 <= i < entries.len() ==> (#[trigger] entries[i]).0
                != "bearer_token"@ {
                assert forall|i: int| 0 <= i < start.len() implies (#[trigger] start[i]).0
                    != "bearer_token"@ by {
                    assert(start[i] == entries[i]);
                }
                assert(last.0 != "bearer_token"@);
            }
            if forall|i: int| 0 <= i < entries.len() ==> (#[trigger] entries[i]).0 != "endpoint"@ {
                assert forall|i: int| 0 <= i < start.len() implies (#[trigger] start[i]).0
                    != "endpoint"@ by {
                    assert(start[i] == entries[i]);
                }
                assert(last.0 != "endpoint"@);
            }
            if forall|i: int| 0 <= i < entries.len() ==> (#[trigger] entries[i]).0
                != "stream_delay_ms"@ {
                assert forall|i: int| 0 <= i < start.len() implies (#[trigger] start[i]).0
                    != "stream_delay_ms"@ by {
                    assert(start[i] == entries[i]);
                }
                assert(last.0 != "stream_delay_ms"@);
            }
        }
    }
}

/// A configuration is taken over as it is: the token and the endpoint unchanged, and the defaults
/// exactly where nothing is named. Without a token that holds more than whitespace, or with an
/// endpoint that is not reached over HTTPS, it is refused.
pub proof fn configurations_are_taken_over_or_refused(path: Seq<char>, config: FileConfigView)
    ensures
        ({
            let outcome = validated(path, config);
            let blank = config.bearer_token is None || forall|i: int|
                0 <= i < config.bearer_token->Some_0.len() ==> is_whitespace(
                    #[trigger] config.bearer_token->Some_0[i],
                );
            let secure = config.endpoint matches Some(endpoint) ==> endpoint.len() >= 8
                && endpoint.take(8) == "https://"@;
            &&& blank ==> outcome == Err::<AdaptConfigView, ConfigErrorView>(
                ConfigErrorView::MissingToken { path },
            )
            &&& !blank && !secure ==> outcome == Err::<AdaptConfigView, ConfigErrorView>(
                ConfigErrorView::InvalidEndpoint { path },
            )
            &&& !blank && secure ==> outcome == Ok::<AdaptConfigView, ConfigErrorView>(
                AdaptConfigView {
                    bearer_token: config.bearer_token->Some_0,
                    endpoint: match config.endpoint {
                        Some(endpoint) => endpoint,
                        None => "https://mcp.adapt.ai/mcp"@,
                    },
                    source: path,
                    stream_delay_ms: match config.stream_delay_ms {
                        Some(delay) => delay,
                        None => 35,
                    },
                },
            )
        }),
{
    reveal_strlit("https://");
    reveal_strlit("https://mcp.adapt.ai/mcp");
    assert("https://mcp.adapt.ai/mcp"@.take(8) =~= "https://"@);
    if let Some(token) = config.bearer_token {
        let none = Seq::<char>::empty();
        if forall|i: int| 0 <= i < token.len() ==> is_whitespace(#[trigger] token[i]) {
            trimming_takes_off_the_whitespace_around(token, none, none);
            assert(token + none + none =~= token);
        } else {
            lemma_something_is_left(token);
        }
    }
}

/// A text that holds more than whitespace has something left when it is trimmed.
proof fn lemma_something_is_left(text: Seq<char>)
    requires
        exists|i: int| 0 <= i < text.len() && !is_whitespace(#[trigger] text[i]),
    ensures
        trim(text).len() > 0,
    decreases text.len(),
{
    let i = choose|i: int| 0 <= i < text.len() && !is_whitespace(#[trigger] text[i]);
    if is_whitespace(text[0]) {
        let rest = text.skip(1);
        assert(rest[i - 1] == text[i]);
        lemma_something_is_left(rest);
    } else {
        lemma_end_keeps_the_start(text);
    }
}

proof fn lemma_end_keeps_the_start(text: Seq<char>)
    requires
        text.len() > 0,
        !is_whitespace(text[0]),
    ensures
        trim_end(text).len() > 0,
    decreases text.len(),
{
    if is_whitespace(text.last()) {
        assert(text.len() > 1);
        assert(text.drop_last()[0] == text[0]);
        lemma_end_keeps_the_start(text.drop_last());
    }
}

/// A file mode is exposed exactly if it grants the group or the others anything: reading, writing or
/// executing.
pub proof fn exposed_modes_grant_others_something(mode: u32)
    ensures
        is_exposed(mode) <==> {
            ||| mode & 0o40 != 0
            ||| mode & 0o20 != 0
            ||| mode & 0o10 != 0
            ||| mode & 0o4 != 0
            ||| mode & 0o2 != 0
            ||| mode & 0o1 != 0
        },
{
    assert(mode & 0o77 != 0 <==> (mode & 0o40 != 0 || mode & 0o20 != 0 || mode & 0o10 != 0 || mode
        & 0o4 != 0 || mode & 0o2 != 0 || mode & 0o1 != 0)) by (bit_vector);
}

/// A setting that is named twice makes the whole document unfit.
pub proof fn settings_are_named_once(entries: Seq<TomlEntryView>, i: int, j: int)
    requires
        0 <= i < j < entries.len(),
        entries[i].0 == entries[j].0,
        ({
            ||| entries[i].0 == "bearer_token"@
            ||| entries[i].0 == "endpoint"@
            ||| entries[i].0 == "stream_delay_ms"@
        }),
    ensures
        settings(entries) is None,
    decreases entries.len(),
{
    let start = entries.drop_last();
    if j < start.len() {
        assert(start[i] == entries[i] && start[j] == entries[j]);
        settings_are_named_once(start, i, j);
    } else if settings(start) is Some {
        lemma_named_settings_are_set(start, i);
        assert(start[i] == entries[i]);
        assert(entries.last() == entries[j]);
        lemma_names_differ();
    }
}

proof fn lemma_names_differ()
    ensures
        "bearer_token"@ != "endpoint"@,
        "bearer_token"@ != "stream_delay_ms"@,
        "endpoint"@ != "stream_delay_ms"@,
{
    reveal_strlit("bearer_token");
    reveal_strlit("endpoint");
    reveal_strlit("stream_delay_ms");
    assert("bearer_token"@.len() == 12 && "endpoint"@.len() == 8 && "stream_delay_ms"@.len() == 15);
}

proof fn lemma_named_settings_are_set(entries: Seq<TomlEntryView>, i: int)
    requires
        0 <= i < entries.len(),
        settings(entries) is Some,
    ensures
        entries[i].0 == "bearer_token"@ ==> settings(entries)->Some_0.bearer_token is Some,
        entries[i].0 == "endpoint"@ ==> settings(entries)->Some_0.endpoint is Some,
        entries[i].0 == "stream_delay_ms"@ ==> settings(entries)->Some_0.stream_delay_ms is Some,
    decreases entries.len(),
{
    lemma_names_differ();
    let start = entries.drop_last();
    if i < start.len() {
        assert(start[i] == entries[i]);
        lemma_named_settings_are_set(start, i);
    } else {
        assert(entries.last() == entries[i]);
    }
}

/// A document gives what its settings give; one that is no TOML, or whose settings do not fit, is
/// refused as malformed.
pub proof fn unfit_documents_are_malformed(path: Seq<char>, entries: Seq<TomlEntryView>)
    ensures
        document_config(path, None) == Err::<AdaptConfigView, ConfigErrorView>(
            ConfigErrorView::Malformed { path },
        ),
        settings(entries) is None ==> document_config(path, Some(entries)) == Err::<
            AdaptConfigView,
            ConfigErrorView,
        >(ConfigErrorView::Malformed { path }),
        settings(entries) matches Some(config) ==> document_config(path, Some(entries))
            == validated(path, config),
{
}

/// Every error of the configuration names the file, and says what to do where that helps.
pub proof fn configuration_errors_name_the_file(path: Seq<char>)
    ensures
        config_error_message(ConfigErrorView::Missing { path })
            == "Adapt configuration is missing at "@ + path + "; create it with a bearer_token"@,
        config_error_message(ConfigErrorView::Malformed { path }) == "Adapt configuration at "@
            + path + " is malformed TOML"@,
        config_error_message(ConfigErrorView::MissingToken { path }) == "Adapt configuration at "@
            + path + " does not contain a bearer_token"@,
        config_error_message(ConfigErrorView::InvalidEndpoint { path })
            == "Adapt configuration at "@ + path + " has an invalid endpoint"@,
        config_error_message(ConfigErrorView::Read { path })
            == "could not read Adapt configuration at "@ + path,
        config_error_message(ConfigErrorView::Exposed { path })
            == "could not restrict the permissions of Adapt configuration at "@ + path
            + "; run chmod 600 on it"@,
{
}

/// What is shown of a configuration names the endpoint and the file, and depends neither on the
/// token nor on the pace.
pub proof fn shown_configurations_name_endpoint_and_file(
    config: AdaptConfigView,
    token: Seq<char>,
    delay: u64,
)
    ensures
        debug_shown(config) == "AdaptConfig { bearer_token: \"[redacted]\", endpoint: "@
            + debug_quoted(config.endpoint) + ", source: "@ + debug_quoted(config.source) + " }"@,
        debug_shown(
            AdaptConfigView { bearer_token: token, stream_delay_ms: delay, ..config },
        ) == debug_shown(config),
{
}

} // verus!
