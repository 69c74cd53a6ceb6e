//! The configuration of a notes directory, kept in the directory itself:
//! `.bnotes/config.toml`, or else `config.toml`.

use crate::error::{is_storage_error, storage_error, Error};
use crate::storage::Storage;
use crate::text::{chars_of, push_all, string_of};
use vstd::prelude::*;

verus! {

// ---------------------------------------------------------------------------
// The calls into toml
// ---------------------------------------------------------------------------

/// What a TOML document holds under a key.
#[derive(Debug)]
pub enum TomlField {
    /// The text is no TOML document.
    Invalid,
    /// The section exists but is no table.
    NoTable,
    /// There is no such key (or no such section).
    Absent,
    /// The key is there with a string.
    Text(String),
    /// The key is there with a value of another kind.
    Other,
}

/// The mathematical value of a [`TomlField`].
pub enum TomlModel {
    Invalid,
    NoTable,
    Absent,
    Text(Seq<char>),
    Other,
}

impl View for TomlField {
    type V = TomlModel;

    open spec fn view(&self) -> TomlModel {
        match self {
            TomlField::Invalid => TomlModel::Invalid,
            TomlField::NoTable => TomlModel::NoTable,
            TomlField::Absent => TomlModel::Absent,
            TomlField::Text(t) => TomlModel::Text(t@),
            TomlField::Other => TomlModel::Other,
        }
    }
}

/// What `toml` finds under `key` at the top of the document `content`.
pub uninterp spec fn toml_root_field(content: Seq<char>, key: Seq<char>) -> TomlModel;

/// What `toml` finds under `key` in the table `section` of the document
/// `content`.
pub uninterp spec fn toml_section_field(
    content: Seq<char>,
    section: Seq<char>,
    key: Seq<char>,
) -> TomlModel;

/// Parses `content` with `toml::from_str` into a `toml::Table` and looks
/// `key` up in it. The answer is a function of the two texts; it is named
/// `toml_root_field`.
#[verifier::external_body]
pub(crate) fn lookup_toml(content: &str, key: &str) -> (r: TomlField)
    ensures
        r@ == toml_root_field(content@, key@),
{
    match toml::from_str::<toml::Table>(content) {
        Ok(root) => match root.get(key) {
            None => TomlField::Absent,
            Some(toml::Value::String(text)) => TomlField::Text(text.clone()),
            Some(_) => TomlField::Other,
        },
        Err(_) => TomlField::Invalid,
    }
}

/// Parses `content` with `toml::from_str` into a `toml::Table` and looks
/// `key` up in its table `section`. The answer is a function of the three
/// texts; it is named `toml_section_field`.
#[verifier::external_body]
pub(crate) fn lookup_toml_section(content: &str, section: &str, key: &str) -> (r: TomlField)
    ensures
        r@ == toml_section_field(content@, section@, key@),
{
    match toml::from_str::<toml::Table>(content) {
        Ok(root) => match root.get(section) {
            None => TomlField::Absent,
            Some(toml::Value::Table(table)) => match table.get(key) {
                None => TomlField::Absent,
                Some(toml::Value::String(text)) => TomlField::Text(text.clone()),
                Some(_) => TomlField::Other,
            },
            Some(_) => TomlField::NoTable,
        },
        Err(_) => TomlField::Invalid,
    }
}

// ---------------------------------------------------------------------------
// The configuration
// ---------------------------------------------------------------------------

/// The templates of the periodic notes, as file names in the template
/// directory.
#[derive(Debug, Clone, PartialEq, Eq)]
pub struct PeriodicConfig {
    pub daily_template: String,
    pub weekly_template: String,
    pub quarterly_template: String,
}

/// The configuration of a notes directory.
#[derive(Debug, Clone, PartialEq, Eq)]
pub struct LibraryConfig {
    /// The directory of the templates, relative to the notes directory.
    pub template_dir: String,
    pub periodic: PeriodicConfig,
}

/// The mathematical value of a [`LibraryConfig`].
pub struct ConfigView {
    pub template_dir: Seq<char>,
    pub daily_template: Seq<char>,
    pub weekly_template: Seq<char>,
    pub quarterly_template: Seq<char>,
}

impl View for LibraryConfig {
    type V = ConfigView;

    open spec fn view(&self) -> ConfigView {
        ConfigView {
            template_dir: self.template_dir@,
            daily_template: self.periodic.daily_template@,
            weekly_template: self.periodic.weekly_template@,
            quarterly_template: self.periodic.quarterly_template@,
        }
    }
}

/// The template directory where none is configured.
pub fn default_template_dir() -> (r: String)
    ensures
        r@ == ".templates"@,
{
    ".templates".to_owned()
}

/// The daily template where none is configured.
pub fn default_daily_template() -> (r: String)
    ensures
        r@ == "daily.md"@,
{
    "daily.md".to_owned()
}

/// The weekly template where none is configured.
pub fn default_weekly_template() -> (r: String)
    ensures
        r@ == "weekly.md"@,
{
    "weekly.md".to_owned()
}

/// The quarterly template where none is configured.
pub fn default_quarterly_template() -> (r: String)
    ensures
        r@ == "quarterly.md"@,
{
    "quarterly.md".to_owned()
}

/// The configuration in which nothing is configured.
pub open spec fn default_config() -> ConfigView {
    ConfigView {
        template_dir: ".templates"@,
        daily_template: "daily.md"@,
        weekly_template: "weekly.md"@,
        quarterly_template: "quarterly.md"@,
    }
}

impl Default for PeriodicConfig {
    fn default() -> (r: PeriodicConfig)
        ensures
            r.daily_template@ == "daily.md"@,
            r.weekly_template@ == "weekly.md"@,
            r.quarterly_template@ == "quarterly.md"@,
    {
        PeriodicConfig {
            daily_template: default_daily_template(),
            weekly_template: default_weekly_template(),
            quarterly_template: default_quarterly_template(),
        }
    }
}

impl Default for LibraryConfig {
    fn default() -> (r: LibraryConfig)
        ensures
            r@ == default_config(),
    {
        LibraryConfig { template_dir: default_template_dir(), periodic: PeriodicConfig::default() }
    }
}

/// The text that a field configures: the default where the key is absent,
/// the string where it holds one; `None` where it holds anything else or
/// the document is not in order.
pub open spec fn configured(field: TomlModel, default: Seq<char>) -> Option<Seq<char>> {
    match field {
        TomlModel::Absent => Some(default),
        TomlModel::Text(t) => Some(t),
        _ => None,
    }
}

/// The configuration that a TOML text gives; `None` where the text is not
/// in order. Keys that are not known are not looked at.
pub open spec fn config_of(content: Seq<char>) -> Option<ConfigView> {
    match (
        configured(toml_root_field(content, "template_dir"@), ".templates"@),
        configured(toml_section_field(content, "periodic"@, "daily_template"@), "daily.md"@),
        configured(toml_section_field(content, "periodic"@, "weekly_template"@), "weekly.md"@),
        configured(
            toml_section_field(content, "periodic"@, "quarterly_template"@),
            "quarterly.md"@,
        ),
    ) {
        (Some(template_dir), Some(daily_template), Some(weekly_template), Some(quarterly_template)) => Some(
            ConfigView { template_dir, daily_template, weekly_template, quarterly_template },
        ),
        _ => None,
    }
}

fn pick(field: TomlField, default: String) -> (r: Option<String>)
    ensures
        match r {
            Some(t) => configured(field@, default@) == Some(t@),
            None => configured(field@, default@) is None,
        },
{
    match field {
        TomlField::Absent => Some(default),
        TomlField::Text(t) => Some(t),
        _ => None,
    }
}

/// Reads a configuration from the text of a configuration file.
pub fn parse_config(content: &str) -> (r: Option<LibraryConfig>)
    ensures
        match r {
            Some(config) => config_of(content@) == Some(config@),
            None => config_of(content@) is None,
        },
{
    let template_dir = pick(lookup_toml(content, "template_dir"), default_template_dir());
    let daily = pick(
        lookup_toml_section(content, "periodic", "daily_template"),
        default_daily_template(),
    );
    let weekly = pick(
        lookup_toml_section(content, "periodic", "weekly_template"),
        default_weekly_template(),
    );
    let quarterly = pick(
        lookup_toml_section(content, "periodic", "quarterly_template"),
        default_quarterly_template(),
    );
    match (template_dir, daily, weekly, quarterly) {
        (Some(template_dir), Some(daily_template), Some(weekly_template), Some(quarterly_template)) => Some(
            LibraryConfig {
                template_dir,
                periodic: PeriodicConfig { daily_template, weekly_template, quarterly_template },
            },
        ),
        _ => None,
    }
}

/// Where the configuration of a storage is looked for, in this order.
pub open spec fn preferred_config_path() -> Seq<char> {
    ".bnotes/config.toml"@
}

pub open spec fn fallback_config_path() -> Seq<char> {
    "config.toml"@
}

/// The path of the configuration file among the files: the preferred
/// one where it is there, else the other where that is there.
pub open spec fn config_path(files: Map<Seq<char>, Seq<char>>) -> Option<Seq<char>> {
    if files.contains_key(preferred_config_path()) {
        Some(preferred_config_path())
    } else if files.contains_key(fallback_config_path()) {
        Some(fallback_config_path())
    } else {
        None
    }
}

/// The configuration that the files hold: that of their configuration
/// file, where there is one and it is in order.
pub open spec fn stored_config(files: Map<Seq<char>, Seq<char>>) -> Option<ConfigView> {
    match config_path(files) {
        Some(path) => config_of(files[path]),
        None => None,
    }
}

/// Whether loading the configuration of the files ends as it should: with
/// the configuration that they hold; with `ConfigNotFound` where they
/// have no configuration file; with `ConfigInvalid` and the path of the
/// file where it is not in order.
pub open spec fn is_loaded(files: Map<Seq<char>, Seq<char>>, r: Result<ConfigView, Error>) -> bool {
    match r {
        Ok(config) => stored_config(files) == Some(config),
        Err(Error::ConfigNotFound) => config_path(files) is None,
        Err(Error::ConfigInvalid(path)) => config_path(files) == Some(path@) && stored_config(
            files,
        ) is None,
        Err(_) => false,
    }
}

/// The configuration that the files hold, or the defaults where they hold
/// none that is in order.
pub open spec fn config_or_default(files: Map<Seq<char>, Seq<char>>) -> ConfigView {
    match stored_config(files) {
        Some(config) => config,
        None => default_config(),
    }
}

/// The outcome of loading, with the configuration as a value.
pub open spec fn load_outcome(r: Result<LibraryConfig, Error>) -> Result<ConfigView, Error> {
    match r {
        Ok(config) => Ok(config@),
        Err(e) => Err(e),
    }
}

impl LibraryConfig {
    /// Loads the configuration of a notes directory: from
    /// `.bnotes/config.toml` where the storage says that it exists, else
    /// from `config.toml`. Fails where neither exists (`ConfigNotFound`),
    /// where the file cannot be read, and where it is not in order
    /// (`ConfigInvalid`).
    pub fn load<S: Storage>(storage: &S) -> (r: Result<LibraryConfig, Error>)
        ensures
            match r {
                Ok(_) => true,
                Err(Error::ConfigNotFound) => true,
                Err(Error::ConfigInvalid(path)) => path@ == preferred_config_path() || path@
                    == fallback_config_path(),
                Err(e) => is_storage_error(e),
            },
            storage.keeps_account() ==> is_loaded(storage.files(), load_outcome(r)),
    {
        let path = if storage.path_exists(".bnotes/config.toml") {
            ".bnotes/config.toml"
        } else if storage.path_exists("config.toml") {
            "config.toml"
        } else {
            return Err(Error::ConfigNotFound);
        };
        match storage.read_to_string(path) {
            Ok(content) => match parse_config(content.as_str()) {
                Some(config) => Ok(config),
                None => Err(Error::ConfigInvalid(path.to_owned())),
            },
            Err(e) => Err(storage_error(e, path)),
        }
    }

    /// Loads the configuration, or gives the defaults where that fails.
    pub fn load_or_default<S: Storage>(storage: &S) -> (r: LibraryConfig)
        ensures
            storage.keeps_account() ==> r@ == config_or_default(storage.files()),
    {
        match LibraryConfig::load(storage) {
            Ok(config) => config,
            Err(_) => LibraryConfig::default(),
        }
    }

    /// The directory of the templates, relative to the notes directory.
    pub fn template_dir_path(&self) -> (r: &str)
        ensures
            r@ == self.template_dir@,
    {
        self.template_dir.as_str()
    }
}

/// A path below a directory: the two joined by `/`, or the path alone
/// where the directory is the root (the empty text).
pub open spec fn joined(dir: Seq<char>, name: Seq<char>) -> Seq<char> {
    if dir.len() == 0 {
        name
    } else if dir.last() == '/' {
        dir + name
    } else {
        dir + seq!['/'] + name
    }
}

/// Joins a directory and a name below it.
pub fn join_path(dir: &str, name: &str) -> (r: String)
    ensures
        r@ == joined(dir@, name@),
{
    let mut out = chars_of(dir);
    if out.len() > 0 && out[out.len() - 1] != '/' {
        out.push('/');
    }
    push_all(&mut out, &chars_of(name));
    assert(out@ =~= joined(dir@, name@));
    string_of(&out)
}

/// The configuration of the program that keeps a notes directory: where
/// the notes are, the editor, and the settings of the directory.
#[derive(Debug, Clone, PartialEq, Eq)]
pub struct Config {
    pub notes_dir: String,
    pub editor: String,
    pub template_dir: String,
    pub periodic: PeriodicConfig,
}

impl Config {
    /// The template directory as a path of the file system: as it is where
    /// it is absolute (begins with `/`), else below the notes directory.
    pub fn template_dir_path(&self) -> (r: String)
        ensures
            r@ == if self.template_dir@.len() > 0 && self.template_dir@[0] == '/' {
                self.template_dir@
            } else {
                joined(self.notes_dir@, self.template_dir@)
            },
    {
        let dir = chars_of(self.template_dir.as_str());
        if dir.len() > 0 && dir[0] == '/' {
            self.template_dir.clone()
        } else {
            join_path(self.notes_dir.as_str(), self.template_dir.as_str())
        }
    }
}

} // verus!
