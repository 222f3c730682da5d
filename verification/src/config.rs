//! The settings of an installation, read from TOML.
//!
//! A settings file may name any of six keys. A key that is missing leaves
//! its setting at the default; a key whose value is of the wrong kind makes
//! the file invalid; other keys are passed over. Parsing is the `toml`
//! crate's; which keys are read, and what they may hold, is decided here.

use vstd::prelude::*;
use crate::models::view::Config;
use crate::paths::{join_path, joined_path};

verus! {

/// The directory of the settings file, below the user's configuration
/// directory.
pub const CONFIG_DIR_NAME: &'static str = "blazebooru";

/// The name of the settings file.
pub const CONFIG_FILENAME: &'static str = "config.toml";

/// The settings file of a fresh installation.
pub const DEFAULT_CONFIG: &'static str = "# BlazeBooru settings\n\n# Where uploaded files are kept.\n# files-path = \"/var/lib/blazebooru/files\"\n\n# How to reach the database.\n# database-uri = \"postgres://blazebooru@localhost/blazebooru\"\n\n# The secret that access tokens are signed with.\n# jwt-secret = \"\"\n\n# The largest upload that is accepted, in bytes.\nmax-image-size = 10000000\n\n# Whether only users who are logged in may look at posts.\nrequire-login = false\n\n# Whether new users may register.\nallow-registration = true\n";

pub const DEFAULT_MAX_IMAGE_SIZE: usize = 10_000_000;

pub const DEFAULT_REQUIRE_LOGIN: bool = false;

pub const DEFAULT_ALLOW_REGISTRATION: bool = true;

/// The largest upload that is accepted where the settings do not say.
pub fn default_max_image_size() -> (r: usize)
    ensures
        r == DEFAULT_MAX_IMAGE_SIZE,
{
    DEFAULT_MAX_IMAGE_SIZE
}

/// Whether a login is required where the settings do not say.
pub fn default_require_login() -> (r: bool)
    ensures
        r == DEFAULT_REQUIRE_LOGIN,
{
    DEFAULT_REQUIRE_LOGIN
}

/// Whether registration is open where the settings do not say.
pub fn default_allow_registration() -> (r: bool)
    ensures
        r == DEFAULT_ALLOW_REGISTRATION,
{
    DEFAULT_ALLOW_REGISTRATION
}

/// Why settings could not be read.
#[derive(Clone, Copy, Debug, PartialEq, Eq, Structural)]
pub enum ConfigError {
    /// The text is not TOML.
    Syntax,
    /// A setting holds a value of the wrong kind.
    Mismatch,
}

/// What a settings file holds under one key.
#[derive(Debug)]
pub enum Entry {
    /// The file does not name the key.
    Absent,
    Text(String),
    Integer(i64),
    Flag(bool),
    /// A value of another kind: a float, a date, an array or a table.
    Other,
}

/// An `Entry` as contracts see it.
pub enum EntryModel {
    Absent,
    Text(Seq<char>),
    Integer(i64),
    Flag(bool),
    Other,
}

impl View for Entry {
    type V = EntryModel;

    open spec fn view(&self) -> EntryModel {
        match self {
            Entry::Absent => EntryModel::Absent,
            Entry::Text(s) => EntryModel::Text(s@),
            Entry::Integer(i) => EntryModel::Integer(*i),
            Entry::Flag(b) => EntryModel::Flag(*b),
            Entry::Other => EntryModel::Other,
        }
    }
}

/// What the TOML document `text` holds under `key` at its top level;
/// `None` where `text` is no TOML document.
pub uninterp spec fn toml_entry_of(text: Seq<char>, key: Seq<char>) -> Option<EntryModel>;

/// `str::parse::<toml::Table>` followed by `toml::map::Map::get`: parses
/// `text` as a TOML document and looks `key` up in its top-level table. The
/// answer depends on the two texts alone.
#[verifier::external_body]
fn toml_entry(text: &str, key: &str) -> (r: Option<Entry>)
    ensures
        r is Some == toml_entry_of(text@, key@) is Some,
        r matches Some(entry) ==> Some(entry@) == toml_entry_of(text@, key@),
{
    match text.parse::<toml::Table>() {
        Err(_) => None,
        Ok(table) => Some(
            match table.get(key) {
                None => Entry::Absent,
                Some(toml::Value::String(s)) => Entry::Text(s.clone()),
                Some(toml::Value::Integer(i)) => Entry::Integer(*i),
                Some(toml::Value::Boolean(b)) => Entry::Flag(*b),
                Some(_) => Entry::Other,
            },
        ),
    }
}

/// The settings of an installation.
#[derive(Debug)]
pub struct BlazeBooruConfig {
    pub files_path: Option<String>,
    pub database_uri: Option<String>,
    pub jwt_secret: Option<String>,
    pub max_image_size: usize,
    pub require_login: bool,
    pub allow_registration: bool,
}

/// Settings as contracts see them.
pub struct ConfigModel {
    pub files_path: Option<Seq<char>>,
    pub database_uri: Option<Seq<char>>,
    pub jwt_secret: Option<Seq<char>>,
    pub max_image_size: usize,
    pub require_login: bool,
    pub allow_registration: bool,
}

/// An optional text as contracts see it.
pub open spec fn text_view(text: Option<String>) -> Option<Seq<char>> {
    match text {
        Some(s) => Some(s@),
        None => None,
    }
}

impl View for BlazeBooruConfig {
    type V = ConfigModel;

    open spec fn view(&self) -> ConfigModel {
        ConfigModel {
            files_path: text_view(self.files_path),
            database_uri: text_view(self.database_uri),
            jwt_secret: text_view(self.jwt_secret),
            max_image_size: self.max_image_size,
            require_login: self.require_login,
            allow_registration: self.allow_registration,
        }
    }
}

/// A setting that holds a text, or nothing where the key is missing.
/// `None` where the value is no text.
pub open spec fn text_setting(entry: EntryModel) -> Option<Option<Seq<char>>> {
    match entry {
        EntryModel::Absent => Some(None),
        EntryModel::Text(s) => Some(Some(s)),
        _ => None,
    }
}

/// A setting that holds a size. `None` where the value is no number that
/// a size can be.
pub open spec fn size_setting(entry: EntryModel, otherwise: usize) -> Option<usize> {
    match entry {
        EntryModel::Absent => Some(otherwise),
        EntryModel::Integer(i) => if 0 <= i <= usize::MAX {
            Some(i as usize)
        } else {
            None
        },
        _ => None,
    }
}

/// A setting that is on or off. `None` where the value is neither.
pub open spec fn flag_setting(entry: EntryModel, otherwise: bool) -> Option<bool> {
    match entry {
        EntryModel::Absent => Some(otherwise),
        EntryModel::Flag(b) => Some(b),
        _ => None,
    }
}

/// The settings that six entries make, where each is of its kind.
pub open spec fn settled(
    files_path: EntryModel,
    database_uri: EntryModel,
    jwt_secret: EntryModel,
    max_image_size: EntryModel,
    require_login: EntryModel,
    allow_registration: EntryModel,
) -> Result<ConfigModel, ConfigError> {
    if text_setting(files_path) is Some && text_setting(database_uri) is Some && text_setting(jwt_secret) is Some
        && size_setting(max_image_size, DEFAULT_MAX_IMAGE_SIZE) is Some && flag_setting(
        require_login,
        DEFAULT_REQUIRE_LOGIN,
    ) is Some && flag_setting(allow_registration, DEFAULT_ALLOW_REGISTRATION) is Some {
        Ok(
            ConfigModel {
                files_path: text_setting(files_path).unwrap(),
                database_uri: text_setting(database_uri).unwrap(),
                jwt_secret: text_setting(jwt_secret).unwrap(),
                max_image_size: size_setting(max_image_size, DEFAULT_MAX_IMAGE_SIZE).unwrap(),
                require_login: flag_setting(require_login, DEFAULT_REQUIRE_LOGIN).unwrap(),
                allow_registration: flag_setting(allow_registration, DEFAULT_ALLOW_REGISTRATION).unwrap(),
            },
        )
    } else {
        Err(ConfigError::Mismatch)
    }
}

/// The settings that a text holds.
pub open spec fn settings_of(text: Seq<char>) -> Result<ConfigModel, ConfigError> {
    let files_path = toml_entry_of(text, "files-path"@);
    let database_uri = toml_entry_of(text, "database-uri"@);
    let jwt_secret = toml_entry_of(text, "jwt-secret"@);
    let max_image_size = toml_entry_of(text, "max-image-size"@);
    let require_login = toml_entry_of(text, "require-login"@);
    let allow_registration = toml_entry_of(text, "allow-registration"@);
    if files_path is Some && database_uri is Some && jwt_secret is Some && max_image_size is Some
        && require_login is Some && allow_registration is Some {
        settled(
            files_path.unwrap(),
            database_uri.unwrap(),
            jwt_secret.unwrap(),
            max_image_size.unwrap(),
            require_login.unwrap(),
            allow_registration.unwrap(),
        )
    } else {
        Err(ConfigError::Syntax)
    }
}

/// Whether `r` is what reading settings owes, given what the text holds.
pub open spec fn reads_as(r: Result<BlazeBooruConfig, ConfigError>, owed: Result<ConfigModel, ConfigError>) -> bool {
    match owed {
        Ok(model) => r is Ok && r.unwrap()@ == model,
        Err(e) => r is Err && r.unwrap_err() == e,
    }
}

fn text_from(entry: Entry) -> (r: Option<Option<String>>)
    ensures
        r is Some == text_setting(entry@) is Some,
        r matches Some(value) ==> Some(text_view(value)) == text_setting(entry@),
{
    match entry {
        Entry::Absent => Some(None),
        Entry::Text(s) => Some(Some(s)),
        _ => None,
    }
}

fn size_from(entry: Entry, otherwise: usize) -> (r: Option<usize>)
    ensures
        r == size_setting(entry@, otherwise),
{
    match entry {
        Entry::Absent => Some(otherwise),
        Entry::Integer(i) => if i >= 0 && i as u64 <= usize::MAX as u64 {
            Some(i as usize)
        } else {
            None
        },
        _ => None,
    }
}

fn flag_from(entry: Entry, otherwise: bool) -> (r: Option<bool>)
    ensures
        r == flag_setting(entry@, otherwise),
{
    match entry {
        Entry::Absent => Some(otherwise),
        Entry::Flag(b) => Some(b),
        _ => None,
    }
}

impl Default for BlazeBooruConfig {
    /// Nothing set, nothing allowed.
    fn default() -> (r: BlazeBooruConfig)
        ensures
            r.files_path is None,
            r.database_uri is None,
            r.jwt_secret is None,
            r.max_image_size == 0,
            !r.require_login,
            !r.allow_registration,
    {
        BlazeBooruConfig {
            files_path: None,
            database_uri: None,
            jwt_secret: None,
            max_image_size: 0,
            require_login: false,
            allow_registration: false,
        }
    }
}

impl BlazeBooruConfig {
    /// The settings that six entries of a settings file make.
    pub fn from_entries(
        files_path: Entry,
        database_uri: Entry,
        jwt_secret: Entry,
        max_image_size: Entry,
        require_login: Entry,
        allow_registration: Entry,
    ) -> (r: Result<BlazeBooruConfig, ConfigError>)
        ensures
            reads_as(
                r,
                settled(
                    files_path@,
                    database_uri@,
                    jwt_secret@,
                    max_image_size@,
                    require_login@,
                    allow_registration@,
                ),
            ),
    {
        let files_path = text_from(files_path);
        let database_uri = text_from(database_uri);
        let jwt_secret = text_from(jwt_secret);
        let max_image_size = size_from(max_image_size, DEFAULT_MAX_IMAGE_SIZE);
        let require_login = flag_from(require_login, DEFAULT_REQUIRE_LOGIN);
        let allow_registration = flag_from(allow_registration, DEFAULT_ALLOW_REGISTRATION);
        match (files_path, database_uri, jwt_secret, max_image_size, require_login, allow_registration) {
            (
                Some(files_path),
                Some(database_uri),
                Some(jwt_secret),
                Some(max_image_size),
                Some(require_login),
                Some(allow_registration),
            ) => Ok(
                BlazeBooruConfig {
                    files_path,
                    database_uri,
                    jwt_secret,
                    max_image_size,
                    require_login,
                    allow_registration,
                },
            ),
            _ => Err(ConfigError::Mismatch),
        }
    }

    /// Reads settings from the text of a settings file.
    pub fn from_str(s: &str) -> (r: Result<BlazeBooruConfig, ConfigError>)
        ensures
            reads_as(r, settings_of(s@)),
    {
        let files_path = toml_entry(s, "files-path");
        let database_uri = toml_entry(s, "database-uri");
        let jwt_secret = toml_entry(s, "jwt-secret");
        let max_image_size = toml_entry(s, "max-image-size");
        let require_login = toml_entry(s, "require-login");
        let allow_registration = toml_entry(s, "allow-registration");
        match (files_path, database_uri, jwt_secret, max_image_size, require_login, allow_registration) {
            (
                Some(files_path),
                Some(database_uri),
                Some(jwt_secret),
                Some(max_image_size),
                Some(require_login),
                Some(allow_registration),
            ) => BlazeBooruConfig::from_entries(
                files_path,
                database_uri,
                jwt_secret,
                max_image_size,
                require_login,
                allow_registration,
            ),
            _ => Err(ConfigError::Syntax),
        }
    }

    /// Where the settings of this user are kept: where the environment
    /// says, or else in this program's directory below the user's
    /// configuration directory, if the system names one.
    pub fn default_location(from_environment: Option<String>, config_dir: Option<String>) -> (r: Option<String>)
        ensures
            from_environment is Some ==> r == from_environment,
            from_environment is None && config_dir is None ==> r is None,
            from_environment is None && config_dir is Some ==> r is Some && r.unwrap()@ == joined_path(
                config_dir.unwrap()@,
                CONFIG_DIR_NAME@,
            ),
    {
        match from_environment {
            Some(path) => Some(path),
            None => match config_dir {
                Some(dir) => Some(join_path(dir.as_str(), CONFIG_DIR_NAME)),
                None => None,
            },
        }
    }

    /// The settings file in the directory `path`.
    pub fn path_from_location(path: &str) -> (r: String)
        ensures
            r@ == joined_path(path@, CONFIG_FILENAME@),
    {
        join_path(path, CONFIG_FILENAME)
    }

    /// The settings of the installation whose settings file holds
    /// `contents`; where there is no such file, the settings of a fresh
    /// installation.
    pub fn from_location(contents: Option<&str>) -> (r: Result<BlazeBooruConfig, ConfigError>)
        ensures
            reads_as(
                r,
                settings_of(
                    match contents {
                        Some(text) => text@,
                        None => DEFAULT_CONFIG@,
                    },
                ),
            ),
    {
        match contents {
            Some(text) => BlazeBooruConfig::from_str(text),
            None => BlazeBooruConfig::load_default(),
        }
    }

    /// The settings of this user: those of the settings file at the
    /// default location, and those of a fresh installation where there is
    /// no such location or no file there.
    pub fn from_default_location(location: Option<&str>, contents: Option<&str>) -> (r: Result<
        BlazeBooruConfig,
        ConfigError,
    >)
        ensures
            reads_as(
                r,
                settings_of(
                    if location is Some && contents is Some {
                        contents.unwrap()@
                    } else {
                        DEFAULT_CONFIG@
                    },
                ),
            ),
    {
        match location {
            Some(_) => BlazeBooruConfig::from_location(contents),
            None => BlazeBooruConfig::load_default(),
        }
    }

    /// The settings of a fresh installation.
    pub fn load_default() -> (r: Result<BlazeBooruConfig, ConfigError>)
        ensures
            reads_as(r, settings_of(DEFAULT_CONFIG@)),
    {
        BlazeBooruConfig::from_str(DEFAULT_CONFIG)
    }

    /// The settings that clients may know.
    pub fn shown(&self) -> (r: Config)
        ensures
            r == (Config { max_image_size: self.max_image_size, require_login: self.require_login }),
    {
        Config { max_image_size: self.max_image_size, require_login: self.require_login }
    }

    /// The settings file to write for a fresh installation: its path and
    /// its text. Nothing is to be written where there is no default
    /// location, and where a settings file is there already.
    pub fn write_default(location: Option<&str>, present: bool) -> (r: Option<(String, &'static str)>)
        ensures
            r is Some == (location is Some && !present),
            r matches Some(file) ==> file.0@ == joined_path(location.unwrap()@, CONFIG_FILENAME@) && file.1@
                == DEFAULT_CONFIG@,
    {
        match location {
            Some(path) => if present {
                None
            } else {
                Some((BlazeBooruConfig::path_from_location(path), DEFAULT_CONFIG))
            },
            None => None,
        }
    }
}

/// The settings file to write for a fresh installation, if any.
pub fn generate_default_config(location: Option<&str>, present: bool) -> (r: Option<(String, &'static str)>)
    ensures
        r is Some == (location is Some && !present),
        r matches Some(file) ==> file.0@ == joined_path(location.unwrap()@, CONFIG_FILENAME@) && file.1@
            == DEFAULT_CONFIG@,
{
    BlazeBooruConfig::write_default(location, present)
}

} // verus!
