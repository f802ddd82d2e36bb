//! Configuration from `EMULATOR_*` variables.
use crate::text::{
    cat2, cat3, debug_text, decimal, holds_text, items, lemma_texts_push, opt_text,
    parse_unsigned, quoted, same_text, split_items, texts, unsigned_value,
};
use crate::text_laws::law_decimal_reads_back;
use vstd::prelude::*;

verus! {

pub const DEFAULT_PORT: u16 = 8080;

pub const DEFAULT_API_VERSION: &'static str = "2024-07-01";

pub const DEFAULT_LOG_LEVEL: &'static str = "info";

/// Default cap on accepted vector dimensions (lowerable for
/// memory-constrained use via `EMULATOR_VECTOR__MAX_DIMENSION`).
pub const DEFAULT_VECTOR_MAX_DIMENSION: usize = 3072;

#[derive(Debug, Clone, Copy, PartialEq, Eq, Structural)]
pub enum StorageMode {
    Memory,
    File,
}

impl StorageMode {
    pub open spec fn name(self) -> Seq<char> {
        match self {
            StorageMode::Memory => "memory"@,
            StorageMode::File => "file"@,
        }
    }

    /// The mode as it is configured.
    pub fn as_str(self) -> (r: &'static str)
        ensures
            r@ == self.name(),
    {
        match self {
            StorageMode::Memory => "memory",
            StorageMode::File => "file",
        }
    }
}

#[derive(Debug)]
pub struct Config {
    pub port: u16,
    pub storage_mode: StorageMode,
    pub api_versions: Vec<String>,
    pub log_level: String,
    pub enable_admin: bool,
    pub max_vector_dimension: usize,
}

/// The mathematical value of a [`Config`].
pub struct ConfigV {
    pub port: u16,
    pub storage_mode: StorageMode,
    pub api_versions: Seq<Seq<char>>,
    pub log_level: Seq<char>,
    pub enable_admin: bool,
    pub max_vector_dimension: usize,
}

impl View for Config {
    type V = ConfigV;

    open spec fn view(&self) -> ConfigV {
        ConfigV {
            port: self.port,
            storage_mode: self.storage_mode,
            api_versions: texts(self.api_versions@),
            log_level: self.log_level@,
            enable_admin: self.enable_admin,
            max_vector_dimension: self.max_vector_dimension,
        }
    }
}

#[derive(Debug, PartialEq, Eq)]
pub enum ConfigError {
    InvalidPort(String),
    InvalidStorageMode(String),
    InvalidApiVersions(String),
    InvalidBool(String),
    InvalidMaxVectorDimension(String),
}

/// The mathematical value of a [`ConfigError`].
pub enum ConfigErrorV {
    InvalidPort(Seq<char>),
    InvalidStorageMode(Seq<char>),
    InvalidApiVersions(Seq<char>),
    InvalidBool(Seq<char>),
    InvalidMaxVectorDimension(Seq<char>),
}

impl View for ConfigError {
    type V = ConfigErrorV;

    open spec fn view(&self) -> ConfigErrorV {
        match self {
            ConfigError::InvalidPort(v) => ConfigErrorV::InvalidPort(v@),
            ConfigError::InvalidStorageMode(v) => ConfigErrorV::InvalidStorageMode(v@),
            ConfigError::InvalidApiVersions(v) => ConfigErrorV::InvalidApiVersions(v@),
            ConfigError::InvalidBool(v) => ConfigErrorV::InvalidBool(v@),
            ConfigError::InvalidMaxVectorDimension(v) => ConfigErrorV::InvalidMaxVectorDimension(
                v@,
            ),
        }
    }
}

impl ConfigErrorV {
    pub open spec fn text(self) -> Seq<char> {
        match self {
            ConfigErrorV::InvalidPort(v) => "invalid EMULATOR_PORT value: "@ + debug_text(v),
            ConfigErrorV::InvalidStorageMode(v) => "invalid EMULATOR_STORAGE__MODE value: "@
                + debug_text(v) + " (expected \"memory\" or \"file\")"@,
            ConfigErrorV::InvalidApiVersions(v) => "invalid EMULATOR_API_VERSIONS value: "@
                + debug_text(v),
            ConfigErrorV::InvalidBool(v) => "invalid boolean value: "@ + v,
            ConfigErrorV::InvalidMaxVectorDimension(v) =>
                "invalid EMULATOR_VECTOR__MAX_DIMENSION value: "@ + debug_text(v),
        }
    }
}

impl ConfigError {
    /// The error as a message.
    pub fn to_text(&self) -> (r: String)
        ensures
            r@ == self@.text(),
    {
        match self {
            ConfigError::InvalidPort(v) => cat2(
                "invalid EMULATOR_PORT value: ",
                quoted(v.as_str()).as_str(),
            ),
            ConfigError::InvalidStorageMode(v) => cat3(
                "invalid EMULATOR_STORAGE__MODE value: ",
                quoted(v.as_str()).as_str(),
                " (expected \"memory\" or \"file\")",
            ),
            ConfigError::InvalidApiVersions(v) => cat2(
                "invalid EMULATOR_API_VERSIONS value: ",
                quoted(v.as_str()).as_str(),
            ),
            ConfigError::InvalidBool(v) => cat2("invalid boolean value: ", v.as_str()),
            ConfigError::InvalidMaxVectorDimension(v) => cat2(
                "invalid EMULATOR_VECTOR__MAX_DIMENSION value: ",
                quoted(v.as_str()).as_str(),
            ),
        }
    }
}

/// The values of the `EMULATOR_*` variables, where they are set.
pub struct Settings {
    pub port: Option<String>,
    pub storage_mode: Option<String>,
    pub api_versions: Option<String>,
    pub log_level: Option<String>,
    pub enable_admin: Option<String>,
    pub max_vector_dimension: Option<String>,
}

/// A variable that is set to something; the empty value is as none.
pub open spec fn set_value(o: Option<String>) -> Option<Seq<char>> {
    match o {
        Some(s) => if s@.len() > 0 {
            Some(s@)
        } else {
            None
        },
        None => None,
    }
}

pub open spec fn port_of(o: Option<Seq<char>>) -> Result<u16, ConfigErrorV> {
    match o {
        None => Ok(DEFAULT_PORT),
        Some(raw) => match unsigned_value(raw, u16::MAX as nat) {
            Some(n) => Ok(n as u16),
            None => Err(ConfigErrorV::InvalidPort(raw)),
        },
    }
}

pub open spec fn storage_mode_of(o: Option<Seq<char>>) -> Result<StorageMode, ConfigErrorV> {
    match o {
        None => Ok(StorageMode::Memory),
        Some(raw) => if raw == "memory"@ {
            Ok(StorageMode::Memory)
        } else if raw == "file"@ {
            Ok(StorageMode::File)
        } else {
            Err(ConfigErrorV::InvalidStorageMode(raw))
        },
    }
}

/// The API versions of a comma-separated list.
pub open spec fn api_versions_of(o: Option<Seq<char>>) -> Result<Seq<Seq<char>>, ConfigErrorV> {
    match o {
        None => Ok(seq![DEFAULT_API_VERSION@]),
        Some(raw) => if items(raw, ',').len() == 0 {
            Err(ConfigErrorV::InvalidApiVersions(raw))
        } else {
            Ok(items(raw, ','))
        },
    }
}

pub open spec fn enable_admin_of(o: Option<Seq<char>>) -> Result<bool, ConfigErrorV> {
    match o {
        None => Ok(true),
        Some(raw) => if raw == "true"@ || raw == "1"@ {
            Ok(true)
        } else if raw == "false"@ || raw == "0"@ {
            Ok(false)
        } else {
            Err(ConfigErrorV::InvalidBool("EMULATOR_ENABLE_ADMIN="@ + debug_text(raw)))
        },
    }
}

pub open spec fn max_dimension_of(o: Option<Seq<char>>) -> Result<usize, ConfigErrorV> {
    match o {
        None => Ok(DEFAULT_VECTOR_MAX_DIMENSION),
        Some(raw) => match unsigned_value(raw, usize::MAX as nat) {
            Some(n) => if n > 0 {
                Ok(n as usize)
            } else {
                Err(ConfigErrorV::InvalidMaxVectorDimension(raw))
            },
            None => Err(ConfigErrorV::InvalidMaxVectorDimension(raw)),
        },
    }
}

/// The configuration that variables make, or the first of them in the order of
/// the fields that is invalid.
pub open spec fn config_of(s: Settings) -> Result<ConfigV, ConfigErrorV> {
    match port_of(set_value(s.port)) {
        Err(e) => Err(e),
        Ok(port) => match storage_mode_of(set_value(s.storage_mode)) {
            Err(e) => Err(e),
            Ok(storage_mode) => match api_versions_of(set_value(s.api_versions)) {
                Err(e) => Err(e),
                Ok(api_versions) => match enable_admin_of(set_value(s.enable_admin)) {
                    Err(e) => Err(e),
                    Ok(enable_admin) => match max_dimension_of(
                        set_value(s.max_vector_dimension),
                    ) {
                        Err(e) => Err(e),
                        Ok(max_vector_dimension) => Ok(
                            ConfigV {
                                port,
                                storage_mode,
                                api_versions,
                                log_level: match set_value(s.log_level) {
                                    Some(level) => level,
                                    None => DEFAULT_LOG_LEVEL@,
                                },
                                enable_admin,
                                max_vector_dimension,
                            },
                        ),
                    },
                },
            },
        },
    }
}

pub open spec fn config_result(r: Result<Config, ConfigError>) -> Result<ConfigV, ConfigErrorV> {
    match r {
        Ok(c) => Ok(c@),
        Err(e) => Err(e@),
    }
}

fn nonempty(o: Option<String>) -> (r: Option<String>)
    ensures
        opt_text(r) == set_value(o),
{
    match o {
        Some(s) => {
            if s.as_str().is_empty() {
                None
            } else {
                Some(s)
            }
        },
        None => None,
    }
}

/// Whether a lookup gives the values of the settings for their variables.
pub open spec fn looked_up<F: Fn(&str) -> Option<String>>(lookup: F, s: Settings) -> bool {
    &&& call_ensures(lookup, ("EMULATOR_PORT",), s.port)
    &&& call_ensures(lookup, ("EMULATOR_STORAGE__MODE",), s.storage_mode)
    &&& call_ensures(lookup, ("EMULATOR_API_VERSIONS",), s.api_versions)
    &&& call_ensures(lookup, ("EMULATOR_LOG_LEVEL",), s.log_level)
    &&& call_ensures(lookup, ("EMULATOR_ENABLE_ADMIN",), s.enable_admin)
    &&& call_ensures(lookup, ("EMULATOR_VECTOR__MAX_DIMENSION",), s.max_vector_dimension)
}

impl Config {
    /// Builds configuration from a variable lookup, applying defaults for any
    /// variable that is unset or empty.
    pub fn from_values<F>(lookup: F) -> (r: Result<Config, ConfigError>) where
        F: Fn(&str) -> Option<String>,

        requires
            forall|key: &str| call_requires(lookup, (key,)),
        ensures
            exists|s: Settings| looked_up(lookup, s) && config_result(r) == config_of(s),
    {
        let settings = Settings {
            port: lookup("EMULATOR_PORT"),
            storage_mode: lookup("EMULATOR_STORAGE__MODE"),
            api_versions: lookup("EMULATOR_API_VERSIONS"),
            log_level: lookup("EMULATOR_LOG_LEVEL"),
            enable_admin: lookup("EMULATOR_ENABLE_ADMIN"),
            max_vector_dimension: lookup("EMULATOR_VECTOR__MAX_DIMENSION"),
        };
        let ghost s = settings;
        assert(looked_up(lookup, s));
        Config::from_settings(settings)
    }

    /// Builds configuration from the values of the variables.
    pub fn from_settings(settings: Settings) -> (r: Result<Config, ConfigError>)
        ensures
            config_result(r) == config_of(settings),
    {
        broadcast use lemma_texts_push;

        let port = match nonempty(settings.port) {
            None => DEFAULT_PORT,
            Some(raw) => match parse_unsigned(raw.as_str(), u16::MAX as u64) {
                Some(n) => n as u16,
                None => {
                    return Err(ConfigError::InvalidPort(raw));
                },
            },
        };
        let storage_mode = match nonempty(settings.storage_mode) {
            None => StorageMode::Memory,
            Some(raw) => {
                if same_text(raw.as_str(), "memory") {
                    StorageMode::Memory
                } else if same_text(raw.as_str(), "file") {
                    StorageMode::File
                } else {
                    return Err(ConfigError::InvalidStorageMode(raw));
                }
            },
        };
        let api_versions = match nonempty(settings.api_versions) {
            None => {
                let mut list: Vec<String> = Vec::new();
                list.push(DEFAULT_API_VERSION.to_owned());
                assert(texts(list@) =~= seq![DEFAULT_API_VERSION@]);
                list
            },
            Some(raw) => {
                let list = split_items(raw.as_str(), ',');
                assert(texts(list@).len() == list@.len());
                if list.len() == 0 {
                    return Err(ConfigError::InvalidApiVersions(raw));
                }
                list
            },
        };
        let log_level = match nonempty(settings.log_level) {
            Some(level) => level,
            None => DEFAULT_LOG_LEVEL.to_owned(),
        };
        let enable_admin = match nonempty(settings.enable_admin) {
            None => true,
            Some(raw) => {
                if same_text(raw.as_str(), "true") || same_text(raw.as_str(), "1") {
                    true
                } else if same_text(raw.as_str(), "false") || same_text(raw.as_str(), "0") {
                    false
                } else {
                    return Err(
                        ConfigError::InvalidBool(
                            cat2("EMULATOR_ENABLE_ADMIN=", quoted(raw.as_str()).as_str()),
                        ),
                    );
                }
            },
        };
        let max_vector_dimension = match nonempty(settings.max_vector_dimension) {
            None => DEFAULT_VECTOR_MAX_DIMENSION,
            Some(raw) => match parse_unsigned(raw.as_str(), usize::MAX as u64) {
                Some(n) => {
                    if n == 0 {
                        return Err(ConfigError::InvalidMaxVectorDimension(raw));
                    }
                    n as usize
                },
                None => {
                    return Err(ConfigError::InvalidMaxVectorDimension(raw));
                },
            },
        };
        Ok(
            Config {
                port,
                storage_mode,
                api_versions,
                log_level,
                enable_admin,
                max_vector_dimension,
            },
        )
    }

    pub fn supports_api_version(&self, version: &str) -> (r: bool)
        ensures
            r == self@.api_versions.contains(version@),
    {
        holds_text(&self.api_versions, version)
    }
}

/// With no variable set the configuration is the default one, and an empty
/// value is as none.
pub proof fn law_defaults(s: Settings)
    requires
        set_value(s.port) is None,
        set_value(s.storage_mode) is None,
        set_value(s.api_versions) is None,
        set_value(s.log_level) is None,
        set_value(s.enable_admin) is None,
        set_value(s.max_vector_dimension) is None,
    ensures
        config_of(s) == Ok::<_, ConfigErrorV>(
            ConfigV {
                port: DEFAULT_PORT,
                storage_mode: StorageMode::Memory,
                api_versions: seq![DEFAULT_API_VERSION@],
                log_level: DEFAULT_LOG_LEVEL@,
                enable_admin: true,
                max_vector_dimension: DEFAULT_VECTOR_MAX_DIMENSION,
            },
        ),
{
}

/// A configuration supports at least one API version and a vector dimension.
pub proof fn law_config_is_usable(s: Settings)
    requires
        config_of(s) is Ok,
    ensures
        config_of(s)->Ok_0.api_versions.len() > 0,
        config_of(s)->Ok_0.max_vector_dimension > 0,
{
}

/// A configuration is as the variables say: a port and a dimension are numbers that fit,
/// the dimension is positive, the versions are the items of a list, and the storage is
/// `memory` or `file`.
pub proof fn law_settings(
    s: Settings,
    c: ConfigV,
    port: u16,
    dimension: usize,
    versions: Seq<char>,
)
    requires
        config_of(s) == Ok::<ConfigV, ConfigErrorV>(c),
    ensures
        set_value(s.port) == Some(decimal(port as nat)) ==> c.port == port,
        set_value(s.max_vector_dimension) == Some(decimal(dimension as nat)) && dimension > 0
            ==> c.max_vector_dimension == dimension,
        set_value(s.api_versions) == Some(versions) ==> c.api_versions == items(versions, ','),
        set_value(s.storage_mode) == Some("file"@) ==> c.storage_mode is File,
        set_value(s.storage_mode) == Some("memory"@) ==> c.storage_mode is Memory,
        set_value(s.enable_admin) == Some("true"@) ==> c.enable_admin,
        set_value(s.enable_admin) == Some("false"@) ==> !c.enable_admin,
        set_value(s.log_level) == Some(versions) ==> c.log_level == versions,
{
    law_decimal_reads_back(port as nat);
    law_decimal_reads_back(dimension as nat);
    reveal_strlit("file");
    reveal_strlit("memory");
    reveal_strlit("true");
    reveal_strlit("false");
    reveal_strlit("1");
    reveal_strlit("0");
    assert("file"@.len() == 4 && "memory"@.len() == 6 && "true"@.len() == 4);
    assert("false"@.len() == 5 && "1"@.len() == 1 && "0"@.len() == 1);
}

} // verus!
