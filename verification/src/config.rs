//! Startup settings.
//!
//! The relay is configured through a handful of environment variables. The
//! process reads them; this module turns what was read into settings: it
//! applies the defaults, converts units, and works out where the identity
//! key lives when no path is given.

use crate::numbers::{parse_decimal, parsed_decimal};
use crate::storage::{LocalStorageConfig, StorageConfig};
use vstd::prelude::*;

verus! {

/// Frames the bus retains when `KODAMA_BUFFER_SIZE` gives no number.
pub const DEFAULT_BUFFER_CAPACITY: usize = 512;

/// Port of the web server when `KODAMA_WEB_PORT` gives no number.
pub const DEFAULT_WEB_PORT: u16 = 3000;

/// Size limit of the recording, in gigabytes, when `KODAMA_STORAGE_MAX_GB`
/// gives no number.
pub const DEFAULT_STORAGE_MAX_GB: u64 = 10;

/// Days a recording is kept when `KODAMA_RETENTION_DAYS` gives no number.
pub const DEFAULT_RETENTION_DAYS: u64 = 7;

/// Age at which a segment is due to be sealed: one minute.
pub const SEGMENT_DURATION_US: u64 = 60_000_000;

/// Seconds between two cleanups: one hour.
pub const CLEANUP_INTERVAL_SECS: u64 = 3600;

/// Bytes in a gigabyte.
pub const BYTES_PER_GB: u64 = 1_073_741_824;

/// Seconds in a day.
pub const SECS_PER_DAY: u64 = 86_400;

/// The operating system the relay runs on.
#[derive(Clone, Copy, Debug, PartialEq, Eq, Structural)]
pub enum Platform {
    Linux,
    MacOs,
    Windows,
    Other,
}

/// Why the settings cannot be used.
#[derive(Clone, Copy, Debug, PartialEq, Eq, Structural)]
pub enum ConfigError {
    /// The size limit in gigabytes is more bytes than can be counted.
    StorageLimitTooLarge,
    /// The retention in days is more seconds than can be counted.
    RetentionTooLong,
}

/// What the process found in its environment.
#[derive(Clone, Debug, PartialEq, Eq)]
pub struct Environment {
    /// The operating system.
    pub platform: Platform,
    /// `KODAMA_KEY_PATH`
    pub key_path: Option<String>,
    /// `KODAMA_BUFFER_SIZE`
    pub buffer_size: Option<String>,
    /// `KODAMA_WEB_PORT`
    pub web_port: Option<String>,
    /// `KODAMA_STORAGE_PATH`
    pub storage_path: Option<String>,
    /// `KODAMA_STORAGE_MAX_GB`
    pub storage_max_gb: Option<String>,
    /// `KODAMA_RETENTION_DAYS`
    pub retention_days: Option<String>,
    /// `XDG_DATA_HOME`
    pub xdg_data_home: Option<String>,
    /// `HOME`
    pub home: Option<String>,
    /// `APPDATA`
    pub appdata: Option<String>,
}

/// Settings of the recording.
#[derive(Clone, Debug, PartialEq, Eq)]
pub struct RecordingSettings {
    /// Settings of the segment store.
    pub local: LocalStorageConfig,
    /// Policy of the recording.
    pub policy: StorageConfig,
}

/// Settings of the relay.
#[derive(Clone, Debug, PartialEq, Eq)]
pub struct ServerSettings {
    /// File that holds the relay's identity key.
    pub key_path: String,
    /// Frames the bus retains.
    pub buffer_capacity: usize,
    /// Port of the web server.
    pub web_port: u16,
    /// Settings of the recording; `None` when nothing is recorded.
    pub recording: Option<RecordingSettings>,
}

/// The characters of a text that may be missing.
pub open spec fn text_of(raw: Option<&str>) -> Option<Seq<char>> {
    match raw {
        Some(text) => Some(text@),
        None => None,
    }
}

/// The characters of a string that may be missing.
pub open spec fn string_of(raw: Option<String>) -> Option<Seq<char>> {
    match raw {
        Some(text) => Some(text@),
        None => None,
    }
}

/// The number a setting gives: the number its text spells if that is at
/// most `max`, and the default when the text is missing or spells none.
pub open spec fn number_or(raw: Option<Seq<char>>, max: nat, default: nat) -> nat {
    match raw {
        Some(text) => match parsed_decimal(text, max) {
            Some(n) => n,
            None => default,
        },
        None => default,
    }
}

fn read_number(raw: Option<&str>, max: u64, default: u64) -> (n: u64)
    ensures
        n == number_or(text_of(raw), max as nat, default as nat),
{
    match raw {
        Some(text) => match parse_decimal(text, max) {
            Some(n) => n,
            None => default,
        },
        None => default,
    }
}

fn borrowed(raw: &Option<String>) -> (text: Option<&str>)
    ensures
        text_of(text) == string_of(*raw),
{
    match raw {
        Some(text) => Some(text.as_str()),
        None => None,
    }
}

/// Frames the bus retains: what `KODAMA_BUFFER_SIZE` says, else 512.
pub fn buffer_capacity(raw: Option<&str>) -> (capacity: usize)
    ensures
        capacity == number_or(text_of(raw), usize::MAX as nat, DEFAULT_BUFFER_CAPACITY as nat),
{
    read_number(raw, usize::MAX as u64, DEFAULT_BUFFER_CAPACITY as u64) as usize
}

/// Port of the web server: what `KODAMA_WEB_PORT` says, else 3000.
pub fn web_port(raw: Option<&str>) -> (port: u16)
    ensures
        port == number_or(text_of(raw), u16::MAX as nat, DEFAULT_WEB_PORT as nat),
{
    read_number(raw, u16::MAX as u64, DEFAULT_WEB_PORT as u64) as u16
}

/// Size limit of the recording in gigabytes: what `KODAMA_STORAGE_MAX_GB`
/// says, else 10.
pub fn storage_max_gb(raw: Option<&str>) -> (gigabytes: u64)
    ensures
        gigabytes == number_or(text_of(raw), u64::MAX as nat, DEFAULT_STORAGE_MAX_GB as nat),
{
    read_number(raw, u64::MAX, DEFAULT_STORAGE_MAX_GB)
}

/// Days a recording is kept: what `KODAMA_RETENTION_DAYS` says, else 7.
pub fn retention_days(raw: Option<&str>) -> (days: u64)
    ensures
        days == number_or(text_of(raw), u64::MAX as nat, DEFAULT_RETENTION_DAYS as nat),
{
    read_number(raw, u64::MAX, DEFAULT_RETENTION_DAYS)
}

/// A size in gigabytes as bytes; `None` when the bytes cannot be counted.
pub fn gigabytes_to_bytes(gigabytes: u64) -> (bytes: Option<u64>)
    ensures
        bytes == if gigabytes * BYTES_PER_GB <= u64::MAX {
            Some((gigabytes * BYTES_PER_GB) as u64)
        } else {
            None
        },
{
    if gigabytes > u64::MAX / BYTES_PER_GB {
        None
    } else {
        Some(gigabytes * BYTES_PER_GB)
    }
}

/// A time in days as seconds; `None` when the seconds cannot be counted.
pub fn days_to_secs(days: u64) -> (secs: Option<u64>)
    ensures
        secs == if days * SECS_PER_DAY <= u64::MAX {
            Some((days * SECS_PER_DAY) as u64)
        } else {
            None
        },
{
    if days > u64::MAX / SECS_PER_DAY {
        None
    } else {
        Some(days * SECS_PER_DAY)
    }
}

/// Whether the character separates the parts of a path on this platform.
pub open spec fn is_separator(c: char, platform: Platform) -> bool {
    c == '/' || (platform == Platform::Windows && c == '\\')
}

/// The character this platform puts between the parts of a path.
pub open spec fn separator(platform: Platform) -> char {
    if platform == Platform::Windows {
        '\\'
    } else {
        '/'
    }
}

/// A relative path appended to a base: a separator goes between the two
/// unless the base is empty or already ends in one.
pub open spec fn joined(base: Seq<char>, relative: Seq<char>, platform: Platform) -> Seq<char> {
    if base.len() > 0 && !is_separator(base.last(), platform) {
        base.push(separator(platform)) + relative
    } else {
        base + relative
    }
}

fn join_path(base: &str, relative: &str, platform: Platform) -> (path: String)
    ensures
        path@ == joined(base@, relative@, platform),
{
    let len: usize = base.unicode_len();
    let mut path = String::from_str(base);
    if len > 0 {
        let last = base.get_char(len - 1);
        let ends_in_separator = last == '/' || (platform == Platform::Windows && last == '\\');
        if !ends_in_separator {
            proof {
                reveal_strlit("\\");
                reveal_strlit("/");
            }
            if platform == Platform::Windows {
                path.append("\\");
                assert(path@ =~= base@.push('\\'));
            } else {
                path.append("/");
                assert(path@ =~= base@.push('/'));
            }
        }
    }
    path.append(relative);
    path
}

/// The user's home directory: what `HOME` says.
pub fn home_dir(home: Option<&str>) -> (dir: Option<String>)
    ensures
        string_of(dir) == text_of(home),
{
    match home {
        Some(text) => Some(String::from_str(text)),
        None => None,
    }
}

/// The directory for application data, if the platform has one.
pub open spec fn data_dir_of(
    platform: Platform,
    xdg_data_home: Option<Seq<char>>,
    home: Option<Seq<char>>,
    appdata: Option<Seq<char>>,
) -> Option<Seq<char>> {
    match platform {
        Platform::MacOs => match home {
            Some(h) => Some(joined(h, "Library/Application Support"@, platform)),
            None => None,
        },
        Platform::Linux => match xdg_data_home {
            Some(x) => Some(x),
            None => match home {
                Some(h) => Some(joined(h, ".local/share"@, platform)),
                None => None,
            },
        },
        Platform::Windows => appdata,
        Platform::Other => None,
    }
}

/// The directory for application data.
///
/// On macOS it is `Library/Application Support` under the home directory. On
/// Linux it is what `XDG_DATA_HOME` says and otherwise `.local/share` under
/// the home directory. On Windows it is what `APPDATA` says. Elsewhere, and
/// wherever the variable that is needed is not set, there is none.
pub fn data_dir(
    platform: Platform,
    xdg_data_home: Option<&str>,
    home: Option<&str>,
    appdata: Option<&str>,
) -> (dir: Option<String>)
    ensures
        string_of(dir) == data_dir_of(
            platform,
            text_of(xdg_data_home),
            text_of(home),
            text_of(appdata),
        ),
{
    match platform {
        Platform::MacOs => match home {
            Some(h) => Some(join_path(h, "Library/Application Support", platform)),
            None => None,
        },
        Platform::Linux => match xdg_data_home {
            Some(x) => Some(String::from_str(x)),
            None => match home {
                Some(h) => Some(join_path(h, ".local/share", platform)),
                None => None,
            },
        },
        Platform::Windows => match appdata {
            Some(a) => Some(String::from_str(a)),
            None => None,
        },
        Platform::Other => None,
    }
}

/// Where the identity key lives.
pub open spec fn key_path_of(
    platform: Platform,
    key_path: Option<Seq<char>>,
    data_dir: Option<Seq<char>>,
) -> Seq<char> {
    match key_path {
        Some(path) => path,
        None => {
            let base = match data_dir {
                Some(dir) => dir,
                None => "."@,
            };
            joined(joined(base, "kodama"@, platform), "server.key"@, platform)
        },
    }
}

/// Where the identity key lives: where `KODAMA_KEY_PATH` says, and otherwise
/// in `kodama/server.key` under the directory for application data, or under
/// the current directory if there is none.
pub fn key_path(platform: Platform, configured: Option<&str>, data_home: Option<&str>) -> (path:
    String)
    ensures
        path@ == key_path_of(platform, text_of(configured), text_of(data_home)),
{
    match configured {
        Some(path) => String::from_str(path),
        None => {
            let base = match data_home {
                Some(dir) => dir,
                None => ".",
            };
            let folder = join_path(base, "kodama", platform);
            join_path(folder.as_str(), "server.key", platform)
        },
    }
}

impl Environment {
    /// The directory for application data in this environment.
    pub open spec fn data_home(self) -> Option<Seq<char>> {
        data_dir_of(
            self.platform,
            string_of(self.xdg_data_home),
            string_of(self.home),
            string_of(self.appdata),
        )
    }

    /// The size limit of the recording in gigabytes.
    pub open spec fn max_gb(self) -> nat {
        number_or(string_of(self.storage_max_gb), u64::MAX as nat, DEFAULT_STORAGE_MAX_GB as nat)
    }

    /// The days a recording is kept.
    pub open spec fn days(self) -> nat {
        number_or(string_of(self.retention_days), u64::MAX as nat, DEFAULT_RETENTION_DAYS as nat)
    }

    /// Why the settings cannot be used, if they cannot. Only a recording
    /// that is switched on can be at fault.
    pub open spec fn fault(self) -> Option<ConfigError> {
        if self.storage_path is None {
            None
        } else if self.max_gb() * BYTES_PER_GB > u64::MAX {
            Some(ConfigError::StorageLimitTooLarge)
        } else if self.days() * SECS_PER_DAY > u64::MAX {
            Some(ConfigError::RetentionTooLong)
        } else {
            None
        }
    }
}

/// Works out the relay's settings from its environment.
///
/// Recording is switched on by `KODAMA_STORAGE_PATH`. Its size limit and
/// retention are read only then, and only then can they be refused.
pub fn resolve(env: &Environment) -> (out: Result<ServerSettings, ConfigError>)
    ensures
        match out {
            Err(e) => env.fault() == Some(e),
            Ok(settings) => {
                &&& env.fault() is None
                &&& settings.key_path@ == key_path_of(
                    env.platform,
                    string_of(env.key_path),
                    env.data_home(),
                )
                &&& settings.buffer_capacity == number_or(
                    string_of(env.buffer_size),
                    usize::MAX as nat,
                    DEFAULT_BUFFER_CAPACITY as nat,
                )
                &&& settings.web_port == number_or(
                    string_of(env.web_port),
                    u16::MAX as nat,
                    DEFAULT_WEB_PORT as nat,
                )
                &&& settings.recording is Some <==> env.storage_path is Some
                &&& settings.recording matches Some(recording) ==> {
                    &&& Some(recording.local.root_path@) == string_of(env.storage_path)
                    &&& recording.local.max_size_bytes == env.max_gb() * BYTES_PER_GB
                    &&& recording.local.segment_duration_us == SEGMENT_DURATION_US
                    &&& recording.policy == (StorageConfig {
                        max_size_bytes: (env.max_gb() * BYTES_PER_GB) as u64,
                        retention_secs: (env.days() * SECS_PER_DAY) as u64,
                        keyframes_only: false,
                        cleanup_interval_secs: CLEANUP_INTERVAL_SECS,
                    })
                }
            },
        },
{
    let recording = match &env.storage_path {
        None => None,
        Some(path) => {
            let gigabytes = storage_max_gb(borrowed(&env.storage_max_gb));
            let days = retention_days(borrowed(&env.retention_days));
            let max_size_bytes = match gigabytes_to_bytes(gigabytes) {
                Some(bytes) => bytes,
                None => {
                    return Err(ConfigError::StorageLimitTooLarge);
                },
            };
            let retention_secs = match days_to_secs(days) {
                Some(secs) => secs,
                None => {
                    return Err(ConfigError::RetentionTooLong);
                },
            };
            Some(
                RecordingSettings {
                    local: LocalStorageConfig {
                        root_path: path.clone(),
                        max_size_bytes,
                        segment_duration_us: SEGMENT_DURATION_US,
                    },
                    policy: StorageConfig {
                        max_size_bytes,
                        retention_secs,
                        keyframes_only: false,
                        cleanup_interval_secs: CLEANUP_INTERVAL_SECS,
                    },
                },
            )
        },
    };
    let dir = data_dir(
        env.platform,
        borrowed(&env.xdg_data_home),
        borrowed(&env.home),
        borrowed(&env.appdata),
    );
    let key_path = key_path(env.platform, borrowed(&env.key_path), borrowed(&dir));
    Ok(
        ServerSettings {
            key_path,
            buffer_capacity: buffer_capacity(borrowed(&env.buffer_size)),
            web_port: web_port(borrowed(&env.web_port)),
            recording,
        },
    )
}

} // verus!
