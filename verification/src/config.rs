//! Persistent user configuration.
//!
//! The settings panel state that a user would reasonably want across restarts
//! (port / baud / framing / timeout / auto-scroll / shown slaves) and the place
//! where it is kept.

use vstd::prelude::*;

use crate::text;

verus! {

broadcast use vstd::string::group_string_axioms;

/// Persisted subset of [`crate::render::settings::SettingsState`]. The default
/// values mirror the defaults there, so that a file that lacks a field loads
/// cleanly.
#[derive(Debug)]
pub struct PersistedConfig {
    pub port: String,
    pub baud: String,
    pub data_bits: u8,
    pub parity: String,
    pub stop_bits: u8,
    pub flow_control: String,
    pub timeout_ms: u64,
    pub auto_scroll: bool,
    pub show_slaves: Vec<u8>,
}

/// What a [`PersistedConfig`] holds.
#[verifier::ext_equal]
pub struct PersistedModel {
    pub port: Seq<char>,
    pub baud: Seq<char>,
    pub data_bits: u8,
    pub parity: Seq<char>,
    pub stop_bits: u8,
    pub flow_control: Seq<char>,
    pub timeout_ms: u64,
    pub auto_scroll: bool,
    pub show_slaves: Seq<u8>,
}

impl View for PersistedConfig {
    type V = PersistedModel;

    open spec fn view(&self) -> PersistedModel {
        PersistedModel {
            port: self.port@,
            baud: self.baud@,
            data_bits: self.data_bits,
            parity: self.parity@,
            stop_bits: self.stop_bits,
            flow_control: self.flow_control@,
            timeout_ms: self.timeout_ms,
            auto_scroll: self.auto_scroll,
            show_slaves: self.show_slaves@,
        }
    }
}

impl Clone for PersistedConfig {
    fn clone(&self) -> (r: Self)
        ensures
            r@ == self@,
    {
        let show_slaves = self.show_slaves.clone();
        assert(show_slaves@ =~= self.show_slaves@);
        PersistedConfig {
            port: self.port.clone(),
            baud: self.baud.clone(),
            data_bits: self.data_bits,
            parity: self.parity.clone(),
            stop_bits: self.stop_bits,
            flow_control: self.flow_control.clone(),
            timeout_ms: self.timeout_ms,
            auto_scroll: self.auto_scroll,
            show_slaves,
        }
    }
}

/// The configuration of a first run.
pub open spec fn default_config() -> PersistedModel {
    PersistedModel {
        port: Seq::empty(),
        baud: "9600"@,
        data_bits: 8,
        parity: "None"@,
        stop_bits: 1,
        flow_control: "None"@,
        timeout_ms: 500,
        auto_scroll: true,
        show_slaves: Seq::empty(),
    }
}

impl Default for PersistedConfig {
    fn default() -> (r: Self)
        ensures
            r@ == default_config(),
    {
        PersistedConfig {
            port: String::new(),
            baud: String::from_str("9600"),
            data_bits: 8,
            parity: String::from_str("None"),
            stop_bits: 1,
            flow_control: String::from_str("None"),
            timeout_ms: 500,
            auto_scroll: true,
            show_slaves: Vec::new(),
        }
    }
}

/// The systems that differ in where a configuration is kept.
#[derive(Debug, Clone, Copy, PartialEq, Eq, Structural)]
pub enum Platform {
    MacOs,
    Windows,
    Other,
}

/// Values of the environment that tell where a configuration is kept. `None`
/// stands for a variable that is not set.
#[derive(Debug)]
pub struct Places {
    /// `XDG_CONFIG_HOME`
    pub xdg_config_home: Option<String>,
    /// `APPDATA`
    pub appdata: Option<String>,
    /// `HOME`
    pub home: Option<String>,
}

/// The text of a variable that is set and not empty.
pub open spec fn set_text(v: Option<String>) -> Option<Seq<char>> {
    match v {
        Some(s) => if s@.len() > 0 {
            Some(s@)
        } else {
            None
        },
        None => None,
    }
}

/// The directory for configurations, as the components of a path.
pub open spec fn base_dir(platform: Platform, places: Places) -> Option<Seq<Seq<char>>> {
    match set_text(places.xdg_config_home) {
        Some(xdg) => Some(seq![xdg]),
        None => match (platform, set_text(places.appdata), set_text(places.home)) {
            (Platform::Windows, Some(appdata), _) => Some(seq![appdata]),
            (Platform::MacOs, _, Some(home)) => Some(
                seq![home, "Library"@, "Application Support"@],
            ),
            (_, _, Some(home)) => Some(seq![home, ".config"@]),
            (_, _, None) => None,
        },
    }
}

/// The texts of a path.
pub open spec fn path_text(path: Option<Vec<String>>) -> Option<Seq<Seq<char>>> {
    match path {
        Some(p) => Some(text::texts(p@)),
        None => None,
    }
}

/// Whether a variable is set and not empty.
fn is_set(v: &Option<String>) -> (r: bool)
    ensures
        r == (set_text(*v) is Some),
{
    match v {
        Some(s) => s.as_str().unicode_len() > 0,
        None => false,
    }
}

fn config_dir(platform: Platform, places: &Places) -> (r: Option<Vec<String>>)
    ensures
        path_text(r) == base_dir(platform, *places),
{
    let mut path: Vec<String> = Vec::new();
    if is_set(&places.xdg_config_home) {
        if let Some(xdg) = &places.xdg_config_home {
            path.push(xdg.clone());
            assert(text::texts(path@) =~= seq![xdg@]);
        }
        return Some(path);
    }
    if platform == Platform::Windows && is_set(&places.appdata) {
        if let Some(appdata) = &places.appdata {
            path.push(appdata.clone());
            assert(text::texts(path@) =~= seq![appdata@]);
        }
        return Some(path);
    }
    if !is_set(&places.home) {
        return None;
    }
    if let Some(home) = &places.home {
        path.push(home.clone());
        if platform == Platform::MacOs {
            path.push(String::from_str("Library"));
            path.push(String::from_str("Application Support"));
            assert(text::texts(path@) =~= seq![home@, "Library"@, "Application Support"@]);
        } else {
            path.push(String::from_str(".config"));
            assert(text::texts(path@) =~= seq![home@, ".config"@]);
        }
    }
    Some(path)
}

/// Resolve the config file path from the environment, as the components of a
/// path.
///
/// - Linux: `$XDG_CONFIG_HOME/mbshark2/config.toml` or `$HOME/.config/mbshark2/config.toml`
/// - macOS: `$HOME/Library/Application Support/mbshark2/config.toml` (XDG still honoured)
/// - Windows: `%APPDATA%/mbshark2/config.toml`
///
/// Returns `None` only if no home/config env var is set at all.
pub fn config_path(platform: Platform, places: &Places) -> (r: Option<Vec<String>>)
    ensures
        path_text(r) == match base_dir(platform, *places) {
            Some(dir) => Some(dir + seq!["mbshark2"@, "config.toml"@]),
            None => None,
        },
{
    match config_dir(platform, places) {
        Some(mut path) => {
            let ghost dir = text::texts(path@);
            path.push(String::from_str("mbshark2"));
            path.push(String::from_str("config.toml"));
            assert(text::texts(path@) =~= dir + seq!["mbshark2"@, "config.toml"@]);
            Some(path)
        },
        None => None,
    }
}

/// What reading a config file came to.
#[derive(Debug)]
pub enum ReadOutcome {
    /// There is no such file: the normal first-run case.
    Missing,
    /// The file could not be read, for this reason.
    Unreadable(String),
    /// The file holds no configuration, for this reason.
    Unparsable(String),
    /// The file holds a configuration.
    Parsed(PersistedConfig),
}

/// What comes of it.
#[derive(Debug)]
pub struct Loaded {
    /// The configuration; without one the caller falls back to defaults.
    pub config: Option<PersistedConfig>,
    /// What to tell the user, if anything.
    pub log: Option<String>,
}

/// The log line of a failure.
pub open spec fn failure_text(what: Seq<char>, path: Seq<char>, reason: Seq<char>) -> Seq<char> {
    "mbshark2: config "@ + what + " "@ + path + ": "@ + reason
}

/// The log line of a failure.
pub fn failure_line(what: &str, path: &str, reason: &str) -> (r: String)
    ensures
        r@ == failure_text(what@, path@, reason@),
{
    String::from_str("mbshark2: config ").concat(what).concat(" ").concat(path).concat(": ").concat(
        reason,
    )
}

/// Load the config file. Gives no configuration (→ caller falls back to
/// defaults) on any missing file / parse error, so a corrupt file never blocks
/// startup; all but a missing file is logged.
pub fn load(path: &str, outcome: ReadOutcome) -> (r: Loaded)
    ensures
        match outcome {
            ReadOutcome::Missing => r.config is None && r.log is None,
            ReadOutcome::Unreadable(e) => r.config is None && (r.log matches Some(l) && l@
                == failure_text("load"@, path@, e@)),
            ReadOutcome::Unparsable(e) => r.config is None && (r.log matches Some(l) && l@
                == failure_text("parse"@, path@, e@)),
            ReadOutcome::Parsed(cfg) => r.log is None && (r.config matches Some(c) && c@ == cfg@),
        },
{
    match outcome {
        ReadOutcome::Missing => Loaded { config: None, log: None },
        ReadOutcome::Unreadable(e) => Loaded {
            config: None,
            log: Some(failure_line("load", path, e.as_str())),
        },
        ReadOutcome::Unparsable(e) => Loaded {
            config: None,
            log: Some(failure_line("parse", path, e.as_str())),
        },
        ReadOutcome::Parsed(cfg) => Loaded { config: Some(cfg), log: None },
    }
}

/// A path is found exactly if one of the variables that count on the platform
/// is set and not empty.
pub proof fn config_path_needs_a_variable(platform: Platform, places: Places)
    ensures
        base_dir(platform, places) is None <==> set_text(places.xdg_config_home) is None
            && set_text(places.home) is None && (platform == Platform::Windows ==> set_text(
            places.appdata,
        ) is None),
{
}

/// Where the configuration is kept: in `XDG_CONFIG_HOME` wherever that is set; else
/// on Windows in `APPDATA`, if that is set; else below the home directory, on macOS
/// in `Library/Application Support` and elsewhere in `.config`. A variable that is
/// set to nothing counts as not set.
pub proof fn places_are_asked_in_order(platform: Platform, places: Places)
    ensures
        ({
            let dir = base_dir(platform, places);
            let xdg = places.xdg_config_home;
            let appdata = places.appdata;
            let home = places.home;
            if xdg is Some && xdg->0@.len() > 0 {
                dir == Some(seq![xdg->0@])
            } else if platform == Platform::Windows && appdata is Some && appdata->0@.len() > 0 {
                dir == Some(seq![appdata->0@])
            } else if home is Some && home->0@.len() > 0 {
                dir == Some(
                    if platform == Platform::MacOs {
                        seq![home->0@, "Library"@, "Application Support"@]
                    } else {
                        seq![home->0@, ".config"@]
                    },
                )
            } else {
                dir is None
            }
        }),
{
}

/// A failure is logged with what failed, the path and the reason, in this order.
pub proof fn failures_name_path_and_reason(what: Seq<char>, path: Seq<char>, reason: Seq<char>)
    ensures
        failure_text(what, path, reason) == "mbshark2: config "@ + what + " "@ + path + ": "@
            + reason,
        reason.is_suffix_of(failure_text(what, path, reason)),
{
    let t = failure_text(what, path, reason);
    assert(t.subrange(t.len() - reason.len(), t.len() as int) =~= reason);
}

/// A model holds every field of its configuration.
pub proof fn nothing_is_left_out(c: PersistedConfig)
    ensures
        c@.port == c.port@,
        c@.baud == c.baud@,
        c@.data_bits == c.data_bits,
        c@.parity == c.parity@,
        c@.stop_bits == c.stop_bits,
        c@.flow_control == c.flow_control@,
        c@.timeout_ms == c.timeout_ms,
        c@.auto_scroll == c.auto_scroll,
        c@.show_slaves == c.show_slaves@,
{
}

} // verus!
