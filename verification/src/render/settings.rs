//! Serial settings panel: port / baud / framing / timeout + Start/Stop/Clear/Export.

use std::collections::HashSet;

use vstd::prelude::*;

use crate::capture::engine::{Command, CommandModel};
use crate::capture::serial::{
    DataBits, FlowControl, Parity, SerialConfig, SerialModel, StopBits,
};
use crate::config::{PersistedConfig, PersistedModel};
use crate::text;

verus! {

broadcast use {vstd::string::group_string_axioms, vstd::std_specs::hash::group_hash_axioms};

/// Actions the settings panel requests from the app.
#[derive(Debug, Clone, Copy, PartialEq, Eq, Structural)]
pub enum SettingsAction {
    Nothing,
    /// Clear all captured entries (and their cached lines).
    Clear,
    /// Persist the current settings to the config file.
    SaveConfig,
}

impl Default for SettingsAction {
    fn default() -> (r: Self)
        ensures
            r == SettingsAction::Nothing,
    {
        SettingsAction::Nothing
    }
}

/// The buttons of the panel.
#[derive(Debug, Clone, Copy, PartialEq, Eq, Structural)]
pub enum Button {
    /// The one that starts a capture, or stops it while one runs.
    StartStop,
    Clear,
    Export,
    SaveConfig,
}

/// How the start button shows.
#[derive(Debug, Clone, Copy, PartialEq, Eq, Structural)]
pub enum StartButton {
    /// It stops the capture that runs.
    Stop,
    /// It starts a capture.
    Start,
    /// It cannot be pressed: no port is chosen.
    Disabled,
}

/// What a pressed button leads to.
#[derive(Debug)]
pub enum Effect {
    Nothing,
    /// Send a command to the capture engine.
    Send(Command),
    /// Export what the filter lets through.
    Export(Option<HashSet<u8>>),
    /// Leave it to the app.
    Act(SettingsAction),
}

/// What an [`Effect`] holds.
#[verifier::ext_equal]
pub enum EffectModel {
    Nothing,
    Send(CommandModel),
    Export(Option<Set<u8>>),
    Act(SettingsAction),
}

impl View for Effect {
    type V = EffectModel;

    open spec fn view(&self) -> EffectModel {
        match *self {
            Effect::Nothing => EffectModel::Nothing,
            Effect::Send(c) => EffectModel::Send(c@),
            Effect::Export(set) => EffectModel::Export(set_view(set)),
            Effect::Act(a) => EffectModel::Act(a),
        }
    }
}

/// The shortest response timeout that can be set, in milliseconds.
pub const TIMEOUT_MIN: u64 = 10;

/// The longest response timeout that can be set, in milliseconds.
pub const TIMEOUT_MAX: u64 = 60_000;

/// Editable serial settings + cached port list.
#[derive(Debug)]
pub struct SettingsState {
    pub port: String,
    pub baud: String,
    pub data_bits: u8,
    pub parity: String,
    pub stop_bits: u8,
    pub flow_control: String,
    pub timeout_ms: u64,
    pub ports_cache: Vec<String>,
    pub auto_scroll: bool,
    /// Slave-address filter: empty or `"*"` = show all; otherwise only
    /// matching slaves listed (supports `1,2,3` and `1-3` range syntax).
    /// Parsed on demand by [`SettingsState::show_set`].
    pub show_slaves_str: String,
}

/// What a [`SettingsState`] holds.
#[verifier::ext_equal]
pub struct SettingsModel {
    pub port: Seq<char>,
    pub baud: Seq<char>,
    pub data_bits: u8,
    pub parity: Seq<char>,
    pub stop_bits: u8,
    pub flow_control: Seq<char>,
    pub timeout_ms: u64,
    pub ports_cache: Seq<Seq<char>>,
    pub auto_scroll: bool,
    pub show_slaves_str: Seq<char>,
}

impl View for SettingsState {
    type V = SettingsModel;

    open spec fn view(&self) -> SettingsModel {
        SettingsModel {
            port: self.port@,
            baud: self.baud@,
            data_bits: self.data_bits,
            parity: self.parity@,
            stop_bits: self.stop_bits,
            flow_control: self.flow_control@,
            timeout_ms: self.timeout_ms,
            ports_cache: text::texts(self.ports_cache@),
            auto_scroll: self.auto_scroll,
            show_slaves_str: self.show_slaves_str@,
        }
    }
}

impl Clone for SettingsState {
    fn clone(&self) -> (r: Self)
        ensures
            r@ == self@,
    {
        let mut ports_cache: Vec<String> = Vec::new();
        let mut i: usize = 0;
        while i < self.ports_cache.len()
            invariant
                i <= self.ports_cache.len(),
                text::texts(ports_cache@) == text::texts(self.ports_cache@).take(i as int),
            decreases self.ports_cache.len() - i,
        {
            let ghost before = text::texts(ports_cache@);
            ports_cache.push(self.ports_cache[i].clone());
            i = i + 1;
            assert(text::texts(ports_cache@) =~= before.push(self.ports_cache@[i - 1]@));
            assert(text::texts(ports_cache@) =~= text::texts(self.ports_cache@).take(i as int));
        }
        assert(text::texts(ports_cache@) =~= text::texts(self.ports_cache@));
        SettingsState {
            port: self.port.clone(),
            baud: self.baud.clone(),
            data_bits: self.data_bits,
            parity: self.parity.clone(),
            stop_bits: self.stop_bits,
            flow_control: self.flow_control.clone(),
            timeout_ms: self.timeout_ms,
            ports_cache,
            auto_scroll: self.auto_scroll,
            show_slaves_str: self.show_slaves_str.clone(),
        }
    }
}

/// The settings of a first run.
pub open spec fn default_settings() -> SettingsModel {
    SettingsModel {
        port: Seq::empty(),
        baud: "9600"@,
        data_bits: 8,
        parity: "None"@,
        stop_bits: 1,
        flow_control: "None"@,
        timeout_ms: 500,
        ports_cache: Seq::empty(),
        auto_scroll: true,
        show_slaves_str: Seq::empty(),
    }
}

impl Default for SettingsState {
    fn default() -> (r: Self)
        ensures
            r@ == default_settings(),
    {
        let r = SettingsState {
            port: String::new(),
            baud: String::from_str("9600"),
            data_bits: 8,
            parity: String::from_str("None"),
            stop_bits: 1,
            flow_control: String::from_str("None"),
            timeout_ms: 500,
            ports_cache: Vec::new(),
            auto_scroll: true,
            show_slaves_str: String::new(),
        };
        assert(r@ =~= default_settings());
        r
    }
}

// --- the slave filter --------------------------------------------------------

/// The ids between two numbers, in whichever order these come.
pub open spec fn ids_between(a: nat, b: nat) -> Set<u8> {
    Set::new(|id: u8| (a <= id && id <= b) || (b <= id && id <= a))
}

/// The ids that a token lists: a number, or two numbers with a dash between
/// them. A token that is neither lists none.
pub open spec fn token_ids(token: Seq<char>) -> Set<u8> {
    let dash = text::first_index(token, '-');
    if dash < token.len() {
        let from = text::number_text(text::trim_text(token.take(dash as int)), 255);
        let to = text::number_text(text::trim_text(token.skip((dash + 1) as int)), 255);
        match (from, to) {
            (Some(a), Some(b)) => ids_between(a, b),
            _ => Set::empty(),
        }
    } else {
        match text::number_text(token, 255) {
            Some(a) => ids_between(a, a),
            None => Set::empty(),
        }
    }
}

/// The ids that a list of tokens lists.
pub open spec fn listed_ids(tokens: Seq<Seq<char>>) -> Set<u8> {
    Set::new(
        |id: u8|
            exists|i: int|
                0 <= i < tokens.len() && #[trigger] token_ids(text::trim_text(tokens[i])).contains(
                    id,
                ),
    )
}

/// The filter that a text stands for. A text without a valid token filters
/// nothing, like an empty one or a star.
pub open spec fn show_filter(s: Seq<char>) -> Option<Set<u8>> {
    let trimmed = text::trim_text(s);
    if trimmed.len() == 0 || trimmed == seq!['*'] {
        None
    } else {
        let ids = listed_ids(text::fields_text(trimmed, ','));
        if ids =~= Set::empty() {
            None
        } else {
            Some(ids)
        }
    }
}

/// The contents of an optional set.
pub open spec fn set_view(s: Option<HashSet<u8>>) -> Option<Set<u8>> {
    match s {
        Some(set) => Some(set@),
        None => None,
    }
}

/// Add the ids between two numbers.
fn insert_between(set: &mut HashSet<u8>, a: u8, b: u8)
    ensures
        final(set)@ == old(set)@.union(ids_between(a as nat, b as nat)),
{
    let (low, high) = if a <= b {
        (a, b)
    } else {
        (b, a)
    };
    let mut id: u16 = low as u16;
    assert(set@ =~= old(set)@.union(Set::new(|x: u8| low <= x && x < id)));
    while id <= high as u16
        invariant
            low <= id <= high + 1,
            set@ == old(set)@.union(Set::new(|x: u8| low <= x && x < id)),
        decreases 256 - id,
    {
        set.insert(id as u8);
        id = id + 1;
        assert(set@ =~= old(set)@.union(Set::new(|x: u8| low <= x && x < id)));
    }
    assert(set@ =~= old(set)@.union(ids_between(a as nat, b as nat)));
}

/// Add the ids that a token lists.
fn insert_token(set: &mut HashSet<u8>, token: &[char])
    ensures
        final(set)@ == old(set)@.union(token_ids(token@)),
{
    let len: usize = token.len();
    match text::position(token, '-') {
        Some(dash) => {
            let from = text::trim(vstd::slice::slice_subrange(token, 0, dash));
            let to = text::trim(vstd::slice::slice_subrange(token, dash + 1, len));
            assert(token@.subrange(0, dash as int) =~= token@.take(dash as int));
            assert(token@.subrange(dash + 1, token@.len() as int) =~= token@.skip(dash + 1));
            let a = text::number(from, 255);
            let b = text::number(to, 255);
            match (a, b) {
                (Some(a), Some(b)) => {
                    insert_between(set, a as u8, b as u8);
                },
                _ => {},
            }
        },
        None => {
            match text::number(token, 255) {
                Some(a) => {
                    insert_between(set, a as u8, a as u8);
                },
                None => {},
            }
        },
    }
    assert(set@ =~= old(set)@.union(token_ids(token@)));
}

/// The ids of a set in ascending order, as far as they are below a limit.
pub open spec fn ids_below(set: Set<u8>, limit: int) -> Seq<u8>
    decreases limit,
{
    if limit <= 0 {
        Seq::empty()
    } else if set.contains((limit - 1) as u8) {
        ids_below(set, limit - 1).push((limit - 1) as u8)
    } else {
        ids_below(set, limit - 1)
    }
}

/// The ids of a filter in ascending order; none where nothing is filtered.
pub open spec fn filter_ids(filter: Option<Set<u8>>) -> Seq<u8> {
    match filter {
        Some(set) => ids_below(set, 256),
        None => Seq::empty(),
    }
}

// --- the compact form of a filter --------------------------------------------

/// The runs of a list of ids: a run goes on as long as each id is one more than
/// the one before it.
pub open spec fn runs(ids: Seq<u8>) -> Seq<(u8, u8)>
    decreases ids.len(),
{
    if ids.len() == 0 {
        Seq::empty()
    } else {
        let before = runs(ids.drop_last());
        let id = ids.last();
        if before.len() > 0 && id == (before.last().1 + 1) % 256 {
            before.drop_last().push((before.last().0, id))
        } else {
            before.push((id, id))
        }
    }
}

/// A run as text: its only id, or its first and its last.
pub open spec fn run_text(run: (u8, u8)) -> Seq<char> {
    if run.0 == run.1 {
        text::dec_text(run.0 as nat)
    } else {
        text::dec_text(run.0 as nat) + "-"@ + text::dec_text(run.1 as nat)
    }
}

/// The texts of runs.
pub open spec fn run_texts(rs: Seq<(u8, u8)>) -> Seq<Seq<char>> {
    Seq::new(rs.len(), |i: int| run_text(rs[i]))
}

/// A list of ids as text, compact.
pub open spec fn canonical_text(ids: Seq<u8>) -> Seq<char> {
    text::join_text(run_texts(runs(ids)), ","@)
}

/// A run as text.
fn run_to_text(start: u8, end: u8) -> (r: String)
    ensures
        r@ == run_text((start, end)),
{
    if start == end {
        text::dec(start as u64)
    } else {
        text::dec(start as u64).concat("-").concat(text::dec(end as u64).as_str())
    }
}

// --- the settings ------------------------------------------------------------

/// The serial configuration that settings stand for.
pub open spec fn serial_config(m: SettingsModel) -> SerialModel {
    SerialModel {
        port: m.port,
        baud: match text::number_text(m.baud, u32::MAX as nat) {
            Some(b) => b as u32,
            None => 9600,
        },
        data_bits: match m.data_bits {
            5 => DataBits::Five,
            6 => DataBits::Six,
            7 => DataBits::Seven,
            _ => DataBits::Eight,
        },
        parity: if m.parity == "Even"@ {
            Parity::Even
        } else if m.parity == "Odd"@ {
            Parity::Odd
        } else {
            Parity::NoParity
        },
        stop_bits: if m.stop_bits == 2 {
            StopBits::Two
        } else {
            StopBits::One
        },
        flow_control: if m.flow_control == "Software"@ {
            FlowControl::Software
        } else if m.flow_control == "Hardware"@ {
            FlowControl::Hardware
        } else {
            FlowControl::NoFlowControl
        },
        response_timeout: if m.timeout_ms < TIMEOUT_MIN {
            TIMEOUT_MIN
        } else {
            m.timeout_ms
        },
    }
}

/// What of settings is kept across restarts.
pub open spec fn persisted(m: SettingsModel) -> PersistedModel {
    PersistedModel {
        port: m.port,
        baud: m.baud,
        data_bits: m.data_bits,
        parity: m.parity,
        stop_bits: m.stop_bits,
        flow_control: m.flow_control,
        timeout_ms: m.timeout_ms,
        auto_scroll: m.auto_scroll,
        show_slaves: filter_ids(show_filter(m.show_slaves_str)),
    }
}

/// Settings after a configuration has been loaded into them.
pub open spec fn with_persisted(m: SettingsModel, cfg: PersistedModel) -> SettingsModel {
    SettingsModel {
        port: cfg.port,
        baud: cfg.baud,
        data_bits: cfg.data_bits,
        parity: cfg.parity,
        stop_bits: cfg.stop_bits,
        flow_control: cfg.flow_control,
        timeout_ms: cfg.timeout_ms,
        ports_cache: m.ports_cache,
        auto_scroll: cfg.auto_scroll,
        show_slaves_str: canonical_text(cfg.show_slaves),
    }
}

impl SettingsState {
    /// Refresh the cached list of available serial port names with the ones
    /// that were found.
    pub fn refresh_ports(&mut self, names: Vec<String>)
        ensures
            final(self)@ == (SettingsModel { ports_cache: text::texts(names@), ..old(self)@ }),
    {
        self.ports_cache = names;
    }

    /// Build a `SerialConfig` from the current selections.
    pub fn build_config(&self) -> (r: SerialConfig)
        ensures
            r@ == serial_config(self@),
    {
        let digits = text::chars_of(self.baud.as_str());
        SerialConfig {
            port: self.port.clone(),
            baud: match text::number(digits.as_slice(), u32::MAX) {
                Some(b) => b,
                None => 9600,
            },
            data_bits: match self.data_bits {
                5 => DataBits::Five,
                6 => DataBits::Six,
                7 => DataBits::Seven,
                _ => DataBits::Eight,
            },
            parity: if text::same_text(self.parity.as_str(), "Even") {
                Parity::Even
            } else if text::same_text(self.parity.as_str(), "Odd") {
                Parity::Odd
            } else {
                Parity::NoParity
            },
            stop_bits: if self.stop_bits == 2 {
                StopBits::Two
            } else {
                StopBits::One
            },
            flow_control: if text::same_text(self.flow_control.as_str(), "Software") {
                FlowControl::Software
            } else if text::same_text(self.flow_control.as_str(), "Hardware") {
                FlowControl::Hardware
            } else {
                FlowControl::NoFlowControl
            },
            response_timeout: if self.timeout_ms < TIMEOUT_MIN {
                TIMEOUT_MIN
            } else {
                self.timeout_ms
            },
        }
    }

    /// Snapshot the persistable fields.
    pub fn to_persisted(&self) -> (r: PersistedConfig)
        ensures
            r@ == persisted(self@),
    {
        let mut show: Vec<u8> = Vec::new();
        if let Some(set) = self.show_set() {
            let mut id: u16 = 0;
            while id < 256
                invariant
                    id <= 256,
                    show@ == ids_below(set@, id as int),
                decreases 256 - id,
            {
                let slave = id as u8;
                if set.contains(&slave) {
                    show.push(slave);
                }
                id = id + 1;
            }
        }
        PersistedConfig {
            port: self.port.clone(),
            baud: self.baud.clone(),
            data_bits: self.data_bits,
            parity: self.parity.clone(),
            stop_bits: self.stop_bits,
            flow_control: self.flow_control.clone(),
            timeout_ms: self.timeout_ms,
            auto_scroll: self.auto_scroll,
            show_slaves: show,
        }
    }

    /// Apply a loaded config onto this state (used on startup).
    pub fn apply_persisted(&mut self, cfg: &PersistedConfig)
        ensures
            final(self)@ == with_persisted(old(self)@, cfg@),
    {
        self.port = cfg.port.clone();
        self.baud = cfg.baud.clone();
        self.data_bits = cfg.data_bits;
        self.parity = cfg.parity.clone();
        self.stop_bits = cfg.stop_bits;
        self.flow_control = cfg.flow_control.clone();
        self.timeout_ms = cfg.timeout_ms;
        self.auto_scroll = cfg.auto_scroll;
        // Canonical form: compact ranges when possible.
        self.show_slaves_str = Self::canonicalize_slaves(cfg.show_slaves.as_slice());
    }

    /// Parse `show_slaves_str` into an optional slave-address filter.
    ///
    /// - `""` or `"*"` → `None` (show everything).
    /// - Otherwise returns `Some(set)` containing only the listed addresses.
    ///
    /// Supported syntax:
    /// - single: `"1,2,3"`
    /// - range: `"1-3"` (inclusive, order-agnostic)
    /// - combined: `"1-3,5,7-9"`
    ///
    /// Invalid tokens (non-numeric, out of u8 range) are silently skipped;
    /// duplicates automatically collapse into the set.
    /// An empty set after parsing (all garbage tokens) also returns `None`.
    pub fn show_set(&self) -> (r: Option<HashSet<u8>>)
        ensures
            set_view(r) == show_filter(self@.show_slaves_str),
    {
        let chars = text::chars_of(self.show_slaves_str.as_str());
        let trimmed = text::trim(chars.as_slice());
        if trimmed.len() == 0 || (trimmed.len() == 1 && trimmed[0] == '*') {
            assert(trimmed@.len() == 0 || trimmed@ =~= seq!['*']);
            return None;
        }
        let tokens = text::fields(trimmed, ',');
        let ghost all = text::fields_text(trimmed@, ',');
        let mut set: HashSet<u8> = HashSet::new();
        let mut i: usize = 0;
        assert(set@ =~= listed_ids(all.take(0)));
        while i < tokens.len()
            invariant
                i <= tokens.len(),
                all == text::field_views(tokens@),
                set@ == listed_ids(all.take(i as int)),
            decreases tokens.len() - i,
        {
            let token = text::trim(tokens[i].as_slice());
            assert(token@ == text::trim_text(all[i as int]));
            let ghost before = set@;
            insert_token(&mut set, token);
            proof {
                let now = listed_ids(all.take(i + 1));
                assert forall|id: u8| set@.contains(id) == now.contains(id) by {
                    if before.contains(id) {
                        let k = choose|k: int|
                            0 <= k < all.take(i as int).len() && #[trigger] token_ids(
                                text::trim_text(all.take(i as int)[k]),
                            ).contains(id);
                        assert(token_ids(text::trim_text(all.take(i + 1)[k])).contains(id));
                    }
                    if token_ids(token@).contains(id) {
                        assert(token_ids(text::trim_text(all.take(i + 1)[i as int])).contains(id));
                    }
                    if now.contains(id) {
                        let k = choose|k: int|
                            0 <= k < all.take(i + 1).len() && #[trigger] token_ids(
                                text::trim_text(all.take(i + 1)[k]),
                            ).contains(id);
                        if k < i {
                            assert(token_ids(text::trim_text(all.take(i as int)[k])).contains(id));
                        }
                    }
                }
                assert(set@ =~= now);
            }
            i = i + 1;
        }
        assert(all.take(i as int) =~= all);
        assert(!(trimmed@ =~= seq!['*']));
        if set.is_empty() {
            None
        } else {
            Some(set)
        }
    }

    /// Convert a sorted list of u8 ids into a compact wire-friendly string
    /// e.g. `[1,2,3,5,7,8,9]` → `"1-3,5,7-9"`.
    pub fn canonicalize_slaves(ids: &[u8]) -> (r: String)
        ensures
            r@ == canonical_text(ids@),
    {
        if ids.len() == 0 {
            assert(run_texts(runs(ids@)) =~= Seq::<Seq<char>>::empty());
            return String::new();
        }
        let mut parts: Vec<String> = Vec::new();
        let mut start: u8 = ids[0];
        let mut end: u8 = ids[0];
        let mut i: usize = 1;
        proof {
            reveal_with_fuel(runs, 2);
            assert(ids@.take(1).drop_last() =~= Seq::<u8>::empty());
            assert(runs(ids@.take(1)) =~= Seq::<(u8, u8)>::empty().push((start, end)));
            assert(text::texts(parts@) =~= run_texts(runs(ids@.take(1)).drop_last()));
        }
        while i < ids.len()
            invariant
                1 <= i <= ids.len(),
                runs(ids@.take(i as int)).len() > 0,
                runs(ids@.take(i as int)).last() == (start, end),
                text::texts(parts@) == run_texts(runs(ids@.take(i as int)).drop_last()),
            decreases ids.len() - i,
        {
            let id = ids[i];
            let ghost before = runs(ids@.take(i as int));
            let ghost done = text::texts(parts@);
            proof {
                assert(ids@.take(i + 1).drop_last() =~= ids@.take(i as int));
                assert(ids@.take(i + 1).last() == id);
            }
            if id == end.wrapping_add(1) {
                end = id;
                assert(runs(ids@.take(i + 1)).drop_last() =~= before.drop_last());
            } else {
                parts.push(run_to_text(start, end));
                proof {
                    assert(runs(ids@.take(i + 1)).drop_last() =~= before);
                    assert(before =~= before.drop_last().push((start, end)));
                    assert(text::texts(parts@) =~= done.push(run_text((start, end))));
                    assert(run_texts(before) =~= run_texts(before.drop_last()).push(
                        run_text((start, end)),
                    ));
                }
                start = id;
                end = id;
            }
            i = i + 1;
        }
        let ghost before = runs(ids@.take(i as int));
        let ghost done = text::texts(parts@);
        parts.push(run_to_text(start, end));
        proof {
            assert(ids@.take(i as int) =~= ids@);
            assert(text::texts(parts@) =~= done.push(run_text((start, end))));
            assert(run_texts(before) =~= run_texts(before.drop_last()).push(
                run_text((start, end)),
            ));
        }
        text::join(&parts, ",")
    }
}

// --- the panel ---------------------------------------------------------------

/// The texts of a list of choices.
pub open spec fn choice_texts(choices: Seq<&'static str>) -> Seq<Seq<char>> {
    Seq::new(choices.len(), |i: int| choices[i]@)
}

/// The baud rates on offer.
pub fn baud_choices() -> (r: Vec<&'static str>)
    ensures
        choice_texts(r@) == seq!["9600"@, "19200"@, "38400"@, "57600"@, "115200"@, "230400"@],
{
    let r: Vec<&'static str> = vec!["9600", "19200", "38400", "57600", "115200", "230400"];
    assert(choice_texts(r@) =~= seq![
        "9600"@,
        "19200"@,
        "38400"@,
        "57600"@,
        "115200"@,
        "230400"@,
    ]);
    r
}

/// The numbers of data bits on offer.
pub fn data_bits_choices() -> (r: Vec<u8>)
    ensures
        r@ == seq![5u8, 6u8, 7u8, 8u8],
{
    let r: Vec<u8> = vec![5, 6, 7, 8];
    assert(r@ =~= seq![5u8, 6u8, 7u8, 8u8]);
    r
}

/// The parities on offer.
pub fn parity_choices() -> (r: Vec<&'static str>)
    ensures
        choice_texts(r@) == seq!["None"@, "Even"@, "Odd"@],
{
    let r: Vec<&'static str> = vec!["None", "Even", "Odd"];
    assert(choice_texts(r@) =~= seq!["None"@, "Even"@, "Odd"@]);
    r
}

/// The numbers of stop bits on offer.
pub fn stop_bits_choices() -> (r: Vec<u8>)
    ensures
        r@ == seq![1u8, 2u8],
{
    let r: Vec<u8> = vec![1, 2];
    assert(r@ =~= seq![1u8, 2u8]);
    r
}

/// The flow controls on offer.
pub fn flow_control_choices() -> (r: Vec<&'static str>)
    ensures
        choice_texts(r@) == seq!["None"@, "Software"@, "Hardware"@],
{
    let r: Vec<&'static str> = vec!["None", "Software", "Hardware"];
    assert(choice_texts(r@) =~= seq!["None"@, "Software"@, "Hardware"@]);
    r
}

/// How the start button shows for settings.
pub open spec fn start_button_of(m: SettingsModel, capturing: bool) -> StartButton {
    if capturing {
        StartButton::Stop
    } else if m.port.len() > 0 {
        StartButton::Start
    } else {
        StartButton::Disabled
    }
}

/// What a pressed button leads to.
pub open spec fn effect_of(m: SettingsModel, button: Button, capturing: bool) -> EffectModel {
    match button {
        Button::StartStop => match start_button_of(m, capturing) {
            StartButton::Stop => EffectModel::Send(CommandModel::Stop),
            StartButton::Start => EffectModel::Send(CommandModel::Start(serial_config(m))),
            StartButton::Disabled => EffectModel::Nothing,
        },
        Button::Clear => EffectModel::Act(SettingsAction::Clear),
        Button::Export => EffectModel::Export(show_filter(m.show_slaves_str)),
        Button::SaveConfig => EffectModel::Act(SettingsAction::SaveConfig),
    }
}

/// The line that tells how many entries there are.
pub fn entries_label(count: usize) -> (r: String)
    ensures
        r@ == "Entries: "@ + text::dec_text(count as nat),
{
    String::from_str("Entries: ").concat(text::dec(count as u64).as_str())
}

/// The line that tells where the configuration is kept.
pub fn config_label(path: &str) -> (r: String)
    ensures
        r@ == "Config: "@ + path@,
{
    String::from_str("Config: ").concat(path)
}

impl SettingsState {
    /// What the port menu shows as chosen.
    pub fn port_label(&self) -> (r: String)
        ensures
            r@ == if self@.port.len() == 0 {
                "<select>"@
            } else {
                self@.port
            },
    {
        if self.port.as_str().unicode_len() == 0 {
            String::from_str("<select>")
        } else {
            self.port.clone()
        }
    }

    /// How the start button shows. A capture can be started once a port is
    /// chosen, and stopped while it runs.
    pub fn start_button(&self, capturing: bool) -> (r: StartButton)
        ensures
            r == start_button_of(self@, capturing),
    {
        if capturing {
            StartButton::Stop
        } else if self.port.as_str().unicode_len() > 0 {
            StartButton::Start
        } else {
            StartButton::Disabled
        }
    }

    /// Press a button.
    pub fn press(&self, button: Button, capturing: bool) -> (r: Effect)
        ensures
            r@ == effect_of(self@, button, capturing),
    {
        match button {
            Button::StartStop => match self.start_button(capturing) {
                StartButton::Stop => Effect::Send(Command::Stop),
                StartButton::Start => Effect::Send(Command::Start(self.build_config())),
                StartButton::Disabled => Effect::Nothing,
            },
            Button::Clear => Effect::Act(SettingsAction::Clear),
            Button::Export => Effect::Export(self.show_set()),
            Button::SaveConfig => Effect::Act(SettingsAction::SaveConfig),
        }
    }
}

// --- laws --------------------------------------------------------------------

/// Every choice on offer is understood: the baud rates as the numbers they
/// show, the parities and flow controls each as its own setting.
pub proof fn offered_choices_are_understood(m: SettingsModel)
    ensures
        serial_config((SettingsModel { baud: "9600"@, ..m })).baud == 9600,
        serial_config((SettingsModel { baud: "19200"@, ..m })).baud == 19200,
        serial_config((SettingsModel { baud: "38400"@, ..m })).baud == 38400,
        serial_config((SettingsModel { baud: "57600"@, ..m })).baud == 57600,
        serial_config((SettingsModel { baud: "115200"@, ..m })).baud == 115200,
        serial_config((SettingsModel { baud: "230400"@, ..m })).baud == 230400,
        serial_config((SettingsModel { parity: "None"@, ..m })).parity == Parity::NoParity,
        serial_config((SettingsModel { parity: "Even"@, ..m })).parity == Parity::Even,
        serial_config((SettingsModel { parity: "Odd"@, ..m })).parity == Parity::Odd,
        serial_config((SettingsModel { flow_control: "None"@, ..m })).flow_control
            == FlowControl::NoFlowControl,
        serial_config((SettingsModel { flow_control: "Software"@, ..m })).flow_control
            == FlowControl::Software,
        serial_config((SettingsModel { flow_control: "Hardware"@, ..m })).flow_control
            == FlowControl::Hardware,
{
    lemma_numeral_literals();
    text::numeral_is_read_back(9600, u32::MAX as nat);
    text::numeral_is_read_back(19200, u32::MAX as nat);
    text::numeral_is_read_back(38400, u32::MAX as nat);
    text::numeral_is_read_back(57600, u32::MAX as nat);
    text::numeral_is_read_back(115200, u32::MAX as nat);
    text::numeral_is_read_back(230400, u32::MAX as nat);
    reveal_strlit("None");
    reveal_strlit("Even");
    reveal_strlit("Odd");
    reveal_strlit("Software");
    reveal_strlit("Hardware");
    assert("None"@.len() == 4 && "None"@[0] == 'N');
    assert("Even"@.len() == 4 && "Even"@[0] == 'E');
    assert("Odd"@.len() == 3);
    assert("Software"@.len() == 8 && "Software"@[0] == 'S');
    assert("Hardware"@.len() == 8 && "Hardware"@[0] == 'H');
}

proof fn lemma_numeral_literals()
    ensures
        "9600"@ == text::dec_text(9600),
        "19200"@ == text::dec_text(19200),
        "38400"@ == text::dec_text(38400),
        "57600"@ == text::dec_text(57600),
        "115200"@ == text::dec_text(115200),
        "230400"@ == text::dec_text(230400),
{
    reveal_with_fuel(text::dec_text, 7);
    reveal_strlit("9600");
    reveal_strlit("19200");
    reveal_strlit("38400");
    reveal_strlit("57600");
    reveal_strlit("115200");
    reveal_strlit("230400");
    assert("9600"@ =~= text::dec_text(9600));
    assert("19200"@ =~= text::dec_text(19200));
    assert("38400"@ =~= text::dec_text(38400));
    assert("57600"@ =~= text::dec_text(57600));
    assert("115200"@ =~= text::dec_text(115200));
    assert("230400"@ =~= text::dec_text(230400));
}

/// Whether ids are in ascending order, none of them twice.
pub open spec fn ascending(ids: Seq<u8>) -> bool {
    forall|i: int, j: int| 0 <= i < j < ids.len() ==> ids[i] < ids[j]
}

/// Whether ids are in order; an id may come more than once.
pub open spec fn sorted(ids: Seq<u8>) -> bool {
    forall|i: int, j: int| 0 <= i < j < ids.len() ==> ids[i] <= ids[j]
}

/// Whether an id lies in a run.
spec fn in_run(run: (u8, u8), id: u8) -> bool {
    run.0 <= id <= run.1
}

/// The runs of sorted ids cover exactly these ids.
proof fn lemma_runs_cover(ids: Seq<u8>)
    requires
        sorted(ids),
    ensures
        ids.len() > 0 ==> runs(ids).len() > 0 && runs(ids).last().1 == ids.last(),
        ids.len() == 0 ==> runs(ids).len() == 0,
        forall|k: int| 0 <= k < runs(ids).len() ==> (#[trigger] runs(ids)[k]).0 <= runs(ids)[k].1,
        forall|id: u8|
            ids.contains(id) <==> exists|k: int|
                0 <= k < runs(ids).len() && in_run(#[trigger] runs(ids)[k], id),
    decreases ids.len(),
{
    let rs = runs(ids);
    if ids.len() > 0 {
        let front = ids.drop_last();
        let before = runs(front);
        let id = ids.last();
        lemma_runs_cover(front);
        if front.len() > 0 {
            assert(front.last() == ids[ids.len() - 2]);
            assert(front.last() <= id);
        }
        assert forall|x: u8|
            ids.contains(x) <==> exists|k: int|
                0 <= k < rs.len() && in_run(#[trigger] rs[k], x) by {
            if ids.contains(x) {
                let i = choose|i: int| 0 <= i < ids.len() && ids[i] == x;
                if i == ids.len() - 1 {
                    assert(in_run(rs[rs.len() - 1], x));
                } else {
                    assert(front[i] == x);
                    assert(front.contains(x));
                    let k = choose|k: int|
                        0 <= k < before.len() && in_run(#[trigger] before[k], x);
                    assert(in_run(rs[k], x));
                }
            }
            if exists|k: int| 0 <= k < rs.len() && in_run(#[trigger] rs[k], x) {
                let k = choose|k: int| 0 <= k < rs.len() && in_run(#[trigger] rs[k], x);
                if x == id {
                    assert(ids[ids.len() - 1] == x);
                } else {
                    assert(k < before.len() && in_run(before[k], x));
                    assert(front.contains(x));
                    let i = choose|i: int| 0 <= i < front.len() && front[i] == x;
                    assert(ids[i] == x);
                }
            }
        }
    } else {
        assert(rs.len() == 0);
    }
}

/// The characters of a run's text: digits and dashes.
proof fn lemma_run_text_chars(run: (u8, u8))
    ensures
        run_text(run).len() > 0,
        text::is_digit(run_text(run)[0]),
        text::is_digit(run_text(run).last()),
        forall|i: int|
            0 <= i < run_text(run).len() ==> text::is_digit(#[trigger] run_text(run)[i])
                || run_text(run)[i] == '-',
{
    reveal_strlit("-");
    text::numeral_denotes_its_number(run.0 as nat);
    text::numeral_denotes_its_number(run.1 as nat);
    let a = text::dec_text(run.0 as nat);
    let b = text::dec_text(run.1 as nat);
    assert(text::is_digit(a[0]));
    assert(text::is_digit(b[b.len() - 1]));
    assert(text::is_digit(a[a.len() - 1]));
    if run.0 != run.1 {
        let whole = a + "-"@ + b;
        assert forall|i: int| 0 <= i < whole.len() implies text::is_digit(#[trigger] whole[i])
            || whole[i] == '-' by {
            if i < a.len() {
                assert(whole[i] == a[i]);
            } else if i > a.len() {
                assert(whole[i] == b[i - a.len() - 1]);
            }
        }
    }
}

proof fn lemma_first_index(s: Seq<char>, c: char, i: int)
    requires
        0 <= i <= s.len(),
        i < s.len() ==> s[i] == c,
        forall|j: int| 0 <= j < i ==> s[j] != c,
    ensures
        text::first_index(s, c) == i,
    decreases s.len(),
{
    if i > 0 {
        assert forall|j: int| 0 <= j < i - 1 implies s.skip(1)[j] != c by {
            assert(s[j + 1] != c);
        }
        lemma_first_index(s.skip(1), c, i - 1);
    }
}

/// A run's text lists exactly the ids of the run.
proof fn lemma_run_text_lists_the_run(run: (u8, u8))
    requires
        run.0 <= run.1,
    ensures
        forall|id: u8|
            token_ids(text::trim_text(run_text(run))).contains(id) <==> in_run(run, id),
{
    let a = text::dec_text(run.0 as nat);
    let b = text::dec_text(run.1 as nat);
    let token = run_text(run);
    lemma_run_text_chars(run);
    text::trimming_keeps_tight_text(token);
    text::numeral_denotes_its_number(run.0 as nat);
    text::numeral_denotes_its_number(run.1 as nat);
    text::numeral_is_read_back(run.0 as nat, 255);
    text::numeral_is_read_back(run.1 as nat, 255);
    if run.0 == run.1 {
        assert forall|j: int| 0 <= j < a.len() implies a[j] != '-' by {
            assert(text::is_digit(a[j]));
        }
        lemma_first_index(a, '-', a.len() as int);
    } else {
        reveal_strlit("-");
        let dash = a.len() as int;
        assert forall|j: int| 0 <= j < dash implies token[j] != '-' by {
            assert(token[j] == a[j]);
            assert(text::is_digit(a[j]));
        }
        assert(token[dash] == '-');
        lemma_first_index(token, '-', dash);
        assert(token.take(dash) =~= a);
        assert(token.skip(dash + 1) =~= b);
        assert(text::is_digit(a[0]) && text::is_digit(a[a.len() - 1]));
        assert(text::is_digit(b[0]) && text::is_digit(b[b.len() - 1]));
        text::trimming_keeps_tight_text(a);
        text::trimming_keeps_tight_text(b);
    }
}

proof fn lemma_join_ends(parts: Seq<Seq<char>>, sep: Seq<char>)
    requires
        parts.len() > 0,
        parts[0].len() > 0,
        parts.last().len() > 0,
    ensures
        text::join_text(parts, sep).len() > 0,
        text::join_text(parts, sep)[0] == parts[0][0],
        text::join_text(parts, sep).last() == parts.last().last(),
    decreases parts.len(),
{
    if parts.len() > 1 {
        let front = parts.drop_last();
        lemma_join_front(front, sep);
    }
}

proof fn lemma_join_front(parts: Seq<Seq<char>>, sep: Seq<char>)
    requires
        parts.len() > 0,
        parts[0].len() > 0,
    ensures
        text::join_text(parts, sep).len() > 0,
        text::join_text(parts, sep)[0] == parts[0][0],
    decreases parts.len(),
{
    if parts.len() > 1 {
        lemma_join_front(parts.drop_last(), sep);
    }
}

/// The compact form of sorted ids stands for exactly these ids: what
/// `canonicalize_slaves` writes, `show_set` reads back.
pub proof fn canonical_text_is_read_back(ids: Seq<u8>)
    requires
        ids.len() > 0,
        sorted(ids),
    ensures
        show_filter(canonical_text(ids)) == Some(ids.to_set()),
{
    let rs = runs(ids);
    let parts = run_texts(rs);
    let whole = canonical_text(ids);
    lemma_runs_cover(ids);
    reveal_strlit(",");
    assert(","@ =~= seq![',']);
    assert forall|k: int| 0 <= k < parts.len() implies !(#[trigger] parts[k]).contains(',') by {
        lemma_run_text_chars(rs[k]);
        assert forall|i: int| 0 <= i < parts[k].len() implies parts[k][i] != ',' by {
            assert(text::is_digit(run_text(rs[k])[i]) || run_text(rs[k])[i] == '-');
        }
    }
    text::joined_pieces_are_the_fields(parts, ',');
    lemma_run_text_chars(rs[0]);
    lemma_run_text_chars(rs[rs.len() - 1]);
    lemma_join_ends(parts, ","@);
    text::trimming_keeps_tight_text(whole);
    assert(whole[0] != '*');
    let listed = listed_ids(parts);
    assert forall|id: u8| listed.contains(id) == ids.contains(id) by {
        if listed.contains(id) {
            let k = choose|k: int|
                0 <= k < parts.len() && #[trigger] token_ids(
                    text::trim_text(parts[k]),
                ).contains(id);
            lemma_run_text_lists_the_run(rs[k]);
            assert(in_run(rs[k], id));
        }
        if ids.contains(id) {
            let k = choose|k: int| 0 <= k < rs.len() && in_run(#[trigger] rs[k], id);
            lemma_run_text_lists_the_run(rs[k]);
            assert(token_ids(text::trim_text(parts[k])).contains(id));
        }
    }
    assert(listed =~= ids.to_set());
    assert(ids.contains(ids[0]));
    assert(listed.contains(ids[0]));
}

proof fn lemma_ids_below(set: Set<u8>, limit: int)
    requires
        0 <= limit <= 256,
    ensures
        ascending(ids_below(set, limit)),
        forall|id: u8| #[trigger]
            ids_below(set, limit).contains(id) <==> set.contains(id) && id < limit,
    decreases limit,
{
    let ids = ids_below(set, limit);
    if limit > 0 {
        lemma_ids_below(set, limit - 1);
        let before = ids_below(set, limit - 1);
        let top = (limit - 1) as u8;
        if set.contains(top) {
            assert forall|i: int| 0 <= i < before.len() implies before[i] < top by {
                assert(before.contains(before[i]));
            }
            assert forall|id: u8| ids.contains(id) <==> set.contains(id) && id < limit by {
                if ids.contains(id) {
                    let i = choose|i: int| 0 <= i < ids.len() && ids[i] == id;
                    if i < before.len() {
                        assert(before.contains(before[i]));
                    }
                }
                if set.contains(id) && id < limit {
                    if id == top {
                        assert(ids[ids.len() - 1] == id);
                    } else {
                        assert(before.contains(id));
                        let i = choose|i: int| 0 <= i < before.len() && before[i] == id;
                        assert(ids[i] == id);
                    }
                }
            }
        } else {
            assert forall|id: u8| ids.contains(id) <==> set.contains(id) && id < limit by {
                assert(before.contains(id) <==> set.contains(id) && id < limit - 1);
                assert(id < limit && id != top ==> id < limit - 1);
            }
        }
    }
}

/// What is saved of a filter is sorted and lists exactly its ids.
pub proof fn saved_ids_are_the_filter(s: Seq<char>)
    ensures
        ascending(filter_ids(show_filter(s))),
        match show_filter(s) {
            Some(set) => filter_ids(show_filter(s)).to_set() == set,
            None => filter_ids(show_filter(s)).len() == 0,
        },
{
    if let Some(set) = show_filter(s) {
        lemma_ids_below(set, 256);
        assert(ids_below(set, 256).to_set() =~= set);
    }
}

/// Saving and loading settings changes none of them: all that is saved comes
/// back as it was, the filter comes back as the same set, and saving what was
/// loaded gives the same file.
pub proof fn saved_settings_come_back(m: SettingsModel, other: SettingsModel)
    ensures
        ({
            let back = with_persisted(other, persisted(m));
            &&& back == (SettingsModel {
                ports_cache: other.ports_cache,
                show_slaves_str: back.show_slaves_str,
                ..m
            })
            &&& show_filter(back.show_slaves_str) == show_filter(m.show_slaves_str)
            &&& persisted(back) == persisted(m)
            &&& serial_config(back) == serial_config(m)
        }),
{
    let filter = show_filter(m.show_slaves_str);
    let ids = filter_ids(filter);
    saved_ids_are_the_filter(m.show_slaves_str);
    match filter {
        Some(set) => {
            if ids.len() == 0 {
                assert(ids.to_set() =~= Set::empty());
            }
            canonical_text_is_read_back(ids);
        },
        None => {
            assert(run_texts(runs(ids)) =~= Seq::<Seq<char>>::empty());
            assert(canonical_text(ids) =~= Seq::<char>::empty());
            text::trimming_keeps_tight_text(canonical_text(ids));
        },
    }
}

/// The settings of a first run are the ones that the default configuration
/// gives.
pub proof fn default_configuration_gives_the_default_settings()
    ensures
        with_persisted(default_settings(), crate::config::default_config()) == default_settings(),
        persisted(default_settings()) == crate::config::default_config(),
{
    assert(run_texts(runs(Seq::<u8>::empty())) =~= Seq::<Seq<char>>::empty());
    assert(canonical_text(Seq::<u8>::empty()) =~= Seq::<char>::empty());
    text::trimming_keeps_tight_text(Seq::<char>::empty());
}

/// Any baud rate that a number can be is understood as that number, with or without
/// a plus sign; what is no such number means 9600.
pub proof fn baud_rate_is_the_number_entered(m: SettingsModel, baud: u32)
    ensures
        serial_config((SettingsModel { baud: text::dec_text(baud as nat), ..m })).baud == baud,
        text::number_text(m.baud, u32::MAX as nat) is None ==> serial_config(m).baud == 9600,
        text::number_text(m.baud, u32::MAX as nat) matches Some(n) ==> serial_config(m).baud == n,
{
    text::numeral_is_read_back(baud as nat, u32::MAX as nat);
}

/// What is started is what is set: the port as entered, the number of data bits and
/// stop bits as chosen, the parity and flow control by name, and the timeout, but no
/// shorter than ten milliseconds.
pub proof fn started_configuration_is_the_one_set(m: SettingsModel)
    ensures
        serial_config(m).port == m.port,
        m.data_bits == 5 <==> serial_config(m).data_bits == DataBits::Five,
        m.data_bits == 6 <==> serial_config(m).data_bits == DataBits::Six,
        m.data_bits == 7 <==> serial_config(m).data_bits == DataBits::Seven,
        m.stop_bits == 2 <==> serial_config(m).stop_bits == StopBits::Two,
        m.parity == "Even"@ <==> serial_config(m).parity == Parity::Even,
        m.parity == "Odd"@ <==> serial_config(m).parity == Parity::Odd,
        m.flow_control == "Software"@ <==> serial_config(m).flow_control == FlowControl::Software,
        m.flow_control == "Hardware"@ <==> serial_config(m).flow_control == FlowControl::Hardware,
        serial_config(m).response_timeout >= 10,
        m.timeout_ms >= 10 ==> serial_config(m).response_timeout == m.timeout_ms,
        m.timeout_ms < 10 ==> serial_config(m).response_timeout == 10,
{
    reveal_strlit("Even");
    reveal_strlit("Odd");
    reveal_strlit("Software");
    reveal_strlit("Hardware");
    assert("Even"@.len() != "Odd"@.len());
    assert("Software"@[0] != "Hardware"@[0]);
}

/// What a pressed button does: the start button stops a capture that runs, and else
/// starts one with the settings as they are, if a port is chosen; export goes by the
/// filter of the settings.
pub proof fn buttons_do_what_they_say(m: SettingsModel, capturing: bool)
    ensures
        capturing ==> effect_of(m, Button::StartStop, capturing) == EffectModel::Send(
            CommandModel::Stop,
        ) && start_button_of(m, capturing) == StartButton::Stop,
        !capturing && m.port.len() > 0 ==> effect_of(m, Button::StartStop, capturing)
            == EffectModel::Send(CommandModel::Start(serial_config(m))) && start_button_of(
            m,
            capturing,
        ) == StartButton::Start,
        !capturing && m.port.len() == 0 ==> effect_of(m, Button::StartStop, capturing)
            == EffectModel::Nothing && start_button_of(m, capturing) == StartButton::Disabled,
        effect_of(m, Button::Clear, capturing) == EffectModel::Act(SettingsAction::Clear),
        effect_of(m, Button::SaveConfig, capturing) == EffectModel::Act(SettingsAction::SaveConfig),
        effect_of(m, Button::Export, capturing) == EffectModel::Export(
            show_filter(m.show_slaves_str),
        ),
{
}

/// A range names the same ids whichever end comes first: exactly those from the
/// smaller to the greater number, both included.
pub proof fn ranges_name_what_lies_between(a: nat, b: nat, id: u8)
    ensures
        ids_between(a, b).contains(id) <==> (if a <= b {
            a <= id <= b
        } else {
            b <= id <= a
        }),
        ids_between(a, b) == ids_between(b, a),
{
    assert(ids_between(a, b) =~= ids_between(b, a));
}

/// Every token that is written as a number, or as two numbers with a dash between
/// them, names what it says; in the second form the order does not matter.
pub proof fn tokens_name_their_ids(a: u8, b: u8, id: u8)
    ensures
        token_ids(text::dec_text(a as nat)).contains(id) <==> id == a,
        token_ids(text::dec_text(a as nat) + seq!['-'] + text::dec_text(b as nat)).contains(id) <==> (
        a <= id <= b || b <= id <= a),
{
    let x = text::dec_text(a as nat);
    let y = text::dec_text(b as nat);
    let token = x + seq!['-'] + y;
    text::numeral_denotes_its_number(a as nat);
    text::numeral_denotes_its_number(b as nat);
    text::numeral_is_read_back(a as nat, 255);
    text::numeral_is_read_back(b as nat, 255);
    assert forall|j: int| 0 <= j < x.len() implies x[j] != '-' by {
        assert(text::is_digit(x[j]));
    }
    lemma_first_index(x, '-', x.len() as int);
    let dash = x.len() as int;
    assert forall|j: int| 0 <= j < dash implies token[j] != '-' by {
        assert(token[j] == x[j]);
    }
    assert(token[dash] == '-');
    lemma_first_index(token, '-', dash);
    assert(token.take(dash) =~= x);
    assert(token.skip(dash + 1) =~= y);
    assert(text::is_digit(x[0]) && text::is_digit(x[x.len() - 1]));
    assert(text::is_digit(y[0]) && text::is_digit(y[y.len() - 1]));
    text::trimming_keeps_tight_text(x);
    text::trimming_keeps_tight_text(y);
}

/// A token that is no number, or no two numbers with a dash between them, names
/// nothing.
pub proof fn other_tokens_name_nothing(token: Seq<char>, id: u8)
    ensures
        !token.contains('-') && text::number_text(token, 255) is None ==> !token_ids(
            token,
        ).contains(id),
        !token.contains('-') ==> (text::number_text(token, 255) matches Some(n) ==> (token_ids(
            token,
        ).contains(id) <==> id == n)),
{
    text::first_place_is_the_first(token, '-');
    let i = text::first_index(token, '-');
    if i < token.len() {
        assert(token.contains(token[i as int]));
    }
}

/// A list shows an id exactly if one of its tokens names it, each taken without the
/// white space around it.
pub proof fn lists_name_what_their_tokens_name(tokens: Seq<Seq<char>>, more: Seq<char>, id: u8)
    ensures
        !listed_ids(Seq::<Seq<char>>::empty()).contains(id),
        listed_ids(tokens.push(more)).contains(id) <==> listed_ids(tokens).contains(id)
            || token_ids(text::trim_text(more)).contains(id),
{
    let all = tokens.push(more);
    if listed_ids(tokens).contains(id) {
        let i = choose|i: int|
            0 <= i < tokens.len() && #[trigger] token_ids(text::trim_text(tokens[i])).contains(id);
        assert(token_ids(text::trim_text(all[i])).contains(id));
    }
    if token_ids(text::trim_text(more)).contains(id) {
        assert(token_ids(text::trim_text(all[tokens.len() as int])).contains(id));
    }
    if listed_ids(all).contains(id) {
        let i = choose|i: int|
            0 <= i < all.len() && #[trigger] token_ids(text::trim_text(all[i])).contains(id);
        if i < tokens.len() {
            assert(token_ids(text::trim_text(tokens[i])).contains(id));
        }
    }
}

/// A filter shows the ids that its tokens name, the text between two commas each. A
/// text without such an id, an empty one and a star filter nothing.
pub proof fn filter_is_the_list_of_its_tokens(s: Seq<char>, id: u8)
    ensures
        match show_filter(s) {
            Some(set) => set.contains(id) <==> listed_ids(
                text::fields_text(text::trim_text(s), ','),
            ).contains(id),
            None => text::trim_text(s).len() == 0 || text::trim_text(s) == seq!['*']
                || !listed_ids(text::fields_text(text::trim_text(s), ',')).contains(id),
        },
        show_filter(s) matches Some(set) ==> exists|x: u8| #[trigger] set.contains(x),
        text::trim_text(s).len() == 0 || text::trim_text(s) == seq!['*'] ==> show_filter(s) is None,
        text::trim_text(s).len() > 0 && text::trim_text(s) != seq!['*'] && listed_ids(
            text::fields_text(text::trim_text(s), ','),
        ).contains(id) ==> show_filter(s) is Some,
{
    let ids = listed_ids(text::fields_text(text::trim_text(s), ','));
    if !(ids =~= Set::empty()) {
        assert(exists|x: u8| #[trigger] ids.contains(x));
    }
}

/// The compact form is as short as it can be: runs of ascending ids neither overlap
/// nor touch, so no two of them could be written as one.
pub proof fn runs_do_not_touch(ids: Seq<u8>)
    requires
        ascending(ids),
    ensures
        forall|k: int|
            0 <= k < runs(ids).len() - 1 ==> (#[trigger] runs(ids)[k]).1 + 1 < runs(ids)[k + 1].0,
        ids.len() > 0 ==> runs(ids).len() > 0 && runs(ids).last().1 == ids.last(),
        forall|k: int| 0 <= k < runs(ids).len() ==> (#[trigger] runs(ids)[k]).0 <= runs(ids)[k].1,
    decreases ids.len(),
{
    if ids.len() > 0 {
        let front = ids.drop_last();
        let before = runs(front);
        let rs = runs(ids);
        let id = ids.last();
        assert forall|i: int, j: int| 0 <= i < j < front.len() implies front[i] < front[j] by {
            assert(ids[i] < ids[j]);
        }
        runs_do_not_touch(front);
        if front.len() > 0 {
            assert(front.last() == ids[ids.len() - 2]);
            assert(front.last() < id);
        }
        assert forall|k: int| 0 <= k < rs.len() - 1 implies (#[trigger] rs[k]).1 + 1 < rs[k
            + 1].0 by {
            assert(rs[k] == before[k]);
            if k + 1 < before.len() {
                assert(before[k].1 + 1 < before[k + 1].0);
            }
        }
    }
}

/// A model holds every field of the settings.
pub proof fn nothing_is_left_out(s: SettingsState)
    ensures
        s@.port == s.port@,
        s@.baud == s.baud@,
        s@.data_bits == s.data_bits,
        s@.parity == s.parity@,
        s@.stop_bits == s.stop_bits,
        s@.flow_control == s.flow_control@,
        s@.timeout_ms == s.timeout_ms,
        s@.ports_cache.len() == s.ports_cache@.len(),
        forall|i: int|
            0 <= i < s.ports_cache@.len() ==> #[trigger] s@.ports_cache[i] == s.ports_cache@[i]@,
        s@.auto_scroll == s.auto_scroll,
        s@.show_slaves_str == s.show_slaves_str@,
{
}

/// In a range each number is taken without the white space around it; where one of
/// the two is no number, the range names nothing.
pub proof fn range_ends_are_trimmed(from: Seq<char>, to: Seq<char>, id: u8)
    requires
        !from.contains('-'),
    ensures
        ({
            let a = text::number_text(text::trim_text(from), 255);
            let b = text::number_text(text::trim_text(to), 255);
            token_ids(from + seq!['-'] + to).contains(id) <==> a is Some && b is Some && (a->0 <= id
                <= b->0 || b->0 <= id <= a->0)
        }),
{
    let token = from + seq!['-'] + to;
    let dash = from.len() as int;
    assert forall|j: int| 0 <= j < dash implies token[j] != '-' by {
        assert(from.contains(from[j]));
    }
    lemma_first_index(token, '-', dash);
    assert(token.take(dash) =~= from);
    assert(token.skip(dash + 1) =~= to);
}

} // verus!
