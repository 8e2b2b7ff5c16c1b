//! The application's state: what has been captured, what the settings are, and
//! what is due next. The window around it draws and does what it is told.

use std::collections::{HashMap, HashSet, VecDeque};

use vstd::prelude::*;

use crate::capture::engine;
use crate::capture::engine::{EngineModel, Event, EventModel, InputModel};
use crate::capture::serial::SerialConfig;
use crate::config::{PersistedConfig, PersistedModel};
use crate::export;
use crate::export::entries_to_text;
use crate::render;
use crate::render::format::{counter_slave_map, format_entry, Line};
use crate::render::settings;
use crate::render::settings::{SettingsAction, SettingsModel, SettingsState};
use crate::render::ui_view;
use crate::render::ui_view::{visible_rows, Row};
use crate::session::model;
use crate::session::model::{Entry, EntryModel};
use crate::time::Timestamp;

verus! {

broadcast use {vstd::string::group_string_axioms, vstd::std_specs::hash::group_hash_axioms};

/// Maximum entries retained in memory (FIFO, drop oldest).
pub const MAX_ENTRIES: usize = 10_000;

/// Repaint interval in milliseconds while data is flowing (capturing): fast
/// enough for real-time feel without burning CPU.
pub const ACTIVE_REPAINT: u64 = 100;

/// Repaint interval in milliseconds while idle (no capture, no events): a long
/// poll to keep CPU near zero.
pub const IDLE_REPAINT: u64 = 500;

/// Time in milliseconds between two automatic exports.
pub const AUTOEXPORT_INTERVAL: u64 = 1000;

/// When to draw again.
#[derive(Debug, Clone, Copy, PartialEq, Eq, Structural)]
pub enum Repaint {
    Now,
    /// After so many milliseconds.
    After(u64),
}

/// The state of the application.
#[derive(Debug)]
pub struct App {
    entries: VecDeque<Entry>,
    lines_cache: VecDeque<Vec<Line>>,
    /// Cached `counter → slave` map rebuilt only when entries change.
    slave_map_cache: HashMap<u64, u8>,
    /// The settings, as the panel shows and edits them.
    pub settings: SettingsState,
    capturing: bool,
    last_error: Option<String>,
    /// Set when an automatic capture start is requested.
    autostart_pending: bool,
    /// When set, entries are periodically written here as plain text.
    autoexport_path: Option<String>,
    /// Last time auto-export wrote to disk (throttle to every ~1 s), in
    /// milliseconds.
    last_autoexport: Option<u64>,
}

/// What an [`App`] holds. The cached lines and the cached map follow from the
/// entries.
#[verifier::ext_equal]
pub struct AppModel {
    pub entries: Seq<EntryModel>,
    pub settings: SettingsModel,
    pub capturing: bool,
    pub last_error: Option<Seq<char>>,
    pub autostart_pending: bool,
    pub autoexport_path: Option<Seq<char>>,
    pub last_autoexport: Option<u64>,
}

/// The text of an optional string.
pub open spec fn opt_text(s: Option<String>) -> Option<Seq<char>> {
    match s {
        Some(t) => Some(t@),
        None => None,
    }
}

/// The contents of an optional configuration.
pub open spec fn opt_config(c: Option<PersistedConfig>) -> Option<PersistedModel> {
    match c {
        Some(cfg) => Some(cfg@),
        None => None,
    }
}

impl View for App {
    type V = AppModel;

    closed spec fn view(&self) -> AppModel {
        AppModel {
            entries: model::entry_views(self.entries@),
            settings: self.settings@,
            capturing: self.capturing,
            last_error: opt_text(self.last_error),
            autostart_pending: self.autostart_pending,
            autoexport_path: opt_text(self.autoexport_path),
            last_autoexport: self.last_autoexport,
        }
    }
}

// --- what happens to the state -----------------------------------------------

/// A text that is there and not empty.
pub open spec fn non_empty(s: Option<Seq<char>>) -> Option<Seq<char>> {
    match s {
        Some(t) => if t.len() > 0 {
            Some(t)
        } else {
            None
        },
        None => None,
    }
}

/// The settings at launch: what was saved, or else the defaults, with the port
/// of the environment in place of the saved one.
pub open spec fn launch_settings(
    config: Option<PersistedModel>,
    autostart_port: Option<Seq<char>>,
) -> SettingsModel {
    let loaded = match config {
        Some(cfg) => settings::with_persisted(settings::default_settings(), cfg),
        None => settings::default_settings(),
    };
    match non_empty(autostart_port) {
        Some(port) => SettingsModel { port, ..loaded },
        None => loaded,
    }
}

/// The state at launch.
pub open spec fn launched(
    config: Option<PersistedModel>,
    autostart_port: Option<Seq<char>>,
    autoexport_path: Option<Seq<char>>,
) -> AppModel {
    AppModel {
        entries: Seq::empty(),
        settings: launch_settings(config, autostart_port),
        capturing: false,
        last_error: None,
        autostart_pending: non_empty(autostart_port) is Some,
        autoexport_path: non_empty(autoexport_path),
        last_autoexport: None,
    }
}

/// The newest entries, as many as are kept.
pub open spec fn newest(entries: Seq<EntryModel>) -> Seq<EntryModel> {
    if entries.len() > MAX_ENTRIES {
        entries.skip(entries.len() - MAX_ENTRIES)
    } else {
        entries
    }
}

/// The state after an event of the capture engine.
pub open spec fn told(m: AppModel, event: EventModel) -> AppModel {
    match event {
        EventModel::Entry(e) => AppModel { entries: newest(m.entries.push(e)), ..m },
        EventModel::Started => AppModel { capturing: true, last_error: None, ..m },
        EventModel::Stopped => AppModel { capturing: false, ..m },
        EventModel::Error(msg) => AppModel { last_error: Some(msg), ..m },
    }
}

/// The state after events one after another.
pub open spec fn told_all(m: AppModel, events: Seq<EventModel>) -> AppModel
    decreases events.len(),
{
    if events.len() == 0 {
        m
    } else {
        told(told_all(m, events.drop_last()), events.last())
    }
}

/// Whether some event brings an entry.
pub open spec fn brings_entry(events: Seq<EventModel>) -> bool {
    exists|i: int| 0 <= i < events.len() && #[trigger] events[i] is Entry
}

/// Whether an automatic start is due.
pub open spec fn autostart_due(m: AppModel) -> bool {
    m.autostart_pending && !m.capturing && m.settings.port.len() > 0
}

/// Whether an automatic export is due at a time in milliseconds.
pub open spec fn autoexport_due(m: AppModel, now: u64) -> bool {
    m.autoexport_path is Some && match m.last_autoexport {
        Some(t) => now - t >= AUTOEXPORT_INTERVAL,
        None => true,
    }
}

/// The state after an action of the settings panel.
pub open spec fn acted(m: AppModel, action: SettingsAction) -> AppModel {
    match action {
        SettingsAction::Clear => AppModel { entries: Seq::empty(), ..m },
        _ => m,
    }
}

/// Whether a text is there and not empty.
fn is_non_empty(s: &Option<String>) -> (r: bool)
    ensures
        r == (non_empty(opt_text(*s)) is Some),
{
    match s {
        Some(t) => t.as_str().unicode_len() > 0,
        None => false,
    }
}

/// When to draw again: at once when new data has arrived, soon during a
/// capture, and late when all is quiet.
pub fn repaint(entries_changed: bool, capturing: bool) -> (r: Repaint)
    ensures
        r == if entries_changed {
            Repaint::Now
        } else if capturing {
            Repaint::After(ACTIVE_REPAINT)
        } else {
            Repaint::After(IDLE_REPAINT)
        },
{
    if entries_changed {
        Repaint::Now
    } else if capturing {
        Repaint::After(ACTIVE_REPAINT)
    } else {
        Repaint::After(IDLE_REPAINT)
    }
}

impl App {
    /// The caches agree with the entries, and there are not too many of these.
    pub closed spec fn wf(&self) -> bool {
        &&& self.entries@.len() <= MAX_ENTRIES
        &&& self.lines_cache@.len() == self.entries@.len()
        &&& forall|i: int|
            0 <= i < self.entries@.len() ==> render::format::line_views(
                (#[trigger] self.lines_cache@[i])@,
            ) == render::format::entry_lines(self.entries@[i]@)
        &&& self.slave_map_cache@ == render::format::slave_map(
            model::entry_views(self.entries@),
        )
    }

    /// Set up the state from the saved configuration and from what the
    /// environment asks for: a port to start capturing on at once, and a path
    /// to export to every second (env > config > defaults).
    pub fn new(
        config: Option<PersistedConfig>,
        autostart_port: Option<String>,
        autoexport_path: Option<String>,
    ) -> (r: Self)
        ensures
            r.wf(),
            r@ == launched(
                opt_config(config),
                opt_text(autostart_port),
                opt_text(autoexport_path),
            ),
    {
        let mut settings = SettingsState::default();
        // Load persisted config first; the autostart port below still wins.
        if let Some(cfg) = &config {
            settings.apply_persisted(cfg);
        }
        let autostart_pending = is_non_empty(&autostart_port);
        if autostart_pending {
            if let Some(port) = &autostart_port {
                settings.port = port.clone();
            }
        }
        let path = if is_non_empty(&autoexport_path) {
            autoexport_path
        } else {
            None
        };
        let r = App {
            entries: VecDeque::new(),
            lines_cache: VecDeque::new(),
            slave_map_cache: HashMap::new(),
            settings,
            capturing: false,
            last_error: None,
            autostart_pending,
            autoexport_path: path,
            last_autoexport: None,
        };
        assert(model::entry_views(r.entries@) =~= Seq::<EntryModel>::empty());
        r
    }

    /// Add an entry, and drop the oldest beyond the limit.
    fn keep(&mut self, entry: Entry)
        requires
            old(self).entries@.len() <= MAX_ENTRIES,
            old(self).lines_cache@.len() == old(self).entries@.len(),
            forall|i: int|
                0 <= i < old(self).entries@.len() ==> render::format::line_views(
                    (#[trigger] old(self).lines_cache@[i])@,
                ) == render::format::entry_lines(old(self).entries@[i]@),
        ensures
            final(self).entries@.len() <= MAX_ENTRIES,
            final(self).lines_cache@.len() == final(self).entries@.len(),
            forall|i: int|
                0 <= i < final(self).entries@.len() ==> render::format::line_views(
                    (#[trigger] final(self).lines_cache@[i])@,
                ) == render::format::entry_lines(final(self).entries@[i]@),
            final(self)@ == (AppModel {
                entries: newest(old(self)@.entries.push(entry@)),
                ..old(self)@
            }),
    {
        let ghost before = self@;
        let ghost grown = before.entries.push(entry@);
        let lines = format_entry(&entry);
        self.entries.push_back(entry);
        self.lines_cache.push_back(lines);
        assert(model::entry_views(self.entries@) =~= grown);
        if self.entries.len() > MAX_ENTRIES {
            let ghost held = self.entries@;
            let ghost cached = self.lines_cache@;
            self.entries.pop_front();
            self.lines_cache.pop_front();
            proof {
                assert forall|i: int| 0 <= i < self.entries@.len() implies model::entry_views(
                    self.entries@,
                )[i] == grown.skip(1)[i] by {
                    assert(model::entry_views(held)[i + 1] == held[i + 1]@);
                }
                assert(model::entry_views(self.entries@) =~= grown.skip(1));
                assert forall|i: int|
                    0 <= i < self.entries@.len() implies render::format::line_views(
                    (#[trigger] self.lines_cache@[i])@,
                ) == render::format::entry_lines(self.entries@[i]@) by {
                    assert(self.lines_cache@[i] == cached[i + 1]);
                    assert(self.entries@[i] == held[i + 1]);
                }
            }
        }
    }

    /// Take in the events that have come from the capture engine.
    /// Returns `true` if any entries were added or removed (i.e. the
    /// display data changed), so the caller can request a repaint.
    pub fn drain_events(&mut self, events: Vec<Event>) -> (r: bool)
        requires
            old(self).wf(),
        ensures
            final(self).wf(),
            final(self)@ == told_all(old(self)@, engine::event_views(events@)),
            r == brings_entry(engine::event_views(events@)),
    {
        let ghost m = self@;
        let ghost all = engine::event_views(events@);
        let mut entries_changed = false;
        let mut i: usize = 0;
        assert(all.take(0) =~= Seq::<EventModel>::empty());
        while i < events.len()
            invariant
                i <= events.len(),
                all == engine::event_views(events@),
                self.entries@.len() <= MAX_ENTRIES,
                self.lines_cache@.len() == self.entries@.len(),
                forall|i: int|
                    0 <= i < self.entries@.len() ==> render::format::line_views(
                        (#[trigger] self.lines_cache@[i])@,
                    ) == render::format::entry_lines(self.entries@[i]@),
                !entries_changed ==> self.wf(),
                self@ == told_all(m, all.take(i as int)),
                entries_changed == brings_entry(all.take(i as int)),
            decreases events.len() - i,
        {
            let ghost so_far = all.take(i as int);
            let ghost next = all.take(i + 1);
            proof {
                assert(next.drop_last() =~= so_far);
                assert(next.last() == events@[i as int]@);
                if brings_entry(so_far) {
                    let k = choose|k: int| 0 <= k < so_far.len() && #[trigger] so_far[k] is Entry;
                    assert(next[k] is Entry);
                }
                if brings_entry(next) && !(next.last() is Entry) {
                    let k = choose|k: int| 0 <= k < next.len() && #[trigger] next[k] is Entry;
                    assert(so_far[k] is Entry);
                }
                if next.last() is Entry {
                    assert(next[i as int] is Entry);
                }
            }
            match &events[i] {
                Event::Entry(entry) => {
                    self.keep(entry.clone());
                    entries_changed = true;
                },
                Event::Started => {
                    self.capturing = true;
                    self.last_error = None;
                },
                Event::Stopped => {
                    self.capturing = false;
                },
                Event::Error(msg) => {
                    self.last_error = Some(msg.clone());
                },
            }
            i = i + 1;
        }
        assert(all.take(i as int) =~= all);
        if entries_changed {
            self.slave_map_cache = counter_slave_map(&self.entries);
        }
        entries_changed
    }

    /// Whether a capture runs.
    pub fn capturing(&self) -> (r: bool)
        ensures
            r == self@.capturing,
    {
        self.capturing
    }

    /// How many entries there are.
    pub fn entry_count(&self) -> (r: usize)
        ensures
            r == self@.entries.len(),
    {
        self.entries.len()
    }

    /// The entry of a row.
    pub fn entry(&self, index: usize) -> (r: &Entry)
        requires
            index < self@.entries.len(),
        ensures
            r@ == self@.entries[index as int],
    {
        &self.entries[index]
    }

    /// The lines of a row, as they were formatted when the entry came.
    pub fn lines(&self, index: usize) -> (r: &Vec<Line>)
        requires
            self.wf(),
            index < self@.entries.len(),
        ensures
            render::format::line_views(r@) == render::format::entry_lines(
                self@.entries[index as int],
            ),
    {
        &self.lines_cache[index]
    }

    /// The capture list as the filter of the settings lets it through.
    pub fn rows(&self) -> (r: Vec<Row>)
        requires
            self.wf(),
        ensures
            r@ == ui_view::rows_of(
                self@.entries,
                render::format::slave_map(self@.entries),
                settings::show_filter(self@.settings.show_slaves_str),
            ),
    {
        let set = self.settings.show_set();
        match &set {
            Some(s) => visible_rows(&self.entries, &self.slave_map_cache, Some(s)),
            None => visible_rows(&self.entries, &self.slave_map_cache, None),
        }
    }

    /// Whether the list follows its end: while a capture runs, unless switched
    /// off.
    pub fn follows_end(&self) -> (r: bool)
        ensures
            r == (self@.settings.auto_scroll && self@.capturing),
    {
        self.settings.auto_scroll && self.capturing
    }

    /// The banner that tells the last error, until a capture starts.
    pub fn banner(&self) -> (r: Option<String>)
        ensures
            opt_text(r) == match self@.last_error {
                Some(err) => Some("⚠ "@ + err),
                None => None,
            },
    {
        match &self.last_error {
            Some(err) => Some(String::from_str("⚠ ").concat(err.as_str())),
            None => None,
        }
    }

    /// Fire the autostart once: the configuration to start with, if a start was
    /// requested, none has happened yet, and there is a port.
    pub fn take_autostart(&mut self) -> (r: Option<SerialConfig>)
        ensures
            match r {
                Some(cfg) => autostart_due(old(self)@) && cfg@ == settings::serial_config(
                    old(self)@.settings,
                ),
                None => !autostart_due(old(self)@),
            },
            final(self)@ == (AppModel {
                autostart_pending: old(self)@.autostart_pending && !autostart_due(old(self)@),
                ..old(self)@
            }),
            final(self).wf() == old(self).wf(),
    {
        if self.autostart_pending && !self.capturing && self.settings.port.as_str().unicode_len()
            > 0 {
            self.autostart_pending = false;
            Some(self.settings.build_config())
        } else {
            None
        }
    }

    /// Auto-export every second: the path to write to and the text to write, if
    /// the time has come. Unfiltered, so scripted output stays complete.
    pub fn take_autoexport(&mut self, now: u64) -> (r: Option<(String, String)>)
        ensures
            match r {
                Some((path, text)) => autoexport_due(old(self)@, now) && Some(path@) == old(
                    self,
                )@.autoexport_path && text@ == export::exported(old(self)@.entries, None),
                None => !autoexport_due(old(self)@, now),
            },
            final(self)@ == (AppModel {
                last_autoexport: if autoexport_due(old(self)@, now) {
                    Some(now)
                } else {
                    old(self)@.last_autoexport
                },
                ..old(self)@
            }),
            final(self).wf() == old(self).wf(),
    {
        let path = match &self.autoexport_path {
            Some(path) => path.clone(),
            None => {
                return None;
            },
        };
        let due = match self.last_autoexport {
            Some(t) => now >= t && now - t >= AUTOEXPORT_INTERVAL,
            None => true,
        };
        if due {
            self.last_autoexport = Some(now);
            Some((path, entries_to_text(&self.entries, None)))
        } else {
            None
        }
    }

    /// The text of an export with a filter.
    pub fn export_text(&self, show_set: Option<&HashSet<u8>>) -> (r: String)
        ensures
            r@ == export::exported(self@.entries, render::format::filter_set(show_set)),
    {
        entries_to_text(&self.entries, show_set)
    }

    /// Do what the settings panel asks for. Returns the configuration to save,
    /// if one is to be saved.
    pub fn act(&mut self, action: SettingsAction) -> (r: Option<PersistedConfig>)
        requires
            old(self).wf(),
        ensures
            final(self).wf(),
            final(self)@ == acted(old(self)@, action),
            opt_config(r) == if action == SettingsAction::SaveConfig {
                Some(settings::persisted(old(self)@.settings))
            } else {
                None
            },
    {
        match action {
            SettingsAction::Clear => {
                self.entries.clear();
                self.lines_cache.clear();
                self.slave_map_cache.clear();
                assert(model::entry_views(self.entries@) =~= Seq::<EntryModel>::empty());
                None
            },
            SettingsAction::SaveConfig => Some(self.settings.to_persisted()),
            SettingsAction::Nothing => None,
        }
    }
}

// --- laws --------------------------------------------------------------------

proof fn lemma_told_capturing(m: AppModel, events: Seq<EventModel>)
    ensures
        told_all(m, events).capturing == engine::runs_after(m.capturing, events),
    decreases events.len(),
{
    if events.len() > 0 {
        lemma_told_capturing(m, events.drop_last());
    }
}

/// The window shows a capture as running exactly while the engine captures: if
/// the two agree, they still agree when the events of any input have been taken
/// in.
pub proof fn window_follows_the_engine(
    m: AppModel,
    e: EngineModel,
    input: InputModel,
    now: Timestamp,
)
    requires
        m.capturing == (e.phase is Capturing),
    ensures
        told_all(m, engine::events_after(e, input, now)).capturing == (engine::engine_after(
            e,
            input,
            now,
        ).phase is Capturing),
{
    lemma_told_capturing(m, engine::events_after(e, input, now));
    engine::events_tell_whether_a_capture_runs(e, input, now);
}

/// The entries that events bring.
pub open spec fn entries_in(events: Seq<EventModel>) -> Seq<EntryModel>
    decreases events.len(),
{
    if events.len() == 0 {
        Seq::empty()
    } else {
        match events.last() {
            EventModel::Entry(e) => entries_in(events.drop_last()).push(e),
            _ => entries_in(events.drop_last()),
        }
    }
}

/// Entries are kept in the order in which they came, and only the oldest are
/// dropped, only beyond the limit: what is kept are the newest of all that were
/// there and all that came.
pub proof fn only_the_oldest_entries_are_dropped(m: AppModel, events: Seq<EventModel>)
    requires
        m.entries.len() <= MAX_ENTRIES,
    ensures
        told_all(m, events).entries == newest(m.entries + entries_in(events)),
        told_all(m, events).settings == m.settings,
    decreases events.len(),
{
    if events.len() > 0 {
        let front = events.drop_last();
        only_the_oldest_entries_are_dropped(m, front);
        if let EventModel::Entry(e) = events.last() {
            let all = m.entries + entries_in(front);
            assert(m.entries + entries_in(events) =~= all.push(e));
            assert(newest(newest(all).push(e)) =~= newest(all.push(e)));
        }
    } else {
        assert(m.entries + entries_in(events) =~= m.entries);
    }
}

/// The port of the environment wins over the saved one, the saved one over the
/// default, and a broken or missing configuration leaves the defaults.
pub proof fn environment_wins_over_configuration(
    config: Option<PersistedModel>,
    port: Option<Seq<char>>,
    path: Option<Seq<char>>,
)
    ensures
        ({
            let m = launched(config, port, path);
            &&& non_empty(port) matches Some(p) ==> m.settings.port == p && autostart_due(m)
            &&& non_empty(port) is None && config is Some ==> m.settings.port == config->0.port
                && !autostart_due(m)
            &&& non_empty(port) is None && config is None ==> m.settings
                == settings::default_settings()
        }),
{
}

/// An automatic start happens at most once, and an automatic export at most
/// once a second.
pub proof fn automatic_work_is_throttled(m: AppModel, now: u64, later: u64)
    requires
        autoexport_due(m, now),
        later - now < AUTOEXPORT_INTERVAL,
    ensures
        !autoexport_due((AppModel { last_autoexport: Some(now), ..m }), later),
        !autostart_due((AppModel { autostart_pending: false, ..m })),
{
}

/// What is kept of a list: all of it up to ten thousand entries, else its end, ten
/// thousand entries long.
pub proof fn newest_entries_are_the_last(entries: Seq<EntryModel>)
    ensures
        newest(entries).is_suffix_of(entries),
        newest(entries).len() == if entries.len() <= 10_000 {
            entries.len()
        } else {
            10_000
        },
{
    let r = newest(entries);
    assert(entries.subrange(entries.len() - r.len(), entries.len() as int) =~= r);
}

/// What each event does: an entry is added behind the others; a start clears the
/// last error; a stop keeps it, so that it can be read; an error replaces it. No
/// event touches the settings or the automatic work.
pub proof fn events_change_only_their_part(m: AppModel, e: EntryModel, msg: Seq<char>)
    ensures
        m.entries.len() < 10_000 ==> told(m, EventModel::Entry(e)).entries == m.entries.push(e),
        told(m, EventModel::Entry(e)).entries.last() == e,
        told(m, EventModel::Entry(e)).capturing == m.capturing,
        told(m, EventModel::Entry(e)).last_error == m.last_error,
        told(m, EventModel::Started).capturing,
        told(m, EventModel::Started).last_error is None,
        told(m, EventModel::Started).entries == m.entries,
        !told(m, EventModel::Stopped).capturing,
        told(m, EventModel::Stopped).last_error == m.last_error,
        told(m, EventModel::Stopped).entries == m.entries,
        told(m, EventModel::Error(msg)).last_error == Some(msg),
        told(m, EventModel::Error(msg)).capturing == m.capturing,
        told(m, EventModel::Error(msg)).entries == m.entries,
        forall|event: EventModel|
            (#[trigger] told(m, event)).settings == m.settings && told(m, event).autostart_pending
                == m.autostart_pending && told(m, event).autoexport_path == m.autoexport_path
                && told(m, event).last_autoexport == m.last_autoexport,
{
}

/// Events are taken in one after another, in the order in which they came.
pub proof fn events_are_taken_in_order(m: AppModel, events: Seq<EventModel>, event: EventModel)
    ensures
        told_all(m, Seq::<EventModel>::empty()) == m,
        told_all(m, events.push(event)) == told(told_all(m, events), event),
        brings_entry(events.push(event)) <==> brings_entry(events) || event is Entry,
        !brings_entry(Seq::<EventModel>::empty()),
{
    let all = events.push(event);
    assert(all.drop_last() =~= events);
    if brings_entry(events) {
        let i = choose|i: int| 0 <= i < events.len() && #[trigger] events[i] is Entry;
        assert(all[i] is Entry);
    }
    if event is Entry {
        assert(all[events.len() as int] is Entry);
    }
    if brings_entry(all) && !(event is Entry) {
        let i = choose|i: int| 0 <= i < all.len() && #[trigger] all[i] is Entry;
        assert(events[i] is Entry);
    }
}

/// At launch nothing has been captured and nothing has failed; what was saved is in
/// the settings, each field of it; an automatic start or export is asked for exactly
/// by a text that is not empty.
pub proof fn launch_takes_everything_saved(
    config: Option<PersistedModel>,
    port: Option<Seq<char>>,
    path: Option<Seq<char>>,
)
    ensures
        ({
            let m = launched(config, port, path);
            &&& m.entries.len() == 0
            &&& !m.capturing
            &&& m.last_error is None
            &&& m.last_autoexport is None
            &&& m.autostart_pending <==> port is Some && port->0.len() > 0
            &&& path is Some && path->0.len() > 0 ==> m.autoexport_path == path
            &&& path is None || path->0.len() == 0 ==> m.autoexport_path is None
            &&& config matches Some(c) ==> m.settings.baud == c.baud && m.settings.data_bits
                == c.data_bits && m.settings.parity == c.parity && m.settings.stop_bits
                == c.stop_bits && m.settings.flow_control == c.flow_control && m.settings.timeout_ms
                == c.timeout_ms && m.settings.auto_scroll == c.auto_scroll
            &&& config matches Some(c) ==> m.settings.show_slaves_str == settings::canonical_text(
                c.show_slaves,
            )
            &&& config is None && (port is None || port->0.len() == 0) ==> m.settings
                == settings::default_settings()
            &&& port is Some && port->0.len() > 0 ==> m.settings.port == port->0
            &&& config is Some && (port is None || port->0.len() == 0) ==> m.settings.port
                == config->0.port
        }),
{
}

/// An automatic start is due exactly if one was asked for, no capture runs and there
/// is a port; an automatic export exactly if a path is set and none has been written
/// in the last thousand milliseconds.
pub proof fn automatic_work_is_due_when_asked_for(m: AppModel, now: u64)
    ensures
        autostart_due(m) <==> m.autostart_pending && !m.capturing && m.settings.port.len() > 0,
        m.autoexport_path is None ==> !autoexport_due(m, now),
        m.autoexport_path is Some && m.last_autoexport is None ==> autoexport_due(m, now),
        m.autoexport_path is Some ==> (m.last_autoexport matches Some(t) ==> (autoexport_due(m, now)
            <==> now >= t + 1000)),
{
}

/// Clearing takes all entries and nothing else; saving changes nothing.
pub proof fn clearing_takes_only_the_entries(m: AppModel)
    ensures
        acted(m, SettingsAction::Clear).entries.len() == 0,
        acted(m, SettingsAction::Clear).settings == m.settings,
        acted(m, SettingsAction::Clear).capturing == m.capturing,
        acted(m, SettingsAction::Clear).last_error == m.last_error,
        acted(m, SettingsAction::Clear).autostart_pending == m.autostart_pending,
        acted(m, SettingsAction::Clear).autoexport_path == m.autoexport_path,
        acted(m, SettingsAction::Clear).last_autoexport == m.last_autoexport,
        acted(m, SettingsAction::SaveConfig) == m,
        acted(m, SettingsAction::Nothing) == m,
{
}

/// Settings survive a restart: what was saved of them is there again at the next
/// launch, and shows the same slaves.
pub proof fn settings_survive_a_restart(m: AppModel, path: Option<Seq<char>>)
    ensures
        ({
            let next = launched(Some(settings::persisted(m.settings)), None, path);
            &&& next.settings.port == m.settings.port
            &&& next.settings.baud == m.settings.baud
            &&& next.settings.data_bits == m.settings.data_bits
            &&& next.settings.parity == m.settings.parity
            &&& next.settings.stop_bits == m.settings.stop_bits
            &&& next.settings.flow_control == m.settings.flow_control
            &&& next.settings.timeout_ms == m.settings.timeout_ms
            &&& next.settings.auto_scroll == m.settings.auto_scroll
            &&& settings::show_filter(next.settings.show_slaves_str) == settings::show_filter(
                m.settings.show_slaves_str,
            )
        }),
{
    settings::saved_settings_come_back(m.settings, settings::default_settings());
}

} // verus!
