//! Sessions and their life cycle. A session is made for a saved
//! configuration, started, stopped and started again at will, and removed
//! once it is stopped. While it is active it holds one reference to the
//! monitor of its executable.

use crate::decimal::{decimal_text, lemma_decimal_round_trip};
use crate::monitors::{
    acquired, count, counts_positive, lemma_transitions_keep_counts, released, Acquired, Released,
};
use crate::resolver::{ConfigView, RichPresenceConfig};
use crate::tree::{MetadataTree, TreeView};
use vstd::prelude::*;

verus! {

/// Where a session stands in its life. A removed session is no longer held.
#[derive(Clone, Copy, Debug, PartialEq, Eq)]
pub enum SessionState {
    /// Made, never started.
    Created,
    /// Polling.
    Active,
    /// Stopped; what was last seen is kept.
    Paused,
}

/// Why a command was not carried out. A command that fails changes nothing.
#[derive(Clone, Copy, Debug, PartialEq, Eq)]
pub enum CommandError {
    ConfigNotFound,
    SessionNotFound,
    AlreadyActive,
    StillActive,
}

/// How a process is to be scanned. The sessions carry this through and
/// never look inside.
#[derive(Clone, Debug, PartialEq, Eq)]
pub struct ScanOptions {
    pub encoded: String,
}

/// A named monitoring profile.
#[derive(Clone, Debug, PartialEq, Eq)]
pub struct SavedConfig {
    pub id: String,
    pub name: String,
    pub executable_name: String,
    pub discord_app_name: String,
    pub config: RichPresenceConfig,
    pub scan_options: ScanOptions,
    pub check_interval: u64,
    pub auto_start_monitoring: bool,
    pub created_at: String,
    pub updated_at: String,
}

/// What a `SavedConfig` stands for.
pub ghost struct SavedConfigView {
    pub id: Seq<char>,
    pub name: Seq<char>,
    pub executable_name: Seq<char>,
    pub discord_app_name: Seq<char>,
    pub config: ConfigView,
    pub scan_options: Seq<char>,
    pub check_interval: u64,
    pub auto_start_monitoring: bool,
    pub created_at: Seq<char>,
    pub updated_at: Seq<char>,
}

impl View for SavedConfig {
    type V = SavedConfigView;

    open spec fn view(&self) -> SavedConfigView {
        SavedConfigView {
            id: self.id@,
            name: self.name@,
            executable_name: self.executable_name@,
            discord_app_name: self.discord_app_name@,
            config: self.config@,
            scan_options: self.scan_options.encoded@,
            check_interval: self.check_interval,
            auto_start_monitoring: self.auto_start_monitoring,
            created_at: self.created_at@,
            updated_at: self.updated_at@,
        }
    }
}

impl SavedConfigView {
    /// Whether the profile can be run: its check interval is at least one
    /// time unit, and its configuration is well formed.
    pub open spec fn well_formed(self) -> bool {
        self.check_interval >= 1 && self.config.well_formed()
    }
}

impl SavedConfig {
    /// Whether the profile can be run.
    pub fn is_well_formed(&self) -> (ok: bool)
        ensures
            ok == self@.well_formed(),
    {
        self.check_interval >= 1 && self.config.is_well_formed()
    }
}

/// The views of a list of saved configurations.
pub open spec fn config_views(configs: Seq<SavedConfig>) -> Seq<SavedConfigView> {
    configs.map_values(|c: SavedConfig| c@)
}

/// A running instance of one saved configuration.
#[derive(Debug, PartialEq, Eq)]
pub struct MonitoringSession {
    pub id: String,
    pub config_id: String,
    pub executable_name: String,
    pub discord_application_id: String,
    pub discord_app_name: String,
    pub is_active: bool,
    pub last_update: String,
    pub current_metadata: Option<MetadataTree>,
}

/// What a `MonitoringSession` stands for.
pub ghost struct SessionView {
    pub id: Seq<char>,
    pub config_id: Seq<char>,
    pub executable_name: Seq<char>,
    pub discord_application_id: Seq<char>,
    pub discord_app_name: Seq<char>,
    pub is_active: bool,
    pub last_update: Seq<char>,
    pub current_metadata: Option<TreeView>,
}

/// The view of an optional tree.
pub open spec fn optional_tree(tree: Option<MetadataTree>) -> Option<TreeView> {
    match tree {
        Some(t) => Some(t@),
        None => None,
    }
}

impl View for MonitoringSession {
    type V = SessionView;

    open spec fn view(&self) -> SessionView {
        SessionView {
            id: self.id@,
            config_id: self.config_id@,
            executable_name: self.executable_name@,
            discord_application_id: self.discord_application_id@,
            discord_app_name: self.discord_app_name@,
            is_active: self.is_active,
            last_update: self.last_update@,
            current_metadata: optional_tree(self.current_metadata),
        }
    }
}

/// A session as the manager holds it: the session, where it stands, the
/// number that its id was made from, and what its polling loop remembers.
pub ghost struct SlotView {
    pub session: SessionView,
    pub state: SessionState,
    pub serial: nat,
    pub last_published: Option<Seq<(Seq<char>, Seq<char>)>>,
    pub poll_failures: nat,
    pub publish_failures: nat,
}

/// What a `SessionManager` stands for: its sessions in the order in which
/// they were made, the references that each monitor has, and the number
/// that the next session id is made from.
pub ghost struct ManagerView {
    pub sessions: Seq<SlotView>,
    pub monitors: Map<Seq<char>, nat>,
    pub next_serial: nat,
}

/// The id of the session with the number `serial`.
pub open spec fn session_id_text(serial: nat) -> Seq<char> {
    "session-"@ + decimal_text(serial)
}

/// The index of the first config at or after `from` whose id is `id`.
pub open spec fn config_index_from(configs: Seq<SavedConfigView>, id: Seq<char>, from: int)
    -> Option<int>
    decreases configs.len() - from,
{
    if from < 0 || from >= configs.len() {
        None
    } else if configs[from].id == id {
        Some(from)
    } else {
        config_index_from(configs, id, from + 1)
    }
}

/// The index of the first session at or after `from` whose id is `id`.
pub open spec fn session_index_from(sessions: Seq<SlotView>, id: Seq<char>, from: int) -> Option<
    int,
>
    decreases sessions.len() - from,
{
    if from < 0 || from >= sessions.len() {
        None
    } else if sessions[from].session.id == id {
        Some(from)
    } else {
        session_index_from(sessions, id, from + 1)
    }
}

/// The index of the session whose id is `id`.
pub open spec fn session_index(sessions: Seq<SlotView>, id: Seq<char>) -> Option<int> {
    session_index_from(sessions, id, 0)
}

/// The index of the first active session at or after `from` that belongs
/// to the config `config_id`.
pub open spec fn active_of_config_from(sessions: Seq<SlotView>, config_id: Seq<char>, from: int)
    -> Option<int>
    decreases sessions.len() - from,
{
    if from < 0 || from >= sessions.len() {
        None
    } else if sessions[from].state is Active && sessions[from].session.config_id == config_id {
        Some(from)
    } else {
        active_of_config_from(sessions, config_id, from + 1)
    }
}

/// 1 where the session is active on the executable `name`, else 0.
pub open spec fn holds_reference(slot: SlotView, name: Seq<char>) -> nat {
    if slot.state is Active && slot.session.executable_name == name {
        1
    } else {
        0
    }
}

/// How many of the first `n` sessions are active on the executable `name`.
pub open spec fn active_on(sessions: Seq<SlotView>, name: Seq<char>, n: int) -> nat
    decreases n,
{
    if n <= 0 {
        0
    } else {
        active_on(sessions, name, n - 1) + holds_reference(sessions[n - 1], name)
    }
}

/// What holds of a manager at all times:
/// a session is flagged active exactly while it is in the state `Active`;
/// every id is made from the session's number, numbers are handed out once
/// and in rising order; and every monitor has exactly as many references as
/// there are active sessions on its executable.
pub open spec fn model_wf(m: ManagerView) -> bool {
    &&& forall|i: int|
        0 <= i < m.sessions.len() ==> (#[trigger] m.sessions[i]).session.is_active == (
        m.sessions[i].state is Active)
    &&& forall|i: int|
        0 <= i < m.sessions.len() ==> (#[trigger] m.sessions[i]).session.id == session_id_text(
            m.sessions[i].serial,
        )
    &&& forall|i: int| 0 <= i < m.sessions.len() ==> (#[trigger] m.sessions[i]).serial < m.next_serial
    &&& forall|i: int, j: int|
        0 <= i < j < m.sessions.len() ==> (#[trigger] m.sessions[i]).serial != (
        #[trigger] m.sessions[j]).serial
    &&& forall|name: Seq<char>|
        count(m.monitors, name) == #[trigger] active_on(m.sessions, name, m.sessions.len() as int)
    &&& counts_positive(m.monitors)
}

/// The session that `create_session` makes for `config`.
pub open spec fn new_slot(config: SavedConfigView, serial: nat, now: Seq<char>) -> SlotView {
    SlotView {
        session: SessionView {
            id: session_id_text(serial),
            config_id: config.id,
            executable_name: config.executable_name,
            discord_application_id: config.config.application_id,
            discord_app_name: config.discord_app_name,
            is_active: false,
            last_update: now,
            current_metadata: None,
        },
        state: SessionState::Created,
        serial,
        last_published: None,
        poll_failures: 0,
        publish_failures: 0,
    }
}

/// The manager after a session was made for `config`.
pub open spec fn created(m: ManagerView, config: SavedConfigView, now: Seq<char>) -> ManagerView {
    ManagerView {
        sessions: m.sessions.push(new_slot(config, m.next_serial, now)),
        monitors: m.monitors,
        next_serial: m.next_serial + 1,
    }
}

/// A session as it is once started: active, with a polling loop that
/// remembers nothing.
pub open spec fn started_slot(slot: SlotView) -> SlotView {
    SlotView {
        session: SessionView { is_active: true, ..slot.session },
        state: SessionState::Active,
        last_published: None,
        poll_failures: 0,
        publish_failures: 0,
        ..slot
    }
}

/// The manager after the session at `i` was started.
pub open spec fn started(m: ManagerView, i: int) -> ManagerView {
    ManagerView {
        sessions: m.sessions.update(i, started_slot(m.sessions[i])),
        monitors: acquired(m.monitors, m.sessions[i].session.executable_name),
        next_serial: m.next_serial,
    }
}

/// A session as it is once stopped: paused, with what it last saw.
pub open spec fn stopped_slot(slot: SlotView) -> SlotView {
    SlotView {
        session: SessionView { is_active: false, ..slot.session },
        state: SessionState::Paused,
        ..slot
    }
}

/// The manager after the active session at `i` was stopped.
pub open spec fn stopped(m: ManagerView, i: int) -> ManagerView {
    ManagerView {
        sessions: m.sessions.update(i, stopped_slot(m.sessions[i])),
        monitors: released(m.monitors, m.sessions[i].session.executable_name),
        next_serial: m.next_serial,
    }
}

/// The manager after the session at `i` was removed.
pub open spec fn removed(m: ManagerView, i: int) -> ManagerView {
    ManagerView { sessions: m.sessions.remove(i), monitors: m.monitors, next_serial: m.next_serial }
}

/// The index that `session_index_from` gives is the least one at or after
/// `from` whose session has the id, and it gives none only where no session
/// at or after `from` has it.
pub proof fn lemma_session_index_is_first(sessions: Seq<SlotView>, id: Seq<char>, from: int)
    requires
        0 <= from,
    ensures
        match session_index_from(sessions, id, from) {
            Some(i) => {
                &&& from <= i < sessions.len()
                &&& sessions[i].session.id == id
                &&& forall|j: int| from <= j < i ==> (#[trigger] sessions[j]).session.id != id
            },
            None => forall|j: int|
                from <= j < sessions.len() ==> (#[trigger] sessions[j]).session.id != id,
        },
    decreases sessions.len() - from,
{
    if from < sessions.len() && sessions[from].session.id != id {
        lemma_session_index_is_first(sessions, id, from + 1);
    }
}

/// Sessions with different numbers have different ids.
pub proof fn lemma_session_ids_differ(a: nat, b: nat)
    requires
        a != b,
    ensures
        session_id_text(a) != session_id_text(b),
{
    let prefix = "session-"@;
    let x = session_id_text(a);
    let y = session_id_text(b);
    if x == y {
        assert(x.subrange(prefix.len() as int, x.len() as int) =~= decimal_text(a));
        assert(y.subrange(prefix.len() as int, y.len() as int) =~= decimal_text(b));
        lemma_decimal_round_trip(a);
        lemma_decimal_round_trip(b);
    }
}

/// No two sessions of a manager have the same id, so an id finds the one
/// session that has it.
pub proof fn lemma_ids_distinct(m: ManagerView, i: int)
    requires
        model_wf(m),
        0 <= i < m.sessions.len(),
    ensures
        session_index(m.sessions, m.sessions[i].session.id) == Some(i),
        forall|j: int|
            0 <= j < m.sessions.len() && j != i ==> (#[trigger] m.sessions[j]).session.id
                != m.sessions[i].session.id,
{
    assert forall|j: int| 0 <= j < m.sessions.len() && j != i implies (
    #[trigger] m.sessions[j]).session.id != m.sessions[i].session.id by {
        if j < i {
            assert(m.sessions[j].serial != m.sessions[i].serial);
        } else {
            assert(m.sessions[i].serial != m.sessions[j].serial);
        }
        lemma_session_ids_differ(m.sessions[j].serial, m.sessions[i].serial);
    }
    lemma_session_index_is_first(m.sessions, m.sessions[i].session.id, 0);
}

/// Two lists that agree, session by session, on who holds a reference to
/// `name` have as many active sessions on it.
pub proof fn lemma_active_agree(a: Seq<SlotView>, b: Seq<SlotView>, name: Seq<char>, n: int)
    requires
        0 <= n <= a.len(),
        n <= b.len(),
        forall|k: int|
            0 <= k < n ==> holds_reference(#[trigger] a[k], name) == holds_reference(b[k], name),
    ensures
        active_on(a, name, n) == active_on(b, name, n),
    decreases n,
{
    if n > 0 {
        lemma_active_agree(a, b, name, n - 1);
        assert(holds_reference(a[n - 1], name) == holds_reference(b[n - 1], name));
    }
}

/// Putting `slot` in the place of the session at `i` changes the number of
/// active sessions on `name` by what the two hold.
pub proof fn lemma_active_update(
    a: Seq<SlotView>,
    i: int,
    slot: SlotView,
    name: Seq<char>,
    n: int,
)
    requires
        0 <= i < a.len(),
        0 <= n <= a.len(),
    ensures
        n <= i ==> active_on(a.update(i, slot), name, n) == active_on(a, name, n),
        n > i ==> active_on(a.update(i, slot), name, n) + holds_reference(a[i], name) == active_on(
            a,
            name,
            n,
        ) + holds_reference(slot, name),
    decreases n,
{
    if n > 0 {
        lemma_active_update(a, i, slot, name, n - 1);
    }
}

/// Taking the session at `i` out of the list takes what it holds out of
/// the number of active sessions on `name`.
pub proof fn lemma_active_remove(a: Seq<SlotView>, i: int, name: Seq<char>, n: int)
    requires
        0 <= i < a.len(),
        0 <= n <= a.len(),
    ensures
        n <= i ==> active_on(a.remove(i), name, n) == active_on(a, name, n),
        n > i ==> active_on(a.remove(i), name, n - 1) + holds_reference(a[i], name) == active_on(
            a,
            name,
            n,
        ),
    decreases n,
{
    if n > 0 {
        lemma_active_remove(a, i, name, n - 1);
        if n - 1 > i {
            assert(a.remove(i)[n - 2] == a[n - 1]);
        } else if n - 1 < i {
            assert(a.remove(i)[n - 1] == a[n - 1]);
        }
    }
}

/// No more sessions are active on `name` than there are sessions, and one
/// fewer where the session at `i` holds no reference to it.
pub proof fn lemma_active_bound(a: Seq<SlotView>, i: int, name: Seq<char>, n: int)
    requires
        0 <= n <= a.len(),
    ensures
        active_on(a, name, n) <= n,
        0 <= i < n && holds_reference(a[i], name) == 0 ==> active_on(a, name, n) <= n - 1,
    decreases n,
{
    if n > 0 {
        lemma_active_bound(a, i, name, n - 1);
    }
}

/// Starting a session changes nothing but that session and the references
/// of its executable: the manager stays well formed, and the executable has
/// one reference more.
pub proof fn lemma_start_keeps_wf(m: ManagerView, i: int)
    requires
        model_wf(m),
        0 <= i < m.sessions.len(),
        !(m.sessions[i].state is Active),
    ensures
        model_wf(started(m, i)),
        count(started(m, i).monitors, m.sessions[i].session.executable_name) == count(
            m.monitors,
            m.sessions[i].session.executable_name,
        ) + 1,
{
    let after = started(m, i);
    let exe = m.sessions[i].session.executable_name;
    lemma_transitions_keep_counts(m.monitors, exe);
    assert forall|name: Seq<char>|
        count(after.monitors, name) == #[trigger] active_on(
            after.sessions,
            name,
            after.sessions.len() as int,
        ) by {
        lemma_active_update(m.sessions, i, started_slot(m.sessions[i]), name, m.sessions.len() as int);
        assert(count(m.monitors, name) == active_on(m.sessions, name, m.sessions.len() as int));
    }
    assert forall|a: int, b: int| 0 <= a < b < after.sessions.len() implies (
    #[trigger] after.sessions[a]).serial != (#[trigger] after.sessions[b]).serial by {
        assert(m.sessions[a].serial != m.sessions[b].serial);
    }
}

/// Stopping an active session keeps the manager well formed and takes
/// exactly one reference from the monitor of its executable.
pub proof fn lemma_stop_keeps_wf(m: ManagerView, i: int)
    requires
        model_wf(m),
        0 <= i < m.sessions.len(),
        m.sessions[i].state is Active,
    ensures
        model_wf(stopped(m, i)),
        count(m.monitors, m.sessions[i].session.executable_name) >= 1,
        count(stopped(m, i).monitors, m.sessions[i].session.executable_name) == count(
            m.monitors,
            m.sessions[i].session.executable_name,
        ) - 1,
{
    let after = stopped(m, i);
    let exe = m.sessions[i].session.executable_name;
    lemma_transitions_keep_counts(m.monitors, exe);
    assert(count(m.monitors, exe) >= 1) by {
        assert(count(m.monitors, exe) == active_on(m.sessions, exe, m.sessions.len() as int));
        lemma_active_update(m.sessions, i, stopped_slot(m.sessions[i]), exe, m.sessions.len() as int);
    }
    assert forall|name: Seq<char>|
        count(after.monitors, name) == #[trigger] active_on(
            after.sessions,
            name,
            after.sessions.len() as int,
        ) by {
        lemma_active_update(m.sessions, i, stopped_slot(m.sessions[i]), name, m.sessions.len() as int);
        assert(count(m.monitors, name) == active_on(m.sessions, name, m.sessions.len() as int));
    }
    assert forall|a: int, b: int| 0 <= a < b < after.sessions.len() implies (
    #[trigger] after.sessions[a]).serial != (#[trigger] after.sessions[b]).serial by {
        assert(m.sessions[a].serial != m.sessions[b].serial);
    }
}

/// Removing a session that is not active keeps the manager well formed and
/// leaves every monitor as it was.
pub proof fn lemma_remove_keeps_wf(m: ManagerView, i: int)
    requires
        model_wf(m),
        0 <= i < m.sessions.len(),
        !(m.sessions[i].state is Active),
    ensures
        model_wf(removed(m, i)),
        session_index(removed(m, i).sessions, m.sessions[i].session.id) is None,
{
    let after = removed(m, i);
    assert forall|k: int| 0 <= k < after.sessions.len() implies #[trigger] after.sessions[k]
        == m.sessions[if k < i {
        k
    } else {
        k + 1
    }] by {}
    assert forall|name: Seq<char>|
        count(after.monitors, name) == #[trigger] active_on(
            after.sessions,
            name,
            after.sessions.len() as int,
        ) by {
        lemma_active_remove(m.sessions, i, name, m.sessions.len() as int);
        assert(count(m.monitors, name) == active_on(m.sessions, name, m.sessions.len() as int));
    }
    assert forall|a: int, b: int| 0 <= a < b < after.sessions.len() implies (
    #[trigger] after.sessions[a]).serial != (#[trigger] after.sessions[b]).serial by {
        let a0 = if a < i {
            a
        } else {
            a + 1
        };
        let b0 = if b < i {
            b
        } else {
            b + 1
        };
        assert(m.sessions[a0].serial != m.sessions[b0].serial);
    }
    assert forall|k: int| 0 <= k < after.sessions.len() implies {
        &&& (#[trigger] after.sessions[k]).session.is_active == (after.sessions[k].state is Active)
        &&& after.sessions[k].session.id == session_id_text(after.sessions[k].serial)
        &&& after.sessions[k].serial < after.next_serial
    } by {
        let k0 = if k < i {
            k
        } else {
            k + 1
        };
        assert(m.sessions[k0].serial < m.next_serial);
    }
    lemma_ids_distinct(m, i);
    lemma_session_index_is_first(after.sessions, m.sessions[i].session.id, 0);
    if session_index(after.sessions, m.sessions[i].session.id) is Some {
        let k = session_index(after.sessions, m.sessions[i].session.id)->Some_0;
        let k0 = if k < i {
            k
        } else {
            k + 1
        };
        assert(after.sessions[k] == m.sessions[k0]);
        assert(m.sessions[k0].session.id != m.sessions[i].session.id);
    }
}

/// Making a session keeps the manager well formed and leaves every monitor
/// as it was.
pub proof fn lemma_create_keeps_wf(m: ManagerView, config: SavedConfigView, now: Seq<char>)
    requires
        model_wf(m),
    ensures
        model_wf(created(m, config, now)),
{
    let after = created(m, config, now);
    assert forall|name: Seq<char>|
        count(after.monitors, name) == #[trigger] active_on(
            after.sessions,
            name,
            after.sessions.len() as int,
        ) by {
        lemma_active_agree(m.sessions, after.sessions, name, m.sessions.len() as int);
        assert(count(m.monitors, name) == active_on(m.sessions, name, m.sessions.len() as int));
    }
    assert forall|a: int, b: int| 0 <= a < b < after.sessions.len() implies (
    #[trigger] after.sessions[a]).serial != (#[trigger] after.sessions[b]).serial by {
        if b < m.sessions.len() {
            assert(m.sessions[a].serial != m.sessions[b].serial);
        } else {
            assert(m.sessions[a].serial < m.next_serial);
        }
    }
    assert forall|k: int| 0 <= k < after.sessions.len() implies {
        &&& (#[trigger] after.sessions[k]).session.is_active == (after.sessions[k].state is Active)
        &&& after.sessions[k].session.id == session_id_text(after.sessions[k].serial)
        &&& after.sessions[k].serial < after.next_serial
    } by {
        if k < m.sessions.len() {
            assert(m.sessions[k].serial < m.next_serial);
        }
    }
}

/// What `create_session` answers: the id of the active session that the
/// config already has, else the id of the session that is made.
pub open spec fn create_outcome(m: ManagerView, configs: Seq<SavedConfigView>, config_id: Seq<char>)
    -> Result<Seq<char>, CommandError> {
    match config_index_from(configs, config_id, 0) {
        None => Err(CommandError::ConfigNotFound),
        Some(_) => match active_of_config_from(m.sessions, config_id, 0) {
            Some(k) => Ok(m.sessions[k].session.id),
            None => Ok(session_id_text(m.next_serial)),
        },
    }
}

/// The manager after `create_session`: one session more where the config
/// is known and has no active session, else unchanged.
pub open spec fn after_create(
    m: ManagerView,
    configs: Seq<SavedConfigView>,
    config_id: Seq<char>,
    now: Seq<char>,
) -> ManagerView {
    match config_index_from(configs, config_id, 0) {
        None => m,
        Some(c) => match active_of_config_from(m.sessions, config_id, 0) {
            Some(_) => m,
            None => created(m, configs[c], now),
        },
    }
}

/// What `start_session` answers: whether the monitor has to be made or is
/// shared, or why the session was not started.
pub open spec fn start_outcome(m: ManagerView, id: Seq<char>) -> Result<Acquired, CommandError> {
    match session_index(m.sessions, id) {
        None => Err(CommandError::SessionNotFound),
        Some(i) => if m.sessions[i].state is Active {
            Err(CommandError::AlreadyActive)
        } else if count(m.monitors, m.sessions[i].session.executable_name) == 0 {
            Ok(Acquired::Created)
        } else {
            Ok(Acquired::Shared)
        },
    }
}

/// The manager after `start_session`.
pub open spec fn after_start(m: ManagerView, id: Seq<char>) -> ManagerView {
    match session_index(m.sessions, id) {
        None => m,
        Some(i) => if m.sessions[i].state is Active {
            m
        } else {
            started(m, i)
        },
    }
}

/// What `stop_session` answers: whether the monitor has to be torn down or
/// stays, `NotHeld` for a session that was not active, or that there is no
/// such session.
pub open spec fn stop_outcome(m: ManagerView, id: Seq<char>) -> Result<Released, CommandError> {
    match session_index(m.sessions, id) {
        None => Err(CommandError::SessionNotFound),
        Some(i) => if !(m.sessions[i].state is Active) {
            Ok(Released::NotHeld)
        } else if count(m.monitors, m.sessions[i].session.executable_name) <= 1 {
            Ok(Released::TornDown)
        } else {
            Ok(Released::StillShared)
        },
    }
}

/// The manager after `stop_session`.
pub open spec fn after_stop(m: ManagerView, id: Seq<char>) -> ManagerView {
    match session_index(m.sessions, id) {
        None => m,
        Some(i) => if m.sessions[i].state is Active {
            stopped(m, i)
        } else {
            m
        },
    }
}

/// What `remove_session` answers.
pub open spec fn remove_outcome(m: ManagerView, id: Seq<char>) -> Result<(), CommandError> {
    match session_index(m.sessions, id) {
        None => Err(CommandError::SessionNotFound),
        Some(i) => if m.sessions[i].state is Active {
            Err(CommandError::StillActive)
        } else {
            Ok(())
        },
    }
}

/// The manager after `remove_session`.
pub open spec fn after_remove(m: ManagerView, id: Seq<char>) -> ManagerView {
    match session_index(m.sessions, id) {
        None => m,
        Some(i) => if m.sessions[i].state is Active {
            m
        } else {
            removed(m, i)
        },
    }
}

/// The state of the session `id`; `None` once it is removed.
pub open spec fn state_of(m: ManagerView, id: Seq<char>) -> Option<SessionState> {
    match session_index(m.sessions, id) {
        None => None,
        Some(i) => Some(m.sessions[i].state),
    }
}

/// Two lists whose sessions have the same ids, place by place, find the
/// same session for an id.
pub proof fn lemma_session_index_agree(a: Seq<SlotView>, b: Seq<SlotView>, id: Seq<char>, from: int)
    requires
        a.len() == b.len(),
        forall|k: int| 0 <= k < a.len() ==> (#[trigger] a[k]).session.id == b[k].session.id,
    ensures
        session_index_from(a, id, from) == session_index_from(b, id, from),
    decreases a.len() - from,
{
    if 0 <= from < a.len() {
        assert(a[from].session.id == b[from].session.id);
        lemma_session_index_agree(a, b, id, from + 1);
    }
}

/// Every command keeps the manager well formed.
pub proof fn lemma_commands_keep_wf(
    m: ManagerView,
    configs: Seq<SavedConfigView>,
    id: Seq<char>,
    now: Seq<char>,
)
    requires
        model_wf(m),
    ensures
        model_wf(after_create(m, configs, id, now)),
        model_wf(after_start(m, id)),
        model_wf(after_stop(m, id)),
        model_wf(after_remove(m, id)),
{
    match config_index_from(configs, id, 0) {
        Some(c) => {
            lemma_create_keeps_wf(m, configs[c], now);
        },
        None => {},
    }
    lemma_session_index_is_first(m.sessions, id, 0);
    match session_index(m.sessions, id) {
        Some(i) => {
            if m.sessions[i].state is Active {
                lemma_stop_keeps_wf(m, i);
            } else {
                lemma_start_keeps_wf(m, i);
                lemma_remove_keeps_wf(m, i);
            }
        },
        None => {},
    }
}

/// Starting a session twice is starting it once: the second command is
/// answered with `AlreadyActive` and changes neither the session nor the
/// references of any monitor.
pub proof fn lemma_start_is_idempotent(m: ManagerView, id: Seq<char>)
    requires
        model_wf(m),
        session_index(m.sessions, id) is Some,
    ensures
        state_of(after_start(m, id), id) == Some(SessionState::Active),
        start_outcome(after_start(m, id), id) == Err::<Acquired, CommandError>(
            CommandError::AlreadyActive,
        ),
        after_start(after_start(m, id), id) == after_start(m, id),
{
    let i = session_index(m.sessions, id)->Some_0;
    lemma_session_index_is_first(m.sessions, id, 0);
    if !(m.sessions[i].state is Active) {
        lemma_session_index_agree(m.sessions, started(m, i).sessions, id, 0);
    }
}

/// A session that is active cannot be removed. Once it is stopped it can,
/// and the two commands together take exactly one reference from the
/// monitor of its executable and leave every other monitor as it was.
pub proof fn lemma_remove_needs_stop(m: ManagerView, id: Seq<char>)
    requires
        model_wf(m),
        state_of(m, id) == Some(SessionState::Active),
    ensures
        remove_outcome(m, id) == Err::<(), CommandError>(CommandError::StillActive),
        after_remove(m, id) == m,
        remove_outcome(after_stop(m, id), id) == Ok::<(), CommandError>(()),
        state_of(after_remove(after_stop(m, id), id), id) is None,
        ({
            let exe = m.sessions[session_index(m.sessions, id)->Some_0].session.executable_name;
            let end = after_remove(after_stop(m, id), id);
            &&& count(m.monitors, exe) >= 1
            &&& count(end.monitors, exe) == count(m.monitors, exe) - 1
            &&& forall|other: Seq<char>|
                other != exe ==> count(end.monitors, other) == count(m.monitors, other)
        }),
{
    let i = session_index(m.sessions, id)->Some_0;
    let exe = m.sessions[i].session.executable_name;
    lemma_session_index_is_first(m.sessions, id, 0);
    lemma_stop_keeps_wf(m, i);
    let paused = stopped(m, i);
    lemma_session_index_agree(m.sessions, paused.sessions, id, 0);
    lemma_remove_keeps_wf(paused, i);
    lemma_transitions_keep_counts(m.monitors, exe);
}

/// While two sessions are active on one executable, stopping one of them
/// does not tear the monitor down: the other keeps it alive.
pub proof fn lemma_shared_monitor_survives_stop(m: ManagerView, i: int, j: int)
    requires
        model_wf(m),
        0 <= i < m.sessions.len(),
        0 <= j < m.sessions.len(),
        i != j,
        m.sessions[i].state is Active,
        m.sessions[j].state is Active,
        m.sessions[i].session.executable_name == m.sessions[j].session.executable_name,
    ensures
        count(m.monitors, m.sessions[i].session.executable_name) >= 2,
        stop_outcome(m, m.sessions[i].session.id) == Ok::<Released, CommandError>(
            Released::StillShared,
        ),
        after_stop(m, m.sessions[i].session.id).monitors.contains_key(
            m.sessions[j].session.executable_name,
        ),
        state_of(after_stop(m, m.sessions[i].session.id), m.sessions[j].session.id) == Some(
            SessionState::Active,
        ),
{
    let exe = m.sessions[i].session.executable_name;
    let n = m.sessions.len() as int;
    let one = m.sessions.update(i, stopped_slot(m.sessions[i]));
    let none = one.update(j, stopped_slot(one[j]));
    lemma_active_update(m.sessions, i, stopped_slot(m.sessions[i]), exe, n);
    lemma_active_update(one, j, stopped_slot(one[j]), exe, n);
    assert(count(m.monitors, exe) == active_on(m.sessions, exe, n));
    lemma_ids_distinct(m, i);
    lemma_ids_distinct(m, j);
    lemma_stop_keeps_wf(m, i);
    lemma_session_index_agree(m.sessions, stopped(m, i).sessions, m.sessions[j].session.id, 0);
}

} // verus!
