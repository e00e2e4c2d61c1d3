//! The session manager: the sessions, the monitors that they share, and
//! the commands that a host gives.

use crate::decimal::decimal_string;
use crate::monitors::{count, Acquired, MonitorRegistry, Released};
use crate::resolver::{build_payload, pairs, resolve_fields, same_fields, RichPresenceConfig};
use crate::scheduler::{
    active_index, after_poll, after_publish, lemma_quiet_update_keeps_wf, next_delay, poll_action,
    poll_failed_slot, poll_succeeded_slot, publish_delay, publish_failed_slot, published_slot,
    MonitorError, PublishError, TickAction,
};
use crate::sessions::{
    active_of_config_from, after_create, after_remove, after_start, after_stop, config_index_from,
    config_views, create_outcome, created, lemma_active_bound, lemma_create_keeps_wf,
    lemma_remove_keeps_wf, lemma_start_keeps_wf, lemma_stop_keeps_wf, model_wf,
    remove_outcome, removed, session_index, session_index_from, start_outcome,
    started, state_of, stop_outcome, stopped, CommandError, ManagerView, MonitoringSession,
    SavedConfig, SessionState, SlotView,
};
use crate::tree::MetadataTree;
use vstd::prelude::*;
use vstd::string::*;

verus! {

struct Slot {
    session: MonitoringSession,
    state: SessionState,
    serial: u64,
    last_published: Option<Vec<(String, String)>>,
    poll_failures: u32,
    publish_failures: u32,
}

impl View for Slot {
    type V = SlotView;

    closed spec fn view(&self) -> SlotView {
        SlotView {
            session: self.session@,
            state: self.state,
            serial: self.serial as nat,
            last_published: match self.last_published {
                Some(fields) => Some(pairs(fields@)),
                None => None,
            },
            poll_failures: self.poll_failures as nat,
            publish_failures: self.publish_failures as nat,
        }
    }
}

/// The sessions of a host and the monitors that they share.
pub struct SessionManager {
    sessions: Vec<Slot>,
    monitors: MonitorRegistry,
    next_serial: u64,
}

impl View for SessionManager {
    type V = ManagerView;

    closed spec fn view(&self) -> ManagerView {
        ManagerView {
            sessions: self.sessions@.map_values(|s: Slot| s@),
            monitors: self.monitors@,
            next_serial: self.next_serial as nat,
        }
    }
}

/// The first of `configs` whose id is `id`.
pub fn find_config<'a>(configs: &'a Vec<SavedConfig>, id: &str) -> (found: Option<&'a SavedConfig>)
    ensures
        match config_index_from(config_views(configs@), id@, 0) {
            Some(c) => found is Some && found.unwrap()@ == config_views(configs@)[c],
            None => found is None,
        },
{
    let ghost all = config_views(configs@);
    let mut i: usize = 0;
    while i < configs.len()
        invariant
            i <= configs.len(),
            all == config_views(configs@),
            config_index_from(all, id@, 0) == config_index_from(all, id@, i as int),
        decreases configs.len() - i,
    {
        assert(all[i as int] == configs@[i as int]@);
        if configs[i].id.as_str().eq(id) {
            return Some(&configs[i]);
        }
        i += 1;
    }
    None
}

impl SessionManager {
    /// The manager's invariant; see `model_wf` for what it says of the
    /// sessions and the monitors.
    pub closed spec fn wf(&self) -> bool {
        self.monitors.wf() && model_wf(self@)
    }

    /// A well-formed manager has a well-formed view.
    pub proof fn lemma_wf(&self)
        requires
            self.wf(),
        ensures
            model_wf(self@),
    {
    }

    /// How many monitors the manager holds for `name`.
    pub closed spec fn monitors_for(&self, name: Seq<char>) -> nat {
        self.monitors.handles_for(name)
    }

    /// However many sessions are active on an executable, the manager
    /// holds one monitor for it, and none once no session is active on it.
    pub proof fn lemma_one_monitor_per_executable(&self, name: Seq<char>)
        requires
            self.wf(),
        ensures
            self.monitors_for(name) <= 1,
            self.monitors_for(name) == 1 <==> crate::sessions::active_on(
                self@.sessions,
                name,
                self@.sessions.len() as int,
            ) >= 1,
    {
        self.monitors.lemma_one_monitor_per_executable(name);
        assert(count(self@.monitors, name) == crate::sessions::active_on(
            self@.sessions,
            name,
            self@.sessions.len() as int,
        ));
    }

    /// A manager without sessions and without monitors.
    pub fn new() -> (manager: SessionManager)
        ensures
            manager.wf(),
            manager@ == (ManagerView {
                sessions: Seq::empty(),
                monitors: Map::empty(),
                next_serial: 0,
            }),
    {
        let manager = SessionManager {
            sessions: Vec::new(),
            monitors: MonitorRegistry::new(),
            next_serial: 0,
        };
        assert(manager@.sessions =~= Seq::<SlotView>::empty());
        manager
    }

    fn position(&self, id: &str) -> (found: Option<usize>)
        ensures
            match found {
                Some(i) => session_index(self@.sessions, id@) == Some(i as int) && i
                    < self.sessions@.len(),
                None => session_index(self@.sessions, id@) is None,
            },
    {
        let mut i: usize = 0;
        while i < self.sessions.len()
            invariant
                i <= self.sessions.len(),
                session_index(self@.sessions, id@) == session_index_from(
                    self@.sessions,
                    id@,
                    i as int,
                ),
            decreases self.sessions.len() - i,
        {
            assert(self@.sessions[i as int] == self.sessions@[i as int]@);
            if self.sessions[i].session.id.as_str().eq(id) {
                return Some(i);
            }
            i += 1;
        }
        None
    }

    fn active_position(&self, id: &str) -> (found: Option<usize>)
        ensures
            match found {
                Some(i) => active_index(self@, id@) == Some(i as int) && i < self.sessions@.len(),
                None => active_index(self@, id@) is None,
            },
    {
        match self.position(id) {
            Some(i) => {
                assert(self@.sessions[i as int] == self.sessions@[i as int]@);
                match self.sessions[i].state {
                    SessionState::Active => Some(i),
                    _ => None,
                }
            },
            None => None,
        }
    }

    fn active_of_config(&self, config_id: &str) -> (found: Option<usize>)
        ensures
            match found {
                Some(k) => active_of_config_from(self@.sessions, config_id@, 0) == Some(k as int)
                    && k < self.sessions@.len(),
                None => active_of_config_from(self@.sessions, config_id@, 0) is None,
            },
    {
        let mut i: usize = 0;
        while i < self.sessions.len()
            invariant
                i <= self.sessions.len(),
                active_of_config_from(self@.sessions, config_id@, 0) == active_of_config_from(
                    self@.sessions,
                    config_id@,
                    i as int,
                ),
            decreases self.sessions.len() - i,
        {
            assert(self@.sessions[i as int] == self.sessions@[i as int]@);
            let active = match self.sessions[i].state {
                SessionState::Active => true,
                _ => false,
            };
            if active && self.sessions[i].session.config_id.as_str().eq(config_id) {
                return Some(i);
            }
            i += 1;
        }
        None
    }

    /// Whether one more session can be made: session numbers are 64 bits.
    pub fn can_create(&self) -> (ok: bool)
        ensures
            ok == (self@.next_serial < u64::MAX),
    {
        self.next_serial < u64::MAX
    }

    /// How many sessions are held.
    pub fn session_count(&self) -> (n: usize)
        ensures
            n == self@.sessions.len(),
    {
        self.sessions.len()
    }

    /// How many references the monitor of `executable` has; 0 where none
    /// is live.
    pub fn monitor_references(&self, executable: &str) -> (held: usize)
        requires
            self.wf(),
        ensures
            held == count(self@.monitors, executable@),
    {
        self.monitors.references(executable)
    }

    /// The session `id` as it stands.
    pub fn get_session_status(&self, id: &str) -> (status: Result<&MonitoringSession, CommandError>)
        ensures
            match session_index(self@.sessions, id@) {
                Some(i) => status is Ok && status->Ok_0@ == self@.sessions[i].session,
                None => status == Err::<&MonitoringSession, CommandError>(
                    CommandError::SessionNotFound,
                ),
            },
    {
        match self.position(id) {
            Some(i) => {
                assert(self@.sessions[i as int] == self.sessions@[i as int]@);
                Ok(&self.sessions[i].session)
            },
            None => Err(CommandError::SessionNotFound),
        }
    }

    /// The state of the session `id`; `None` where no such session is held.
    pub fn session_state(&self, id: &str) -> (state: Option<SessionState>)
        ensures
            state == state_of(self@, id@),
    {
        match self.position(id) {
            Some(i) => {
                assert(self@.sessions[i as int] == self.sessions@[i as int]@);
                Some(self.sessions[i].state)
            },
            None => None,
        }
    }

    /// How many polls of the session `id` failed in a row; `None` where no
    /// such session is held.
    pub fn poll_failures(&self, id: &str) -> (failures: Option<u32>)
        ensures
            match session_index(self@.sessions, id@) {
                Some(i) => failures is Some && failures.unwrap() == self@.sessions[i].poll_failures,
                None => failures is None,
            },
    {
        match self.position(id) {
            Some(i) => {
                assert(self@.sessions[i as int] == self.sessions@[i as int]@);
                Some(self.sessions[i].poll_failures)
            },
            None => None,
        }
    }

    /// Makes a session for the config `config_id`, in the state `Created`,
    /// and gives its id. Where the config already has an active session,
    /// nothing is made and the id of that session is given. `now` is the
    /// time that the new session is stamped with.
    pub fn create_session(&mut self, configs: &Vec<SavedConfig>, config_id: &str, now: &str) -> (outcome:
        Result<String, CommandError>)
        requires
            old(self).wf(),
            old(self)@.next_serial < u64::MAX,
        ensures
            final(self).wf(),
            final(self)@ == after_create(old(self)@, config_views(configs@), config_id@, now@),
            match create_outcome(old(self)@, config_views(configs@), config_id@) {
                Ok(id) => outcome is Ok && outcome->Ok_0@ == id,
                Err(e) => outcome is Err && outcome->Err_0 == e,
            },
    {
        let ghost before = *self;
        let config = match find_config(configs, config_id) {
            Some(config) => config,
            None => {
                return Err(CommandError::ConfigNotFound);
            },
        };
        match self.active_of_config(config_id) {
            Some(k) => {
                assert(self@.sessions[k as int] == self.sessions@[k as int]@);
                return Ok(self.sessions[k].session.id.clone());
            },
            None => {},
        }
        let mut id = "session-".to_owned();
        id.append(decimal_string(self.next_serial).as_str());
        let session = MonitoringSession {
            id: id.clone(),
            config_id: config.id.clone(),
            executable_name: config.executable_name.clone(),
            discord_application_id: config.config.base_config.application_id.clone(),
            discord_app_name: config.discord_app_name.clone(),
            is_active: false,
            last_update: now.to_owned(),
            current_metadata: None,
        };
        let slot = Slot {
            session,
            state: SessionState::Created,
            serial: self.next_serial,
            last_published: None,
            poll_failures: 0,
            publish_failures: 0,
        };
        self.sessions.push(slot);
        self.next_serial = self.next_serial + 1;
        proof {
            let expected = created(before@, config@, now@);
            assert(self@.sessions =~= expected.sessions);
            assert(self@ =~= expected);
            lemma_create_keeps_wf(before@, config@, now@);
        }
        Ok(id)
    }

    /// Starts the session `id`: it takes a reference to the monitor of its
    /// executable and becomes active. The answer says whether the host has
    /// to make the monitor or shares one that is live.
    pub fn start_session(&mut self, id: &str) -> (outcome: Result<Acquired, CommandError>)
        requires
            old(self).wf(),
        ensures
            final(self).wf(),
            final(self)@ == after_start(old(self)@, id@),
            outcome == start_outcome(old(self)@, id@),
    {
        let ghost before = *self;
        let i = match self.position(id) {
            Some(i) => i,
            None => {
                return Err(CommandError::SessionNotFound);
            },
        };
        assert(self@.sessions[i as int] == self.sessions@[i as int]@);
        match self.sessions[i].state {
            SessionState::Active => {
                return Err(CommandError::AlreadyActive);
            },
            _ => {},
        }
        let ghost exe = before@.sessions[i as int].session.executable_name;
        let total = self.sessions.len();
        proof {
            assert(!(before@.sessions[i as int].state is Active));
            assert(crate::sessions::holds_reference(before@.sessions[i as int], exe) == 0);
            assert(before@.sessions.len() == self.sessions@.len());
            assert(exe == self.sessions@[i as int].session.executable_name@);
            assert(before@.monitors == self.monitors@);
            lemma_active_bound(before@.sessions, i as int, exe, before@.sessions.len() as int);
            assert(count(before@.monitors, exe) == crate::sessions::active_on(
                before@.sessions,
                exe,
                before@.sessions.len() as int,
            ));
        }
        let acquired = self.monitors.acquire(self.sessions[i].session.executable_name.as_str());
        let action = match acquired {
            Ok(action) => action,
            Err(_) => {
                assert(false);
                return Err(CommandError::AlreadyActive);
            },
        };
        self.sessions[i].state = SessionState::Active;
        self.sessions[i].session.is_active = true;
        self.sessions[i].last_published = None;
        self.sessions[i].poll_failures = 0;
        self.sessions[i].publish_failures = 0;
        proof {
            let expected = started(before@, i as int);
            assert(self@.sessions =~= expected.sessions);
            assert(self@ =~= expected);
            lemma_start_keeps_wf(before@, i as int);
        }
        Ok(action)
    }

    /// Stops the session `id`: it gives its reference back and is paused,
    /// with what it last saw. The answer says whether the host has to tear
    /// the monitor down. A session that is not active is left as it is.
    pub fn stop_session(&mut self, id: &str) -> (outcome: Result<Released, CommandError>)
        requires
            old(self).wf(),
        ensures
            final(self).wf(),
            final(self)@ == after_stop(old(self)@, id@),
            outcome == stop_outcome(old(self)@, id@),
    {
        let ghost before = *self;
        let i = match self.position(id) {
            Some(i) => i,
            None => {
                return Err(CommandError::SessionNotFound);
            },
        };
        assert(self@.sessions[i as int] == self.sessions@[i as int]@);
        match self.sessions[i].state {
            SessionState::Active => {},
            _ => {
                return Ok(Released::NotHeld);
            },
        }
        proof {
            lemma_stop_keeps_wf(before@, i as int);
        }
        let action = self.monitors.release(self.sessions[i].session.executable_name.as_str());
        self.sessions[i].state = SessionState::Paused;
        self.sessions[i].session.is_active = false;
        proof {
            let expected = stopped(before@, i as int);
            assert(self@.sessions =~= expected.sessions);
            assert(self@ =~= expected);
        }
        Ok(action)
    }

    /// Removes the session `id`. An active session is not removed: it has
    /// to be stopped first.
    pub fn remove_session(&mut self, id: &str) -> (outcome: Result<(), CommandError>)
        requires
            old(self).wf(),
        ensures
            final(self).wf(),
            final(self)@ == after_remove(old(self)@, id@),
            outcome == remove_outcome(old(self)@, id@),
    {
        let ghost before = *self;
        let i = match self.position(id) {
            Some(i) => i,
            None => {
                return Err(CommandError::SessionNotFound);
            },
        };
        assert(self@.sessions[i as int] == self.sessions@[i as int]@);
        match self.sessions[i].state {
            SessionState::Active => {
                return Err(CommandError::StillActive);
            },
            _ => {},
        }
        self.sessions.remove(i);
        proof {
            let expected = removed(before@, i as int);
            assert(self@.sessions =~= expected.sessions);
            assert(self@ =~= expected);
            lemma_remove_keeps_wf(before@, i as int);
        }
        Ok(())
    }

    /// Takes the report of one poll of the session `id`, made at `now`, and
    /// says what its polling loop does next. A failed poll drops the stale
    /// snapshot and asks for a longer wait; a snapshot is kept, resolved
    /// against `config`, and published where the output differs from what
    /// was last published.
    pub fn on_poll(
        &mut self,
        id: &str,
        config: &RichPresenceConfig,
        interval: u64,
        polled: Result<MetadataTree, MonitorError>,
        now: &str,
    ) -> (action: TickAction)
        requires
            old(self).wf(),
        ensures
            final(self).wf(),
            final(self)@ == after_poll(
                old(self)@,
                id@,
                match polled {
                    Ok(tree) => Some(tree@),
                    Err(_) => None,
                },
                now@,
            ),
            action@ == poll_action(
                old(self)@,
                id@,
                config@,
                interval,
                match polled {
                    Ok(tree) => Some(tree@),
                    Err(_) => None,
                },
            ),
    {
        let ghost before = *self;
        let i = match self.active_position(id) {
            Some(i) => i,
            None => {
                return TickAction::Stop;
            },
        };
        assert(self@.sessions[i as int] == self.sessions@[i as int]@);
        match polled {
            Err(_) => {
                let failures = self.sessions[i].poll_failures;
                let counted: u32 = if failures < u32::MAX {
                    failures + 1
                } else {
                    failures
                };
                self.sessions[i].poll_failures = counted;
                self.sessions[i].session.current_metadata = None;
                proof {
                    let slot = poll_failed_slot(before@.sessions[i as int]);
                    let expected = after_poll(before@, id@, None, now@);
                    assert(self@.sessions =~= expected.sessions);
                    assert(self@ =~= expected);
                    lemma_quiet_update_keeps_wf(before@, i as int, slot);
                }
                TickAction::Backoff { delay: next_delay(interval, counted) }
            },
            Ok(tree) => {
                let resolution = resolve_fields(config, &tree);
                let output = build_payload(&config.base_config, &resolution.fields);
                let unchanged = match &self.sessions[i].last_published {
                    Some(last) => same_fields(last, &output),
                    None => false,
                };
                let ghost seen = tree@;
                self.sessions[i].poll_failures = 0;
                self.sessions[i].session.current_metadata = Some(tree);
                self.sessions[i].session.last_update = now.to_owned();
                proof {
                    let slot = poll_succeeded_slot(before@.sessions[i as int], seen, now@);
                    let expected = after_poll(before@, id@, Some(seen), now@);
                    assert(self@.sessions =~= expected.sessions);
                    assert(self@ =~= expected);
                    lemma_quiet_update_keeps_wf(before@, i as int, slot);
                }
                let delay = next_delay(interval, 0);
                if unchanged {
                    TickAction::Idle { failures: resolution.failures, delay }
                } else {
                    TickAction::Publish { payload: output, failures: resolution.failures, delay }
                }
            },
        }
    }

    /// Takes the report of how publishing `payload` for the session `id`
    /// went, and says how long its polling loop waits; `None` where the
    /// session is gone or no longer active. What the service took is
    /// remembered as published; a refusal, whatever its reason, is counted
    /// and stretches the wait, and the session stays active.
    pub fn on_published(
        &mut self,
        id: &str,
        interval: u64,
        payload: Vec<(String, String)>,
        outcome: Result<(), PublishError>,
    ) -> (delay: Option<u64>)
        requires
            old(self).wf(),
        ensures
            final(self).wf(),
            final(self)@ == after_publish(old(self)@, id@, pairs(payload@), outcome is Ok),
            match publish_delay(old(self)@, id@, interval, outcome is Ok) {
                Some(wait) => delay is Some && delay.unwrap() == wait,
                None => delay is None,
            },
    {
        let accepted = outcome.is_ok();
        let ghost before = *self;
        let ghost output = pairs(payload@);
        let i = match self.active_position(id) {
            Some(i) => i,
            None => {
                return None;
            },
        };
        assert(self@.sessions[i as int] == self.sessions@[i as int]@);
        if accepted {
            self.sessions[i].last_published = Some(payload);
            self.sessions[i].publish_failures = 0;
            proof {
                let slot = published_slot(before@.sessions[i as int], output);
                let expected = after_publish(before@, id@, output, accepted);
                assert(self@.sessions =~= expected.sessions);
                assert(self@ =~= expected);
                lemma_quiet_update_keeps_wf(before@, i as int, slot);
            }
            Some(next_delay(interval, 0))
        } else {
            let failures = self.sessions[i].publish_failures;
            let counted: u32 = if failures < u32::MAX {
                failures + 1
            } else {
                failures
            };
            self.sessions[i].publish_failures = counted;
            proof {
                let slot = publish_failed_slot(before@.sessions[i as int]);
                let expected = after_publish(before@, id@, output, accepted);
                assert(self@.sessions =~= expected.sessions);
                assert(self@ =~= expected);
                lemma_quiet_update_keeps_wf(before@, i as int, slot);
            }
            Some(next_delay(interval, counted))
        }
    }
}

} // verus!
