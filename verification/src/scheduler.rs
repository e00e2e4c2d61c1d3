//! What the polling loop of a session decides: how long to wait after a
//! failure, what a poll changes in the session, and whether its outcome is
//! worth publishing.

use crate::resolver::{failed_fields, payload, resolved_fields, ConfigView, FailureView};
use crate::sessions::{model_wf, session_index, ManagerView, SessionView, SlotView};
use crate::tree::TreeView;
use vstd::prelude::*;

verus! {

/// Why a monitor gave no snapshot.
#[derive(Clone, Debug, PartialEq, Eq)]
pub enum MonitorError {
    NotRunning,
    Timeout,
    Other(String),
}

/// Why the presence service took no update.
#[derive(Clone, Debug, PartialEq, Eq)]
pub enum PublishError {
    RateLimited,
    Disconnected,
    Other(String),
}

/// The longest wait, in check intervals.
pub const BACKOFF_CAP: u64 = 8;

/// The check interval that is used: at least one time unit.
pub open spec fn effective_interval(interval: u64) -> nat {
    if interval == 0 {
        1
    } else {
        interval as nat
    }
}

/// By how much the interval is stretched after `failures` failures in a
/// row: doubled by each failure, up to the cap.
pub open spec fn backoff_factor(failures: nat) -> nat {
    if failures == 0 {
        1
    } else if failures == 1 {
        2
    } else if failures == 2 {
        4
    } else {
        8
    }
}

/// How long to wait before the next attempt. A wait too long to be written
/// in 64 bits is cut to what 64 bits hold.
pub open spec fn backoff_delay(interval: u64, failures: nat) -> nat {
    let wait = effective_interval(interval) * backoff_factor(failures);
    if wait > u64::MAX {
        u64::MAX as nat
    } else {
        wait
    }
}

/// One failure more, as far as the counter goes.
pub open spec fn bumped(failures: nat) -> nat {
    if failures < u32::MAX {
        failures + 1
    } else {
        failures
    }
}

/// The wait grows with the failures and stays between one interval and
/// the cap.
pub proof fn lemma_backoff_bounded(interval: u64, failures: nat, more: nat)
    requires
        failures <= more,
    ensures
        1 <= backoff_delay(interval, 0) == effective_interval(interval),
        backoff_delay(interval, failures) <= backoff_delay(interval, more),
        backoff_delay(interval, 0) <= backoff_delay(interval, failures),
        backoff_delay(interval, failures) <= BACKOFF_CAP * effective_interval(interval),
        backoff_delay(interval, failures) <= u64::MAX,
{
    let base = effective_interval(interval);
    assert(backoff_factor(failures) <= backoff_factor(more));
    assert(base * backoff_factor(failures) <= base * backoff_factor(more)) by (nonlinear_arith)
        requires
            backoff_factor(failures) <= backoff_factor(more),
            base >= 0,
    ;
    assert(base * 1 <= base * backoff_factor(failures)) by (nonlinear_arith)
        requires
            1 <= backoff_factor(failures),
            base >= 0,
    ;
    assert(base * backoff_factor(failures) <= 8 * base) by (nonlinear_arith)
        requires
            backoff_factor(failures) <= 8,
            base >= 0,
    ;
}

/// How long to wait before the next attempt, after `failures` failures in
/// a row.
pub fn next_delay(interval: u64, failures: u32) -> (delay: u64)
    ensures
        delay == backoff_delay(interval, failures as nat),
{
    let base: u64 = if interval == 0 {
        1
    } else {
        interval
    };
    let factor: u64 = if failures == 0 {
        1
    } else if failures == 1 {
        2
    } else if failures == 2 {
        4
    } else {
        8
    };
    if base > u64::MAX / factor {
        assert(base * factor > u64::MAX) by (nonlinear_arith)
            requires
                base > u64::MAX / factor,
                1 <= factor <= 8,
        ;
        u64::MAX
    } else {
        assert(base * factor <= u64::MAX) by (nonlinear_arith)
            requires
                base <= u64::MAX / factor,
                1 <= factor <= 8,
        ;
        base * factor
    }
}

/// What the polling loop does after a poll.
#[derive(Debug, PartialEq, Eq)]
pub enum TickAction {
    /// The session is gone or no longer active: the loop ends.
    Stop,
    /// The poll failed: wait, then poll again.
    Backoff { delay: u64 },
    /// The output is what was last published: nothing to send.
    Idle { failures: Vec<crate::resolver::FieldFailure>, delay: u64 },
    /// The output changed: send it, then report how that went.
    Publish {
        payload: Vec<(String, String)>,
        failures: Vec<crate::resolver::FieldFailure>,
        delay: u64,
    },
}

/// What a `TickAction` stands for.
pub ghost enum TickView {
    Stop,
    Backoff { delay: nat },
    Idle { failures: Seq<FailureView>, delay: nat },
    Publish { payload: Seq<(Seq<char>, Seq<char>)>, failures: Seq<FailureView>, delay: nat },
}

impl View for TickAction {
    type V = TickView;

    open spec fn view(&self) -> TickView {
        match self {
            TickAction::Stop => TickView::Stop,
            TickAction::Backoff { delay } => TickView::Backoff { delay: *delay as nat },
            TickAction::Idle { failures, delay } => TickView::Idle {
                failures: crate::resolver::failure_views(failures@),
                delay: *delay as nat,
            },
            TickAction::Publish { payload, failures, delay } => TickView::Publish {
                payload: crate::resolver::pairs(payload@),
                failures: crate::resolver::failure_views(failures@),
                delay: *delay as nat,
            },
        }
    }
}

/// Whether the session `id` is held and active, and where.
pub open spec fn active_index(m: ManagerView, id: Seq<char>) -> Option<int> {
    match session_index(m.sessions, id) {
        Some(i) => if m.sessions[i].state is Active {
            Some(i)
        } else {
            None
        },
        None => None,
    }
}

/// A session after a poll that failed: what it last saw is stale and is
/// dropped, the failure is counted, and the session stays active.
pub open spec fn poll_failed_slot(slot: SlotView) -> SlotView {
    SlotView {
        session: SessionView { current_metadata: None, ..slot.session },
        poll_failures: bumped(slot.poll_failures),
        ..slot
    }
}

/// A session after a poll that gave `tree`: the snapshot and the time are
/// kept whether or not anything changed, and earlier failures are forgotten.
pub open spec fn poll_succeeded_slot(slot: SlotView, tree: TreeView, now: Seq<char>) -> SlotView {
    SlotView {
        session: SessionView { current_metadata: Some(tree), last_update: now, ..slot.session },
        poll_failures: 0,
        ..slot
    }
}

/// The manager after the polling loop of `id` reported a poll.
pub open spec fn after_poll(
    m: ManagerView,
    id: Seq<char>,
    polled: Option<TreeView>,
    now: Seq<char>,
) -> ManagerView {
    match active_index(m, id) {
        None => m,
        Some(i) => ManagerView {
            sessions: m.sessions.update(
                i,
                match polled {
                    Some(tree) => poll_succeeded_slot(m.sessions[i], tree, now),
                    None => poll_failed_slot(m.sessions[i]),
                },
            ),
            ..m
        },
    }
}

/// What the polling loop of `id` does after a poll.
pub open spec fn poll_action(
    m: ManagerView,
    id: Seq<char>,
    config: ConfigView,
    interval: u64,
    polled: Option<TreeView>,
) -> TickView {
    match active_index(m, id) {
        None => TickView::Stop,
        Some(i) => match polled {
            None => TickView::Backoff {
                delay: backoff_delay(interval, bumped(m.sessions[i].poll_failures)),
            },
            Some(tree) => {
                let n = config.selected_paths.len() as int;
                let output = payload(config.base, resolved_fields(tree, config, n));
                let failures = failed_fields(tree, config, n);
                let delay = backoff_delay(interval, 0);
                if m.sessions[i].last_published == Some(output) {
                    TickView::Idle { failures, delay }
                } else {
                    TickView::Publish { payload: output, failures, delay }
                }
            },
        },
    }
}

/// A session after the service took `output`.
pub open spec fn published_slot(slot: SlotView, output: Seq<(Seq<char>, Seq<char>)>) -> SlotView {
    SlotView { last_published: Some(output), publish_failures: 0, ..slot }
}

/// A session after the service refused an update: the failure is counted,
/// and what was last published stays, so that the next poll sends again.
pub open spec fn publish_failed_slot(slot: SlotView) -> SlotView {
    SlotView { publish_failures: bumped(slot.publish_failures), ..slot }
}

/// The manager after the polling loop of `id` reported how publishing
/// `output` went.
pub open spec fn after_publish(
    m: ManagerView,
    id: Seq<char>,
    output: Seq<(Seq<char>, Seq<char>)>,
    accepted: bool,
) -> ManagerView {
    match active_index(m, id) {
        None => m,
        Some(i) => ManagerView {
            sessions: m.sessions.update(
                i,
                if accepted {
                    published_slot(m.sessions[i], output)
                } else {
                    publish_failed_slot(m.sessions[i])
                },
            ),
            ..m
        },
    }
}

/// How long the polling loop of `id` waits after publishing; `None` where
/// the session is gone or no longer active.
pub open spec fn publish_delay(m: ManagerView, id: Seq<char>, interval: u64, accepted: bool)
    -> Option<nat> {
    match active_index(m, id) {
        None => None,
        Some(i) => Some(
            if accepted {
                backoff_delay(interval, 0)
            } else {
                backoff_delay(interval, bumped(m.sessions[i].publish_failures))
            },
        ),
    }
}

/// Whether two sessions differ only in what the polling loop may change.
pub open spec fn same_standing(a: SlotView, b: SlotView) -> bool {
    &&& a.state == b.state
    &&& a.serial == b.serial
    &&& a.session.id == b.session.id
    &&& a.session.config_id == b.session.config_id
    &&& a.session.executable_name == b.session.executable_name
    &&& a.session.is_active == b.session.is_active
}

/// A change that leaves the standing of a session alone keeps the manager
/// well formed: no poll and no publish, failed or not, moves a session to
/// another state or touches a monitor.
pub proof fn lemma_quiet_update_keeps_wf(m: ManagerView, i: int, slot: SlotView)
    requires
        model_wf(m),
        0 <= i < m.sessions.len(),
        same_standing(m.sessions[i], slot),
    ensures
        model_wf(ManagerView { sessions: m.sessions.update(i, slot), ..m }),
{
    let after = ManagerView { sessions: m.sessions.update(i, slot), ..m };
    assert forall|name: Seq<char>|
        crate::monitors::count(after.monitors, name) == #[trigger] crate::sessions::active_on(
            after.sessions,
            name,
            after.sessions.len() as int,
        ) by {
        crate::sessions::lemma_active_update(m.sessions, i, slot, name, m.sessions.len() as int);
        assert(crate::monitors::count(m.monitors, name) == crate::sessions::active_on(
            m.sessions,
            name,
            m.sessions.len() as int,
        ));
    }
    assert forall|a: int, b: int| 0 <= a < b < after.sessions.len() implies (
    #[trigger] after.sessions[a]).serial != (#[trigger] after.sessions[b]).serial by {
        assert(m.sessions[a].serial != m.sessions[b].serial);
    }
    assert forall|k: int| 0 <= k < after.sessions.len() implies {
        &&& (#[trigger] after.sessions[k]).session.is_active == (after.sessions[k].state is Active)
        &&& after.sessions[k].session.id == crate::sessions::session_id_text(
            after.sessions[k].serial,
        )
        &&& after.sessions[k].serial < after.next_serial
    } by {
        assert(m.sessions[k].serial < m.next_serial);
    }
}

/// Reports of the polling loop keep the manager well formed, keep every
/// session in its state and keep every monitor as it was: a failed poll or
/// a refused update never ends a session.
pub proof fn lemma_reports_keep_wf(
    m: ManagerView,
    id: Seq<char>,
    polled: Option<TreeView>,
    now: Seq<char>,
    output: Seq<(Seq<char>, Seq<char>)>,
    accepted: bool,
)
    requires
        model_wf(m),
    ensures
        model_wf(after_poll(m, id, polled, now)),
        model_wf(after_publish(m, id, output, accepted)),
        after_poll(m, id, polled, now).monitors == m.monitors,
        after_publish(m, id, output, accepted).monitors == m.monitors,
        crate::sessions::state_of(after_poll(m, id, polled, now), id) == crate::sessions::state_of(
            m,
            id,
        ),
        crate::sessions::state_of(after_publish(m, id, output, accepted), id)
            == crate::sessions::state_of(m, id),
{
    crate::sessions::lemma_session_index_is_first(m.sessions, id, 0);
    match active_index(m, id) {
        Some(i) => {
            let a = match polled {
                Some(tree) => poll_succeeded_slot(m.sessions[i], tree, now),
                None => poll_failed_slot(m.sessions[i]),
            };
            let b = if accepted {
                published_slot(m.sessions[i], output)
            } else {
                publish_failed_slot(m.sessions[i])
            };
            lemma_quiet_update_keeps_wf(m, i, a);
            lemma_quiet_update_keeps_wf(m, i, b);
            crate::sessions::lemma_session_index_agree(
                m.sessions,
                m.sessions.update(i, a),
                id,
                0,
            );
            crate::sessions::lemma_session_index_agree(
                m.sessions,
                m.sessions.update(i, b),
                id,
                0,
            );
        },
        None => {},
    }
}

} // verus!
