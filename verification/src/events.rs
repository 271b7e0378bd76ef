//! Lifecycle events: an append-only log of what happened to each plugin,
//! pruned only by age.  The embedding runtime mirrors appended rows into
//! durable storage and fans each one out to the supervisor log.

use vstd::prelude::*;

use crate::textorder::{str_lt, str_before};

verus! {

/// What happened to a plugin.
#[derive(Debug, Clone, Copy, PartialEq, Eq, Structural)]
pub enum EventType {
    Started,
    Killed,
    Enabled,
    Disabled,
    RestartingWithBackoff,
    DisabledAfterMaxRestarts,
    SpawnFailed,
}

impl EventType {
    /// The event's stored name.
    pub open spec fn spec_name(&self) -> Seq<char> {
        match self {
            EventType::Started => "started"@,
            EventType::Killed => "killed"@,
            EventType::Enabled => "enabled"@,
            EventType::Disabled => "disabled"@,
            EventType::RestartingWithBackoff => "restarting_with_backoff"@,
            EventType::DisabledAfterMaxRestarts => "disabled_after_max_restarts"@,
            EventType::SpawnFailed => "spawn_failed"@,
        }
    }

    /// The event's stored name.
    pub fn name(&self) -> (r: &'static str)
        ensures
            r@ == self.spec_name(),
    {
        match self {
            EventType::Started => "started",
            EventType::Killed => "killed",
            EventType::Enabled => "enabled",
            EventType::Disabled => "disabled",
            EventType::RestartingWithBackoff => "restarting_with_backoff",
            EventType::DisabledAfterMaxRestarts => "disabled_after_max_restarts",
            EventType::SpawnFailed => "spawn_failed",
        }
    }
}

/// One stored lifecycle event.
#[derive(Debug, Clone)]
pub struct PluginEvent {
    pub id: i64,
    pub plugin_id: String,
    pub event_type: String,
    pub timestamp: String,
    pub details: Option<String>,
}

/// The events whose timestamp is not before the cutoff, in order.
pub open spec fn spec_retained(s: Seq<PluginEvent>, cutoff: Seq<char>) -> Seq<PluginEvent>
    decreases s.len(),
{
    if s.len() == 0 {
        Seq::empty()
    } else if str_lt(s[0].timestamp@, cutoff) {
        spec_retained(s.drop_first(), cutoff)
    } else {
        seq![s[0]] + spec_retained(s.drop_first(), cutoff)
    }
}

proof fn lemma_retained_snoc(s: Seq<PluginEvent>, e: PluginEvent, cutoff: Seq<char>)
    ensures
        spec_retained(s.push(e), cutoff) == if str_lt(e.timestamp@, cutoff) {
            spec_retained(s, cutoff)
        } else {
            spec_retained(s, cutoff).push(e)
        },
    decreases s.len(),
{
    if s.len() == 0 {
        assert(s.push(e)[0] == e);
        assert(s.push(e).drop_first() =~= Seq::<PluginEvent>::empty());
        assert(spec_retained(Seq::<PluginEvent>::empty(), cutoff) == Seq::<PluginEvent>::empty());
        if !str_lt(e.timestamp@, cutoff) {
            assert(seq![e] + Seq::<PluginEvent>::empty() =~= spec_retained(s, cutoff).push(e));
        }
    } else {
        assert(s.push(e)[0] == s[0]);
        assert(s.push(e).drop_first() =~= s.drop_first().push(e));
        lemma_retained_snoc(s.drop_first(), e, cutoff);
        if !str_lt(s[0].timestamp@, cutoff) {
            assert(spec_retained(s.push(e), cutoff) == seq![s[0]] + spec_retained(
                s.drop_first().push(e),
                cutoff,
            ));
            assert(spec_retained(s, cutoff) == seq![s[0]] + spec_retained(s.drop_first(), cutoff));
            if !str_lt(e.timestamp@, cutoff) {
                assert(seq![s[0]] + spec_retained(s.drop_first(), cutoff).push(e) =~= (seq![s[0]]
                    + spec_retained(s.drop_first(), cutoff)).push(e));
            }
        }
    }
}

/// The events of one plugin, in log order.
pub open spec fn events_of(s: Seq<PluginEvent>, pid: Seq<char>) -> Seq<PluginEvent>
    decreases s.len(),
{
    if s.len() == 0 {
        Seq::empty()
    } else if s[0].plugin_id@ == pid {
        seq![s[0]] + events_of(s.drop_first(), pid)
    } else {
        events_of(s.drop_first(), pid)
    }
}

proof fn lemma_events_of_snoc(s: Seq<PluginEvent>, e: PluginEvent, pid: Seq<char>)
    ensures
        events_of(s.push(e), pid) == if e.plugin_id@ == pid {
            events_of(s, pid).push(e)
        } else {
            events_of(s, pid)
        },
    decreases s.len(),
{
    if s.len() == 0 {
        assert(s.push(e)[0] == e);
        assert(s.push(e).drop_first() =~= Seq::<PluginEvent>::empty());
        assert(events_of(Seq::<PluginEvent>::empty(), pid) == Seq::<PluginEvent>::empty());
        if e.plugin_id@ == pid {
            assert(seq![e] + Seq::<PluginEvent>::empty() =~= events_of(s, pid).push(e));
        }
    } else {
        assert(s.push(e)[0] == s[0]);
        assert(s.push(e).drop_first() =~= s.drop_first().push(e));
        lemma_events_of_snoc(s.drop_first(), e, pid);
        if s[0].plugin_id@ == pid {
            assert(events_of(s.push(e), pid) == seq![s[0]] + events_of(s.drop_first().push(e),
                pid));
            assert(events_of(s, pid) == seq![s[0]] + events_of(s.drop_first(), pid));
            if e.plugin_id@ == pid {
                assert(seq![s[0]] + events_of(s.drop_first(), pid).push(e) =~= (seq![s[0]]
                    + events_of(s.drop_first(), pid)).push(e));
            }
        } else {
            assert(events_of(s.push(e), pid) == events_of(s.drop_first().push(e), pid));
            assert(events_of(s, pid) == events_of(s.drop_first(), pid));
        }
    }
}

/// The durable event log: rows are appended with increasing ids and never
/// mutated; only age-based pruning removes them.
#[derive(Debug)]
pub struct EventLog {
    events: Vec<PluginEvent>,
    next_id: i64,
}

impl EventLog {
    /// All stored events, oldest first.
    pub closed spec fn spec_events(&self) -> Seq<PluginEvent> {
        self.events@
    }

    /// The id the next appended event will carry.
    pub closed spec fn spec_next_id(&self) -> i64 {
        self.next_id
    }

    /// An empty log.
    pub fn new() -> (r: EventLog)
        ensures
            r.spec_events().len() == 0,
            r.spec_next_id() == 1,
    {
        EventLog { events: Vec::new(), next_id: 1 }
    }

    /// The id the next appended event will carry.
    pub fn next_id(&self) -> (r: i64)
        ensures
            r == self.spec_next_id(),
    {
        self.next_id
    }

    /// All stored events, oldest first.
    pub fn events(&self) -> (r: &Vec<PluginEvent>)
        ensures
            r@ == self.spec_events(),
    {
        &self.events
    }

    /// Append one event row; nothing already stored changes, and the row
    /// carries this log's next id.  Returns that id.
    pub fn plugin_event_log(
        &mut self,
        plugin_id: &str,
        event_type: EventType,
        details: Option<String>,
    ) -> (r: i64)
        requires
            old(self).spec_next_id() < i64::MAX,
        ensures
            r == old(self).spec_next_id(),
            final(self).spec_next_id() == old(self).spec_next_id() + 1,
            final(self).spec_events().len() == old(self).spec_events().len() + 1,
            forall|i: int|
                0 <= i < old(self).spec_events().len() ==> #[trigger] final(self).spec_events()[i]
                    == old(self).spec_events()[i],
            ({
                let e = final(self).spec_events().last();
                &&& e.id == r
                &&& e.plugin_id@ == plugin_id@
                &&& e.event_type@ == event_type.spec_name()
                &&& e.details == (match details {
                    None => None::<String>,
                    Some(d) => Some(d),
                })
            }),
    {
        let id = self.next_id;
        let e = PluginEvent {
            id,
            plugin_id: String::from_str(plugin_id),
            event_type: String::from_str(event_type.name()),
            timestamp: crate::logging::now_rfc3339(),
            details,
        };
        self.events.push(e);
        self.next_id = id + 1;
        id
    }

    /// The most recent events of one plugin, newest first, at most
    /// `limit` of them.
    pub fn plugin_event_get_recent(&self, plugin_id: &str, limit: usize) -> (r: Vec<PluginEvent>)
        ensures
            ({
                let rev = events_of(self.spec_events(), plugin_id@).reverse();
                r@ == if limit as int >= rev.len() {
                    rev
                } else {
                    rev.take(limit as int)
                }
            }),
    {
        let pid = String::from_str(plugin_id);
        let mut mine: Vec<PluginEvent> = Vec::new();
        proof {
            assert(self.events@.take(0) =~= Seq::<PluginEvent>::empty());
        }
        let mut i: usize = 0;
        while i < self.events.len()
            invariant
                i <= self.events@.len(),
                pid@ == plugin_id@,
                mine@ == events_of(self.events@.take(i as int), plugin_id@),
            decreases self.events@.len() - i,
        {
            let e = &self.events[i];
            if e.plugin_id == pid {
                mine.push(
                    PluginEvent {
                        id: e.id,
                        plugin_id: e.plugin_id.clone(),
                        event_type: e.event_type.clone(),
                        timestamp: e.timestamp.clone(),
                        details: match &e.details {
                            Some(d) => Some(d.clone()),
                            None => None,
                        },
                    },
                );
            }
            proof {
                assert(self.events@.take(i + 1) =~= self.events@.take(i as int).push(
                    self.events@[i as int],
                ));
                lemma_events_of_snoc(self.events@.take(i as int), self.events@[i as int],
                    plugin_id@);
            }
            i = i + 1;
        }
        proof {
            assert(self.events@.take(self.events@.len() as int) =~= self.events@);
        }
        let ghost minev = mine@;
        let mut rev: Vec<PluginEvent> = Vec::new();
        let mut j: usize = mine.len();
        while j > 0
            invariant
                j <= minev.len(),
                mine@ == minev,
                rev@ =~= minev.subrange(j as int, minev.len() as int).reverse(),
            decreases j,
        {
            j = j - 1;
            let e = &mine[j];
            rev.push(
                PluginEvent {
                    id: e.id,
                    plugin_id: e.plugin_id.clone(),
                    event_type: e.event_type.clone(),
                    timestamp: e.timestamp.clone(),
                    details: match &e.details {
                        Some(d) => Some(d.clone()),
                        None => None,
                    },
                },
            );
            proof {
                assert(rev@ =~= minev.subrange(j as int, minev.len() as int).reverse());
            }
        }
        proof {
            assert(minev.subrange(0, minev.len() as int) =~= minev);
            assert(rev@ == minev.reverse());
        }
        rev.truncate(limit);
        proof {
            if limit <= minev.len() {
                assert(rev@ =~= minev.reverse().take(limit as int));
            }
        }
        rev
    }

    /// Drop every event whose timestamp is before the cutoff; the rest
    /// stay, in order.
    pub fn prune_older_than(&mut self, cutoff: &str)
        ensures
            final(self).spec_events() == spec_retained(old(self).spec_events(), cutoff@),
            final(self).spec_next_id() == old(self).spec_next_id(),
    {
        let mut kept: Vec<PluginEvent> = Vec::new();
        proof {
            assert(self.events@.take(0) =~= Seq::<PluginEvent>::empty());
        }
        let mut i: usize = 0;
        while i < self.events.len()
            invariant
                i <= self.events@.len(),
                kept@ == spec_retained(self.events@.take(i as int), cutoff@),
            decreases self.events@.len() - i,
        {
            let e = &self.events[i];
            if !str_before(e.timestamp.as_str(), cutoff) {
                kept.push(
                    PluginEvent {
                        id: e.id,
                        plugin_id: e.plugin_id.clone(),
                        event_type: e.event_type.clone(),
                        timestamp: e.timestamp.clone(),
                        details: match &e.details {
                            Some(d) => Some(d.clone()),
                            None => None,
                        },
                    },
                );
            }
            proof {
                assert(self.events@.take(i + 1) =~= self.events@.take(i as int).push(
                    self.events@[i as int],
                ));
                lemma_retained_snoc(self.events@.take(i as int), self.events@[i as int], cutoff@);
            }
            i = i + 1;
        }
        proof {
            assert(self.events@.take(self.events@.len() as int) =~= self.events@);
        }
        self.events = kept;
    }
}

} // verus!
