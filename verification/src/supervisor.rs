//! The supervisor's state: the process registry, the per-plugin restart
//! counters, the enable map, and the lifecycle transitions over them.
//!
//! Everything here is the decision half of the lifecycle controller: which
//! row changes on spawn, kill, enable and disable, when a crashing plugin
//! is restarted and with what backoff delay, and when it is disabled for
//! good.  The embedding runtime performs the process and file work those
//! decisions call for and reports outcomes back in plain values.

use vstd::prelude::*;

use crate::registry::{PluginMetadata, PluginProcess, valid_metadata};

verus! {

/// First value bound to key `k` in an association list.
pub open spec fn assoc_get<V>(s: Seq<(String, V)>, k: Seq<char>) -> Option<V>
    decreases s.len(),
{
    if s.len() == 0 {
        None
    } else if s[0].0@ == k {
        Some(s[0].1)
    } else {
        assoc_get(s.drop_first(), k)
    }
}

proof fn lemma_assoc_first_match<V>(s: Seq<(String, V)>, i: int, k: Seq<char>)
    requires
        0 <= i < s.len(),
        s[i].0@ == k,
        forall|j: int| 0 <= j < i ==> (#[trigger] s[j].0@) != k,
    ensures
        assoc_get(s, k) == Some(s[i].1),
    decreases i,
{
    if i == 0 {
    } else {
        assert(s[0].0@ != k);
        assert(forall|j: int| 0 <= j < i - 1 ==> #[trigger] s.drop_first()[j] == s[j + 1]);
        lemma_assoc_first_match(s.drop_first(), i - 1, k);
    }
}

proof fn lemma_assoc_no_match<V>(s: Seq<(String, V)>, k: Seq<char>)
    requires
        forall|j: int| 0 <= j < s.len() ==> (#[trigger] s[j].0@) != k,
    ensures
        assoc_get(s, k) == None::<V>,
    decreases s.len(),
{
    if s.len() > 0 {
        assert(forall|j: int| 0 <= j < s.len() - 1 ==> #[trigger] s.drop_first()[j] == s[j + 1]);
        lemma_assoc_no_match(s.drop_first(), k);
    }
}

proof fn lemma_assoc_update_other<V>(s: Seq<(String, V)>, i: int, e: (String, V), k2: Seq<char>)
    requires
        0 <= i < s.len(),
        s[i].0@ == e.0@,
        k2 != e.0@,
    ensures
        assoc_get(s.update(i, e), k2) == assoc_get(s, k2),
    decreases i,
{
    let t = s.update(i, e);
    if i == 0 {
        assert(t[0] == e);
        assert(t.drop_first() =~= s.drop_first());
    } else {
        assert(t[0] == s[0]);
        if s[0].0@ == k2 {
        } else {
            assert(t.drop_first() =~= s.drop_first().update(i - 1, e));
            lemma_assoc_update_other(s.drop_first(), i - 1, e, k2);
        }
    }
}

proof fn lemma_assoc_update_hit<V>(s: Seq<(String, V)>, i: int, e: (String, V))
    requires
        0 <= i < s.len(),
        s[i].0@ == e.0@,
        forall|j: int| 0 <= j < i ==> (#[trigger] s[j].0@) != e.0@,
    ensures
        assoc_get(s.update(i, e), e.0@) == Some(e.1),
{
    let t = s.update(i, e);
    assert(t[i] == e);
    assert(forall|j: int| 0 <= j < i ==> #[trigger] t[j] == s[j]);
    lemma_assoc_first_match(t, i, e.0@);
}

proof fn lemma_assoc_push<V>(s: Seq<(String, V)>, e: (String, V), k2: Seq<char>)
    ensures
        assoc_get(s.push(e), k2) == (match assoc_get(s, k2) {
            Some(v) => Some(v),
            None => if e.0@ == k2 {
                Some(e.1)
            } else {
                None
            },
        }),
    decreases s.len(),
{
    if s.len() == 0 {
        assert(s.push(e)[0] == e);
        assert(s.push(e).drop_first() =~= Seq::<(String, V)>::empty());
        assert(assoc_get(s, k2) == None::<V>);
        assert(assoc_get(Seq::<(String, V)>::empty(), k2) == None::<V>);
    } else {
        assert(s.push(e)[0] == s[0]);
        assert(s.push(e).drop_first() =~= s.drop_first().push(e));
        lemma_assoc_push(s.drop_first(), e, k2);
    }
}

/// First registry row whose id is `id`.
pub open spec fn row_get(s: Seq<PluginProcess>, id: Seq<char>) -> Option<PluginProcess>
    decreases s.len(),
{
    if s.len() == 0 {
        None
    } else if s[0].id@ == id {
        Some(s[0])
    } else {
        row_get(s.drop_first(), id)
    }
}

proof fn lemma_row_first_match(s: Seq<PluginProcess>, i: int, id: Seq<char>)
    requires
        0 <= i < s.len(),
        s[i].id@ == id,
        forall|j: int| 0 <= j < i ==> (#[trigger] s[j].id@) != id,
    ensures
        row_get(s, id) == Some(s[i]),
    decreases i,
{
    if i == 0 {
    } else {
        assert(s[0].id@ != id);
        assert(forall|j: int| 0 <= j < i - 1 ==> #[trigger] s.drop_first()[j] == s[j + 1]);
        lemma_row_first_match(s.drop_first(), i - 1, id);
    }
}

proof fn lemma_row_no_match(s: Seq<PluginProcess>, id: Seq<char>)
    requires
        forall|j: int| 0 <= j < s.len() ==> (#[trigger] s[j].id@) != id,
    ensures
        row_get(s, id) == None::<PluginProcess>,
    decreases s.len(),
{
    if s.len() > 0 {
        assert(forall|j: int| 0 <= j < s.len() - 1 ==> #[trigger] s.drop_first()[j] == s[j + 1]);
        lemma_row_no_match(s.drop_first(), id);
    }
}

proof fn lemma_row_update_other(s: Seq<PluginProcess>, i: int, e: PluginProcess, id2: Seq<char>)
    requires
        0 <= i < s.len(),
        s[i].id@ == e.id@,
        id2 != e.id@,
    ensures
        row_get(s.update(i, e), id2) == row_get(s, id2),
    decreases i,
{
    let t = s.update(i, e);
    if i == 0 {
        assert(t[0] == e);
        assert(t.drop_first() =~= s.drop_first());
    } else {
        assert(t[0] == s[0]);
        if s[0].id@ == id2 {
        } else {
            assert(t.drop_first() =~= s.drop_first().update(i - 1, e));
            lemma_row_update_other(s.drop_first(), i - 1, e, id2);
        }
    }
}

proof fn lemma_row_update_hit(s: Seq<PluginProcess>, i: int, e: PluginProcess)
    requires
        0 <= i < s.len(),
        s[i].id@ == e.id@,
        forall|j: int| 0 <= j < i ==> (#[trigger] s[j].id@) != e.id@,
    ensures
        row_get(s.update(i, e), e.id@) == Some(e),
{
    let t = s.update(i, e);
    assert(t[i] == e);
    assert(forall|j: int| 0 <= j < i ==> #[trigger] t[j] == s[j]);
    lemma_row_first_match(t, i, e.id@);
}

proof fn lemma_row_push(s: Seq<PluginProcess>, e: PluginProcess, id2: Seq<char>)
    ensures
        row_get(s.push(e), id2) == (match row_get(s, id2) {
            Some(p) => Some(p),
            None => if e.id@ == id2 {
                Some(e)
            } else {
                None
            },
        }),
    decreases s.len(),
{
    if s.len() == 0 {
        assert(s.push(e)[0] == e);
        assert(s.push(e).drop_first() =~= Seq::<PluginProcess>::empty());
    } else {
        assert(s.push(e)[0] == s[0]);
        assert(s.push(e).drop_first() =~= s.drop_first().push(e));
        lemma_row_push(s.drop_first(), e, id2);
    }
}

/// Why a discovered plugin was not admitted to the registry.
#[derive(Debug, Clone, PartialEq, Eq, Structural)]
pub enum DiscoveryError {
    /// A metadata field is invalid: bad id charset, bad route, or an
    /// over-long text field.
    InvalidMetadata,
    /// Another plugin already owns this id.
    DuplicateId,
    /// Another plugin already owns this route.
    DuplicateRoute,
}

/// Why a lifecycle operation failed.
#[derive(Debug, Clone, PartialEq, Eq, Structural)]
pub enum SupervisorError {
    /// No registry row has the given id.
    PluginNotFound,
}

/// What to do about a crashed plugin.
#[derive(Debug, Clone, PartialEq, Eq, Structural)]
pub enum RestartDecision {
    /// The plugin reached `max_restarts`: it has been disabled; do not
    /// respawn it.
    Disable,
    /// Sleep for `delay_ms`, then respawn and re-run the init handshake.
    Backoff { delay_ms: u64 },
}

/// Backoff delay before restart attempt number `attempt` (counted from 1):
/// 1 s, 2 s, 4 s, 8 s, then 16 s for every later attempt.
pub open spec fn backoff_delay_ms(attempt: u32) -> u64 {
    if attempt <= 1 {
        1000
    } else if attempt == 2 {
        2000
    } else if attempt == 3 {
        4000
    } else if attempt == 4 {
        8000
    } else {
        16000
    }
}

/// Whether a restart counter that has just reached `count_after`
/// consecutive crashes disables the plugin under threshold `max`.
pub open spec fn disables_after(count_after: u32, max: u32) -> bool {
    count_after >= max
}

/// Exactly `max` consecutive crashes disable a plugin; one fewer does not.
pub proof fn lemma_restart_threshold(max: u32)
    requires
        max >= 1,
    ensures
        disables_after(max, max),
        !disables_after((max - 1) as u32, max),
{
}

/// The persisted enable map: plugin id to enabled flag, a missing id
/// meaning enabled.
#[derive(Debug)]
pub struct EnableMap {
    entries: Vec<(String, bool)>,
}

impl EnableMap {
    /// Whether `id` is enabled; ids never written default to enabled.
    pub closed spec fn spec_enabled(&self, id: Seq<char>) -> bool {
        match assoc_get(self.entries@, id) {
            None => true,
            Some(b) => b,
        }
    }

    /// Each id owns at most one entry.
    pub closed spec fn wf(&self) -> bool {
        forall|a: int, b: int|
            0 <= a < b < self.entries@.len() ==> (#[trigger] self.entries@[a].0@)
                != (#[trigger] self.entries@[b].0@)
    }

    /// An empty map: every id enabled.
    pub fn new() -> (r: EnableMap)
        ensures
            r.wf(),
            forall|id: Seq<char>| #[trigger] r.spec_enabled(id),
    {
        let r = EnableMap { entries: Vec::new() };
        proof {
            assert forall|id: Seq<char>| #[trigger] r.spec_enabled(id) by {
                assert(r.entries@.len() == 0);
            }
        }
        r
    }

    fn find(&self, id: &str) -> (r: Option<usize>)
        ensures
            match r {
                Some(i) => {
                    &&& i < self.entries@.len()
                    &&& self.entries@[i as int].0@ == id@
                    &&& forall|j: int| 0 <= j < i ==> (#[trigger] self.entries@[j].0@) != id@
                },
                None => forall|j: int|
                    0 <= j < self.entries@.len() ==> (#[trigger] self.entries@[j].0@) != id@,
            },
    {
        let key = String::from_str(id);
        let mut i: usize = 0;
        while i < self.entries.len()
            invariant
                i <= self.entries@.len(),
                key@ == id@,
                forall|j: int| 0 <= j < i ==> (#[trigger] self.entries@[j].0@) != id@,
            decreases self.entries@.len() - i,
        {
            if self.entries[i].0 == key {
                return Some(i);
            }
            i = i + 1;
        }
        None
    }

    /// Read the enabled flag for `id`, defaulting to enabled.
    pub fn is_enabled(&self, id: &str) -> (r: bool)
        ensures
            r == self.spec_enabled(id@),
    {
        match self.find(id) {
            Some(i) => {
                proof {
                    lemma_assoc_first_match(self.entries@, i as int, id@);
                }
                self.entries[i].1
            },
            None => {
                proof {
                    lemma_assoc_no_match(self.entries@, id@);
                }
                true
            },
        }
    }

    /// Write the enabled flag for `id`; every other id keeps its flag.
    pub fn set_enabled(&mut self, id: &str, enabled: bool)
        requires
            old(self).wf(),
        ensures
            final(self).wf(),
            final(self).spec_enabled(id@) == enabled,
            forall|id2: Seq<char>|
                id2 != id@ ==> #[trigger] final(self).spec_enabled(id2) == old(self).spec_enabled(
                    id2,
                ),
    {
        let e = (String::from_str(id), enabled);
        match self.find(id) {
            Some(i) => {
                let ghost s0 = self.entries@;
                self.entries[i] = e;
                proof {
                    lemma_assoc_update_hit(s0, i as int, e);
                    assert forall|id2: Seq<char>| id2 != id@ implies #[trigger] self.spec_enabled(
                        id2,
                    ) == old(self).spec_enabled(id2) by {
                        lemma_assoc_update_other(s0, i as int, e, id2);
                    }
                    assert forall|a: int, b: int|
                        0 <= a < b < self.entries@.len() implies (
                        #[trigger] self.entries@[a].0@) != (#[trigger] self.entries@[b].0@) by {
                        assert(s0[a].0@ == self.entries@[a].0@);
                        assert(s0[b].0@ == self.entries@[b].0@);
                    }
                }
            },
            None => {
                let ghost s0 = self.entries@;
                self.entries.push(e);
                proof {
                    lemma_assoc_no_match(s0, id@);
                    lemma_assoc_push(s0, e, id@);
                    assert forall|id2: Seq<char>| id2 != id@ implies #[trigger] self.spec_enabled(
                        id2,
                    ) == old(self).spec_enabled(id2) by {
                        lemma_assoc_push(s0, e, id2);
                    }
                    assert forall|a: int, b: int|
                        0 <= a < b < self.entries@.len() implies (
                        #[trigger] self.entries@[a].0@) != (#[trigger] self.entries@[b].0@) by {
                        if b == s0.len() {
                            assert(self.entries@[b] == e);
                            assert(self.entries@[a] == s0[a]);
                        } else {
                            assert(self.entries@[a] == s0[a]);
                            assert(self.entries@[b] == s0[b]);
                        }
                    }
                }
            },
        }
    }

    /// The written entries, oldest first, for persisting to disk.
    pub fn entries(&self) -> (r: &Vec<(String, bool)>)
        ensures
            r@ == self.spec_entries(),
    {
        &self.entries
    }

    /// The written entries as a sequence.
    pub closed spec fn spec_entries(&self) -> Seq<(String, bool)> {
        self.entries@
    }
}

/// Manages plugin lifecycle state: the registry of rows, restart counters,
/// the enable map, and the restart-with-backoff policy.
#[derive(Debug)]
pub struct PluginSupervisor {
    plugins: Vec<PluginProcess>,
    restart_counts: Vec<(String, u32)>,
    enable_map: EnableMap,
    max_restarts: u32,
}

impl PluginSupervisor {
    /// The registry row for `id`.
    pub closed spec fn spec_row(&self, id: Seq<char>) -> Option<PluginProcess> {
        row_get(self.plugins@, id)
    }

    /// All registry rows, in discovery order.
    pub closed spec fn spec_rows(&self) -> Seq<PluginProcess> {
        self.plugins@
    }

    /// The restart counter for `id`; never incremented means zero.
    pub closed spec fn spec_count(&self, id: Seq<char>) -> u32 {
        match assoc_get(self.restart_counts@, id) {
            None => 0,
            Some(c) => c,
        }
    }

    /// The enable flag for `id` in the enable map, defaulting to enabled.
    pub closed spec fn spec_enabled(&self, id: Seq<char>) -> bool {
        self.enable_map.spec_enabled(id)
    }

    /// The crash threshold this supervisor was constructed with.
    pub closed spec fn spec_max_restarts(&self) -> u32 {
        self.max_restarts
    }

    /// Whether a live child is recorded for `id`.
    pub open spec fn spec_running(&self, id: Seq<char>) -> bool {
        match self.spec_row(id) {
            Some(p) => p.running,
            None => false,
        }
    }

    /// Registry and counter ids are unique, so each plugin id owns at most
    /// one row and hence at most one recorded child process.
    pub closed spec fn wf(&self) -> bool {
        &&& forall|a: int, b: int|
            0 <= a < b < self.plugins@.len() ==> (#[trigger] self.plugins@[a].id@)
                != (#[trigger] self.plugins@[b].id@)
        &&& forall|a: int, b: int|
            0 <= a < b < self.restart_counts@.len() ==> (#[trigger] self.restart_counts@[a].0@)
                != (#[trigger] self.restart_counts@[b].0@)
        &&& self.enable_map.wf()
    }

    /// At most one child process is recorded per plugin id: two rows with
    /// one id are the same row.
    pub proof fn lemma_one_row_per_id(&self, i: int, j: int)
        requires
            self.wf(),
            0 <= i < self.spec_rows().len(),
            0 <= j < self.spec_rows().len(),
            self.spec_rows()[i].id@ == self.spec_rows()[j].id@,
        ensures
            i == j,
    {
    }

    /// Create a supervisor with the given crash threshold and no plugins.
    pub fn new(max_restarts: u32) -> (r: PluginSupervisor)
        ensures
            r.wf(),
            r.spec_max_restarts() == max_restarts,
            r.spec_rows().len() == 0,
            forall|id: Seq<char>| #[trigger] r.spec_count(id) == 0,
            forall|id: Seq<char>| #[trigger] r.spec_enabled(id),
    {
        let r = PluginSupervisor {
            plugins: Vec::new(),
            restart_counts: Vec::new(),
            enable_map: EnableMap::new(),
            max_restarts,
        };
        proof {
            assert forall|id: Seq<char>| #[trigger] r.spec_count(id) == 0 by {
                assert(r.restart_counts@.len() == 0);
            }
        }
        r
    }

    fn find_row(&self, id: &str) -> (r: Option<usize>)
        ensures
            match r {
                Some(i) => {
                    &&& i < self.plugins@.len()
                    &&& self.plugins@[i as int].id@ == id@
                    &&& forall|j: int| 0 <= j < i ==> (#[trigger] self.plugins@[j].id@) != id@
                },
                None => forall|j: int|
                    0 <= j < self.plugins@.len() ==> (#[trigger] self.plugins@[j].id@) != id@,
            },
    {
        let key = String::from_str(id);
        let mut i: usize = 0;
        while i < self.plugins.len()
            invariant
                i <= self.plugins@.len(),
                key@ == id@,
                forall|j: int| 0 <= j < i ==> (#[trigger] self.plugins@[j].id@) != id@,
            decreases self.plugins@.len() - i,
        {
            if self.plugins[i].id == key {
                return Some(i);
            }
            i = i + 1;
        }
        None
    }

    fn find_count(&self, id: &str) -> (r: Option<usize>)
        ensures
            match r {
                Some(i) => {
                    &&& i < self.restart_counts@.len()
                    &&& self.restart_counts@[i as int].0@ == id@
                    &&& forall|j: int|
                        0 <= j < i ==> (#[trigger] self.restart_counts@[j].0@) != id@
                },
                None => forall|j: int|
                    0 <= j < self.restart_counts@.len() ==> (
                    #[trigger] self.restart_counts@[j].0@) != id@,
            },
    {
        let key = String::from_str(id);
        let mut i: usize = 0;
        while i < self.restart_counts.len()
            invariant
                i <= self.restart_counts@.len(),
                key@ == id@,
                forall|j: int| 0 <= j < i ==> (#[trigger] self.restart_counts@[j].0@) != id@,
            decreases self.restart_counts@.len() - i,
        {
            if self.restart_counts[i].0 == key {
                return Some(i);
            }
            i = i + 1;
        }
        None
    }

    /// Record a freshly spawned plugin process: the row for `plugin_id` is
    /// created or replaced with a running, enabled row.  A plugin whose
    /// enable flag is off is never spawned, and a second live child for
    /// one id is never recorded.
    pub fn spawn_plugin(
        &mut self,
        plugin_id: &str,
        socket_path: &str,
        metadata: PluginMetadata,
        pid: Option<u32>,
    )
        requires
            old(self).wf(),
            old(self).spec_enabled(plugin_id@),
            !old(self).spec_running(plugin_id@),
        ensures
            final(self).wf(),
            final(self).spec_row(plugin_id@) matches Some(p) && p.id@ == plugin_id@ && p.running
                && p.pid == pid && p.socket_path@ == socket_path@ && p.enabled && (
            p.metadata matches Some(m) && m == metadata),
            forall|id2: Seq<char>|
                id2 != plugin_id@ ==> #[trigger] final(self).spec_row(id2) == old(self).spec_row(
                    id2,
                ),
            forall|id2: Seq<char>| #[trigger]
                final(self).spec_count(id2) == old(self).spec_count(id2),
            forall|id2: Seq<char>| #[trigger]
                final(self).spec_enabled(id2) == old(self).spec_enabled(id2),
            final(self).spec_max_restarts() == old(self).spec_max_restarts(),
    {
        let row = PluginProcess {
            id: String::from_str(plugin_id),
            running: true,
            pid,
            socket_path: String::from_str(socket_path),
            enabled: true,
            metadata: Some(metadata),
        };
        match self.find_row(plugin_id) {
            Some(i) => {
                let ghost s0 = self.plugins@;
                self.plugins[i] = row;
                proof {
                    lemma_row_update_hit(s0, i as int, row);
                    assert forall|id2: Seq<char>| id2 != plugin_id@ implies #[trigger] self.spec_row(
                        id2,
                    ) == old(self).spec_row(id2) by {
                        lemma_row_update_other(s0, i as int, row, id2);
                    }
                    assert forall|a: int, b: int|
                        0 <= a < b < self.plugins@.len() implies (
                        #[trigger] self.plugins@[a].id@) != (#[trigger] self.plugins@[b].id@) by {
                        assert(s0[a].id@ == self.plugins@[a].id@);
                        assert(s0[b].id@ == self.plugins@[b].id@);
                    }
                }
            },
            None => {
                let ghost s0 = self.plugins@;
                self.plugins.push(row);
                proof {
                    lemma_row_no_match(s0, plugin_id@);
                    lemma_row_push(s0, row, plugin_id@);
                    assert forall|id2: Seq<char>| id2 != plugin_id@ implies #[trigger] self.spec_row(
                        id2,
                    ) == old(self).spec_row(id2) by {
                        lemma_row_push(s0, row, id2);
                    }
                    assert forall|a: int, b: int|
                        0 <= a < b < self.plugins@.len() implies (
                        #[trigger] self.plugins@[a].id@) != (#[trigger] self.plugins@[b].id@) by {
                        if b == s0.len() {
                            assert(self.plugins@[b] == row);
                            assert(self.plugins@[a] == s0[a]);
                        } else {
                            assert(self.plugins@[a] == s0[a]);
                            assert(self.plugins@[b] == s0[b]);
                        }
                    }
                }
            },
        }
    }

    /// Record a kill: the row keeps its metadata but loses its child
    /// handle and pid and becomes disabled.  Fails exactly when no row has
    /// this id, and then changes nothing.
    pub fn kill_plugin(&mut self, plugin_id: &str) -> (r: Result<(), SupervisorError>)
        requires
            old(self).wf(),
        ensures
            final(self).wf(),
            old(self).spec_row(plugin_id@) is None ==> r == Err::<(), SupervisorError>(
                SupervisorError::PluginNotFound,
            ) && *final(self) == *old(self),
            old(self).spec_row(plugin_id@) matches Some(p0) ==> r is Ok && (final(self).spec_row(
                plugin_id@,
            ) matches Some(p) && p == (PluginProcess {
                running: false,
                pid: None,
                enabled: false,
                ..p0
            })),
            forall|id2: Seq<char>|
                id2 != plugin_id@ ==> #[trigger] final(self).spec_row(id2) == old(self).spec_row(
                    id2,
                ),
            forall|id2: Seq<char>| #[trigger]
                final(self).spec_count(id2) == old(self).spec_count(id2),
            forall|id2: Seq<char>| #[trigger]
                final(self).spec_enabled(id2) == old(self).spec_enabled(id2),
            final(self).spec_max_restarts() == old(self).spec_max_restarts(),
    {
        match self.find_row(plugin_id) {
            Some(i) => {
                let ghost s0 = self.plugins@;
                proof {
                    lemma_row_first_match(s0, i as int, plugin_id@);
                }
                let old_row = &self.plugins[i];
                let row = PluginProcess {
                    id: old_row.id.clone(),
                    running: false,
                    pid: None,
                    socket_path: old_row.socket_path.clone(),
                    enabled: false,
                    metadata: match &old_row.metadata {
                        Some(m) => Some(m.duplicate()),
                        None => None,
                    },
                };
                let ghost rowg = row;
                self.plugins[i] = row;
                proof {
                    assert(rowg.id@ == s0[i as int].id@);
                    lemma_row_update_hit(s0, i as int, rowg);
                    assert forall|id2: Seq<char>| id2 != plugin_id@ implies #[trigger] self.spec_row(
                        id2,
                    ) == old(self).spec_row(id2) by {
                        lemma_row_update_other(s0, i as int, rowg, id2);
                    }
                    assert forall|a: int, b: int|
                        0 <= a < b < self.plugins@.len() implies (
                        #[trigger] self.plugins@[a].id@) != (#[trigger] self.plugins@[b].id@) by {
                        assert(s0[a].id@ == self.plugins@[a].id@);
                        assert(s0[b].id@ == self.plugins@[b].id@);
                    }
                }
                Ok(())
            },
            None => {
                proof {
                    lemma_row_no_match(self.plugins@, plugin_id@);
                }
                Err(SupervisorError::PluginNotFound)
            },
        }
    }

    /// Record an observed exit of the plugin's child: the row loses its
    /// child handle and pid but keeps its enable flag and metadata, so the
    /// crash-recovery path can decide about a respawn.  Fails exactly when
    /// no row has this id, and then changes nothing.
    pub fn record_exit(&mut self, plugin_id: &str) -> (r: Result<(), SupervisorError>)
        requires
            old(self).wf(),
        ensures
            final(self).wf(),
            old(self).spec_row(plugin_id@) is None ==> r == Err::<(), SupervisorError>(
                SupervisorError::PluginNotFound,
            ) && *final(self) == *old(self),
            old(self).spec_row(plugin_id@) matches Some(p0) ==> r is Ok && (final(self).spec_row(
                plugin_id@,
            ) matches Some(p) && p == (PluginProcess { running: false, pid: None, ..p0 })),
            forall|id2: Seq<char>|
                id2 != plugin_id@ ==> #[trigger] final(self).spec_row(id2) == old(self).spec_row(
                    id2,
                ),
            forall|id2: Seq<char>| #[trigger]
                final(self).spec_count(id2) == old(self).spec_count(id2),
            forall|id2: Seq<char>| #[trigger]
                final(self).spec_enabled(id2) == old(self).spec_enabled(id2),
            final(self).spec_max_restarts() == old(self).spec_max_restarts(),
    {
        match self.find_row(plugin_id) {
            Some(i) => {
                let ghost s0 = self.plugins@;
                proof {
                    lemma_row_first_match(s0, i as int, plugin_id@);
                }
                let old_row = &self.plugins[i];
                let row = PluginProcess {
                    id: old_row.id.clone(),
                    running: false,
                    pid: None,
                    socket_path: old_row.socket_path.clone(),
                    enabled: old_row.enabled,
                    metadata: match &old_row.metadata {
                        Some(m) => Some(m.duplicate()),
                        None => None,
                    },
                };
                let ghost rowg = row;
                self.plugins[i] = row;
                proof {
                    lemma_row_update_hit(s0, i as int, rowg);
                    assert forall|id2: Seq<char>| id2 != plugin_id@ implies #[trigger] self.spec_row(
                        id2,
                    ) == old(self).spec_row(id2) by {
                        lemma_row_update_other(s0, i as int, rowg, id2);
                    }
                    assert forall|a: int, b: int|
                        0 <= a < b < self.plugins@.len() implies (
                        #[trigger] self.plugins@[a].id@) != (#[trigger] self.plugins@[b].id@) by {
                        assert(s0[a].id@ == self.plugins@[a].id@);
                        assert(s0[b].id@ == self.plugins@[b].id@);
                    }
                }
                Ok(())
            },
            None => {
                proof {
                    lemma_row_no_match(self.plugins@, plugin_id@);
                }
                Err(SupervisorError::PluginNotFound)
            },
        }
    }

    /// Health of a plugin: its row is enabled, a child is recorded, and
    /// the probes the runtime supplies say the socket file exists and the
    /// process answers a null signal.
    pub fn check_plugin_health(&self, plugin_id: &str, socket_exists: bool, alive: bool) -> (r:
        bool)
        ensures
            r == match self.spec_row(plugin_id@) {
                Some(p) => p.enabled && p.running && socket_exists && alive,
                None => false,
            },
    {
        match self.find_row(plugin_id) {
            Some(i) => {
                proof {
                    lemma_row_first_match(self.plugins@, i as int, plugin_id@);
                }
                self.plugins[i].enabled && self.plugins[i].running && socket_exists && alive
            },
            None => {
                proof {
                    lemma_row_no_match(self.plugins@, plugin_id@);
                }
                false
            },
        }
    }

    /// The registry row for `plugin_id`, if any.
    pub fn get_plugin_status(&self, plugin_id: &str) -> (r: Option<&PluginProcess>)
        ensures
            match self.spec_row(plugin_id@) {
                Some(p) => (r matches Some(q) && *q == p),
                None => r is None,
            },
    {
        match self.find_row(plugin_id) {
            Some(i) => {
                proof {
                    lemma_row_first_match(self.plugins@, i as int, plugin_id@);
                }
                Some(&self.plugins[i])
            },
            None => {
                proof {
                    lemma_row_no_match(self.plugins@, plugin_id@);
                }
                None
            },
        }
    }

    /// All registry rows.
    pub fn get_all_plugins(&self) -> (r: &Vec<PluginProcess>)
        ensures
            r@ == self.spec_rows(),
    {
        &self.plugins
    }

    /// The crash threshold.
    pub fn max_restarts(&self) -> (r: u32)
        ensures
            r == self.spec_max_restarts(),
    {
        self.max_restarts
    }

    /// Bump the restart counter for `plugin_id` and return the new count.
    /// Counters only grow here; no other id's counter moves.
    pub fn increment_restart_count(&mut self, plugin_id: &str) -> (r: u32)
        requires
            old(self).wf(),
            old(self).spec_count(plugin_id@) < u32::MAX,
        ensures
            final(self).wf(),
            r == old(self).spec_count(plugin_id@) + 1,
            final(self).spec_count(plugin_id@) == r,
            forall|id2: Seq<char>|
                id2 != plugin_id@ ==> #[trigger] final(self).spec_count(id2) == old(
                    self,
                ).spec_count(id2),
            final(self).spec_rows() == old(self).spec_rows(),
            forall|id2: Seq<char>| #[trigger]
                final(self).spec_enabled(id2) == old(self).spec_enabled(id2),
            final(self).spec_max_restarts() == old(self).spec_max_restarts(),
    {
        match self.find_count(plugin_id) {
            Some(i) => {
                let ghost s0 = self.restart_counts@;
                proof {
                    lemma_assoc_first_match(s0, i as int, plugin_id@);
                }
                let c = self.restart_counts[i].1;
                let e = (self.restart_counts[i].0.clone(), c + 1);
                let ghost eg = e;
                self.restart_counts[i] = e;
                proof {
                    lemma_assoc_update_hit(s0, i as int, eg);
                    assert forall|id2: Seq<char>| id2 != plugin_id@ implies #[trigger] self.spec_count(
                        id2,
                    ) == old(self).spec_count(id2) by {
                        lemma_assoc_update_other(s0, i as int, eg, id2);
                    }
                    assert forall|a: int, b: int|
                        0 <= a < b < self.restart_counts@.len() implies (
                        #[trigger] self.restart_counts@[a].0@) != (
                    #[trigger] self.restart_counts@[b].0@) by {
                        assert(s0[a].0@ == self.restart_counts@[a].0@);
                        assert(s0[b].0@ == self.restart_counts@[b].0@);
                    }
                }
                c + 1
            },
            None => {
                let ghost s0 = self.restart_counts@;
                let e = (String::from_str(plugin_id), 1u32);
                let ghost eg = e;
                self.restart_counts.push(e);
                proof {
                    lemma_assoc_no_match(s0, plugin_id@);
                    lemma_assoc_push(s0, eg, plugin_id@);
                    assert forall|id2: Seq<char>| id2 != plugin_id@ implies #[trigger] self.spec_count(
                        id2,
                    ) == old(self).spec_count(id2) by {
                        lemma_assoc_push(s0, eg, id2);
                    }
                    assert forall|a: int, b: int|
                        0 <= a < b < self.restart_counts@.len() implies (
                        #[trigger] self.restart_counts@[a].0@) != (
                    #[trigger] self.restart_counts@[b].0@) by {
                        if b == s0.len() {
                            assert(self.restart_counts@[b] == eg);
                            assert(self.restart_counts@[a] == s0[a]);
                        } else {
                            assert(self.restart_counts@[a] == s0[a]);
                            assert(self.restart_counts@[b] == s0[b]);
                        }
                    }
                }
                1
            },
        }
    }

    /// The restart counter for `plugin_id`.
    pub fn get_restart_count(&self, plugin_id: &str) -> (r: u32)
        ensures
            r == self.spec_count(plugin_id@),
    {
        match self.find_count(plugin_id) {
            Some(i) => {
                proof {
                    lemma_assoc_first_match(self.restart_counts@, i as int, plugin_id@);
                }
                self.restart_counts[i].1
            },
            None => {
                proof {
                    lemma_assoc_no_match(self.restart_counts@, plugin_id@);
                }
                0
            },
        }
    }

    /// Whether the counter has reached the crash threshold.
    pub fn should_disable_plugin(&self, plugin_id: &str) -> (r: bool)
        ensures
            r == disables_after(self.spec_count(plugin_id@), self.spec_max_restarts()),
    {
        self.get_restart_count(plugin_id) >= self.max_restarts
    }

    /// Reset the restart counter for `plugin_id` to zero; no other
    /// counter moves.
    pub fn reset_restart_count(&mut self, plugin_id: &str)
        requires
            old(self).wf(),
        ensures
            final(self).wf(),
            final(self).spec_count(plugin_id@) == 0,
            forall|id2: Seq<char>|
                id2 != plugin_id@ ==> #[trigger] final(self).spec_count(id2) == old(
                    self,
                ).spec_count(id2),
            final(self).spec_rows() == old(self).spec_rows(),
            forall|id2: Seq<char>| #[trigger]
                final(self).spec_enabled(id2) == old(self).spec_enabled(id2),
            final(self).spec_max_restarts() == old(self).spec_max_restarts(),
    {
        match self.find_count(plugin_id) {
            Some(i) => {
                let ghost s0 = self.restart_counts@;
                let e = (self.restart_counts[i].0.clone(), 0u32);
                let ghost eg = e;
                self.restart_counts[i] = e;
                proof {
                    lemma_assoc_update_hit(s0, i as int, eg);
                    assert forall|id2: Seq<char>| id2 != plugin_id@ implies #[trigger] self.spec_count(
                        id2,
                    ) == old(self).spec_count(id2) by {
                        lemma_assoc_update_other(s0, i as int, eg, id2);
                    }
                    assert forall|a: int, b: int|
                        0 <= a < b < self.restart_counts@.len() implies (
                        #[trigger] self.restart_counts@[a].0@) != (
                    #[trigger] self.restart_counts@[b].0@) by {
                        assert(s0[a].0@ == self.restart_counts@[a].0@);
                        assert(s0[b].0@ == self.restart_counts@[b].0@);
                    }
                }
            },
            None => {
                proof {
                    lemma_assoc_no_match(self.restart_counts@, plugin_id@);
                }
            },
        }
    }

    /// The written enable-map entries as a sequence.
    pub closed spec fn spec_enable_entries(&self) -> Seq<(String, bool)> {
        self.enable_map.spec_entries()
    }

    /// The written enable-map entries, for persisting to disk; ids never
    /// written (and so enabled by default) have no entry.
    pub fn enable_map_entries(&self) -> (r: &Vec<(String, bool)>)
        ensures
            r@ == self.spec_enable_entries(),
    {
        self.enable_map.entries()
    }

    /// The enable flag for `plugin_id`, defaulting to enabled.
    pub fn is_plugin_enabled(&self, plugin_id: &str) -> (r: bool)
        ensures
            r == self.spec_enabled(plugin_id@),
    {
        self.enable_map.is_enabled(plugin_id)
    }

    /// Write the enable flag for `plugin_id`.  The runtime persists the
    /// map after this returns.
    pub fn set_plugin_enabled(&mut self, plugin_id: &str, enabled: bool)
        requires
            old(self).wf(),
        ensures
            final(self).wf(),
            final(self).spec_enabled(plugin_id@) == enabled,
            forall|id2: Seq<char>|
                id2 != plugin_id@ ==> #[trigger] final(self).spec_enabled(id2) == old(
                    self,
                ).spec_enabled(id2),
            final(self).spec_rows() == old(self).spec_rows(),
            forall|id2: Seq<char>| #[trigger]
                final(self).spec_count(id2) == old(self).spec_count(id2),
            final(self).spec_max_restarts() == old(self).spec_max_restarts(),
    {
        self.enable_map.set_enabled(plugin_id, enabled);
    }

    /// Enable a plugin: the enable map records it as enabled, its row (if
    /// any) is marked enabled, and its restart counter is reset.  The
    /// runtime then spawns it if it is not running.
    pub fn enable_plugin(&mut self, plugin_id: &str)
        requires
            old(self).wf(),
        ensures
            final(self).wf(),
            final(self).spec_enabled(plugin_id@),
            final(self).spec_count(plugin_id@) == 0,
            old(self).spec_row(plugin_id@) is None ==> final(self).spec_row(plugin_id@) is None,
            old(self).spec_row(plugin_id@) matches Some(p0) ==> (final(self).spec_row(plugin_id@)
                matches Some(p) && p == (PluginProcess { enabled: true, ..p0 })),
            forall|id2: Seq<char>|
                id2 != plugin_id@ ==> #[trigger] final(self).spec_row(id2) == old(self).spec_row(
                    id2,
                ),
            forall|id2: Seq<char>|
                id2 != plugin_id@ ==> #[trigger] final(self).spec_enabled(id2) == old(
                    self,
                ).spec_enabled(id2),
            forall|id2: Seq<char>|
                id2 != plugin_id@ ==> #[trigger] final(self).spec_count(id2) == old(
                    self,
                ).spec_count(id2),
            final(self).spec_max_restarts() == old(self).spec_max_restarts(),
    {
        self.enable_map.set_enabled(plugin_id, true);
        self.reset_restart_count(plugin_id);
        proof {
            assert(self.spec_enabled(plugin_id@));
            assert(self.spec_count(plugin_id@) == 0);
            assert forall|id2: Seq<char>| id2 != plugin_id@ implies #[trigger] self.spec_enabled(
                id2,
            ) == old(self).spec_enabled(id2) by {}
            assert forall|id2: Seq<char>| id2 != plugin_id@ implies #[trigger] self.spec_count(
                id2,
            ) == old(self).spec_count(id2) by {}
            assert(self.spec_rows() == old(self).spec_rows());
        }
        let ghost mid = *self;
        match self.find_row(plugin_id) {
            Some(i) => {
                let ghost s0 = self.plugins@;
                proof {
                    lemma_row_first_match(s0, i as int, plugin_id@);
                }
                let old_row = &self.plugins[i];
                let row = PluginProcess {
                    id: old_row.id.clone(),
                    running: old_row.running,
                    pid: old_row.pid,
                    socket_path: old_row.socket_path.clone(),
                    enabled: true,
                    metadata: match &old_row.metadata {
                        Some(m) => Some(m.duplicate()),
                        None => None,
                    },
                };
                let ghost rowg = row;
                self.plugins[i] = row;
                proof {
                    lemma_row_update_hit(s0, i as int, rowg);
                    assert forall|id2: Seq<char>| id2 != plugin_id@ implies #[trigger] self.spec_row(
                        id2,
                    ) == row_get(s0, id2) by {
                        lemma_row_update_other(s0, i as int, rowg, id2);
                    }
                    assert forall|a: int, b: int|
                        0 <= a < b < self.plugins@.len() implies (
                        #[trigger] self.plugins@[a].id@) != (#[trigger] self.plugins@[b].id@) by {
                        assert(s0[a].id@ == self.plugins@[a].id@);
                        assert(s0[b].id@ == self.plugins@[b].id@);
                    }
                    assert(self.enable_map == mid.enable_map);
                    assert(self.restart_counts@ == mid.restart_counts@);
                    assert(self.spec_enabled(plugin_id@));
                    assert(self.spec_count(plugin_id@) == 0);
                    assert forall|id2: Seq<char>| id2 != plugin_id@ implies #[trigger] self.spec_enabled(
                        id2,
                    ) == old(self).spec_enabled(id2) by {
                        assert(mid.spec_enabled(id2) == old(self).spec_enabled(id2));
                    }
                    assert forall|id2: Seq<char>| id2 != plugin_id@ implies #[trigger] self.spec_count(
                        id2,
                    ) == old(self).spec_count(id2) by {
                        assert(mid.spec_count(id2) == old(self).spec_count(id2));
                    }
                }
            },
            None => {
                proof {
                    lemma_row_no_match(self.plugins@, plugin_id@);
                }
            },
        }
    }

    /// Disable a plugin: the enable map records it as disabled and its
    /// row (if any) loses its child handle, as after a kill.  The row and
    /// its metadata are retained, as is the restart counter.
    pub fn disable_plugin(&mut self, plugin_id: &str)
        requires
            old(self).wf(),
        ensures
            final(self).wf(),
            !final(self).spec_enabled(plugin_id@),
            old(self).spec_row(plugin_id@) is None ==> final(self).spec_row(plugin_id@) is None,
            old(self).spec_row(plugin_id@) matches Some(p0) ==> (final(self).spec_row(plugin_id@)
                matches Some(p) && p == (PluginProcess {
                running: false,
                pid: None,
                enabled: false,
                ..p0
            })),
            forall|id2: Seq<char>|
                id2 != plugin_id@ ==> #[trigger] final(self).spec_row(id2) == old(self).spec_row(
                    id2,
                ),
            forall|id2: Seq<char>|
                id2 != plugin_id@ ==> #[trigger] final(self).spec_enabled(id2) == old(
                    self,
                ).spec_enabled(id2),
            forall|id2: Seq<char>| #[trigger]
                final(self).spec_count(id2) == old(self).spec_count(id2),
            final(self).spec_max_restarts() == old(self).spec_max_restarts(),
    {
        self.enable_map.set_enabled(plugin_id, false);
        let _ = self.kill_plugin(plugin_id);
    }

    /// Decide what to do about a crash of `plugin_id`: bump its counter;
    /// at the threshold the plugin is disabled for good, otherwise the
    /// caller is told to wait the exponential-backoff delay for this
    /// attempt and then respawn.
    pub fn restart_plugin_with_backoff(&mut self, plugin_id: &str) -> (r: RestartDecision)
        requires
            old(self).wf(),
            old(self).spec_count(plugin_id@) < u32::MAX,
        ensures
            final(self).wf(),
            final(self).spec_count(plugin_id@) == old(self).spec_count(plugin_id@) + 1,
            forall|id2: Seq<char>|
                id2 != plugin_id@ ==> #[trigger] final(self).spec_count(id2) == old(
                    self,
                ).spec_count(id2),
            disables_after(
                (old(self).spec_count(plugin_id@) + 1) as u32,
                old(self).spec_max_restarts(),
            ) ==> r == RestartDecision::Disable && !final(self).spec_enabled(plugin_id@) && (old(
                self,
            ).spec_row(plugin_id@) is None ==> final(self).spec_row(plugin_id@) is None) && (old(
                self,
            ).spec_row(plugin_id@) matches Some(p0) ==> (final(self).spec_row(plugin_id@)
                matches Some(p) && p == (PluginProcess {
                running: false,
                pid: None,
                enabled: false,
                ..p0
            }))) && (forall|id2: Seq<char>|
                id2 != plugin_id@ ==> #[trigger] final(self).spec_row(id2) == old(self).spec_row(
                    id2,
                )),
            !disables_after(
                (old(self).spec_count(plugin_id@) + 1) as u32,
                old(self).spec_max_restarts(),
            ) ==> r == (RestartDecision::Backoff {
                delay_ms: backoff_delay_ms((old(self).spec_count(plugin_id@) + 1) as u32),
            }) && final(self).spec_rows() == old(self).spec_rows() && (forall|id2: Seq<char>|
                #[trigger] final(self).spec_enabled(id2) == old(self).spec_enabled(id2)),
            final(self).spec_max_restarts() == old(self).spec_max_restarts(),
    {
        let count = self.increment_restart_count(plugin_id);
        if count >= self.max_restarts {
            proof {
                assert(self.spec_rows() == old(self).spec_rows());
            }
            let ghost mid = *self;
            self.disable_plugin(plugin_id);
            proof {
                assert(mid.spec_row(plugin_id@) == old(self).spec_row(plugin_id@));
                assert forall|id2: Seq<char>| id2 != plugin_id@ implies #[trigger] self.spec_row(
                    id2,
                ) == old(self).spec_row(id2) by {
                    assert(mid.spec_row(id2) == old(self).spec_row(id2));
                }
            }
            RestartDecision::Disable
        } else {
            let delay_ms: u64 = if count <= 1 {
                1000
            } else if count == 2 {
                2000
            } else if count == 3 {
                4000
            } else if count == 4 {
                8000
            } else {
                16000
            };
            RestartDecision::Backoff { delay_ms }
        }
    }

    /// The plugin owning `route`, if that plugin is enabled in the
    /// registry: a disabled plugin's route never resolves.
    pub fn get_plugin_for_route(&self, route: &str) -> (r: Option<String>)
        ensures
            (r matches Some(id) ==> exists|i: int|
                0 <= i < self.spec_rows().len() && (#[trigger] self.spec_rows()[i]).enabled
                    && self.spec_rows()[i].id@ == id@ && (self.spec_rows()[i].metadata matches Some(
                    m,
                ) && m.route@ == route@)),
            (r is None ==> forall|i: int|
                0 <= i < self.spec_rows().len() ==> !((#[trigger] self.spec_rows()[i]).enabled && (
                self.spec_rows()[i].metadata matches Some(m) && m.route@ == route@))),
    {
        let key = String::from_str(route);
        let mut i: usize = 0;
        while i < self.plugins.len()
            invariant
                i <= self.plugins@.len(),
                key@ == route@,
                forall|j: int|
                    0 <= j < i ==> !((#[trigger] self.plugins@[j]).enabled && (
                    self.plugins@[j].metadata matches Some(m) && m.route@ == route@)),
            decreases self.plugins@.len() - i,
        {
            if self.plugins[i].enabled {
                match &self.plugins[i].metadata {
                    Some(m) => {
                        if m.route == key {
                            return Some(self.plugins[i].id.clone());
                        }
                    },
                    None => {},
                }
            }
            i = i + 1;
        }
        None
    }

    /// Admission rule of the discovery scan for a candidate metadata
    /// record: it must validate, and neither its id nor its route may be
    /// owned by an already-known plugin.  Rejections skip the candidate
    /// and never stop the scan.
    pub fn discovery_admit(&self, m: &PluginMetadata) -> (r: Result<(), DiscoveryError>)
        ensures
            !valid_metadata(*m) ==> r == Err::<(), DiscoveryError>(DiscoveryError::InvalidMetadata),
            valid_metadata(*m) && (exists|i: int|
                0 <= i < self.spec_rows().len() && (#[trigger] self.spec_rows()[i].id@)
                    == m.id@) ==> r == Err::<(), DiscoveryError>(DiscoveryError::DuplicateId),
            valid_metadata(*m) && (forall|i: int|
                0 <= i < self.spec_rows().len() ==> (#[trigger] self.spec_rows()[i].id@) != m.id@)
                && (exists|i: int|
                0 <= i < self.spec_rows().len() && ((#[trigger] self.spec_rows()[i]).metadata
                    matches Some(m2) && m2.route@ == m.route@)) ==> r == Err::<(), DiscoveryError>(
                DiscoveryError::DuplicateRoute,
            ),
            valid_metadata(*m) && (forall|i: int|
                0 <= i < self.spec_rows().len() ==> (#[trigger] self.spec_rows()[i].id@) != m.id@)
                && (forall|i: int|
                0 <= i < self.spec_rows().len() ==> !((#[trigger] self.spec_rows()[i]).metadata
                    matches Some(m2) && m2.route@ == m.route@)) ==> r is Ok,
    {
        if !crate::registry::validate_metadata(m) {
            return Err(DiscoveryError::InvalidMetadata);
        }
        match self.find_row(m.id.as_str()) {
            Some(_) => {
                return Err(DiscoveryError::DuplicateId);
            },
            None => {},
        }
        let mut i: usize = 0;
        while i < self.plugins.len()
            invariant
                i <= self.plugins@.len(),
                valid_metadata(*m),
                forall|j: int|
                    0 <= j < self.plugins@.len() ==> (#[trigger] self.plugins@[j].id@) != m.id@,
                forall|j: int|
                    0 <= j < i ==> !((#[trigger] self.plugins@[j]).metadata matches Some(m2)
                        && m2.route@ == m.route@),
            decreases self.plugins@.len() - i,
        {
            match &self.plugins[i].metadata {
                Some(m2) => {
                    if m2.route == m.route {
                        proof {
                            assert((self.spec_rows()[i as int]).metadata matches Some(mm)
                                && mm.route@ == m.route@);
                        }
                        return Err(DiscoveryError::DuplicateRoute);
                    }
                },
                None => {},
            }
            i = i + 1;
        }
        Ok(())
    }
}

} // verus!
