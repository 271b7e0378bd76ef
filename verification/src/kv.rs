//! Per-plugin key/value store.  A durable mapping `(plugin_id, key) -> value`
//! in which every operation is qualified by a plugin id, so each plugin sees
//! only its own namespace: a mutation under one plugin id never changes what
//! any other plugin id observes.

use vstd::prelude::*;

use crate::textorder::{str_lt, str_before, lemma_str_lt_trans, lemma_str_lt_irrefl};

verus! {

/// One row of the store.
#[derive(Debug, Clone)]
pub struct PluginKvEntry {
    pub plugin_id: String,
    pub key: String,
    pub value: String,
}

/// First value bound to `(p, k)` in a row sequence, scanning from the front.
pub open spec fn seq_get(s: Seq<PluginKvEntry>, p: Seq<char>, k: Seq<char>) -> Option<Seq<char>>
    decreases s.len(),
{
    if s.len() == 0 {
        None
    } else if s[0].plugin_id@ == p && s[0].key@ == k {
        Some(s[0].value@)
    } else {
        seq_get(s.drop_first(), p, k)
    }
}

/// The rows of namespace `p`, in store order.
pub open spec fn namespace_of(s: Seq<PluginKvEntry>, p: Seq<char>) -> Seq<PluginKvEntry>
    decreases s.len(),
{
    if s.len() == 0 {
        Seq::empty()
    } else if s[0].plugin_id@ == p {
        seq![s[0]] + namespace_of(s.drop_first(), p)
    } else {
        namespace_of(s.drop_first(), p)
    }
}

/// The rows of `s` whose key is not `k`.
pub open spec fn drop_key(s: Seq<PluginKvEntry>, k: Seq<char>) -> Seq<PluginKvEntry>
    decreases s.len(),
{
    if s.len() == 0 {
        Seq::empty()
    } else if s[0].key@ == k {
        drop_key(s.drop_first(), k)
    } else {
        seq![s[0]] + drop_key(s.drop_first(), k)
    }
}

proof fn lemma_drop_key_absent(s: Seq<PluginKvEntry>, p: Seq<char>, k: Seq<char>)
    requires
        forall|j: int| 0 <= j < s.len() ==> !(#[trigger] s[j].plugin_id@ == p && s[j].key@ == k),
    ensures
        drop_key(namespace_of(s, p), k) == namespace_of(s, p),
    decreases s.len(),
{
    if s.len() > 0 {
        assert(forall|j: int|
            0 <= j < s.len() - 1 ==> #[trigger] s.drop_first()[j] == s[j + 1]);
        lemma_drop_key_absent(s.drop_first(), p, k);
        if s[0].plugin_id@ == p {
            assert(s[0].key@ != k);
            let rest = namespace_of(s.drop_first(), p);
            assert(namespace_of(s, p) == seq![s[0]] + rest);
            assert((seq![s[0]] + rest)[0] == s[0]);
            assert((seq![s[0]] + rest).drop_first() =~= rest);
            assert(drop_key(seq![s[0]] + rest, k) == seq![s[0]] + drop_key(rest, k));
        }
    }
}

proof fn lemma_namespace_remove_match(s: Seq<PluginKvEntry>, i: int, p: Seq<char>, k: Seq<char>)
    requires
        0 <= i < s.len(),
        s[i].plugin_id@ == p && s[i].key@ == k,
        forall|j: int|
            0 <= j < s.len() && j != i ==> !(#[trigger] s[j].plugin_id@ == p && s[j].key@ == k),
    ensures
        namespace_of(s.remove(i), p) == drop_key(namespace_of(s, p), k),
    decreases i,
{
    let t = s.remove(i);
    if i == 0 {
        assert(t =~= s.drop_first());
        assert(forall|j: int|
            0 <= j < s.len() - 1 ==> #[trigger] s.drop_first()[j] == s[j + 1]);
        let rest = namespace_of(s.drop_first(), p);
        assert(namespace_of(s, p) == seq![s[0]] + rest);
        assert((seq![s[0]] + rest)[0] == s[0]);
        assert((seq![s[0]] + rest).drop_first() =~= rest);
        assert(drop_key(seq![s[0]] + rest, k) == drop_key(rest, k));
        lemma_drop_key_absent(s.drop_first(), p, k);
    } else {
        assert(t[0] == s[0]);
        assert(t.drop_first() =~= s.drop_first().remove(i - 1));
        assert(forall|j: int|
            0 <= j < s.len() - 1 ==> #[trigger] s.drop_first()[j] == s[j + 1]);
        lemma_namespace_remove_match(s.drop_first(), i - 1, p, k);
        if s[0].plugin_id@ == p {
            assert(s[0].key@ != k);
            let rest = namespace_of(s.drop_first(), p);
            assert(namespace_of(s, p) == seq![s[0]] + rest);
            assert((seq![s[0]] + rest)[0] == s[0]);
            assert((seq![s[0]] + rest).drop_first() =~= rest);
            assert(drop_key(seq![s[0]] + rest, k) == seq![s[0]] + drop_key(rest, k));
            assert(namespace_of(t, p) == seq![s[0]] + namespace_of(t.drop_first(), p));
        } else {
            assert(namespace_of(t, p) == namespace_of(t.drop_first(), p));
            assert(namespace_of(s, p) == namespace_of(s.drop_first(), p));
        }
    }
}

proof fn lemma_seq_get_first_match(s: Seq<PluginKvEntry>, i: int, p: Seq<char>, k: Seq<char>)
    requires
        0 <= i < s.len(),
        s[i].plugin_id@ == p && s[i].key@ == k,
        forall|j: int| 0 <= j < i ==> !(#[trigger] s[j].plugin_id@ == p && s[j].key@ == k),
    ensures
        seq_get(s, p, k) == Some(s[i].value@),
    decreases i,
{
    if i == 0 {
    } else {
        assert(!(s[0].plugin_id@ == p && s[0].key@ == k));
        assert(forall|j: int|
            0 <= j < i - 1 ==> #[trigger] s.drop_first()[j] == s[j + 1]);
        lemma_seq_get_first_match(s.drop_first(), i - 1, p, k);
    }
}

proof fn lemma_seq_get_no_match(s: Seq<PluginKvEntry>, p: Seq<char>, k: Seq<char>)
    requires
        forall|j: int| 0 <= j < s.len() ==> !(#[trigger] s[j].plugin_id@ == p && s[j].key@ == k),
    ensures
        seq_get(s, p, k) == None::<Seq<char>>,
    decreases s.len(),
{
    if s.len() > 0 {
        assert(forall|j: int|
            0 <= j < s.len() - 1 ==> #[trigger] s.drop_first()[j] == s[j + 1]);
        lemma_seq_get_no_match(s.drop_first(), p, k);
    }
}

proof fn lemma_seq_get_update(
    s: Seq<PluginKvEntry>,
    i: int,
    e: PluginKvEntry,
    p2: Seq<char>,
    k2: Seq<char>,
)
    requires
        0 <= i < s.len(),
        s[i].plugin_id@ == e.plugin_id@,
        s[i].key@ == e.key@,
        !(p2 == e.plugin_id@ && k2 == e.key@),
    ensures
        seq_get(s.update(i, e), p2, k2) == seq_get(s, p2, k2),
    decreases i,
{
    let t = s.update(i, e);
    if i == 0 {
        assert(t[0] == e);
        assert(t.drop_first() =~= s.drop_first());
    } else {
        assert(t[0] == s[0]);
        if s[0].plugin_id@ == p2 && s[0].key@ == k2 {
        } else {
            assert(t.drop_first() =~= s.drop_first().update(i - 1, e));
            lemma_seq_get_update(s.drop_first(), i - 1, e, p2, k2);
        }
    }
}

proof fn lemma_seq_get_update_hit(s: Seq<PluginKvEntry>, i: int, e: PluginKvEntry)
    requires
        0 <= i < s.len(),
        s[i].plugin_id@ == e.plugin_id@,
        s[i].key@ == e.key@,
        forall|j: int|
            0 <= j < i ==> !(#[trigger] s[j].plugin_id@ == e.plugin_id@ && s[j].key@ == e.key@),
    ensures
        seq_get(s.update(i, e), e.plugin_id@, e.key@) == Some(e.value@),
{
    let t = s.update(i, e);
    assert(t[i] == e);
    assert(forall|j: int| 0 <= j < i ==> #[trigger] t[j] == s[j]);
    lemma_seq_get_first_match(t, i, e.plugin_id@, e.key@);
}

proof fn lemma_seq_get_push(s: Seq<PluginKvEntry>, e: PluginKvEntry, p2: Seq<char>, k2: Seq<char>)
    ensures
        seq_get(s.push(e), p2, k2) == (match seq_get(s, p2, k2) {
            Some(v) => Some(v),
            None => if e.plugin_id@ == p2 && e.key@ == k2 {
                Some(e.value@)
            } else {
                None
            },
        }),
    decreases s.len(),
{
    if s.len() == 0 {
        assert(s.push(e)[0] == e);
        assert(s.push(e).drop_first() =~= Seq::<PluginKvEntry>::empty());
    } else {
        assert(s.push(e)[0] == s[0]);
        assert(s.push(e).drop_first() =~= s.drop_first().push(e));
        lemma_seq_get_push(s.drop_first(), e, p2, k2);
    }
}

proof fn lemma_seq_get_remove(
    s: Seq<PluginKvEntry>,
    i: int,
    p2: Seq<char>,
    k2: Seq<char>,
)
    requires
        0 <= i < s.len(),
        !(s[i].plugin_id@ == p2 && s[i].key@ == k2),
    ensures
        seq_get(s.remove(i), p2, k2) == seq_get(s, p2, k2),
    decreases i,
{
    let t = s.remove(i);
    if i == 0 {
        assert(t =~= s.drop_first());
    } else {
        assert(t[0] == s[0]);
        if s[0].plugin_id@ == p2 && s[0].key@ == k2 {
        } else {
            assert(t.drop_first() =~= s.drop_first().remove(i - 1));
            lemma_seq_get_remove(s.drop_first(), i - 1, p2, k2);
        }
    }
}

proof fn lemma_namespace_update_same_plugin(
    s: Seq<PluginKvEntry>,
    i: int,
    e: PluginKvEntry,
    p2: Seq<char>,
)
    requires
        0 <= i < s.len(),
        s[i].plugin_id@ == e.plugin_id@,
        p2 != e.plugin_id@,
    ensures
        namespace_of(s.update(i, e), p2) == namespace_of(s, p2),
    decreases i,
{
    let t = s.update(i, e);
    if i == 0 {
        assert(t[0] == e);
        assert(t.drop_first() =~= s.drop_first());
    } else {
        assert(t[0] == s[0]);
        assert(t.drop_first() =~= s.drop_first().update(i - 1, e));
        lemma_namespace_update_same_plugin(s.drop_first(), i - 1, e, p2);
    }
}

proof fn lemma_namespace_push(s: Seq<PluginKvEntry>, e: PluginKvEntry, p2: Seq<char>)
    ensures
        namespace_of(s.push(e), p2) == if e.plugin_id@ == p2 {
            namespace_of(s, p2).push(e)
        } else {
            namespace_of(s, p2)
        },
    decreases s.len(),
{
    if s.len() == 0 {
        assert(s.push(e)[0] == e);
        assert(s.push(e).drop_first() =~= Seq::<PluginKvEntry>::empty());
        assert(namespace_of(Seq::<PluginKvEntry>::empty(), p2) == Seq::<PluginKvEntry>::empty());
        if e.plugin_id@ == p2 {
            assert(namespace_of(s.push(e), p2) == seq![e] + Seq::<PluginKvEntry>::empty());
            assert(seq![e] + Seq::<PluginKvEntry>::empty() =~= namespace_of(s, p2).push(e));
        } else {
            assert(namespace_of(s.push(e), p2) == Seq::<PluginKvEntry>::empty());
        }
    } else {
        assert(s.push(e)[0] == s[0]);
        assert(s.push(e).drop_first() =~= s.drop_first().push(e));
        lemma_namespace_push(s.drop_first(), e, p2);
        if s[0].plugin_id@ == p2 {
            assert(namespace_of(s.push(e), p2) == seq![s[0]] + namespace_of(
                s.drop_first().push(e),
                p2,
            ));
            assert(namespace_of(s, p2) == seq![s[0]] + namespace_of(s.drop_first(), p2));
            if e.plugin_id@ == p2 {
                assert(seq![s[0]] + namespace_of(s.drop_first(), p2).push(e) =~= (seq![s[0]]
                    + namespace_of(s.drop_first(), p2)).push(e));
            }
        } else {
            assert(namespace_of(s.push(e), p2) == namespace_of(s.drop_first().push(e), p2));
            assert(namespace_of(s, p2) == namespace_of(s.drop_first(), p2));
        }
    }
}

proof fn lemma_namespace_remove_same_plugin(
    s: Seq<PluginKvEntry>,
    i: int,
    p2: Seq<char>,
)
    requires
        0 <= i < s.len(),
        s[i].plugin_id@ != p2,
    ensures
        namespace_of(s.remove(i), p2) == namespace_of(s, p2),
    decreases i,
{
    let t = s.remove(i);
    if i == 0 {
        assert(t =~= s.drop_first());
    } else {
        assert(t[0] == s[0]);
        assert(t.drop_first() =~= s.drop_first().remove(i - 1));
        lemma_namespace_remove_same_plugin(s.drop_first(), i - 1, p2);
        if s[0].plugin_id@ == p2 {
            assert(seq![s[0]] + namespace_of(t.drop_first(), p2) =~= seq![s[0]] + namespace_of(
                s.drop_first().remove(i - 1),
                p2,
            ));
        }
    }
}

/// Rows in non-descending key order: no later row's key is strictly
/// below an earlier row's key under [`str_lt`].
pub open spec fn key_sorted(s: Seq<PluginKvEntry>) -> bool {
    forall|a: int, b: int|
        0 <= a < b < s.len() ==> !str_lt((#[trigger] s[b]).key@, (#[trigger] s[a]).key@)
}

/// The in-memory image of the plugin key/value table.  The embedding
/// runtime persists it row for row; all reads and mutations go through
/// these operations, each qualified by a plugin id.
#[derive(Debug)]
pub struct KvStore {
    entries: Vec<PluginKvEntry>,
}

impl KvStore {
    /// What `(p, k)` is bound to.
    pub closed spec fn spec_get(&self, p: Seq<char>, k: Seq<char>) -> Option<Seq<char>> {
        seq_get(self.entries@, p, k)
    }

    /// The rows of namespace `p`, in store order.
    pub closed spec fn spec_namespace(&self, p: Seq<char>) -> Seq<PluginKvEntry> {
        namespace_of(self.entries@, p)
    }

    /// Each `(plugin_id, key)` pair owns at most one row.
    pub closed spec fn wf(&self) -> bool {
        forall|a: int, b: int|
            0 <= a < b < self.entries@.len() ==> !(#[trigger] self.entries@[a].plugin_id@
                == #[trigger] self.entries@[b].plugin_id@ && self.entries@[a].key@
                == self.entries@[b].key@)
    }

    /// Create an empty store.
    pub fn new() -> (r: KvStore)
        ensures
            forall|p: Seq<char>, k: Seq<char>| #[trigger] r.spec_get(p, k) is None,
            forall|p: Seq<char>| #[trigger] r.spec_namespace(p) == Seq::<PluginKvEntry>::empty(),
            r.wf(),
    {
        let r = KvStore { entries: Vec::new() };
        proof {
            assert forall|p: Seq<char>, k: Seq<char>| #[trigger] r.spec_get(p, k) is None by {
                assert(r.entries@.len() == 0);
            }
            assert forall|p: Seq<char>| #[trigger] r.spec_namespace(p)
                == Seq::<PluginKvEntry>::empty() by {
                assert(r.entries@.len() == 0);
            }
        }
        r
    }

    fn find(&self, plugin_id: &str, key: &str) -> (r: Option<usize>)
        ensures
            match r {
                Some(i) => {
                    &&& i < self.entries@.len()
                    &&& self.entries@[i as int].plugin_id@ == plugin_id@
                    &&& self.entries@[i as int].key@ == key@
                    &&& forall|j: int|
                        0 <= j < i ==> !(#[trigger] self.entries@[j].plugin_id@ == plugin_id@
                            && self.entries@[j].key@ == key@)
                },
                None => forall|j: int|
                    0 <= j < self.entries@.len() ==> !(#[trigger] self.entries@[j].plugin_id@
                        == plugin_id@ && self.entries@[j].key@ == key@),
            },
    {
        let pid = String::from_str(plugin_id);
        let k = String::from_str(key);
        let mut i: usize = 0;
        while i < self.entries.len()
            invariant
                i <= self.entries@.len(),
                pid@ == plugin_id@,
                k@ == key@,
                forall|j: int|
                    0 <= j < i ==> !(#[trigger] self.entries@[j].plugin_id@ == plugin_id@
                        && self.entries@[j].key@ == key@),
            decreases self.entries@.len() - i,
        {
            if self.entries[i].plugin_id == pid && self.entries[i].key == k {
                return Some(i);
            }
            i = i + 1;
        }
        None
    }

    /// Value bound to `key` in the namespace of `plugin_id`, if any.
    pub fn plugin_kv_get(&self, plugin_id: &str, key: &str) -> (r: Option<String>)
        ensures
            match self.spec_get(plugin_id@, key@) {
                None => r is None,
                Some(v) => (r matches Some(s) && s@ == v),
            },
    {
        match self.find(plugin_id, key) {
            Some(i) => {
                proof {
                    lemma_seq_get_first_match(self.entries@, i as int, plugin_id@, key@);
                }
                Some(self.entries[i].value.clone())
            },
            None => {
                proof {
                    lemma_seq_get_no_match(self.entries@, plugin_id@, key@);
                }
                None
            },
        }
    }

    /// Bind `key` to `value` in the namespace of `plugin_id` (upsert).
    /// Every other `(plugin, key)` pair, and every other plugin's namespace
    /// listing, is left exactly as it was.
    pub fn plugin_kv_set(&mut self, plugin_id: &str, key: &str, value: &str)
        requires
            old(self).wf(),
        ensures
            final(self).wf(),
            final(self).spec_get(plugin_id@, key@) == Some(value@),
            forall|p2: Seq<char>, k2: Seq<char>|
                !(p2 == plugin_id@ && k2 == key@) ==> #[trigger] final(self).spec_get(p2, k2)
                    == old(self).spec_get(p2, k2),
            forall|p2: Seq<char>|
                p2 != plugin_id@ ==> #[trigger] final(self).spec_namespace(p2) == old(
                    self,
                ).spec_namespace(p2),
    {
        let e = PluginKvEntry {
            plugin_id: String::from_str(plugin_id),
            key: String::from_str(key),
            value: String::from_str(value),
        };
        match self.find(plugin_id, key) {
            Some(i) => {
                let ghost s0 = self.entries@;
                self.entries[i] = e;
                proof {
                    lemma_seq_get_update_hit(s0, i as int, e);
                    assert forall|a: int, b: int|
                        0 <= a < b < self.entries@.len() implies !(#[trigger] self.entries@[a].plugin_id@
                        == #[trigger] self.entries@[b].plugin_id@
                        && self.entries@[a].key@ == self.entries@[b].key@) by {
                        assert(s0[a].plugin_id@ == self.entries@[a].plugin_id@);
                        assert(s0[a].key@ == self.entries@[a].key@);
                        assert(s0[b].plugin_id@ == self.entries@[b].plugin_id@);
                        assert(s0[b].key@ == self.entries@[b].key@);
                    }
                    assert forall|p2: Seq<char>, k2: Seq<char>|
                        !(p2 == plugin_id@ && k2 == key@) implies #[trigger] self.spec_get(p2, k2)
                        == old(self).spec_get(p2, k2) by {
                        lemma_seq_get_update(s0, i as int, e, p2, k2);
                    }
                    assert forall|p2: Seq<char>|
                        p2 != plugin_id@ implies #[trigger] self.spec_namespace(p2) == old(
                            self,
                        ).spec_namespace(p2) by {
                        lemma_namespace_update_same_plugin(s0, i as int, e, p2);
                    }
                }
            },
            None => {
                let ghost s0 = self.entries@;
                self.entries.push(e);
                proof {
                    lemma_seq_get_no_match(s0, plugin_id@, key@);
                    lemma_seq_get_push(s0, e, plugin_id@, key@);
                    assert forall|a: int, b: int|
                        0 <= a < b < self.entries@.len() implies !(#[trigger] self.entries@[a].plugin_id@
                        == #[trigger] self.entries@[b].plugin_id@
                        && self.entries@[a].key@ == self.entries@[b].key@) by {
                        if b == s0.len() {
                            assert(self.entries@[b] == e);
                            assert(self.entries@[a] == s0[a]);
                        } else {
                            assert(self.entries@[a] == s0[a]);
                            assert(self.entries@[b] == s0[b]);
                        }
                    }
                    assert forall|p2: Seq<char>, k2: Seq<char>|
                        !(p2 == plugin_id@ && k2 == key@) implies #[trigger] self.spec_get(p2, k2)
                        == old(self).spec_get(p2, k2) by {
                        lemma_seq_get_push(s0, e, p2, k2);
                    }
                    assert forall|p2: Seq<char>|
                        p2 != plugin_id@ implies #[trigger] self.spec_namespace(p2) == old(
                            self,
                        ).spec_namespace(p2) by {
                        lemma_namespace_push(s0, e, p2);
                    }
                }
            },
        }
    }

    /// Remove the binding of `key` in the namespace of `plugin_id`, if any.
    /// Every other `(plugin, key)` pair, and every other plugin's namespace
    /// listing, is left exactly as it was.
    pub fn plugin_kv_delete(&mut self, plugin_id: &str, key: &str)
        requires
            old(self).wf(),
        ensures
            final(self).wf(),
            final(self).spec_get(plugin_id@, key@) is None,
            final(self).spec_namespace(plugin_id@) == drop_key(
                old(self).spec_namespace(plugin_id@),
                key@,
            ),
            forall|p2: Seq<char>, k2: Seq<char>|
                !(p2 == plugin_id@ && k2 == key@) ==> #[trigger] final(self).spec_get(p2, k2)
                    == old(self).spec_get(p2, k2),
            forall|p2: Seq<char>|
                p2 != plugin_id@ ==> #[trigger] final(self).spec_namespace(p2) == old(
                    self,
                ).spec_namespace(p2),
    {
        match self.find(plugin_id, key) {
            Some(i) => {
                let ghost s0 = self.entries@;
                self.entries.remove(i);
                proof {
                    lemma_delete_gone(s0, i as int, plugin_id@, key@);
                    lemma_namespace_remove_match(s0, i as int, plugin_id@, key@);
                    let tail = s0.skip(i + 1);
                    assert forall|j: int|
                        0 <= j < tail.len() implies !(#[trigger] tail[j].plugin_id@ == plugin_id@
                        && tail[j].key@ == key@) by {
                        assert(tail[j] == s0[i + 1 + j]);
                    }
                    lemma_seq_get_no_match(tail, plugin_id@, key@);
                    assert forall|a: int, b: int|
                        0 <= a < b < self.entries@.len() implies !(#[trigger] self.entries@[a].plugin_id@
                        == #[trigger] self.entries@[b].plugin_id@
                        && self.entries@[a].key@ == self.entries@[b].key@) by {
                        let sa: int = if a < i as int { a } else { a + 1 };
                        let sb: int = if b < i as int { b } else { b + 1 };
                        assert(self.entries@[a] == s0[sa]);
                        assert(self.entries@[b] == s0[sb]);
                    }
                    assert forall|p2: Seq<char>, k2: Seq<char>|
                        !(p2 == plugin_id@ && k2 == key@) implies #[trigger] self.spec_get(p2, k2)
                        == old(self).spec_get(p2, k2) by {
                        if s0[i as int].plugin_id@ == p2 && s0[i as int].key@ == k2 {
                        } else {
                            lemma_seq_get_remove(s0, i as int, p2, k2);
                        }
                    }
                    assert forall|p2: Seq<char>|
                        p2 != plugin_id@ implies #[trigger] self.spec_namespace(p2) == old(
                            self,
                        ).spec_namespace(p2) by {
                        lemma_namespace_remove_same_plugin(s0, i as int, p2);
                    }
                }
            },
            None => {
                proof {
                    lemma_seq_get_no_match(self.entries@, plugin_id@, key@);
                    lemma_drop_key_absent(self.entries@, plugin_id@, key@);
                }
            },
        }
    }

    /// All rows of the namespace of `plugin_id`, sorted by key ascending
    /// in code-point order.
    pub fn plugin_kv_get_all(&self, plugin_id: &str) -> (r: Vec<PluginKvEntry>)
        ensures
            r@.to_multiset() == self.spec_namespace(plugin_id@).to_multiset(),
            key_sorted(r@),
    {
        broadcast use vstd::seq_lib::group_to_multiset_ensures;
        broadcast use vstd::multiset::group_multiset_axioms;

        let pid = String::from_str(plugin_id);
        let mut rows: Vec<PluginKvEntry> = Vec::new();
        proof {
            assert(self.entries@.take(0) =~= Seq::<PluginKvEntry>::empty());
        }
        let mut i: usize = 0;
        while i < self.entries.len()
            invariant
                i <= self.entries@.len(),
                pid@ == plugin_id@,
                rows@ == namespace_of(self.entries@.take(i as int), plugin_id@),
            decreases self.entries@.len() - i,
        {
            let e = &self.entries[i];
            if e.plugin_id == pid {
                rows.push(
                    PluginKvEntry {
                        plugin_id: e.plugin_id.clone(),
                        key: e.key.clone(),
                        value: e.value.clone(),
                    },
                );
            }
            proof {
                assert(self.entries@.take(i + 1) =~= self.entries@.take(i as int).push(
                    self.entries@[i as int],
                ));
                lemma_namespace_snoc(self.entries@.take(i as int), self.entries@[i as int],
                    plugin_id@);
            }
            i = i + 1;
        }
        proof {
            assert(self.entries@.take(self.entries@.len() as int) =~= self.entries@);
        }
        let ghost ns = rows@;
        let mut out: Vec<PluginKvEntry> = Vec::new();
        proof {
            assert(out@.to_multiset().add(rows@.to_multiset()) =~= ns.to_multiset());
        }
        while rows.len() > 0
            invariant
                out@.to_multiset().add(rows@.to_multiset()) == ns.to_multiset(),
                key_sorted(out@),
                forall|x: int, j: int|
                    0 <= x < out@.len() && 0 <= j < rows@.len() ==> !str_lt(
                        (#[trigger] rows@[j]).key@,
                        (#[trigger] out@[x]).key@,
                    ),
            decreases rows@.len(),
        {
            let mut m: usize = 0;
            let mut k: usize = 1;
            proof {
                lemma_str_lt_irrefl(rows@[0].key@);
            }
            while k < rows.len()
                invariant
                    m < rows@.len(),
                    k <= rows@.len(),
                    rows@.len() > 0,
                    forall|j: int|
                        0 <= j < k ==> !str_lt((#[trigger] rows@[j]).key@, rows@[m as int].key@),
                decreases rows@.len() - k,
            {
                if str_before(rows[k].key.as_str(), rows[m].key.as_str()) {
                    proof {
                        lemma_str_lt_irrefl(rows@[k as int].key@);
                        assert forall|j: int| 0 <= j < k + 1 implies !str_lt(
                            (#[trigger] rows@[j]).key@,
                            rows@[k as int].key@,
                        ) by {
                            if j < k {
                                if str_lt(rows@[j].key@, rows@[k as int].key@) {
                                    lemma_str_lt_trans(
                                        rows@[j].key@,
                                        rows@[k as int].key@,
                                        rows@[m as int].key@,
                                    );
                                }
                            }
                        }
                    }
                    m = k;
                }
                k = k + 1;
            }
            let ghost rows0 = rows@;
            let ghost out0 = out@;
            let e = rows.remove(m);
            let ghost ev = e;
            out.push(e);
            proof {
                broadcast use vstd::seq_lib::group_to_multiset_ensures;
                broadcast use vstd::multiset::group_multiset_axioms;

                assert(rows0.to_multiset().count(ev) > 0) by {
                    assert(rows0.contains(ev)) by {
                        assert(rows0[m as int] == ev);
                    }
                }
                assert(out@.to_multiset().add(rows@.to_multiset()) =~= out0.to_multiset().add(
                    rows0.to_multiset(),
                ));
                assert forall|a: int, b: int|
                    0 <= a < b < out@.len() implies !str_lt(
                    (#[trigger] out@[b]).key@,
                    (#[trigger] out@[a]).key@,
                ) by {
                    if b == out@.len() - 1 {
                        assert(out@[b] == ev);
                        assert(out@[a] == out0[a]);
                        assert(!str_lt(rows0[m as int].key@, out0[a].key@));
                    } else {
                        assert(out@[a] == out0[a]);
                        assert(out@[b] == out0[b]);
                    }
                }
                assert forall|x: int, j: int|
                    0 <= x < out@.len() && 0 <= j < rows@.len() implies !str_lt(
                    (#[trigger] rows@[j]).key@,
                    (#[trigger] out@[x]).key@,
                ) by {
                    let sj: int = if j < m as int {
                        j
                    } else {
                        j + 1
                    };
                    assert(rows@[j] == rows0[sj]);
                    if x < out@.len() - 1 {
                        assert(out@[x] == out0[x]);
                    } else {
                        assert(out@[x] == ev);
                        assert(!str_lt(rows0[sj].key@, rows0[m as int].key@));
                    }
                }
            }
        }
        proof {
            broadcast use vstd::seq_lib::group_to_multiset_ensures;
            broadcast use vstd::multiset::group_multiset_axioms;

            assert(rows@.to_multiset() =~= Seq::<PluginKvEntry>::empty().to_multiset());
            assert(out@.to_multiset() =~= ns.to_multiset());
        }
        out
    }
}

proof fn lemma_delete_gone(s: Seq<PluginKvEntry>, i: int, p: Seq<char>, k: Seq<char>)
    requires
        0 <= i < s.len(),
        s[i].plugin_id@ == p && s[i].key@ == k,
        forall|j: int| 0 <= j < i ==> !(#[trigger] s[j].plugin_id@ == p && s[j].key@ == k),
    ensures
        seq_get(s.remove(i), p, k) == seq_get(s.skip(i + 1), p, k),
    decreases i,
{
    let t = s.remove(i);
    if i == 0 {
        assert(t =~= s.drop_first());
        assert(s.skip(1) =~= s.drop_first());
    } else {
        assert(t[0] == s[0]);
        assert(!(s[0].plugin_id@ == p && s[0].key@ == k));
        assert(t.drop_first() =~= s.drop_first().remove(i - 1));
        assert(forall|j: int|
            0 <= j < i - 1 ==> #[trigger] s.drop_first()[j] == s[j + 1]);
        lemma_delete_gone(s.drop_first(), i - 1, p, k);
        assert(s.drop_first().skip(i) =~= s.skip(i + 1));
    }
}

proof fn lemma_namespace_snoc(s: Seq<PluginKvEntry>, e: PluginKvEntry, p: Seq<char>)
    ensures
        namespace_of(s.push(e), p) == if e.plugin_id@ == p {
            namespace_of(s, p).push(e)
        } else {
            namespace_of(s, p)
        },
{
    lemma_namespace_push(s, e, p);
}


} // verus!
