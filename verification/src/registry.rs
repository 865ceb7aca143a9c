//! The subscription registry: a mapping from event-type name to the
//! subscription id the remote service assigned, with unique keys.

use vstd::prelude::*;

verus! {

/// One registry entry: an event-type name and the remote subscription id
/// currently held for it.
struct Entry {
    event: String,
    id: String,
}

/// The mathematical contents of a sequence of entries: the map that sends
/// each event-type name to the id of its entry.
spec fn map_of(s: Seq<Entry>) -> Map<Seq<char>, Seq<char>>
    decreases s.len(),
{
    if s.len() == 0 {
        Map::empty()
    } else {
        map_of(s.drop_last()).insert(s.last().event@, s.last().id@)
    }
}

/// No two entries carry the same event-type name.
spec fn unique_keys(s: Seq<Entry>) -> bool {
    forall|i: int, j: int| 0 <= i < j < s.len() ==> s[i].event@ != s[j].event@
}

proof fn lemma_map_of_contains(s: Seq<Entry>)
    ensures
        forall|k: Seq<char>|
            #[trigger] map_of(s).contains_key(k) <==> exists|i: int|
                0 <= i < s.len() && s[i].event@ == k,
    decreases s.len(),
{
    if s.len() > 0 {
        let d = s.drop_last();
        lemma_map_of_contains(d);
        assert(map_of(s) == map_of(d).insert(s.last().event@, s.last().id@));
        assert forall|k: Seq<char>| #[trigger] map_of(s).contains_key(k) implies exists|i: int|
            0 <= i < s.len() && s[i].event@ == k by {
            if k == s.last().event@ {
                assert(s[s.len() - 1].event@ == k);
            } else {
                assert(map_of(d).contains_key(k));
                let i = choose|i: int| 0 <= i < d.len() && d[i].event@ == k;
                assert(s[i] == d[i]);
                assert(s[i].event@ == k);
            }
        }
        assert forall|k: Seq<char>|
            (exists|i: int| 0 <= i < s.len() && s[i].event@ == k) implies #[trigger] map_of(
            s,
        ).contains_key(k) by {
            let i = choose|i: int| 0 <= i < s.len() && s[i].event@ == k;
            if i < s.len() - 1 {
                assert(d[i].event@ == k);
                assert(map_of(d).contains_key(k));
            }
        }
    }
}

proof fn lemma_map_of_index(s: Seq<Entry>)
    requires
        unique_keys(s),
    ensures
        forall|i: int|
            0 <= i < s.len() ==> map_of(s).contains_key(#[trigger] s[i].event@) && map_of(
                s,
            )[s[i].event@] == s[i].id@,
    decreases s.len(),
{
    if s.len() > 0 {
        let d = s.drop_last();
        assert(unique_keys(d)) by {
            assert forall|i: int, j: int| 0 <= i < j < d.len() implies d[i].event@
                != d[j].event@ by {
                assert(s[i].event@ != s[j].event@);
            }
        }
        lemma_map_of_index(d);
        assert forall|i: int| 0 <= i < s.len() implies map_of(s).contains_key(
            #[trigger] s[i].event@,
        ) && map_of(s)[s[i].event@] == s[i].id@ by {
            if i < s.len() - 1 {
                assert(d[i].event@ == s[i].event@ && d[i].id@ == s[i].id@);
                assert(s[i].event@ != s.last().event@);
            }
        }
    }
}

proof fn lemma_map_of_len(s: Seq<Entry>)
    requires
        unique_keys(s),
    ensures
        map_of(s).dom().finite(),
        map_of(s).dom().len() == s.len(),
    decreases s.len(),
{
    broadcast use vstd::set::group_set_axioms;

    if s.len() == 0 {
        assert(map_of(s).dom() =~= Set::<Seq<char>>::empty());
    } else {
        let d = s.drop_last();
        assert(unique_keys(d)) by {
            assert forall|i: int, j: int| 0 <= i < j < d.len() implies d[i].event@
                != d[j].event@ by {
                assert(s[i].event@ != s[j].event@);
            }
        }
        lemma_map_of_len(d);
        lemma_map_of_contains(d);
        assert(!map_of(d).contains_key(s.last().event@)) by {
            if map_of(d).contains_key(s.last().event@) {
                let i = choose|i: int| 0 <= i < d.len() && d[i].event@ == s.last().event@;
                assert(s[i].event@ == s[s.len() - 1].event@);
            }
        }
        assert(map_of(s).dom() =~= map_of(d).dom().insert(s.last().event@));
    }
}

/// The local registry of active subscriptions. Its view is the map from
/// event-type name to remote subscription id; the registry holds at most
/// one entry per event type.
pub struct Registry {
    entries: Vec<Entry>,
}

impl View for Registry {
    type V = Map<Seq<char>, Seq<char>>;

    closed spec fn view(&self) -> Map<Seq<char>, Seq<char>> {
        map_of(self.entries@)
    }
}

impl Registry {
    #[verifier::type_invariant]
    spec fn wf(self) -> bool {
        unique_keys(self.entries@)
    }

    /// An empty registry: no event type is subscribed.
    pub fn new() -> (r: Registry)
        ensures
            r@ == Map::<Seq<char>, Seq<char>>::empty(),
    {
        Registry { entries: Vec::new() }
    }

    fn index_of(&self, event: &String) -> (r: Option<usize>)
        ensures
            match r {
                Some(j) => j < self.entries@.len() && self.entries@[j as int].event@ == event@,
                None => forall|i: int|
                    0 <= i < self.entries@.len() ==> self.entries@[i].event@ != event@,
            },
    {
        let n = self.entries.len();
        let mut j: usize = 0;
        while j < n
            invariant
                n == self.entries@.len(),
                j <= n,
                forall|i: int| 0 <= i < j ==> self.entries@[i].event@ != event@,
            decreases n - j,
        {
            if self.entries[j].event == *event {
                return Some(j);
            }
            j += 1;
        }
        None
    }

    /// Record a subscription: afterwards the registry maps `event` to `id`,
    /// overwriting any id previously held for that event type; every other
    /// key is unchanged, and `event` has exactly this one entry.
    pub fn insert(&mut self, event: String, id: String)
        ensures
            final(self)@ == old(self)@.insert(event@, id@),
            final(self)@.contains_key(event@),
            final(self)@[event@] == id@,
    {
        proof {
            use_type_invariant(&*self);
        }
        let ghost s_old = self.entries@;
        let idx = self.index_of(&event);
        let mut entries: Vec<Entry> = Vec::new();
        std::mem::swap(&mut entries, &mut self.entries);
        match idx {
            Some(j) => {
                let ghost k = event@;
                let ghost v = id@;
                entries[j] = Entry { event, id };
                proof {
                    let s_new = entries@;
                    assert forall|a: int, b: int| 0 <= a < b < s_new.len() implies s_new[a].event@
                        != s_new[b].event@ by {
                        assert(s_old[a].event@ != s_old[b].event@);
                    }
                    lemma_map_of_contains(s_old);
                    lemma_map_of_contains(s_new);
                    lemma_map_of_index(s_old);
                    lemma_map_of_index(s_new);
                    let m1 = map_of(s_new);
                    let m2 = map_of(s_old).insert(k, v);
                    assert forall|key: Seq<char>| m1.contains_key(key) implies m2.contains_key(key)
                        && m1[key] == m2[key] by {
                        let i = choose|i: int| 0 <= i < s_new.len() && s_new[i].event@ == key;
                        if i == j {
                            assert(key == k);
                            assert(m1[key] == v);
                        } else {
                            assert(s_new[i].event@ != s_new[j as int].event@);
                            assert(s_old[i].event@ == key);
                            assert(map_of(s_old).contains_key(key));
                            assert(m1[key] == s_new[i].id@);
                            assert(m2[key] == s_old[i].id@);
                        }
                    }
                    assert forall|key: Seq<char>| m2.contains_key(key) implies m1.contains_key(
                        key,
                    ) by {
                        if key == k {
                            assert(s_new[j as int].event@ == key);
                        } else {
                            let i = choose|i: int| 0 <= i < s_old.len() && s_old[i].event@ == key;
                            assert(s_new[i].event@ == key);
                        }
                    }
                    assert(m1 =~= m2);
                }
            },
            None => {
                let ghost e_view = event@;
                let ghost i_view = id@;
                entries.push(Entry { event, id });
                proof {
                    let s_new = entries@;
                    assert(s_new.drop_last() =~= s_old);
                    assert(map_of(s_new) == map_of(s_old).insert(e_view, i_view));
                }
            },
        }
        self.entries = entries;
    }

    /// Drop the registry entry for `event`, returning the remote
    /// subscription id that was held for it, if any. The entry is removed
    /// locally whether or not a remote delete call is later made or
    /// succeeds.
    pub fn remove(&mut self, event: &String) -> (r: Option<String>)
        ensures
            final(self)@ == old(self)@.remove(event@),
            match r {
                Some(id) => old(self)@.contains_key(event@) && id@ == old(self)@[event@],
                None => !old(self)@.contains_key(event@),
            },
    {
        proof {
            use_type_invariant(&*self);
        }
        let ghost s_old = self.entries@;
        proof {
            lemma_map_of_contains(s_old);
            lemma_map_of_index(s_old);
        }
        let idx = self.index_of(event);
        match idx {
            Some(j) => {
                let mut entries: Vec<Entry> = Vec::new();
                std::mem::swap(&mut entries, &mut self.entries);
                let entry = entries.remove(j);
                proof {
                    let s_new = entries@;
                    let k = event@;
                    assert forall|a: int, b: int| 0 <= a < b < s_new.len() implies s_new[a].event@
                        != s_new[b].event@ by {
                        let a0: int = if a < j { a } else { a + 1 };
                        let b0: int = if b < j { b } else { b + 1 };
                        assert(s_new[a] == s_old[a0] && s_new[b] == s_old[b0]);
                        assert(s_old[a0].event@ != s_old[b0].event@);
                    }
                    lemma_map_of_contains(s_new);
                    lemma_map_of_index(s_new);
                    let m1 = map_of(s_new);
                    let m2 = map_of(s_old).remove(k);
                    assert forall|key: Seq<char>| m1.contains_key(key) implies m2.contains_key(key)
                        && m1[key] == m2[key] by {
                        let i = choose|i: int| 0 <= i < s_new.len() && s_new[i].event@ == key;
                        let i0: int = if i < j { i } else { i + 1 };
                        assert(s_new[i] == s_old[i0]);
                        assert(s_old[i0].event@ == key);
                        assert(i0 != j);
                        assert(s_old[i0].event@ != s_old[j as int].event@);
                        assert(map_of(s_old).contains_key(key));
                        assert(m1[key] == s_new[i].id@);
                    }
                    assert forall|key: Seq<char>| m2.contains_key(key) implies m1.contains_key(
                        key,
                    ) by {
                        let i0 = choose|i: int| 0 <= i < s_old.len() && s_old[i].event@ == key;
                        assert(s_old[i0].event@ != s_old[j as int].event@);
                        assert(i0 != j);
                        let i: int = if i0 < j { i0 } else { i0 - 1 };
                        assert(s_new[i] == s_old[i0]);
                        assert(s_new[i].event@ == key);
                    }
                    assert(m1 =~= m2);
                    assert(entry.id@ == map_of(s_old)[k]);
                }
                self.entries = entries;
                Some(entry.id)
            },
            None => {
                proof {
                    assert(!map_of(s_old).contains_key(event@));
                    assert(map_of(s_old) =~= map_of(s_old).remove(event@));
                }
                None
            },
        }
    }

    /// Look up the subscription id currently held for `event`.
    pub fn get(&self, event: &String) -> (r: Option<&String>)
        ensures
            match r {
                Some(id) => self@.contains_key(event@) && id@ == self@[event@],
                None => !self@.contains_key(event@),
            },
    {
        proof {
            use_type_invariant(&*self);
            lemma_map_of_contains(self.entries@);
            lemma_map_of_index(self.entries@);
        }
        match self.index_of(event) {
            Some(j) => Some(&self.entries[j].id),
            None => None,
        }
    }

    /// Whether `event` is currently subscribed.
    pub fn contains(&self, event: &String) -> (b: bool)
        ensures
            b == self@.contains_key(event@),
    {
        proof {
            use_type_invariant(&*self);
            lemma_map_of_contains(self.entries@);
        }
        self.index_of(event).is_some()
    }

    /// The number of active subscriptions: one registry entry per event
    /// type.
    pub fn len(&self) -> (n: usize)
        ensures
            n == self@.dom().len(),
    {
        proof {
            use_type_invariant(&*self);
            lemma_map_of_len(self.entries@);
        }
        self.entries.len()
    }
}

} // verus!
