use vstd::prelude::*;

verus! {

/// No identifier occurs twice.
pub open spec fn distinct_seq(s: Seq<Seq<char>>) -> bool {
    forall|i: int, j: int| 0 <= i < j < s.len() ==> s[i] != s[j]
}

/// The identifiers of a list of keyed entries, in entry order.
pub open spec fn entry_ids<V>(s: Seq<(String, V)>) -> Seq<Seq<char>>
    decreases s.len(),
{
    if s.len() == 0 {
        Seq::empty()
    } else {
        entry_ids(s.drop_last()).push(s.last().0@)
    }
}

/// The finite map a list of keyed entries stands for; a later entry for the
/// same key would win, but well-formed registries never hold one.
pub open spec fn entry_model<V>(s: Seq<(String, V)>) -> Map<Seq<char>, V>
    decreases s.len(),
{
    if s.len() == 0 {
        Map::empty()
    } else {
        entry_model(s.drop_last()).insert(s.last().0@, s.last().1)
    }
}

pub proof fn lemma_entry_ids_props<V>(s: Seq<(String, V)>)
    ensures
        entry_ids(s).len() == s.len(),
        forall|i: int| 0 <= i < s.len() ==> entry_ids(s)[i] == s[i].0@,
    decreases s.len(),
{
    if s.len() > 0 {
        lemma_entry_ids_props(s.drop_last());
        assert forall|i: int| 0 <= i < s.len() implies entry_ids(s)[i] == s[i].0@ by {
            if i < s.len() - 1 {
                assert(s.drop_last()[i] == s[i]);
            }
        }
    }
}

pub proof fn lemma_entry_dom<V>(s: Seq<(String, V)>)
    ensures
        forall|k: Seq<char>| #[trigger] entry_model(s).dom().contains(k) <==> entry_ids(s).contains(
            k,
        ),
    decreases s.len(),
{
    lemma_entry_ids_props(s);
    if s.len() > 0 {
        lemma_entry_dom(s.drop_last());
        lemma_entry_ids_props(s.drop_last());
        assert forall|k: Seq<char>| #[trigger] entry_model(s).dom().contains(k) implies entry_ids(
            s,
        ).contains(k) by {
            if k == s.last().0@ {
                assert(entry_ids(s)[s.len() - 1] == k);
            } else {
                assert(entry_model(s.drop_last()).dom().contains(k));
                let i = choose|i: int|
                    0 <= i < entry_ids(s.drop_last()).len() && entry_ids(s.drop_last())[i] == k;
                assert(entry_ids(s)[i] == k);
            }
        }
        assert forall|k: Seq<char>| entry_ids(s).contains(k) implies #[trigger] entry_model(
            s,
        ).dom().contains(k) by {
            let i = choose|i: int| 0 <= i < entry_ids(s).len() && entry_ids(s)[i] == k;
            if i < s.len() - 1 {
                assert(entry_ids(s.drop_last())[i] == k);
                assert(entry_ids(s.drop_last()).contains(k));
                assert(entry_model(s.drop_last()).dom().contains(k));
            } else {
                assert(k == s.last().0@);
            }
        }
    }
}

pub proof fn lemma_entry_model_index<V>(s: Seq<(String, V)>, i: int)
    requires
        distinct_seq(entry_ids(s)),
        0 <= i < s.len(),
    ensures
        entry_model(s).dom().contains(s[i].0@),
        entry_model(s)[s[i].0@] == s[i].1,
    decreases s.len(),
{
    lemma_entry_ids_props(s);
    if i == s.len() - 1 {
    } else {
        lemma_entry_ids_props(s.drop_last());
        assert(distinct_seq(entry_ids(s.drop_last()))) by {
            assert forall|a: int, b: int|
                0 <= a < b < entry_ids(s.drop_last()).len() implies entry_ids(s.drop_last())[a]
                != entry_ids(s.drop_last())[b] by {
                assert(entry_ids(s)[a] != entry_ids(s)[b]);
            }
        }
        lemma_entry_model_index(s.drop_last(), i);
        assert(s.drop_last()[i] == s[i]);
        assert(entry_ids(s)[i] != entry_ids(s)[s.len() - 1]);
    }
}

pub proof fn lemma_entry_remove_at<V>(s: Seq<(String, V)>, i: int)
    requires
        distinct_seq(entry_ids(s)),
        0 <= i < s.len(),
    ensures
        entry_ids(s.remove(i)) == entry_ids(s).remove(i),
        entry_model(s.remove(i)) == entry_model(s).remove(s[i].0@),
    decreases s.len(),
{
    lemma_entry_ids_props(s);
    lemma_entry_ids_props(s.drop_last());
    lemma_entry_dom(s.drop_last());
    assert(distinct_seq(entry_ids(s.drop_last()))) by {
        assert forall|a: int, b: int|
            0 <= a < b < entry_ids(s.drop_last()).len() implies entry_ids(s.drop_last())[a]
            != entry_ids(s.drop_last())[b] by {
            assert(entry_ids(s)[a] != entry_ids(s)[b]);
        }
    }
    if i == s.len() - 1 {
        assert(s.remove(i) =~= s.drop_last());
        // the last key is absent from the rest, so removing it undoes the insert
        assert(!entry_ids(s.drop_last()).contains(s[i].0@)) by {
            if entry_ids(s.drop_last()).contains(s[i].0@) {
                let j = choose|j: int|
                    0 <= j < entry_ids(s.drop_last()).len() && entry_ids(s.drop_last())[j] == s[
                        i
                    ].0@;
                assert(entry_ids(s)[j] == entry_ids(s)[i]);
            }
        }
        assert(!entry_model(s.drop_last()).dom().contains(s[i].0@));
        assert(entry_model(s.remove(i)) =~= entry_model(s).remove(s[i].0@));
        assert(entry_ids(s.remove(i)) =~= entry_ids(s).remove(i));
    } else {
        assert(s.remove(i).drop_last() =~= s.drop_last().remove(i));
        assert(s.remove(i).last() == s.last());
        lemma_entry_remove_at(s.drop_last(), i);
        assert(s.drop_last()[i] == s[i]);
        // removing an inner key commutes with inserting the last entry
        assert(entry_ids(s)[i] != entry_ids(s)[s.len() - 1]);
        assert(entry_model(s.remove(i)) == entry_model(s.drop_last().remove(i)).insert(
            s.last().0@,
            s.last().1,
        ));
        assert(entry_model(s.drop_last()).remove(s[i].0@).insert(s.last().0@, s.last().1)
            =~= entry_model(s.drop_last()).insert(s.last().0@, s.last().1).remove(s[i].0@));
        lemma_entry_ids_props(s.remove(i));
        assert(entry_ids(s.remove(i)) =~= entry_ids(s).remove(i));
    }
}

/// A keyed collection of live handles, the source of truth for which session
/// identifiers are registered. At most one entry per identifier.
pub struct Registry<V> {
    entries: Vec<(String, V)>,
}

impl<V> Registry<V> {
    /// The identifiers, in insertion order.
    pub closed spec fn ids(self) -> Seq<Seq<char>> {
        entry_ids(self.entries@)
    }

    /// The map from identifier to the handle registered under it.
    pub closed spec fn model(self) -> Map<Seq<char>, V> {
        entry_model(self.entries@)
    }

    /// Registered identifiers are pairwise distinct.
    pub open spec fn wf(self) -> bool {
        distinct_seq(self.ids())
    }

    /// An identifier is in the map exactly when it is among the ids.
    pub proof fn lemma_dom(self)
        ensures
            forall|k: Seq<char>| #[trigger] self.model().dom().contains(k) <==> self.ids().contains(
                k,
            ),
    {
        lemma_entry_dom(self.entries@);
    }

    pub fn new() -> (r: Registry<V>)
        ensures
            r.wf(),
            r.model() == Map::<Seq<char>, V>::empty(),
            r.ids() == Seq::<Seq<char>>::empty(),
    {
        Registry { entries: Vec::new() }
    }

    fn find(&self, id: &String) -> (r: Option<usize>)
        ensures
            r matches Some(i) ==> 0 <= i < self.entries@.len() && self.entries@[i as int].0@
                == id@,
            r is None ==> !self.ids().contains(id@),
    {
        let n: usize = self.entries.len();
        let mut i: usize = 0;
        while i < n
            invariant
                i <= n,
                n == self.entries@.len(),
                forall|j: int| 0 <= j < i ==> self.entries@[j].0@ != id@,
            decreases n - i,
        {
            if crate::shell_env::string_eq(&self.entries[i].0, id) {
                return Some(i);
            }
            i = i + 1;
        }
        proof {
            lemma_entry_ids_props(self.entries@);
            assert forall|j: int| 0 <= j < self.ids().len() implies self.ids()[j] != id@ by {
                assert(self.entries@[j].0@ != id@);
            }
        }
        None
    }

    /// Whether the identifier is registered.
    pub fn contains_id(&self, id: &String) -> (r: bool)
        ensures
            r == self.model().dom().contains(id@),
            r == self.ids().contains(id@),
    {
        proof {
            self.lemma_dom();
            lemma_entry_ids_props(self.entries@);
        }
        match self.find(id) {
            Some(i) => {
                proof {
                    assert(self.ids()[i as int] == id@);
                }
                true
            },
            None => false,
        }
    }

    /// Register a handle under a fresh identifier.
    pub fn insert(&mut self, id: String, v: V)
        requires
            old(self).wf(),
            !old(self).model().dom().contains(id@),
        ensures
            final(self).wf(),
            final(self).model() == old(self).model().insert(id@, v),
            final(self).ids() == old(self).ids().push(id@),
    {
        proof {
            old(self).lemma_dom();
        }
        let ghost s0 = self.entries@;
        self.entries.push((id, v));
        proof {
            assert(self.entries@.drop_last() =~= s0);
            lemma_entry_ids_props(s0);
            assert(self.ids() == entry_ids(s0).push(self.entries@.last().0@));
            assert forall|a: int, b: int| 0 <= a < b < self.ids().len() implies self.ids()[a]
                != self.ids()[b] by {
                if b == self.ids().len() - 1 {
                    assert(entry_ids(s0).contains(entry_ids(s0)[a]));
                }
            }
        }
    }

    /// Remove the entry for an identifier, if one is registered; absent
    /// identifiers are left alone and the registry is unchanged.
    pub fn remove_id(&mut self, id: &String)
        requires
            old(self).wf(),
        ensures
            final(self).wf(),
            final(self).model() == old(self).model().remove(id@),
            !old(self).model().dom().contains(id@) ==> *final(self) == *old(self),
    {
        proof {
            old(self).lemma_dom();
        }
        match self.find(id) {
            Some(i) => {
                let ghost s0 = self.entries@;
                let _ = self.entries.remove(i);
                proof {
                    lemma_entry_remove_at(s0, i as int);
                    lemma_entry_ids_props(s0);
                    assert(entry_ids(s0)[i as int] == id@);
                    assert(entry_ids(s0).contains(id@));
                    assert forall|a: int, b: int|
                        0 <= a < b < self.ids().len() implies self.ids()[a] != self.ids()[b] by {
                        let ra = if a < i { a } else { a + 1 };
                        let rb = if b < i { b } else { b + 1 };
                        assert(entry_ids(s0)[ra] != entry_ids(s0)[rb]);
                    }
                }
            },
            None => {
                proof {
                    assert(self.model() =~= self.model().remove(id@));
                }
            },
        }
    }

    /// Remove and hand back the handle for an identifier, if one is
    /// registered.
    pub fn take_by_id(&mut self, id: &String) -> (r: Option<V>)
        requires
            old(self).wf(),
        ensures
            final(self).wf(),
            r is None <==> !old(self).model().dom().contains(id@),
            r is None ==> *final(self) == *old(self),
            r matches Some(v) ==> v == old(self).model()[id@] && final(self).model() == old(
                self,
            ).model().remove(id@),
    {
        proof {
            old(self).lemma_dom();
        }
        match self.find(id) {
            Some(i) => {
                let ghost s0 = self.entries@;
                let entry = self.entries.remove(i);
                proof {
                    lemma_entry_ids_props(s0);
                    assert(entry_ids(s0)[i as int] == id@);
                    lemma_entry_model_index(s0, i as int);
                    lemma_entry_remove_at(s0, i as int);
                    assert forall|a: int, b: int|
                        0 <= a < b < self.ids().len() implies self.ids()[a] != self.ids()[b] by {
                        let ra = if a < i { a } else { a + 1 };
                        let rb = if b < i { b } else { b + 1 };
                        assert(entry_ids(s0)[ra] != entry_ids(s0)[rb]);
                    }
                }
                Some(entry.1)
            },
            None => None,
        }
    }

    /// A shared borrow of the handle for an identifier, if one is registered.
    pub fn get_by_id(&self, id: &String) -> (r: Option<&V>)
        requires
            self.wf(),
        ensures
            r is Some <==> self.model().dom().contains(id@),
            r matches Some(v) ==> *v == self.model()[id@],
    {
        proof {
            self.lemma_dom();
        }
        match self.find(id) {
            Some(i) => {
                proof {
                    lemma_entry_ids_props(self.entries@);
                    assert(self.ids()[i as int] == id@);
                    lemma_entry_model_index(self.entries@, i as int);
                }
                Some(&self.entries[i].1)
            },
            None => None,
        }
    }

    /// A snapshot of the registered identifiers, in insertion order.
    pub fn keys(&self) -> (r: Vec<String>)
        ensures
            r@.len() == self.ids().len(),
            forall|i: int| 0 <= i < r@.len() ==> r@[i]@ == self.ids()[i],
    {
        proof {
            lemma_entry_ids_props(self.entries@);
        }
        let n: usize = self.entries.len();
        let mut r: Vec<String> = Vec::new();
        let mut i: usize = 0;
        while i < n
            invariant
                i <= n,
                n == self.entries@.len(),
                r@.len() == i,
                forall|j: int| 0 <= j < i ==> r@[j]@ == entry_ids(self.entries@)[j],
            decreases n - i,
        {
            proof {
                lemma_entry_ids_props(self.entries@);
            }
            r.push(self.entries[i].0.clone());
            i = i + 1;
        }
        r
    }
}

} // verus!
