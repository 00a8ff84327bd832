//! The document session store: the authoritative text of each open document.
use crate::text::str_eq;
use vstd::prelude::*;

verus! {

/// Entries in order; a later entry for a key wins.
pub open spec fn entries_map(es: Seq<(Seq<char>, Seq<char>)>) -> Map<Seq<char>, Seq<char>>
    decreases es.len(),
{
    if es.len() == 0 {
        Map::empty()
    } else {
        entries_map(es.drop_last()).insert(es.last().0, es.last().1)
    }
}

pub open spec fn keys_unique(es: Seq<(Seq<char>, Seq<char>)>) -> bool {
    forall|i: int, j: int| 0 <= i < j < es.len() ==> (#[trigger] es[i]).0 != (#[trigger] es[j]).0
}

proof fn lemma_entries_map_lookup(es: Seq<(Seq<char>, Seq<char>)>, k: Seq<char>)
    requires
        keys_unique(es),
    ensures
        forall|i: int| 0 <= i < es.len() && (#[trigger] es[i]).0 == k ==> entries_map(es).contains_key(k) && entries_map(es)[k] == es[i].1,
        (forall|i: int| 0 <= i < es.len() ==> (#[trigger] es[i]).0 != k) ==> !entries_map(es).contains_key(k),
    decreases es.len(),
{
    if es.len() > 0 {
        let d = es.drop_last();
        assert(keys_unique(d)) by {
            assert forall|i: int, j: int| 0 <= i < j < d.len() implies (#[trigger] d[i]).0 != (#[trigger] d[j]).0 by {
                assert(d[i] == es[i] && d[j] == es[j]);
            }
        }
        lemma_entries_map_lookup(d, k);
        assert forall|i: int| 0 <= i < es.len() && (#[trigger] es[i]).0 == k implies entries_map(es).contains_key(k) && entries_map(es)[k] == es[i].1 by {
            if i < es.len() - 1 {
                assert(d[i] == es[i]);
            }
        }
        if forall|i: int| 0 <= i < es.len() ==> (#[trigger] es[i]).0 != k {
            assert forall|i: int| 0 <= i < d.len() implies (#[trigger] d[i]).0 != k by {
                assert(d[i] == es[i]);
            }
            assert(es.last() == es[es.len() - 1]);
        }
    }
}

proof fn lemma_entries_map_update(es: Seq<(Seq<char>, Seq<char>)>, i: int, v: Seq<char>)
    requires
        keys_unique(es),
        0 <= i < es.len(),
    ensures
        entries_map(es.update(i, (es[i].0, v))) == entries_map(es).insert(es[i].0, v),
    decreases es.len(),
{
    let k = es[i].0;
    let u = es.update(i, (k, v));
    let d = es.drop_last();
    if i == es.len() - 1 {
        assert(u.drop_last() =~= d);
        assert(entries_map(u) =~= entries_map(es).insert(k, v));
    } else {
        assert(keys_unique(d)) by {
            assert forall|a: int, b: int| 0 <= a < b < d.len() implies (#[trigger] d[a]).0 != (#[trigger] d[b]).0 by {
                assert(d[a] == es[a] && d[b] == es[b]);
            }
        }
        assert(u.drop_last() =~= d.update(i, (k, v)));
        lemma_entries_map_update(d, i, v);
        assert(es.last() == es[es.len() - 1]);
        assert(es.last().0 != k);
        assert(entries_map(u) =~= entries_map(es).insert(k, v));
    }
}

proof fn lemma_entries_map_remove(es: Seq<(Seq<char>, Seq<char>)>, i: int)
    requires
        keys_unique(es),
        0 <= i < es.len(),
    ensures
        entries_map(es.remove(i)) == entries_map(es).remove(es[i].0),
        keys_unique(es.remove(i)),
    decreases es.len(),
{
    let k = es[i].0;
    let r = es.remove(i);
    let d = es.drop_last();
    assert(keys_unique(r)) by {
        assert forall|a: int, b: int| 0 <= a < b < r.len() implies (#[trigger] r[a]).0 != (#[trigger] r[b]).0 by {
            let a2 = if a < i { a } else { a + 1 };
            let b2 = if b < i { b } else { b + 1 };
            assert(r[a] == es[a2] && r[b] == es[b2]);
        }
    }
    assert(keys_unique(d)) by {
        assert forall|a: int, b: int| 0 <= a < b < d.len() implies (#[trigger] d[a]).0 != (#[trigger] d[b]).0 by {
            assert(d[a] == es[a] && d[b] == es[b]);
        }
    }
    if i == es.len() - 1 {
        assert(r =~= d);
        lemma_entries_map_lookup(d, k);
        assert forall|a: int| 0 <= a < d.len() implies (#[trigger] d[a]).0 != k by {
            assert(d[a] == es[a]);
        }
        assert(entries_map(r) =~= entries_map(es).remove(k));
    } else {
        assert(r.drop_last() =~= d.remove(i));
        assert(r.last() == es.last());
        lemma_entries_map_remove(d, i);
        assert(es.last() == es[es.len() - 1]);
        assert(entries_map(r) =~= entries_map(es).remove(k));
    }
}

/// The text of each open document, keyed by document identifier.
pub struct DocumentStore {
    entries: Vec<(String, String)>,
}

impl DocumentStore {
    pub closed spec fn entries_view(&self) -> Seq<(Seq<char>, Seq<char>)> {
        self.entries@.map_values(|e: (String, String)| (e.0@, e.1@))
    }

    /// Each open document's identifier mapped to its current text.
    pub closed spec fn view(&self) -> Map<Seq<char>, Seq<char>> {
        entries_map(self.entries_view())
    }

    /// At most one text per identifier.
    pub closed spec fn wf(&self) -> bool {
        keys_unique(self.entries_view())
    }

    /// An empty store.
    pub fn new() -> (r: Self)
        ensures
            r.wf(),
            r@ == Map::<Seq<char>, Seq<char>>::empty(),
    {
        let r = DocumentStore { entries: Vec::new() };
        assert(r.entries_view() =~= Seq::<(Seq<char>, Seq<char>)>::empty());
        r
    }

    fn position(&self, id: &str) -> (r: Option<usize>)
        requires
            self.wf(),
        ensures
            match r {
                Some(i) => i < self.entries@.len() && self.entries_view()[i as int].0 == id@
                    && self@.contains_key(id@) && self@[id@] == self.entries_view()[i as int].1,
                None => !self@.contains_key(id@),
            },
    {
        let mut i: usize = 0;
        while i < self.entries.len()
            invariant
                self.wf(),
                i <= self.entries@.len(),
                forall|j: int| 0 <= j < i ==> (#[trigger] self.entries_view()[j]).0 != id@,
            decreases self.entries@.len() - i,
        {
            if str_eq(self.entries[i].0.as_str(), id) {
                proof {
                    lemma_entries_map_lookup(self.entries_view(), id@);
                }
                return Some(i);
            }
            i = i + 1;
        }
        proof {
            lemma_entries_map_lookup(self.entries_view(), id@);
        }
        None
    }

    /// Inserts or replaces the text of document `id`.
    pub fn open(&mut self, id: &str, text: String)
        requires
            old(self).wf(),
        ensures
            final(self).wf(),
            final(self)@ == old(self)@.insert(id@, text@),
    {
        match self.position(id) {
            Some(i) => {
                let ghost es = self.entries_view();
                let key = self.entries[i].0.clone();
                self.entries.set(i, (key, text));
                assert(self.entries_view() =~= es.update(i as int, (es[i as int].0, text@)));
                proof {
                    lemma_entries_map_update(es, i as int, text@);
                }
                assert(keys_unique(self.entries_view())) by {
                    assert forall|a: int, b: int| 0 <= a < b < self.entries_view().len() implies (#[trigger] self.entries_view()[a]).0 != (#[trigger] self.entries_view()[b]).0 by {
                        assert(self.entries_view()[a].0 == es[a].0 && self.entries_view()[b].0 == es[b].0);
                    }
                }
            },
            None => {
                let ghost es = self.entries_view();
                self.entries.push((String::from_str(id), text));
                assert(self.entries_view() =~= es.push((id@, text@)));
                assert(self.entries_view().drop_last() =~= es);
                proof {
                    lemma_entries_map_lookup(es, id@);
                }
                assert(keys_unique(self.entries_view())) by {
                    assert forall|a: int, b: int| 0 <= a < b < self.entries_view().len() implies (#[trigger] self.entries_view()[a]).0 != (#[trigger] self.entries_view()[b]).0 by {
                        if b == es.len() {
                            assert(self.entries_view()[a] == es[a]);
                        } else {
                            assert(self.entries_view()[a] == es[a] && self.entries_view()[b] == es[b]);
                        }
                    }
                }
            },
        }
    }

    /// Replaces the text of document `id` with its latest full text; an unknown
    /// document is added.
    pub fn change(&mut self, id: &str, text: String)
        requires
            old(self).wf(),
        ensures
            final(self).wf(),
            final(self)@ == old(self)@.insert(id@, text@),
    {
        self.open(id, text);
    }

    /// A copy of the current text of document `id`, if it is open.
    pub fn read(&self, id: &str) -> (r: Option<String>)
        requires
            self.wf(),
        ensures
            match r {
                Some(t) => self@.contains_key(id@) && t@ == self@[id@],
                None => !self@.contains_key(id@),
            },
    {
        match self.position(id) {
            Some(i) => Some(self.entries[i].1.clone()),
            None => None,
        }
    }

    /// Forgets document `id`.
    pub fn close(&mut self, id: &str)
        requires
            old(self).wf(),
        ensures
            final(self).wf(),
            final(self)@ == old(self)@.remove(id@),
    {
        match self.position(id) {
            Some(i) => {
                let ghost es = self.entries_view();
                self.entries.remove(i);
                assert(self.entries_view() =~= es.remove(i as int));
                proof {
                    lemma_entries_map_remove(es, i as int);
                }
            },
            None => {
                assert(self@ =~= self@.remove(id@));
            },
        }
    }
}

} // verus!
