//! The match index: the facts of every recorded replay, keyed by kind and id and kept in key
//! order, with a revision that moves on every change.
use vstd::prelude::*;

use crate::index::{CachedMatchId, MatchKind, ReplayError};

verus! {

/// Tournament replays come before solo queue replays.
pub open spec fn kind_rank(kind: MatchKind) -> int {
    match kind {
        MatchKind::Tournament => 0,
        MatchKind::Solo => 1,
    }
}

/// The order of the index's keys: by kind, then by id.
pub open spec fn id_lt(a: CachedMatchId, b: CachedMatchId) -> bool {
    kind_rank(a.kind) < kind_rank(b.kind) || (a.kind == b.kind && a.id < b.id)
}

/// Entries strictly ascending by key, so that no key occurs twice.
pub open spec fn entries_sorted<F>(entries: Seq<(CachedMatchId, F)>) -> bool {
    forall|i: int, j: int| 0 <= i < j < entries.len() ==> id_lt(entries[i].0, entries[j].0)
}

/// The keys of the entries, in order.
pub open spec fn ids_of<F>(entries: Seq<(CachedMatchId, F)>) -> Seq<CachedMatchId> {
    entries.map_values(|e: (CachedMatchId, F)| e.0)
}

/// What the entries map each key to.
pub open spec fn map_of<F>(entries: Seq<(CachedMatchId, F)>) -> Map<CachedMatchId, F>
    decreases entries.len(),
{
    if entries.len() == 0 {
        Map::empty()
    } else {
        map_of(entries.drop_last()).insert(entries.last().0, entries.last().1)
    }
}

/// The revision after a change: one more, wrapping to zero after the largest value.
pub open spec fn next_revision(revision: u64) -> u64 {
    if revision == u64::MAX {
        0
    } else {
        (revision + 1) as u64
    }
}

proof fn lemma_map_of_dom<F>(entries: Seq<(CachedMatchId, F)>, id: CachedMatchId)
    ensures
        map_of(entries).dom().contains(id) <==> exists|i: int|
            0 <= i < entries.len() && (#[trigger] entries[i]).0 == id,
    decreases entries.len(),
{
    if entries.len() > 0 {
        let rest = entries.drop_last();
        lemma_map_of_dom(rest, id);
        if map_of(entries).dom().contains(id) && entries.last().0 != id {
            let i = choose|i: int| 0 <= i < rest.len() && (#[trigger] rest[i]).0 == id;
            assert(entries[i] == rest[i]);
        }
        if exists|i: int| 0 <= i < entries.len() && (#[trigger] entries[i]).0 == id {
            let i = choose|i: int| 0 <= i < entries.len() && (#[trigger] entries[i]).0 == id;
            if i < entries.len() - 1 {
                assert(rest[i] == entries[i]);
            }
        }
    }
}

proof fn lemma_map_of_value<F>(entries: Seq<(CachedMatchId, F)>, i: int)
    requires
        entries_sorted(entries),
        0 <= i < entries.len(),
    ensures
        map_of(entries).dom().contains(entries[i].0),
        map_of(entries)[entries[i].0] == entries[i].1,
    decreases entries.len(),
{
    if i < entries.len() - 1 {
        let rest = entries.drop_last();
        assert(rest[i] == entries[i]);
        assert(id_lt(entries[i].0, entries[entries.len() - 1].0));
        assert(entries_sorted(rest)) by {
            assert forall|a: int, b: int| 0 <= a < b < rest.len() implies id_lt(
                rest[a].0,
                rest[b].0,
            ) by {
                assert(rest[a] == entries[a] && rest[b] == entries[b]);
            }
        }
        lemma_map_of_value(rest, i);
    }
}

/// Two sorted entry lists with the same keys and values at every key are the same map.
proof fn lemma_map_of_ext<F>(
    entries: Seq<(CachedMatchId, F)>,
    m: Map<CachedMatchId, F>,
)
    requires
        entries_sorted(entries),
        forall|i: int| 0 <= i < entries.len() ==> #[trigger] m.dom().contains(entries[i].0) && m[entries[i].0] == entries[i].1,
        forall|id: CachedMatchId| #[trigger] m.dom().contains(id) ==> exists|i: int|
            0 <= i < entries.len() && (#[trigger] entries[i]).0 == id,
    ensures
        map_of(entries) == m,
{
    assert forall|id: CachedMatchId| #[trigger] map_of(entries).dom().contains(id) == m.dom().contains(id) by {
        lemma_map_of_dom(entries, id);
    }
    assert forall|id: CachedMatchId| #[trigger] map_of(entries).dom().contains(id) implies map_of(entries)[id] == m[id] by {
        lemma_map_of_dom(entries, id);
        let i = choose|i: int| 0 <= i < entries.len() && (#[trigger] entries[i]).0 == id;
        lemma_map_of_value(entries, i);
    }
    assert(map_of(entries) =~= m);
}

/// The order of two keys.
fn id_less(a: CachedMatchId, b: CachedMatchId) -> (less: bool)
    ensures
        less == id_lt(a, b),
{
    match (a.kind, b.kind) {
        (MatchKind::Tournament, MatchKind::Solo) => true,
        (MatchKind::Solo, MatchKind::Tournament) => false,
        _ => a.id < b.id,
    }
}

/// The place of a key: the number of entries ordered before it.
fn position_of<F>(entries: &Vec<(CachedMatchId, F)>, id: CachedMatchId) -> (p: usize)
    requires
        entries_sorted(entries@),
    ensures
        p <= entries@.len(),
        forall|k: int| 0 <= k < p ==> id_lt(#[trigger] entries@[k].0, id),
        forall|k: int| p <= k < entries@.len() ==> !id_lt(#[trigger] entries@[k].0, id),
{
    let mut i: usize = 0;
    while i < entries.len()
        invariant
            i <= entries@.len(),
            entries_sorted(entries@),
            forall|k: int| 0 <= k < i ==> id_lt(#[trigger] entries@[k].0, id),
        decreases entries@.len() - i,
    {
        if !id_less(entries[i].0, id) {
            proof {
                assert forall|k: int| i <= k < entries@.len() implies !id_lt(
                    #[trigger] entries@[k].0,
                    id,
                ) by {
                    if k > i {
                        assert(id_lt(entries@[i as int].0, entries@[k].0));
                    }
                }
            }
            return i;
        }
        i = i + 1;
    }
    i
}

/// Puts a fact in its place: in place of the fact of the same key, or as a new entry.
fn place<F>(entries: &mut Vec<(CachedMatchId, F)>, id: CachedMatchId, fact: F) -> (replaced: bool)
    requires
        entries_sorted(old(entries)@),
    ensures
        entries_sorted(final(entries)@),
        map_of(final(entries)@) == map_of(old(entries)@).insert(id, fact),
        replaced == map_of(old(entries)@).dom().contains(id),
{
    let p = position_of(entries, id);
    let ghost before = entries@;
    proof {
        lemma_map_of_dom(before, id);
    }
    let same = p < entries.len() && {
        let found = entries[p].0;
        found.kind == id.kind && found.id == id.id
    };
    if same {
        entries.remove(p);
        entries.insert(p, (id, fact));
    } else {
        entries.insert(p, (id, fact));
    }
    let ghost after = entries@;
    proof {
        if !same {
            assert forall|k: int| 0 <= k < before.len() implies (#[trigger] before[k]).0 != id by {
                if k >= p {
                    assert(!id_lt(before[k].0, id));
                    if k > p {
                        assert(id_lt(before[p as int].0, before[k].0));
                    }
                }
            }
        } else {
            assert(before[p as int].0 == id);
        }
        assert(entries_sorted(after)) by {
            assert forall|i: int, j: int| 0 <= i < j < after.len() implies id_lt(
                after[i].0,
                after[j].0,
            ) by {
                if same {
                    assert(after =~= before.update(p as int, (id, fact)));
                    if i == p {
                        if j > p {
                            assert(id_lt(before[p as int].0, before[j].0));
                        }
                    } else if j == p {
                        assert(id_lt(before[i].0, before[p as int].0));
                    }
                } else {
                    assert(after =~= before.insert(p as int, (id, fact)));
                    if i < p && j == p {
                    } else if i < p && j > p {
                        assert(after[j] == before[j - 1]);
                        assert(id_lt(before[i].0, before[j - 1].0));
                    } else if i == p {
                        assert(after[j] == before[j - 1]);
                        assert(!id_lt(before[j - 1].0, id));
                        assert(before[j - 1].0 != id);
                    } else if i > p {
                        assert(after[i] == before[i - 1]);
                        assert(after[j] == before[j - 1]);
                    }
                }
            }
        }
        let m = map_of(before).insert(id, fact);
        assert forall|i: int| 0 <= i < after.len() implies #[trigger] m.dom().contains(
            after[i].0,
        ) && m[after[i].0] == after[i].1 by {
            if after[i].0 == id && i != p {
                if i < p {
                    assert(id_lt(after[i].0, after[p as int].0));
                } else {
                    assert(id_lt(after[p as int].0, after[i].0));
                }
            }
            if after[i].0 != id {
                let k = if same || i < p {
                    i
                } else {
                    i - 1
                };
                assert(after[i] == before[k]);
                lemma_map_of_value(before, k);
            }
        }
        assert forall|key: CachedMatchId| #[trigger] m.dom().contains(key) implies exists|i: int|
            0 <= i < after.len() && (#[trigger] after[i]).0 == key by {
            if key == id {
                assert(after[p as int].0 == id);
            } else {
                lemma_map_of_dom(before, key);
                let k = choose|k: int| 0 <= k < before.len() && (#[trigger] before[k]).0 == key;
                if same || k < p {
                    assert(after[k].0 == key);
                } else {
                    assert(after[k + 1].0 == key);
                }
            }
        }
        lemma_map_of_ext(after, m);
    }
    same
}

/// The recorded facts of the index, one per replay.
pub struct MatchIndex<F> {
    revision: u64,
    entries: Vec<(CachedMatchId, F)>,
}

impl<F> View for MatchIndex<F> {
    type V = Seq<(CachedMatchId, F)>;

    closed spec fn view(&self) -> Seq<(CachedMatchId, F)> {
        self.entries@
    }
}

impl<F> MatchIndex<F> {
    /// The current revision.
    pub closed spec fn revision_of(&self) -> u64 {
        self.revision
    }

    /// The index keeps its entries in key order.
    pub open spec fn wf(&self) -> bool {
        entries_sorted(self@)
    }

    #[verifier::type_invariant]
    spec fn sorted_by_key(&self) -> bool {
        entries_sorted(self.entries@)
    }

    /// The recorded fact of each key.
    pub open spec fn facts(&self) -> Map<CachedMatchId, F> {
        map_of(self@)
    }

    /// An empty index at revision zero.
    pub fn new() -> (index: Self)
        ensures
            index.wf(),
            index@ == Seq::<(CachedMatchId, F)>::empty(),
            index.revision_of() == 0,
    {
        MatchIndex { revision: 0, entries: Vec::new() }
    }

    /// An empty index that continues from a stored revision.
    pub fn starting_at(revision: u64) -> (index: Self)
        ensures
            index.wf(),
            index@ == Seq::<(CachedMatchId, F)>::empty(),
            index.revision_of() == revision,
    {
        MatchIndex { revision, entries: Vec::new() }
    }

    pub fn revision(&self) -> (revision: u64)
        ensures
            revision == self.revision_of(),
    {
        self.revision
    }

    pub fn match_count(&self) -> (count: usize)
        ensures
            count == self@.len(),
    {
        self.entries.len()
    }

    /// The entries in key order.
    pub fn entries(&self) -> (entries: &[(CachedMatchId, F)])
        ensures
            entries@ == self@,
            self.wf(),
    {
        proof {
            use_type_invariant(self);
        }
        self.entries.as_slice()
    }

    /// The keys in key order.
    pub fn match_ids(&self) -> (ids: Vec<CachedMatchId>)
        ensures
            ids@ == ids_of(self@),
    {
        let mut ids: Vec<CachedMatchId> = Vec::new();
        let mut i: usize = 0;
        while i < self.entries.len()
            invariant
                i <= self@.len(),
                ids@ == ids_of(self@).subrange(0, i as int),
            decreases self@.len() - i,
        {
            ids.push(self.entries[i].0);
            i = i + 1;
            assert(ids@ =~= ids_of(self@).subrange(0, i as int));
        }
        assert(ids_of(self@).subrange(0, self@.len() as int) =~= ids_of(self@));
        ids
    }

    /// Whether a replay of this kind and id is recorded.
    pub fn contains(&self, kind: MatchKind, id: usize) -> (found: bool)
        ensures
            self.wf(),
            found == self.facts().dom().contains(CachedMatchId { kind, id }),
    {
        proof {
            use_type_invariant(self);
        }
        let key = CachedMatchId { kind, id };
        proof {
            lemma_map_of_dom(self@, key);
        }
        let mut i: usize = 0;
        while i < self.entries.len()
            invariant
                i <= self@.len(),
                self.wf(),
                key == (CachedMatchId { kind, id }),
                forall|k: int| 0 <= k < i ==> (#[trigger] self@[k]).0 != key,
            decreases self@.len() - i,
        {
            let entry_id = self.entries[i].0;
            if entry_id.kind == kind && entry_id.id == id {
                assert(self@[i as int].0 == key);
                proof {
                    lemma_map_of_dom(self@, key);
                }
                return true;
            }
            i = i + 1;
        }
        false
    }

    /// Forgets every replay; the revision moves on.
    pub fn clear(&mut self)
        ensures
            final(self).wf(),
            final(self)@ == Seq::<(CachedMatchId, F)>::empty(),
            final(self).revision_of() == next_revision(old(self).revision_of()),
    {
        self.entries = Vec::new();
        self.revision = if self.revision == u64::MAX {
            0
        } else {
            self.revision + 1
        };
    }

    /// Records the fact of a replay, in place of an earlier fact with the same key; the
    /// revision moves on.
    pub fn record(&mut self, id: CachedMatchId, fact: F)
        ensures
            final(self).wf(),
            final(self).facts() == old(self).facts().insert(id, fact),
            final(self).revision_of() == next_revision(old(self).revision_of()),
    {
        proof {
            use_type_invariant(&*self);
        }
        let mut entries: Vec<(CachedMatchId, F)> = Vec::new();
        std::mem::swap(&mut entries, &mut self.entries);
        place(&mut entries, id, fact);
        self.entries = entries;
        self.revision = if self.revision == u64::MAX {
            0
        } else {
            self.revision + 1
        };
    }

    /// Adds the fact of a replay read back from a cache; a key that is already present means
    /// the cache is corrupt, and the index is left as it was.
    pub fn insert_restored(&mut self, id: CachedMatchId, fact: F) -> (inserted: Result<
        (),
        ReplayError,
    >)
        ensures
            final(self).wf(),
            final(self).revision_of() == old(self).revision_of(),
            old(self).facts().dom().contains(id) ==> (inserted matches Err(ReplayError::Cache(m))
                && m@ == "cache contains duplicate match ids"@ && final(self)@ == old(self)@),
            !old(self).facts().dom().contains(id) ==> inserted is Ok && final(self).facts()
                == old(self).facts().insert(id, fact),
    {
        proof {
            use_type_invariant(&*self);
        }
        if self.contains(id.kind, id.id) {
            return Err(ReplayError::Cache("cache contains duplicate match ids".to_owned()));
        }
        let mut entries: Vec<(CachedMatchId, F)> = Vec::new();
        std::mem::swap(&mut entries, &mut self.entries);
        place(&mut entries, id, fact);
        self.entries = entries;
        Ok(())
    }
}

/// The entries of an index are its facts in key order: each key once, each with its fact.
pub proof fn lemma_entries_are_facts<F>(index: MatchIndex<F>, i: int)
    requires
        index.wf(),
        0 <= i < index@.len(),
    ensures
        index.facts().dom().contains(index@[i].0),
        index.facts()[index@[i].0] == index@[i].1,
        forall|j: int| 0 <= j < index@.len() && j != i ==> index@[j].0 != index@[i].0,
{
    lemma_map_of_value(index@, i);
    assert forall|j: int| 0 <= j < index@.len() && j != i implies index@[j].0 != index@[i].0 by {
        if j < i {
            assert(id_lt(index@[j].0, index@[i].0));
        } else {
            assert(id_lt(index@[i].0, index@[j].0));
        }
    }
}

} // verus!
