//! The resource manager: the single point of mutation and lookup for
//! records. It keeps an id-keyed cache of full records, a sorted preview
//! list mirroring the store, and a transient search-result buffer.

use vstd::prelude::*;
use std::collections::HashMap;
use crate::backend::{ids_of, previews_consistent, views_of, Backend, DatabaseError};
use crate::lok::{preview_of, Lok, LokView};
use crate::preview_lok::{
    lemma_preview_le_total, lemma_preview_le_trans, preview_le, PreviewLok, PreviewView,
};
use crate::text::seq_contains;

verus! {

broadcast use vstd::std_specs::hash::group_hash_axioms;

/// The preview sequence is non-decreasing under the canonical order.
pub open spec fn sorted_le(s: Seq<PreviewView>) -> bool {
    forall|i: int, j: int| 0 <= i <= j < s.len() ==> #[trigger] preview_le(s[i], s[j])
}

/// The sequence with the first entry carrying `id` taken out; a sequence
/// without that id is left unchanged.
pub open spec fn remove_id(s: Seq<PreviewView>, id: u32) -> Seq<PreviewView>
    decreases s.len(),
{
    if s.len() == 0 {
        s
    } else if s[0].id == id {
        s.drop_first()
    } else {
        seq![s[0]] + remove_id(s.drop_first(), id)
    }
}

/// `t` is `s` with `p` placed at the position a stable sort would give it:
/// after every entry that sorts no later than `p`, before all others.
pub open spec fn sorted_insert(s: Seq<PreviewView>, p: PreviewView, t: Seq<PreviewView>) -> bool {
    exists|k: int|
        {
            &&& 0 <= k <= s.len()
            &&& t == s.insert(k, p)
            &&& (forall|j: int| 0 <= j < k ==> preview_le(#[trigger] s[j], p))
            &&& (k < s.len() ==> !preview_le(s[k], p))
        }
}

/// Removing an id a sequence does not hold changes nothing.
pub proof fn lemma_remove_id_absent(s: Seq<PreviewView>, id: u32)
    requires
        forall|i: int| 0 <= i < s.len() ==> (#[trigger] s[i]).id != id,
    ensures
        remove_id(s, id) == s,
    decreases s.len(),
{
    if s.len() > 0 {
        lemma_remove_id_absent(s.drop_first(), id);
        assert(seq![s[0]] + s.drop_first() =~= s);
    }
}

/// When the first entry carrying `id` stands at `k`, removing the id removes
/// exactly that entry.
proof fn lemma_remove_id_found(s: Seq<PreviewView>, id: u32, k: int)
    requires
        0 <= k < s.len(),
        s[k].id == id,
        forall|j: int| 0 <= j < k ==> (#[trigger] s[j]).id != id,
    ensures
        remove_id(s, id) == s.remove(k),
    decreases s.len(),
{
    if k == 0 {
        assert(s.drop_first() =~= s.remove(0));
    } else {
        lemma_remove_id_found(s.drop_first(), id, k - 1);
        assert(seq![s[0]] + s.drop_first().remove(k - 1) =~= s.remove(k));
    }
}

/// A sorted sequence stays sorted when one entry is taken out.
proof fn lemma_sorted_remove(s: Seq<PreviewView>, k: int)
    requires
        sorted_le(s),
        0 <= k < s.len(),
    ensures
        sorted_le(s.remove(k)),
{
    let t = s.remove(k);
    s.remove_ensures(k);
    assert forall|i: int, j: int| 0 <= i <= j < t.len() implies #[trigger] preview_le(
        t[i],
        t[j],
    ) by {
        let si = if i < k {
            i
        } else {
            i + 1
        };
        let sj = if j < k {
            j
        } else {
            j + 1
        };
        assert(t[i] == s[si]);
        assert(t[j] == s[sj]);
    }
}

/// Inserting at the stable position keeps a sorted sequence sorted.
proof fn lemma_sorted_insert(s: Seq<PreviewView>, p: PreviewView, k: int)
    requires
        sorted_le(s),
        0 <= k <= s.len(),
        forall|j: int| 0 <= j < k ==> preview_le(#[trigger] s[j], p),
        k < s.len() ==> !preview_le(s[k], p),
    ensures
        sorted_le(s.insert(k, p)),
{
    let t = s.insert(k, p);
    s.insert_ensures(k, p);
    if k < s.len() {
        lemma_preview_le_total(s[k], p);
    }
    assert forall|i: int, j: int| 0 <= i <= j < t.len() implies #[trigger] preview_le(
        t[i],
        t[j],
    ) by {
        if i == k && j == k {
            lemma_preview_le_total(p, p);
        } else if i < k && j == k {
            assert(t[i] == s[i]);
        } else if i == k && j > k {
            assert(t[j] == s[j - 1]);
            if k < j - 1 {
                lemma_preview_le_trans(p, s[k as int], s[j - 1]);
            }
        } else if i < k && j > k {
            assert(t[i] == s[i] && t[j] == s[j - 1]);
        } else if i > k && j > k {
            assert(t[i] == s[i - 1] && t[j] == s[j - 1]);
        } else {
            assert(t[i] == s[i] && t[j] == s[j]);
        }
    }
}

/// A fresh id, inserted anywhere into a mirror of the store, mirrors the
/// store extended by that id.
proof fn lemma_consistent_insert_fresh(
    s: Seq<PreviewView>,
    m: Map<u32, LokView>,
    id: u32,
    l: LokView,
    k: int,
)
    requires
        previews_consistent(s, m),
        !m.dom().contains(id),
        0 <= k <= s.len(),
    ensures
        previews_consistent(s.insert(k, preview_of(l, id)), m.insert(id, l)),
{
    let p = preview_of(l, id);
    let t = s.insert(k, p);
    let m2 = m.insert(id, l);
    s.insert_ensures(k, p);
    assert forall|i: int|
        0 <= i < t.len() implies m2.dom().contains((#[trigger] t[i]).id) && t[i] == preview_of(
        m2[t[i].id],
        t[i].id,
    ) by {
        if i < k {
            assert(t[i] == s[i]);
        } else if i > k {
            assert(t[i] == s[i - 1]);
        }
    }
    assert forall|i: int, j: int|
        0 <= i < j < t.len() implies (#[trigger] t[i]).id != (#[trigger] t[j]).id by {
        let si = if i < k {
            i
        } else {
            i - 1
        };
        let sj = if j < k {
            j
        } else {
            j - 1
        };
        if i == k {
            assert(t[j] == s[sj]);
        } else if j == k {
            assert(t[i] == s[si]);
        } else {
            assert(t[i] == s[si] && t[j] == s[sj]);
        }
    }
    assert forall|id2: u32| #[trigger]
        m2.dom().contains(id2) implies exists|i: int|
        0 <= i < t.len() && (#[trigger] t[i]).id == id2 by {
        if id2 == id {
            assert(t[k].id == id2);
        } else {
            let i = choose|i: int| 0 <= i < s.len() && (#[trigger] s[i]).id == id2;
            if i < k {
                assert(t[i].id == id2);
            } else {
                assert(t[i + 1].id == id2);
            }
        }
    }
}

/// Taking the entry under an id out of a mirror of the store mirrors the
/// store with that id removed.
proof fn lemma_consistent_remove(s: Seq<PreviewView>, m: Map<u32, LokView>, id: u32, k: int)
    requires
        previews_consistent(s, m),
        0 <= k < s.len(),
        s[k].id == id,
    ensures
        previews_consistent(s.remove(k), m.remove(id)),
{
    let t = s.remove(k);
    let m2 = m.remove(id);
    s.remove_ensures(k);
    assert forall|i: int|
        0 <= i < t.len() implies m2.dom().contains((#[trigger] t[i]).id) && t[i] == preview_of(
        m2[t[i].id],
        t[i].id,
    ) by {
        let si = if i < k {
            i
        } else {
            i + 1
        };
        assert(t[i] == s[si]);
        assert(s[si].id != id);
    }
    assert forall|i: int, j: int|
        0 <= i < j < t.len() implies (#[trigger] t[i]).id != (#[trigger] t[j]).id by {
        let si = if i < k {
            i
        } else {
            i + 1
        };
        let sj = if j < k {
            j
        } else {
            j + 1
        };
        assert(t[i] == s[si] && t[j] == s[sj]);
    }
    assert forall|id2: u32| #[trigger]
        m2.dom().contains(id2) implies exists|i: int|
        0 <= i < t.len() && (#[trigger] t[i]).id == id2 by {
        let i = choose|i: int| 0 <= i < s.len() && (#[trigger] s[i]).id == id2;
        if i < k {
            assert(t[i].id == id2);
        } else {
            assert(i != k);
            assert(t[i - 1].id == id2);
        }
    }
}

/// The state of a partially rebuilt preview list: the first `i` raw
/// previews, re-ordered, one entry each.
spec fn partial_mirror(
    sv: Seq<PreviewView>,
    rv: Seq<PreviewView>,
    m: Map<u32, LokView>,
    i: int,
) -> bool {
    &&& sv.len() == i
    &&& forall|a: int|
        0 <= a < sv.len() ==> m.dom().contains((#[trigger] sv[a]).id) && sv[a] == preview_of(
            m[sv[a].id],
            sv[a].id,
        )
    &&& forall|a: int, b: int|
        0 <= a < b < sv.len() ==> (#[trigger] sv[a]).id != (#[trigger] sv[b]).id
    &&& forall|a: int|
        0 <= a < sv.len() ==> exists|b: int| 0 <= b < i && (#[trigger] sv[a]).id == rv[b].id
    &&& forall|b: int|
        0 <= b < i ==> exists|a: int| 0 <= a < sv.len() && (#[trigger] rv[b]).id == sv[a].id
}

/// Inserting the next raw preview anywhere extends a partial mirror by one.
#[verifier::rlimit(100)]
#[verifier::spinoff_prover]
proof fn lemma_build_step(
    sv0: Seq<PreviewView>,
    sv: Seq<PreviewView>,
    rv: Seq<PreviewView>,
    m: Map<u32, LokView>,
    i: int,
    k: int,
)
    requires
        previews_consistent(rv, m),
        0 <= i < rv.len(),
        partial_mirror(sv0, rv, m, i),
        0 <= k <= sv0.len(),
        sv == sv0.insert(k, rv[i]),
    ensures
        partial_mirror(sv, rv, m, i + 1),
{
    sv0.insert_ensures(k, rv[i]);
    assert forall|a: int|
        0 <= a < i + 1 implies m.dom().contains((#[trigger] sv[a]).id) && sv[a] == preview_of(
        m[sv[a].id],
        sv[a].id,
    ) by {
        if a < k {
            assert(sv[a] == sv0[a]);
        } else if a > k {
            assert(sv[a] == sv0[a - 1]);
        } else {
            assert(sv[a] == rv[i]);
        }
    }
    assert forall|a: int|
        0 <= a < i + 1 implies exists|b: int| 0 <= b < i + 1 && (#[trigger] sv[a]).id
        == rv[b].id by {
        if a < k {
            assert(sv[a] == sv0[a]);
            let b = choose|b: int| 0 <= b < i && (#[trigger] sv0[a]).id == rv[b].id;
            assert(sv[a].id == rv[b].id);
        } else if a > k {
            assert(sv[a] == sv0[a - 1]);
            let b = choose|b: int| 0 <= b < i && (#[trigger] sv0[a - 1]).id == rv[b].id;
            assert(sv[a].id == rv[b].id);
        } else {
            assert(sv[a].id == rv[i].id);
        }
    }
    assert forall|a: int, b: int|
        0 <= a < b < i + 1 implies (#[trigger] sv[a]).id != (#[trigger] sv[b]).id by {
        assert forall|a2: int| 0 <= a2 < i implies (#[trigger] sv0[a2]).id != rv[i].id by {
            let b2 = choose|b2: int| 0 <= b2 < i && (#[trigger] sv0[a2]).id == rv[b2].id;
        }
        if a < k {
            assert(sv[a] == sv0[a]);
        } else if a > k {
            assert(sv[a] == sv0[a - 1]);
        }
        if b < k {
            assert(sv[b] == sv0[b]);
        } else if b > k {
            assert(sv[b] == sv0[b - 1]);
        }
    }
    assert forall|b: int|
        0 <= b < i + 1 implies exists|a: int| 0 <= a < i + 1 && (#[trigger] rv[b]).id
        == sv[a].id by {
        if b < i {
            let a = choose|a: int| 0 <= a < i && (#[trigger] rv[b]).id == sv0[a].id;
            if a < k {
                assert(sv[a].id == rv[b].id);
            } else {
                assert(sv[a + 1].id == rv[b].id);
            }
        } else {
            assert(sv[k].id == rv[b].id);
        }
    }
}

/// A mirror of the store has exactly one entry per row.
proof fn lemma_consistent_len(s: Seq<PreviewView>, m: Map<u32, LokView>)
    requires
        previews_consistent(s, m),
        m.dom().finite(),
    ensures
        s.len() == m.dom().len(),
        ids_of(s).to_set() == m.dom(),
{
    let ids = ids_of(s);
    assert(ids.no_duplicates()) by {
        assert forall|i: int, j: int|
            0 <= i < ids.len() && 0 <= j < ids.len() && i != j implies ids[i] != ids[j] by {
            assert(ids[i] == s[i].id && ids[j] == s[j].id);
        }
    }
    assert(ids.to_set() =~= m.dom()) by {
        assert forall|id: u32| #[trigger] m.dom().contains(id) implies ids.to_set().contains(
            id,
        ) by {
            let i = choose|i: int| 0 <= i < s.len() && (#[trigger] s[i]).id == id;
            assert(ids[i] == id);
        }
        assert forall|id: u32| #[trigger] ids.to_set().contains(id) implies m.dom().contains(
            id,
        ) by {
            let i = choose|i: int| 0 <= i < ids.len() && ids[i] == id;
            assert(s[i].id == id);
        }
    }
    ids.unique_seq_to_set();
}

/// Finds the stable insertion position for `p`: the index of the first entry
/// that sorts strictly after `p`.
fn lower_split(v: &Vec<PreviewLok>, p: &PreviewLok) -> (k: usize)
    ensures
        k <= v@.len(),
        forall|j: int| 0 <= j < k ==> preview_le(#[trigger] views_of(v@)[j], p@),
        k < v@.len() ==> !preview_le(views_of(v@)[k as int], p@),
{
    let len = v.len();
    let mut k: usize = 0;
    loop
        invariant
            k <= len,
            len == v@.len(),
            forall|j: int| 0 <= j < k ==> preview_le(#[trigger] views_of(v@)[j], p@),
        decreases len - k,
    {
        if k == len {
            return k;
        }
        if !v[k].cmp_le(p) {
            return k;
        }
        k = k + 1;
    }
}

/// Inserts `p` into a sorted vector at the position a stable sort would
/// give it, and returns that position.
fn insert_sorted(v: &mut Vec<PreviewLok>, p: PreviewLok) -> (k: usize)
    requires
        sorted_le(views_of(old(v)@)),
        old(v)@.len() < usize::MAX,
    ensures
        k <= old(v)@.len(),
        final(v)@ == old(v)@.insert(k as int, p),
        views_of(final(v)@) == views_of(old(v)@).insert(k as int, p@),
        forall|j: int| 0 <= j < k ==> preview_le(#[trigger] views_of(old(v)@)[j], p@),
        k < old(v)@.len() ==> !preview_le(views_of(old(v)@)[k as int], p@),
        sorted_le(views_of(final(v)@)),
        sorted_insert(views_of(old(v)@), p@, views_of(final(v)@)),
{
    let k = lower_split(v, &p);
    let ghost s0 = v@;
    v.insert(k, p);
    proof {
        assert(views_of(v@) =~= views_of(s0).insert(k as int, p@)) by {
            s0.insert_ensures(k as int, p);
            views_of(s0).insert_ensures(k as int, p@);
        }
        lemma_sorted_insert(views_of(s0), p@, k as int);
    }
    k
}

/// The resource manager: orchestrates the store, the id-keyed record cache,
/// the sorted preview cache, and the last search's result buffer.
///
/// A clone of the manager is an independent snapshot: its caches no longer
/// track mutations made through the original handle, so all mutations must
/// go through one canonical handle.
#[derive(Clone)]
pub struct LokResourceManager<BE: Backend> {
    backend: BE,
    cache: HashMap<u32, Lok>,
    preview_cache: Vec<PreviewLok>,
    search_results: Vec<PreviewLok>,
}

impl<BE: Backend> LokResourceManager<BE> {
    /// The rows the store holds.
    pub closed spec fn store(self) -> Map<u32, LokView> {
        self.backend.store()
    }

    /// The records the cache holds.
    pub closed spec fn cached(self) -> Map<u32, LokView> {
        self.cache@.map_values(|l: Lok| l@)
    }

    /// The preview cache, in order.
    pub closed spec fn previews(self) -> Seq<PreviewView> {
        views_of(self.preview_cache@)
    }

    /// The search buffer, in order.
    pub closed spec fn results(self) -> Seq<PreviewView> {
        views_of(self.search_results@)
    }

    /// Well-formedness: the preview cache is sorted and mirrors the store
    /// exactly, and the record cache never disagrees with the store on an id
    /// both hold.
    pub closed spec fn wf(self) -> bool {
        &&& sorted_le(self.previews())
        &&& previews_consistent(self.previews(), self.store())
        &&& (forall|id: u32|
            self.cached().dom().contains(id) && self.store().dom().contains(id)
                ==> #[trigger] self.cached()[id] == self.store()[id])
        &&& self.previews().len() <= u32::MAX as nat
        &&& self.store().dom().finite()
    }

    /// Ordering invariant: a well-formed manager's preview cache is
    /// non-decreasing under the canonical order.
    pub proof fn lemma_ordering_invariant(self)
        requires
            self.wf(),
        ensures
            sorted_le(self.previews()),
    {
    }

    /// Set-consistency invariant: the ids in the preview cache are, as a
    /// set, exactly the ids in the store, one entry per row.
    pub proof fn lemma_set_consistency(self)
        requires
            self.wf(),
        ensures
            ids_of(self.previews()).to_set() == self.store().dom(),
            self.previews().len() == self.store().dom().len(),
    {
        lemma_consistent_len(self.previews(), self.store());
    }

    /// Idempotence of remove: an id that neither the store nor the cache
    /// holds appears in no preview either, so removing it leaves the store,
    /// the cache and the preview cache of a well-formed manager exactly as
    /// they were.
    pub proof fn lemma_remove_absent_id(self, id: u32)
        requires
            self.wf(),
            !self.store().dom().contains(id),
            !self.cached().dom().contains(id),
        ensures
            self.store().remove(id) == self.store(),
            self.cached().remove(id) == self.cached(),
            remove_id(self.previews(), id) == self.previews(),
    {
        assert(self.store().remove(id) =~= self.store());
        assert(self.cached().remove(id) =~= self.cached());
        assert forall|i: int|
            0 <= i < self.previews().len() implies (#[trigger] self.previews()[i]).id != id by {}
        lemma_remove_id_absent(self.previews(), id);
    }

    /// Builds a manager on a store reached under `db_url`: opens or creates
    /// the store and loads the full preview list, sorted. A store error is
    /// propagated; the caches start empty.
    #[verifier::rlimit(60)]
    pub fn build(db_url: &str) -> (r: Result<Self, DatabaseError>)
        ensures
            match r {
                Ok(m) => {
                    &&& m.wf()
                    &&& m.cached() == Map::<u32, LokView>::empty()
                    &&& m.results() == Seq::<PreviewView>::empty()
                },
                Err(_) => true,
            },
    {
        let backend = match BE::build(db_url) {
            Ok(b) => b,
            Err(e) => {
                return Err(e);
            },
        };
        let raw = backend.get_all_previews();
        if raw.len() > u32::MAX as usize {
            return Err(
                DatabaseError::GeneralError(String::from_str("store holds more rows than a count can carry")),
            );
        }
        let ghost rv = views_of(raw@);
        let ghost m = backend.store();
        let mut sorted: Vec<PreviewLok> = Vec::new();
        let len = raw.len();
        let mut i: usize = 0;
        while i < len
            invariant
                i <= len,
                len == raw@.len(),
                len <= u32::MAX as usize,
                rv == views_of(raw@),
                m == backend.store(),
                previews_consistent(rv, m),
                sorted_le(views_of(sorted@)),
                partial_mirror(views_of(sorted@), rv, m, i as int),
            decreases len - i,
        {
            let ghost sv0 = views_of(sorted@);
            let p = (&raw[i]).clone();
            assert(p@ == rv[i as int]);
            let k = insert_sorted(&mut sorted, p);
            proof {
                lemma_build_step(sv0, views_of(sorted@), rv, m, i as int, k as int);
            }
            i = i + 1;
        }
        proof {
            let sv = views_of(sorted@);
            assert(previews_consistent(sv, m)) by {
                assert forall|id: u32| #[trigger]
                    m.dom().contains(id) implies exists|a: int|
                    0 <= a < sv.len() && (#[trigger] sv[a]).id == id by {
                    let b = choose|b: int| 0 <= b < rv.len() && (#[trigger] rv[b]).id == id;
                    let a = choose|a: int| 0 <= a < len && (#[trigger] rv[b]).id == sv[a].id;
                    assert(sv[a].id == id);
                }
            }
        }
        Ok(
            LokResourceManager {
                backend,
                cache: HashMap::new(),
                preview_cache: sorted,
                search_results: Vec::new(),
            },
        )
    }

    /// Adds a new record: the store assigns a fresh id, the record enters
    /// the cache under that id, and its preview enters the preview cache at
    /// its sorted position. Returns the assigned id. The search buffer is
    /// left untouched and may go stale.
    pub fn add_lok(&mut self, lok: Lok) -> (id: u32)
        requires
            old(self).wf(),
            old(self).previews().len() < u32::MAX as nat,
        ensures
            final(self).wf(),
            !old(self).store().dom().contains(id),
            final(self).store() == old(self).store().insert(id, lok@),
            final(self).cached() == old(self).cached().insert(id, lok@),
            sorted_insert(old(self).previews(), preview_of(lok@, id), final(self).previews()),
            final(self).previews().len() == old(self).previews().len() + 1,
            final(self).results() == old(self).results(),
    {
        proof {
            lemma_consistent_len(old(self).previews(), old(self).store());
        }
        let id = self.backend.insert(lok.clone());
        self.cache.insert(id, lok.clone());
        let preview = lok.as_preview_lok(id);
        let ghost sv0 = views_of(self.preview_cache@);
        let k = insert_sorted(&mut self.preview_cache, preview);
        proof {
            lemma_consistent_insert_fresh(
                sv0,
                old(self).store(),
                id,
                lok@,
                k as int,
            );
            assert(self.cached() =~= old(self).cached().insert(id, lok@));
        }
        id
    }

    /// Looks a record up by id: a cache hit is answered from the cache with
    /// nothing else touched; on a miss the store is asked, a found record is
    /// cached and returned, and an id the store lacks leaves everything
    /// unchanged.
    pub fn get_lok(&mut self, id: u32) -> (r: Option<Lok>)
        requires
            old(self).wf(),
        ensures
            final(self).wf(),
            final(self).store() == old(self).store(),
            final(self).previews() == old(self).previews(),
            final(self).results() == old(self).results(),
            match r {
                Some(l) => {
                    if old(self).cached().dom().contains(id) {
                        &&& l@ == old(self).cached()[id]
                        &&& final(self).cached() == old(self).cached()
                    } else {
                        &&& old(self).store().dom().contains(id)
                        &&& l@ == old(self).store()[id]
                        &&& final(self).cached() == old(self).cached().insert(id, l@)
                    }
                },
                None => {
                    &&& !old(self).cached().dom().contains(id)
                    &&& !old(self).store().dom().contains(id)
                    &&& final(self).cached() == old(self).cached()
                },
            },
    {
        match self.cache.get(&id) {
            Some(lok) => Some(lok.clone()),
            None => {
                match self.backend.get(id) {
                    Some(lok) => {
                        self.cache.insert(id, lok.clone());
                        proof {
                            assert(self.cached() =~= old(self).cached().insert(id, lok@));
                        }
                        Some(lok)
                    },
                    None => None,
                }
            },
        }
    }

    /// Removes a record everywhere: from the cache, from the preview cache
    /// (keeping it sorted), and from the store. Removing an id nothing holds
    /// changes nothing and does not fail.
    pub fn remove_lok(&mut self, id: u32)
        requires
            old(self).wf(),
        ensures
            final(self).wf(),
            final(self).store() == old(self).store().remove(id),
            final(self).cached() == old(self).cached().remove(id),
            final(self).previews() == remove_id(old(self).previews(), id),
            final(self).results() == old(self).results(),
    {
        self.cache.remove(&id);
        proof {
            assert(self.cached() =~= old(self).cached().remove(id));
        }
        let index = self.find_preview_index(id);
        let ghost pc0 = self.preview_cache@;
        let ghost sv0 = views_of(self.preview_cache@);
        match index {
            Some(index) => {
                let ghost k = index as int;
                self.preview_cache.remove(index as usize);
                proof {
                    assert(views_of(self.preview_cache@) =~= sv0.remove(k)) by {
                        pc0.remove_ensures(k);
                        sv0.remove_ensures(k);
                    }
                    lemma_remove_id_found(sv0, id, k);
                    lemma_sorted_remove(sv0, k);
                    lemma_consistent_remove(sv0, old(self).store(), id, k);
                }
            },
            None => {
                proof {
                    lemma_remove_id_absent(sv0, id);
                    assert(old(self).store().remove(id) =~= old(self).store()) by {
                        if old(self).store().dom().contains(id) {
                            let i = choose|i: int|
                                0 <= i < sv0.len() && (#[trigger] sv0[i]).id == id;
                        }
                    }
                }
            },
        }
        self.backend.remove(id);
    }

    /// Updates the record under an id: the cache takes the new record
    /// whether or not it held one, and an id the store holds gets its row
    /// overwritten and its preview re-derived and re-sorted. An id the store
    /// lacks leaves store and preview cache unchanged.
    pub fn update_lok(&mut self, id: u32, new_lok: Lok)
        requires
            old(self).wf(),
        ensures
            final(self).wf(),
            final(self).cached() == old(self).cached().insert(id, new_lok@),
            final(self).results() == old(self).results(),
            old(self).store().dom().contains(id) ==> {
                &&& final(self).store() == old(self).store().insert(id, new_lok@)
                &&& sorted_insert(
                    remove_id(old(self).previews(), id),
                    preview_of(new_lok@, id),
                    final(self).previews(),
                )
            },
            !old(self).store().dom().contains(id) ==> {
                &&& final(self).store() == old(self).store()
                &&& final(self).previews() == old(self).previews()
            },
    {
        self.cache.insert(id, new_lok.clone());
        proof {
            assert(self.cached() =~= old(self).cached().insert(id, new_lok@));
        }
        let index = self.find_preview_index(id);
        let ghost pc0 = self.preview_cache@;
        let ghost sv0 = views_of(self.preview_cache@);
        match index {
            Some(index) => {
                let ghost k = index as int;
                self.preview_cache.remove(index as usize);
                let preview = new_lok.as_preview_lok(id);
                proof {
                    assert(views_of(self.preview_cache@) =~= sv0.remove(k)) by {
                        pc0.remove_ensures(k);
                        sv0.remove_ensures(k);
                    }
                    lemma_remove_id_found(sv0, id, k);
                    lemma_sorted_remove(sv0, k);
                    lemma_consistent_remove(sv0, old(self).store(), id, k);
                }
                let ghost sv1 = views_of(self.preview_cache@);
                let k2 = insert_sorted(&mut self.preview_cache, preview);
                proof {
                    lemma_consistent_insert_fresh(
                        sv1,
                        old(self).store().remove(id),
                        id,
                        new_lok@,
                        k2 as int,
                    );
                    assert(old(self).store().remove(id).insert(id, new_lok@) =~= old(
                        self,
                    ).store().insert(id, new_lok@));
                }
            },
            None => {
                proof {
                    if old(self).store().dom().contains(id) {
                        let i = choose|i: int|
                            0 <= i < sv0.len() && (#[trigger] sv0[i]).id == id;
                        assert(false);
                    }
                }
            },
        }
        self.backend.update(id, &new_lok);
    }

    /// A copy of the whole preview cache, in sorted order.
    pub fn get_all_previews(&self) -> (r: Vec<PreviewLok>)
        requires
            self.wf(),
        ensures
            views_of(r@) == self.previews(),
    {
        clone_previews(&self.preview_cache)
    }

    /// Finds the position of an id in the preview cache by linear scan.
    fn find_preview_index(&self, id: u32) -> (r: Option<u32>)
        requires
            self.previews().len() <= u32::MAX as nat,
        ensures
            match r {
                Some(k) => {
                    &&& (k as nat) < self.previews().len()
                    &&& self.previews()[k as int].id == id
                    &&& forall|j: int|
                        0 <= j < k ==> (#[trigger] self.previews()[j]).id != id
                },
                None => forall|i: int|
                    0 <= i < self.previews().len() ==> (#[trigger] self.previews()[i]).id != id,
            },
    {
        let len = self.preview_cache.len();
        let mut index: u32 = 0;
        loop
            invariant
                index as nat <= self.previews().len(),
                len == self.preview_cache@.len(),
                self.previews().len() <= u32::MAX as nat,
                forall|j: int| 0 <= j < index ==> (#[trigger] self.previews()[j]).id != id,
            decreases len - index,
        {
            if (index as usize) == len {
                return None;
            }
            if self.preview_cache[index as usize].get_id() == id {
                return Some(index);
            }
            index = index + 1;
        }
    }

    /// The number of previews currently cached, which for a well-formed
    /// manager is the store's row count.
    pub fn number_of_loks(&self) -> (r: u32)
        requires
            self.wf(),
        ensures
            r as nat == self.previews().len(),
    {
        self.preview_cache.len() as u32
    }

    /// The number of records the cache currently holds.
    pub fn number_of_cached_loks(&self) -> (r: usize)
        ensures
            r as nat == self.cached().dom().len(),
    {
        proof {
            assert(self.cached().dom() =~= self.cache@.dom());
        }
        self.cache.len()
    }

    /// Filters the preview cache by substring containment of `search` in
    /// each preview's search string and stores the matches, in order, as the
    /// new search buffer. The search string is lowercase-folded at
    /// construction; the caller folds the query.
    pub fn search_and_store_previews_containing(&mut self, search: String)
        requires
            old(self).wf(),
        ensures
            final(self).wf(),
            final(self).store() == old(self).store(),
            final(self).cached() == old(self).cached(),
            final(self).previews() == old(self).previews(),
            final(self).results() == old(self).previews().filter(
                |p: PreviewView| seq_contains(p.search_text, search@),
            ),
    {
        let ghost pred = |p: PreviewView| seq_contains(p.search_text, search@);
        let len = self.preview_cache.len();
        let mut out: Vec<PreviewLok> = Vec::new();
        let mut i: usize = 0;
        while i < len
            invariant
                i <= len,
                len == self.preview_cache@.len(),
                old(self).wf(),
                self.store() == old(self).store(),
                self.cached() == old(self).cached(),
                self.previews() == old(self).previews(),
                views_of(out@) == views_of(self.preview_cache@.subrange(0, i as int)).filter(
                    pred,
                ),
                pred == (|p: PreviewView| seq_contains(p.search_text, search@)),
            decreases len - i,
        {
            let ghost prefix = views_of(self.preview_cache@.subrange(0, i as int));
            let ghost prefix2 = views_of(self.preview_cache@.subrange(0, i as int + 1));
            let p = &self.preview_cache[i];
            if p.matches_search(search.as_str()) {
                out.push(p.clone());
            }
            proof {
                assert(prefix2.drop_last() =~= prefix);
                assert(prefix2.last() == p@);
                reveal_with_fuel(Seq::filter, 2);
                assert(views_of(out@) =~= prefix2.filter(pred));
            }
            i = i + 1;
        }
        proof {
            assert(self.preview_cache@.subrange(0, len as int) =~= self.preview_cache@);
        }
        self.search_results = out;
    }

    /// A copy of the search buffer: the matches of the last search, in
    /// order. Mutations do not refresh it; re-issue the search for a fresh
    /// view.
    pub fn get_search_results(&self) -> (r: Vec<PreviewLok>)
        ensures
            views_of(r@) == self.results(),
    {
        clone_previews(&self.search_results)
    }
}

/// An element-wise copy of a preview vector.
fn clone_previews(v: &Vec<PreviewLok>) -> (r: Vec<PreviewLok>)
    ensures
        r@ == v@,
{
    let len = v.len();
    let mut r: Vec<PreviewLok> = Vec::new();
    let mut i: usize = 0;
    while i < len
        invariant
            i <= len,
            len == v@.len(),
            r@ == v@.subrange(0, i as int),
        decreases len - i,
    {
        r.push((&v[i]).clone());
        proof {
            assert(r@ =~= v@.subrange(0, i as int + 1));
        }
        i = i + 1;
    }
    proof {
        assert(v@.subrange(0, len as int) =~= v@);
    }
    r
}

} // verus!

