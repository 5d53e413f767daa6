//! The subscription repository: records keyed by push target, with a
//! secondary index from cell key to the targets located in that cell.
use vstd::prelude::*;
use crate::geohash::{encode, geohash_of, keys_of, PRECISION};
use crate::models::{lemma_without, without, GeoHashIndex, Subscription};

verus! {

/// The cell key of a subscription's location.
pub open spec fn cell_of(s: Subscription) -> Seq<char> {
    geohash_of(s.latitude as int, s.longitude as int, PRECISION as nat)
}

pub open spec fn ids_of(entries: Seq<Subscription>) -> Seq<Seq<char>> {
    entries.map_values(|s: Subscription| s.bark_id@)
}

/// The targets located in cell `key`, in the order of `entries`.
pub open spec fn ids_in_cell(entries: Seq<Subscription>, key: Seq<char>) -> Seq<Seq<char>>
    decreases entries.len(),
{
    if entries.len() == 0 {
        seq![]
    } else {
        let rest = ids_in_cell(entries.drop_last(), key);
        if cell_of(entries.last()) == key {
            rest.push(entries.last().bark_id@)
        } else {
            rest
        }
    }
}

/// Where the subscription of `id` stands among `entries`.
pub open spec fn position_of(entries: Seq<Subscription>, id: Seq<char>) -> int {
    ids_of(entries).index_of(id)
}

/// The subscription of `id`, if any.
pub open spec fn lookup(entries: Seq<Subscription>, id: Seq<char>) -> Option<Subscription> {
    if ids_of(entries).contains(id) {
        Some(entries[position_of(entries, id)])
    } else {
        None
    }
}

/// The records after an upsert of `s`: a record of the same target is
/// replaced in place while it stays in its cell, and otherwise leaves its
/// place for the end; a new target goes at the end.
pub open spec fn upserted(entries: Seq<Subscription>, s: Subscription) -> Seq<Subscription> {
    if ids_of(entries).contains(s.bark_id@) {
        let i = position_of(entries, s.bark_id@);
        if cell_of(entries[i]) == cell_of(s) {
            entries.update(i, s)
        } else {
            entries.remove(i).push(s)
        }
    } else {
        entries.push(s)
    }
}

/// Error of the repository's direct operations.
#[derive(Debug, Clone, Copy, PartialEq, Eq, Structural)]
pub enum StoreError {
    /// No subscription of that push target.
    NotFound,
}

/// One index entry: a cell key and the targets located in it.
#[derive(Debug)]
pub struct GeoCell {
    pub key: String,
    pub index: GeoHashIndex,
}

pub open spec fn cell_keys(cells: Seq<GeoCell>) -> Seq<Seq<char>> {
    cells.map_values(|c: GeoCell| c.key@)
}

/// The index `cells` describes exactly the records `entries`.
pub open spec fn cells_match(cells: Seq<GeoCell>, entries: Seq<Subscription>) -> bool {
    &&& cell_keys(cells).no_duplicates()
    &&& forall|c: int|
        0 <= c < cells.len() ==> #[trigger] cells[c].index.ids() == ids_in_cell(entries, cells[c].key@)
            && cells[c].index.ids().len() > 0
    &&& forall|i: int| 0 <= i < entries.len() ==> cell_keys(cells).contains(#[trigger] cell_of(entries[i]))
}

proof fn lemma_ids_of_push(e: Seq<Subscription>, s: Subscription)
    ensures
        ids_of(e.push(s)) == ids_of(e).push(s.bark_id@),
{
    assert(ids_of(e.push(s)) =~= ids_of(e).push(s.bark_id@));
}

proof fn lemma_cell_push(e: Seq<Subscription>, s: Subscription, key: Seq<char>)
    ensures
        ids_in_cell(e.push(s), key) == if cell_of(s) == key {
            ids_in_cell(e, key).push(s.bark_id@)
        } else {
            ids_in_cell(e, key)
        },
{
    assert(e.push(s).drop_last() =~= e);
}

proof fn lemma_cell_members(e: Seq<Subscription>, key: Seq<char>)
    ensures
        forall|x: Seq<char>|
            ids_in_cell(e, key).contains(x) <==> exists|j: int|
                0 <= j < e.len() && e[j].bark_id@ == x && cell_of(e[j]) == key,
        ids_of(e).no_duplicates() ==> ids_in_cell(e, key).no_duplicates(),
    decreases e.len(),
{
    if e.len() > 0 {
        let p = e.drop_last();
        let r = ids_in_cell(p, key);
        lemma_cell_members(p, key);
        assert forall|x: Seq<char>|
            ids_in_cell(e, key).contains(x) <==> exists|j: int|
                0 <= j < e.len() && e[j].bark_id@ == x && cell_of(e[j]) == key by {
            if ids_in_cell(e, key).contains(x) {
                let k = choose|k: int| 0 <= k < ids_in_cell(e, key).len() && ids_in_cell(e, key)[k] == x;
                if k < r.len() {
                    assert(r[k] == x);
                    assert(r.contains(x));
                    let j = choose|j: int| 0 <= j < p.len() && p[j].bark_id@ == x && cell_of(p[j]) == key;
                    assert(e[j] == p[j]);
                } else {
                    assert(e[e.len() - 1].bark_id@ == x);
                }
            }
            if exists|j: int| 0 <= j < e.len() && e[j].bark_id@ == x && cell_of(e[j]) == key {
                let j = choose|j: int| 0 <= j < e.len() && e[j].bark_id@ == x && cell_of(e[j]) == key;
                if j < e.len() - 1 {
                    assert(p[j] == e[j]);
                    assert(r.contains(x));
                    let k = choose|k: int| 0 <= k < r.len() && r[k] == x;
                    assert(ids_in_cell(e, key)[k] == x);
                } else {
                    assert(ids_in_cell(e, key)[r.len() as int] == x);
                }
            }
        }
        if ids_of(e).no_duplicates() {
            assert(ids_of(p) =~= ids_of(e).drop_last());
            assert(ids_of(p).no_duplicates());
            if cell_of(e.last()) == key {
                if r.contains(e.last().bark_id@) {
                    let j = choose|j: int|
                        0 <= j < p.len() && p[j].bark_id@ == e.last().bark_id@ && cell_of(p[j]) == key;
                    assert(ids_of(e)[j] == ids_of(e)[e.len() - 1]);
                }
            }
        }
    }
}

proof fn lemma_cell_update(e: Seq<Subscription>, i: int, s: Subscription, key: Seq<char>)
    requires
        0 <= i < e.len(),
        e[i].bark_id@ == s.bark_id@,
        cell_of(e[i]) == cell_of(s),
    ensures
        ids_in_cell(e.update(i, s), key) == ids_in_cell(e, key),
    decreases e.len(),
{
    let u = e.update(i, s);
    if i < e.len() - 1 {
        assert(u.drop_last() =~= e.drop_last().update(i, s));
        lemma_cell_update(e.drop_last(), i, s, key);
    } else {
        assert(u.drop_last() =~= e.drop_last());
    }
}

proof fn lemma_cell_remove(e: Seq<Subscription>, i: int, key: Seq<char>)
    requires
        0 <= i < e.len(),
        ids_of(e).no_duplicates(),
    ensures
        ids_in_cell(e.remove(i), key) == if cell_of(e[i]) == key {
            without(ids_in_cell(e, key), e[i].bark_id@)
        } else {
            ids_in_cell(e, key)
        },
    decreases e.len(),
{
    let id = e[i].bark_id@;
    let p = e.drop_last();
    let l = e.last();
    let r = ids_in_cell(p, key);
    assert(ids_of(p) =~= ids_of(e).drop_last());
    assert(ids_of(p).no_duplicates());
    lemma_cell_members(p, key);
    lemma_without(r, id);
    if i == e.len() - 1 {
        assert(e.remove(i) =~= p);
        if cell_of(e[i]) == key {
            if r.contains(id) {
                let j = choose|j: int| 0 <= j < p.len() && p[j].bark_id@ == id && cell_of(p[j]) == key;
                assert(ids_of(e)[j] == ids_of(e)[i]);
            }
            assert(r.push(id).drop_last() =~= r);
            assert(without(r.push(id), id) == without(r, id));
        }
    } else {
        let q = e.remove(i);
        assert(q.drop_last() =~= p.remove(i));
        assert(q.last() == l);
        assert(p[i] == e[i]);
        lemma_cell_remove(p, i, key);
        assert(ids_of(e)[i] != ids_of(e)[e.len() - 1]);
        assert(l.bark_id@ != id);
        if cell_of(l) == key {
            assert(ids_in_cell(q, key) == ids_in_cell(p.remove(i), key).push(l.bark_id@));
            assert(ids_in_cell(e, key) == r.push(l.bark_id@));
            assert(r.push(l.bark_id@).drop_last() =~= r);
            assert(without(r.push(l.bark_id@), id) == without(r, id).push(l.bark_id@));
        } else {
            assert(ids_in_cell(q, key) == ids_in_cell(p.remove(i), key));
        }
    }
}

/// With distinct targets, the target `id` stands at `i` exactly.
proof fn lemma_position(e: Seq<Subscription>, i: int)
    requires
        0 <= i < e.len(),
        ids_of(e).no_duplicates(),
    ensures
        ids_of(e).contains(e[i].bark_id@),
        position_of(e, e[i].bark_id@) == i,
{
    let ids = ids_of(e);
    assert(ids[i] == e[i].bark_id@);
    let k = ids.index_of(e[i].bark_id@);
    assert(ids[k] == ids[i]);
}

proof fn lemma_remove_ids(e: Seq<Subscription>, i: int)
    requires
        0 <= i < e.len(),
        ids_of(e).no_duplicates(),
    ensures
        ids_of(e.remove(i)) == ids_of(e).remove(i),
        ids_of(e.remove(i)).no_duplicates(),
        !ids_of(e.remove(i)).contains(e[i].bark_id@),
{
    assert(ids_of(e.remove(i)) =~= ids_of(e).remove(i));
    let r = ids_of(e).remove(i);
    assert forall|a: int, b: int| 0 <= a < b < r.len() implies r[a] != r[b] by {
        let a2 = if a < i { a } else { a + 1 };
        let b2 = if b < i { b } else { b + 1 };
        assert(r[a] == ids_of(e)[a2]);
        assert(r[b] == ids_of(e)[b2]);
    }
    if r.contains(e[i].bark_id@) {
        let a = choose|a: int| 0 <= a < r.len() && r[a] == e[i].bark_id@;
        let a2 = if a < i { a } else { a + 1 };
        assert(ids_of(e)[a2] == ids_of(e)[i]);
    }
}

/// Once the subscription of `id` is deleted, looking `id` up finds nothing.
pub proof fn lemma_deleted_not_found(e: Seq<Subscription>, id: Seq<char>)
    requires
        ids_of(e).no_duplicates(),
        ids_of(e).contains(id),
    ensures
        lookup(e.remove(position_of(e, id)), id) is None,
{
    let i = position_of(e, id);
    assert(ids_of(e)[i] == id);
    lemma_remove_ids(e, i);
}

/// After an upsert, looking the target up gives the subscription just written.
pub proof fn lemma_upsert_then_lookup(e: Seq<Subscription>, s: Subscription)
    requires
        ids_of(e).no_duplicates(),
    ensures
        lookup(upserted(e, s), s.bark_id@) == Some(s),
        ids_of(upserted(e, s)).no_duplicates(),
{
    let u = upserted(e, s);
    if ids_of(e).contains(s.bark_id@) {
        let i = position_of(e, s.bark_id@);
        assert(ids_of(e)[i] == s.bark_id@);
        if cell_of(e[i]) == cell_of(s) {
            assert(ids_of(u) =~= ids_of(e));
            lemma_position(u, i);
        } else {
            lemma_remove_ids(e, i);
            let r = e.remove(i);
            lemma_ids_of_push(r, s);
            let q = ids_of(r).push(s.bark_id@);
            assert forall|a: int, b: int| 0 <= a < b < q.len() implies q[a] != q[b] by {
                if b == q.len() - 1 {
                    assert(ids_of(r).contains(q[a]));
                }
            }
            lemma_position(u, r.len() as int);
        }
    } else {
        lemma_ids_of_push(e, s);
        let q = ids_of(e).push(s.bark_id@);
        assert forall|a: int, b: int| 0 <= a < b < q.len() implies q[a] != q[b] by {
            if b == q.len() - 1 {
                assert(ids_of(e).contains(q[a]));
            }
        }
        lemma_position(u, e.len() as int);
    }
}

/// Subscriptions by push target, with the cell index kept beside them.
pub struct SubscriptionStore {
    subscriptions: Vec<Subscription>,
    cells: Vec<GeoCell>,
}

impl SubscriptionStore {
    /// The records, one per push target.
    pub closed spec fn entries(&self) -> Seq<Subscription> {
        self.subscriptions@
    }

    pub closed spec fn wf(&self) -> bool {
        &&& ids_of(self.subscriptions@).no_duplicates()
        &&& cells_match(self.cells@, self.subscriptions@)
    }

    /// Each push target has one record.
    pub proof fn lemma_unique_targets(&self)
        requires
            self.wf(),
        ensures
            ids_of(self.entries()).no_duplicates(),
    {
    }

    pub fn new() -> (r: Self)
        ensures
            r.wf(),
            r.entries() == Seq::<Subscription>::empty(),
    {
        let r = SubscriptionStore { subscriptions: Vec::new(), cells: Vec::new() };
        assert(cell_keys(r.cells@) =~= Seq::<Seq<char>>::empty());
        r
    }

    fn find(&self, id: &String) -> (r: Option<usize>)
        requires
            self.wf(),
        ensures
            r is None <==> !ids_of(self.entries()).contains(id@),
            r matches Some(i) ==> i < self.entries().len() && self.entries()[i as int].bark_id@ == id@
                && i == position_of(self.entries(), id@),
    {
        let mut i: usize = 0;
        let n = self.subscriptions.len();
        while i < n
            invariant
                n == self.subscriptions@.len(),
                i <= n,
                ids_of(self.subscriptions@).no_duplicates(),
                forall|k: int| 0 <= k < i ==> self.subscriptions@[k].bark_id@ != id@,
            decreases n - i,
        {
            if self.subscriptions[i].bark_id == *id {
                proof {
                    lemma_position(self.subscriptions@, i as int);
                }
                return Some(i);
            }
            i = i + 1;
        }
        proof {
            if ids_of(self.subscriptions@).contains(id@) {
                let k = choose|k: int|
                    0 <= k < ids_of(self.subscriptions@).len() && ids_of(self.subscriptions@)[k] == id@;
                assert(self.subscriptions@[k].bark_id@ == id@);
            }
        }
        None
    }

    fn find_cell(&self, key: &String) -> (r: Option<usize>)
        ensures
            r is None <==> !cell_keys(self.cells@).contains(key@),
            r matches Some(c) ==> c < self.cells@.len() && self.cells@[c as int].key@ == key@,
    {
        let mut c: usize = 0;
        let n = self.cells.len();
        while c < n
            invariant
                n == self.cells@.len(),
                c <= n,
                forall|k: int| 0 <= k < c ==> self.cells@[k].key@ != key@,
            decreases n - c,
        {
            if self.cells[c].key == *key {
                assert(cell_keys(self.cells@)[c as int] == key@);
                return Some(c);
            }
            c = c + 1;
        }
        proof {
            if cell_keys(self.cells@).contains(key@) {
                let k = choose|k: int| 0 <= k < cell_keys(self.cells@).len() && cell_keys(self.cells@)[k] == key@;
                assert(self.cells@[k].key@ == key@);
            }
        }
        None
    }
}

/// Whether `v` holds a record of target `id`.
fn holds_target(v: &Vec<Subscription>, id: &String) -> (r: bool)
    ensures
        r == ids_of(v@).contains(id@),
{
    let mut i: usize = 0;
    while i < v.len()
        invariant
            i <= v@.len(),
            forall|k: int| 0 <= k < i ==> v@[k].bark_id@ != id@,
        decreases v@.len() - i,
    {
        if v[i].bark_id == *id {
            assert(ids_of(v@)[i as int] == id@);
            return true;
        }
        i = i + 1;
    }
    proof {
        if ids_of(v@).contains(id@) {
            let k = choose|k: int| 0 <= k < ids_of(v@).len() && ids_of(v@)[k] == id@;
            assert(v@[k].bark_id@ == id@);
        }
    }
    false
}

impl SubscriptionStore {
    fn empty_cell() -> (r: GeoCell)
        ensures
            r.index.ids() == Seq::<Seq<char>>::empty(),
    {
        GeoCell { key: String::new(), index: GeoHashIndex::new() }
    }

    /// Records target `id` in cell `key`, for the record `s` about to be appended.
    fn attach(&mut self, key: String, id: String, e: Ghost<Seq<Subscription>>, s: Ghost<Subscription>)
        requires
            cells_match(old(self).cells@, e@),
            key@ == cell_of(s@),
            id@ == s@.bark_id@,
            !ids_of(e@).contains(id@),
        ensures
            cells_match(final(self).cells@, e@.push(s@)),
            final(self).subscriptions == old(self).subscriptions,
    {
        let ghost e2 = e@.push(s@);
        let ghost old_cells = self.cells@;
        proof {
            lemma_cell_members(e@, key@);
            if ids_in_cell(e@, key@).contains(id@) {
                let j = choose|j: int| 0 <= j < e@.len() && e@[j].bark_id@ == id@ && cell_of(e@[j]) == key@;
                assert(ids_of(e@)[j] == id@);
            }
            assert forall|k: Seq<char>| #![auto] ids_in_cell(e2, k) == if cell_of(s@) == k {
                ids_in_cell(e@, k).push(id@)
            } else {
                ids_in_cell(e@, k)
            } by {
                lemma_cell_push(e@, s@, k);
            }
        }
        match self.find_cell(&key) {
            Some(c) => {
                let mut cell = Self::empty_cell();
                self.cells.set_and_swap(c, &mut cell);
                cell.index.add(id);
                self.cells.set_and_swap(c, &mut cell);
                proof {
                    assert(cell_keys(self.cells@) =~= cell_keys(old_cells));
                    assert forall|i: int| 0 <= i < e2.len() implies cell_keys(self.cells@).contains(
                        #[trigger] cell_of(e2[i]),
                    ) by {
                        if i < e@.len() {
                            assert(e2[i] == e@[i]);
                            assert(cell_keys(old_cells).contains(cell_of(e@[i])));
                        } else {
                            assert(cell_keys(self.cells@)[c as int] == key@);
                        }
                    }
                    assert forall|d: int| 0 <= d < self.cells@.len() implies #[trigger] self.cells@[d].index.ids()
                        == ids_in_cell(e2, self.cells@[d].key@) && self.cells@[d].index.ids().len() > 0 by {
                        if d != c {
                            assert(cell_keys(old_cells)[d] != cell_keys(old_cells)[c as int]);
                            assert(self.cells@[d] == old_cells[d]);
                        }
                    }
                }
            },
            None => {
                let mut index = GeoHashIndex::new();
                index.add(id);
                self.cells.push(GeoCell { key, index });
                proof {
                    assert(cell_keys(self.cells@) =~= cell_keys(old_cells).push(key@));
                    assert forall|i: int| 0 <= i < e2.len() implies cell_keys(self.cells@).contains(
                        #[trigger] cell_of(e2[i]),
                    ) by {
                        if i < e@.len() {
                            assert(e2[i] == e@[i]);
                            assert(cell_keys(old_cells).contains(cell_of(e@[i])));
                            let k = choose|k: int| 0 <= k < old_cells.len() && cell_keys(old_cells)[k] == cell_of(e@[i]);
                            assert(cell_keys(self.cells@)[k] == cell_of(e@[i]));
                        } else {
                            assert(cell_keys(self.cells@)[old_cells.len() as int] == key@);
                        }
                    }
                    assert(ids_in_cell(e@, key@).len() == 0) by {
                        if ids_in_cell(e@, key@).len() > 0 {
                            let x = ids_in_cell(e@, key@)[0];
                            assert(ids_in_cell(e@, key@).contains(x));
                            let j = choose|j: int| 0 <= j < e@.len() && e@[j].bark_id@ == x && cell_of(e@[j]) == key@;
                            assert(cell_keys(old_cells).contains(cell_of(e@[j])));
                        }
                    }
                    assert(index.ids() =~= ids_in_cell(e@, key@).push(id@));
                    assert forall|d: int| 0 <= d < self.cells@.len() implies #[trigger] self.cells@[d].index.ids()
                        == ids_in_cell(e2, self.cells@[d].key@) && self.cells@[d].index.ids().len() > 0 by {
                        if d < old_cells.len() {
                            assert(self.cells@[d] == old_cells[d]);
                            assert(cell_keys(old_cells)[d] == old_cells[d].key@);
                        }
                    }
                }
            },
        }
    }

    /// Forgets target `id` in cell `key`, for the record `e[i]` about to be taken out.
    fn detach(&mut self, key: &String, id: &String, e: Ghost<Seq<Subscription>>, i: Ghost<int>)
        requires
            cells_match(old(self).cells@, e@),
            ids_of(e@).no_duplicates(),
            0 <= i@ < e@.len(),
            e@[i@].bark_id@ == id@,
            key@ == cell_of(e@[i@]),
        ensures
            cells_match(final(self).cells@, e@.remove(i@)),
            final(self).subscriptions == old(self).subscriptions,
    {
        let ghost e2 = e@.remove(i@);
        let ghost old_cells = self.cells@;
        proof {
            assert forall|k: Seq<char>| #![auto] ids_in_cell(e2, k) == if cell_of(e@[i@]) == k {
                without(ids_in_cell(e@, k), id@)
            } else {
                ids_in_cell(e@, k)
            } by {
                lemma_cell_remove(e@, i@, k);
            }
            assert(cell_keys(old_cells).contains(cell_of(e@[i@])));
        }
        let c = match self.find_cell(key) {
            Some(c) => c,
            None => {
                return;
            },
        };
        let mut cell = Self::empty_cell();
        self.cells.set_and_swap(c, &mut cell);
        cell.index.remove(id.as_str());
        if cell.index.bark_ids.len() == 0 {
            self.cells.remove(c);
            proof {
                assert(self.cells@ =~= old_cells.remove(c as int));
                assert(cell_keys(self.cells@) =~= cell_keys(old_cells).remove(c as int));
                let ks = cell_keys(old_cells);
                let rs = cell_keys(self.cells@);
                assert forall|a: int, b: int| 0 <= a < b < rs.len() implies rs[a] != rs[b] by {
                    let a2 = if a < c { a } else { a + 1 };
                    let b2 = if b < c { b } else { b + 1 };
                    assert(rs[a] == ks[a2]);
                    assert(rs[b] == ks[b2]);
                }
                assert forall|d: int| 0 <= d < self.cells@.len() implies #[trigger] self.cells@[d].index.ids()
                    == ids_in_cell(e2, self.cells@[d].key@) && self.cells@[d].index.ids().len() > 0 by {
                    let d2 = if d < c { d } else { d + 1 };
                    assert(self.cells@[d] == old_cells[d2]);
                    assert(ks[d2] != ks[c as int]);
                }
                lemma_cell_members(e2, key@);
                assert forall|j: int| 0 <= j < e2.len() implies rs.contains(#[trigger] cell_of(e2[j])) by {
                    let k = cell_of(e2[j]);
                    assert(ks.contains(k)) by {
                        let j2 = if j < i@ { j } else { j + 1 };
                        assert(e2[j] == e@[j2]);
                    }
                    let x = choose|x: int| 0 <= x < ks.len() && ks[x] == k;
                    if x == c {
                        assert(ids_in_cell(e2, key@).contains(e2[j].bark_id@));
                        assert(ids_in_cell(e2, key@).len() == 0);
                    } else {
                        let x2 = if x < c { x } else { x - 1 };
                        assert(rs[x2] == k);
                    }
                }
            }
        } else {
            self.cells.set_and_swap(c, &mut cell);
            proof {
                assert(cell_keys(self.cells@) =~= cell_keys(old_cells));
                assert(cell.index.ids().len() == cell.index.bark_ids@.len());
                assert forall|d: int| 0 <= d < self.cells@.len() implies #[trigger] self.cells@[d].index.ids()
                    == ids_in_cell(e2, self.cells@[d].key@) && self.cells@[d].index.ids().len() > 0 by {
                    if d != c {
                        assert(cell_keys(old_cells)[d] != cell_keys(old_cells)[c as int]);
                        assert(self.cells@[d] == old_cells[d]);
                    }
                }
                assert forall|j: int| 0 <= j < e2.len() implies cell_keys(self.cells@).contains(
                    #[trigger] cell_of(e2[j]),
                ) by {
                    let j2 = if j < i@ { j } else { j + 1 };
                    assert(e2[j] == e@[j2]);
                    assert(cell_keys(old_cells).contains(cell_of(e@[j2])));
                }
            }
        }
    }
}

impl SubscriptionStore {
    /// Inserts a subscription or replaces the one of the same push target,
    /// moving it between cells when its location changed cell.
    pub fn upsert_subscription(&mut self, subscription: Subscription)
        requires
            old(self).wf(),
        ensures
            final(self).wf(),
            final(self).entries() == upserted(old(self).entries(), subscription),
            lookup(final(self).entries(), subscription.bark_id@) == Some(subscription),
            final(self).entries().len() == old(self).entries().len() + if ids_of(old(self).entries()).contains(
                subscription.bark_id@,
            ) {
                0int
            } else {
                1int
            },
    {
        proof {
            lemma_upsert_then_lookup(self.subscriptions@, subscription);
        }
        let ghost e = self.subscriptions@;
        let ghost s = subscription;
        let id = subscription.bark_id.clone();
        let new_key = encode(subscription.latitude, subscription.longitude);
        match self.find(&id) {
            Some(i) => {
                let old_key = encode(self.subscriptions[i].latitude, self.subscriptions[i].longitude);
                if old_key == new_key {
                    self.subscriptions.set(i, subscription);
                    proof {
                        assert(ids_of(self.subscriptions@) =~= ids_of(e));
                        assert forall|k: Seq<char>| #![auto] ids_in_cell(self.subscriptions@, k) == ids_in_cell(e, k) by {
                            lemma_cell_update(e, i as int, s, k);
                        }
                        assert forall|j: int| 0 <= j < self.subscriptions@.len() implies cell_keys(self.cells@).contains(
                            #[trigger] cell_of(self.subscriptions@[j]),
                        ) by {
                            assert(cell_keys(self.cells@).contains(cell_of(e[j])));
                        }
                    }
                } else {
                    self.detach(&old_key, &id, Ghost(e), Ghost(i as int));
                    self.subscriptions.remove(i);
                    proof {
                        lemma_remove_ids(e, i as int);
                    }
                    self.attach(new_key, id, Ghost(e.remove(i as int)), Ghost(s));
                    self.subscriptions.push(subscription);
                    proof {
                        lemma_ids_of_push(e.remove(i as int), s);
                        assert(ids_of(e.remove(i as int)).push(s.bark_id@).no_duplicates()) by {
                            let q = ids_of(e.remove(i as int)).push(s.bark_id@);
                            assert forall|a: int, b: int| 0 <= a < b < q.len() implies q[a] != q[b] by {
                                if b == q.len() - 1 {
                                    assert(ids_of(e.remove(i as int)).contains(q[a]));
                                }
                            }
                        }
                    }
                }
            },
            None => {
                self.attach(new_key, id, Ghost(e), Ghost(s));
                self.subscriptions.push(subscription);
                proof {
                    lemma_ids_of_push(e, s);
                    let q = ids_of(e).push(s.bark_id@);
                    assert forall|a: int, b: int| 0 <= a < b < q.len() implies q[a] != q[b] by {
                        if b == q.len() - 1 {
                            assert(ids_of(e).contains(q[a]));
                        }
                    }
                }
            },
        }
    }

    /// Removes the subscription of `bark_id`; `NotFound` when there is none.
    pub fn delete_subscription(&mut self, bark_id: &str) -> (r: Result<(), StoreError>)
        requires
            old(self).wf(),
        ensures
            final(self).wf(),
            match r {
                Ok(()) => ids_of(old(self).entries()).contains(bark_id@) && final(self).entries()
                    == old(self).entries().remove(position_of(old(self).entries(), bark_id@))
                    && lookup(final(self).entries(), bark_id@) is None,
                Err(err) => err == StoreError::NotFound && !ids_of(old(self).entries()).contains(bark_id@)
                    && final(self).entries() == old(self).entries(),
            },
    {
        let ghost e = self.subscriptions@;
        let id = String::from_str(bark_id);
        match self.find(&id) {
            None => Err(StoreError::NotFound),
            Some(i) => {
                let key = encode(self.subscriptions[i].latitude, self.subscriptions[i].longitude);
                self.detach(&key, &id, Ghost(e), Ghost(i as int));
                self.subscriptions.remove(i);
                proof {
                    lemma_remove_ids(e, i as int);
                    lemma_deleted_not_found(e, id@);
                }
                Ok(())
            },
        }
    }

    /// The subscription of `bark_id`; `NotFound` when there is none.
    pub fn get_subscription(&self, bark_id: &str) -> (r: Result<Subscription, StoreError>)
        requires
            self.wf(),
        ensures
            match r {
                Ok(s) => lookup(self.entries(), bark_id@) == Some(s),
                Err(err) => err == StoreError::NotFound && lookup(self.entries(), bark_id@) is None,
            },
    {
        let id = String::from_str(bark_id);
        match self.find(&id) {
            None => Err(StoreError::NotFound),
            Some(i) => Ok(self.subscriptions[i].duplicate()),
        }
    }

    /// How many subscriptions there are.
    pub fn get_total_count(&self) -> (r: usize)
        ensures
            r == self.entries().len(),
    {
        self.subscriptions.len()
    }

    /// The subscriptions located in any of the cells `geohashes`, each once,
    /// gathered through the cell index.
    pub fn get_subscriptions_by_geohashes(&self, geohashes: &[String]) -> (r: Vec<Subscription>)
        requires
            self.wf(),
        ensures
            ids_of(r@).no_duplicates(),
            forall|s: Subscription|
                r@.contains(s) <==> (self.entries().contains(s) && keys_of(geohashes@).contains(cell_of(s))),
    {
        let ghost e = self.subscriptions@;
        let mut out: Vec<Subscription> = Vec::new();
        let mut g: usize = 0;
        while g < geohashes.len()
            invariant
                self.wf(),
                e == self.subscriptions@,
                g <= geohashes@.len(),
                ids_of(out@).no_duplicates(),
                forall|s: Subscription|
                    #[trigger] out@.contains(s) ==> e.contains(s) && keys_of(geohashes@.take(g as int)).contains(
                        cell_of(s),
                    ),
                forall|j: int|
                    0 <= j < e.len() && keys_of(geohashes@.take(g as int)).contains(#[trigger] cell_of(e[j]))
                        ==> out@.contains(e[j]),
            decreases geohashes@.len() - g,
        {
            let ghost done = keys_of(geohashes@.take(g as int));
            let ghost key = geohashes@[g as int]@;
            assert(keys_of(geohashes@.take(g + 1)) =~= done.push(key));
            proof {
                lemma_cell_members(e, key);
            }
            match self.find_cell(&geohashes[g]) {
                None => {
                    assert forall|j: int| 0 <= j < e.len() implies cell_of(e[j]) != key by {
                        assert(cell_keys(self.cells@).contains(cell_of(e[j])));
                    }
                },
                Some(c) => {
                    let ids = &self.cells[c].index.bark_ids;
                    assert(self.cells@[c as int].index.ids() == ids_in_cell(e, self.cells@[c as int].key@));
                    let mut t: usize = 0;
                    assert forall|s: Subscription| out@.contains(s) implies e.contains(s) && (done.contains(cell_of(s))
                        || cell_of(s) == key) by {}
                    while t < ids.len()
                        invariant
                            self.wf(),
                            e == self.subscriptions@,
                            keys_of(ids@) == ids_in_cell(e, key),
                            t <= ids@.len(),
                            ids_of(out@).no_duplicates(),
                            forall|s: Subscription|
                                #[trigger] out@.contains(s) ==> e.contains(s) && (done.contains(cell_of(s)) || cell_of(s)
                                    == key),
                            forall|j: int|
                                0 <= j < e.len() && done.contains(#[trigger] cell_of(e[j])) ==> out@.contains(e[j]),
                            forall|j: int|
                                0 <= j < e.len() && cell_of(e[j]) == key && keys_of(ids@).take(t as int).contains(
                                    #[trigger] e[j].bark_id@,
                                ) ==> out@.contains(e[j]),
                        decreases ids@.len() - t,
                    {
                        let ghost x = ids@[t as int]@;
                        proof {
                            lemma_cell_members(e, key);
                        }
                        assert(keys_of(ids@)[t as int] == x);
                        assert(ids_in_cell(e, key).contains(x));
                        let ghost j0 = choose|j: int| 0 <= j < e.len() && e[j].bark_id@ == x && cell_of(e[j]) == key;
                        assert(keys_of(ids@).take(t + 1) =~= keys_of(ids@).take(t as int).push(x));
                        if holds_target(&out, &ids[t]) {
                            proof {
                                let k = choose|k: int| 0 <= k < ids_of(out@).len() && ids_of(out@)[k] == x;
                                assert(out@.contains(out@[k]));
                                let j1 = choose|j: int| 0 <= j < e.len() && e[j] == out@[k];
                                lemma_position(e, j1);
                                lemma_position(e, j0);
                                assert(j1 == j0);
                                assert forall|j: int| 0 <= j < e.len() && cell_of(e[j]) == key && keys_of(ids@).take(
                                    t + 1).contains(#[trigger] e[j].bark_id@) implies out@.contains(e[j]) by {
                                    if e[j].bark_id@ == x {
                                        lemma_position(e, j);
                                    } else {
                                        assert(keys_of(ids@).take(t as int).contains(e[j].bark_id@));
                                    }
                                }
                            }
                        } else {
                            let found = self.find(&ids[t]);
                            match found {
                                Some(k) => {
                                    let ghost before = out@;
                                    out.push(self.subscriptions[k].duplicate());
                                    proof {
                                        lemma_position(e, j0);
                                        lemma_ids_of_push(before, e[j0]);
                                        let q = ids_of(out@);
                                        assert forall|a: int, b: int| 0 <= a < b < q.len() implies q[a] != q[b] by {
                                            if b == q.len() - 1 {
                                                assert(ids_of(before).contains(q[a]));
                                            }
                                        }
                                        assert forall|s: Subscription| #[trigger] out@.contains(s) implies e.contains(s) && (
                                        done.contains(cell_of(s)) || cell_of(s) == key) by {
                                            let y = choose|y: int| 0 <= y < out@.len() && out@[y] == s;
                                            if y < before.len() {
                                                assert(before[y] == s);
                                                assert(before.contains(s));
                                            } else {
                                                assert(e[j0] == s);
                                            }
                                        }
                                        assert forall|j: int| 0 <= j < e.len() && done.contains(#[trigger] cell_of(e[j]))
                                            implies out@.contains(e[j]) by {
                                            assert(before.contains(e[j]));
                                            let y = choose|y: int| 0 <= y < before.len() && before[y] == e[j];
                                            assert(out@[y] == e[j]);
                                        }
                                        assert(out@[before.len() as int] == e[j0]);
                                        assert forall|j: int| 0 <= j < e.len() && cell_of(e[j]) == key && keys_of(ids@).take(
                                            t + 1).contains(#[trigger] e[j].bark_id@) implies out@.contains(e[j]) by {
                                            if e[j].bark_id@ == x {
                                                lemma_position(e, j);
                                            } else {
                                                assert(keys_of(ids@).take(t as int).contains(e[j].bark_id@));
                                                assert(before.contains(e[j]));
                                                let y = choose|y: int| 0 <= y < before.len() && before[y] == e[j];
                                                assert(out@[y] == e[j]);
                                            }
                                        }
                                    }
                                },
                                None => {
                                    assert(ids_of(e)[j0] == x);
                                    assert(ids_of(e).contains(x));
                                    assert(false);
                                },
                            }
                        }
                        t = t + 1;
                    }
                    assert(keys_of(ids@).take(ids@.len() as int) =~= keys_of(ids@));
                    proof {
                        lemma_cell_members(e, key);
                        assert forall|j: int| 0 <= j < e.len() && cell_of(e[j]) == key implies out@.contains(e[j]) by {
                            assert(ids_in_cell(e, key).contains(e[j].bark_id@));
                        }
                    }
                },
            }
            proof {
                let dn = keys_of(geohashes@.take(g + 1));
                assert forall|y: Seq<char>| done.contains(y) || y == key implies dn.contains(y) by {
                    if y == key {
                        assert(dn[g as int] == y);
                    } else {
                        let k = choose|k: int| 0 <= k < done.len() && done[k] == y;
                        assert(dn[k] == y);
                    }
                }
                assert forall|y: Seq<char>| dn.contains(y) implies done.contains(y) || y == key by {
                    let k = choose|k: int| 0 <= k < dn.len() && dn[k] == y;
                    if k < g {
                        assert(done[k] == y);
                    }
                }
            }
            g = g + 1;
        }
        assert(geohashes@.take(geohashes@.len() as int) =~= geohashes@);
        proof {
            assert forall|s: Subscription| (e.contains(s) && keys_of(geohashes@).contains(cell_of(s))) implies out@.contains(s) by {
                let j = choose|j: int| 0 <= j < e.len() && e[j] == s;
            }
        }
        out
    }
}

} // verus!
