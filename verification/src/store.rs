//! The grouping store: a mapping from content digests to the list of paths
//! that produced them, in insertion order, together with the lexicographic
//! digest order that makes the rendered output deterministic.

use vstd::prelude::*;
use crate::checksum::Digest;

verus! {

/// The store seen abstractly: pairs of a digest and the paths grouped under
/// it, in the order the digests were first seen.
pub type StoreView = Seq<(Seq<u8>, Seq<Seq<char>>)>;

/// Lexicographic order on byte sequences: the order in which groups are
/// rendered.
pub open spec fn lex_le(a: Seq<u8>, b: Seq<u8>) -> bool
    decreases a.len(),
{
    if a.len() == 0 {
        true
    } else if b.len() == 0 {
        false
    } else if a[0] < b[0] {
        true
    } else if a[0] > b[0] {
        false
    } else {
        lex_le(a.drop_first(), b.drop_first())
    }
}

/// Every byte sequence is at or above itself.
pub proof fn lemma_lex_le_refl(a: Seq<u8>)
    ensures
        lex_le(a, a),
    decreases a.len(),
{
    if a.len() > 0 {
        lemma_lex_le_refl(a.drop_first());
    }
}

/// Any two byte sequences are ordered at least one way round.
pub proof fn lemma_lex_le_total(a: Seq<u8>, b: Seq<u8>)
    ensures
        lex_le(a, b) || lex_le(b, a),
    decreases a.len(),
{
    if a.len() == 0 || b.len() == 0 {
    } else if a[0] == b[0] {
        lemma_lex_le_total(a.drop_first(), b.drop_first());
    }
}

/// The lexicographic order is transitive.
pub proof fn lemma_lex_le_trans(a: Seq<u8>, b: Seq<u8>, c: Seq<u8>)
    requires
        lex_le(a, b),
        lex_le(b, c),
    ensures
        lex_le(a, c),
    decreases a.len(),
{
    if a.len() == 0 {
    } else if b.len() == 0 {
    } else if c.len() == 0 {
    } else {
        if a[0] == b[0] && b[0] == c[0] {
            lemma_lex_le_trans(a.drop_first(), b.drop_first(), c.drop_first());
        }
    }
}

/// Sharing a prefix, two sequences compare as their remainders do.
proof fn lemma_lex_le_common_prefix(a: Seq<u8>, b: Seq<u8>, i: int)
    requires
        0 <= i <= a.len(),
        i <= b.len(),
        forall|j: int| 0 <= j < i ==> a[j] == b[j],
    ensures
        lex_le(a, b) == lex_le(a.skip(i), b.skip(i)),
    decreases i,
{
    if i == 0 {
        assert(a.skip(0) =~= a);
        assert(b.skip(0) =~= b);
    } else {
        assert(a[0] == b[0]);
        let a1 = a.drop_first();
        let b1 = b.drop_first();
        assert(forall|j: int| 0 <= j < i - 1 ==> a1[j] == b1[j]);
        lemma_lex_le_common_prefix(a1, b1, i - 1);
        assert(a1.skip(i - 1) =~= a.skip(i));
        assert(b1.skip(i - 1) =~= b.skip(i));
    }
}

/// Decide the lexicographic order of two digests.
pub fn digest_le(a: &Digest, b: &Digest) -> (r: bool)
    ensures
        r == lex_le(a@, b@),
{
    let mut i: usize = 0;
    loop
        invariant
            i <= a@.len(),
            i <= b@.len(),
            forall|j: int| 0 <= j < i ==> a@[j] == b@[j],
        decreases a@.len() - i,
    {
        if i >= a.bytes.len() {
            proof {
                lemma_lex_le_common_prefix(a@, b@, i as int);
            }
            return true;
        }
        if i >= b.bytes.len() {
            proof {
                lemma_lex_le_common_prefix(a@, b@, i as int);
            }
            return false;
        }
        let x = a.bytes[i];
        let y = b.bytes[i];
        if x < y {
            proof {
                lemma_lex_le_common_prefix(a@, b@, i as int);
            }
            return true;
        }
        if x > y {
            proof {
                lemma_lex_le_common_prefix(a@, b@, i as int);
            }
            return false;
        }
        i = i + 1;
    }
}

/// The first position holding the digest, or -1 when it is absent.
pub open spec fn first_idx(gs: StoreView, d: Seq<u8>) -> int
    decreases gs.len(),
{
    if gs.len() == 0 {
        -1
    } else if gs[0].0 == d {
        0
    } else {
        let r = first_idx(gs.drop_first(), d);
        if r < 0 {
            -1
        } else {
            r + 1
        }
    }
}

/// What `first_idx` finds: a valid position holding the digest, preceded
/// only by other digests, or -1 when no position holds it.
pub proof fn lemma_first_idx(gs: StoreView, d: Seq<u8>)
    ensures
        first_idx(gs, d) == -1 || (0 <= first_idx(gs, d) < gs.len() && gs[first_idx(gs, d)].0
            == d),
        first_idx(gs, d) == -1 ==> forall|i: int| 0 <= i < gs.len() ==> gs[i].0 != d,
        forall|j: int| 0 <= j < first_idx(gs, d) ==> gs[j].0 != d,
    decreases gs.len(),
{
    if gs.len() == 0 {
    } else if gs[0].0 == d {
    } else {
        lemma_first_idx(gs.drop_first(), d);
        let r = first_idx(gs.drop_first(), d);
        if r < 0 {
            assert(forall|i: int| 1 <= i < gs.len() ==> gs[i].0 == gs.drop_first()[i - 1].0);
        } else {
            assert(forall|j: int| 1 <= j < r + 1 ==> gs[j].0 == gs.drop_first()[j - 1].0);
        }
    }
}

/// A path appended under its digest: the digest's group grows by the path,
/// or a fresh singleton group is added at the end.
pub open spec fn grouped_insert(gs: StoreView, d: Seq<u8>, p: Seq<char>) -> StoreView {
    let i = first_idx(gs, d);
    if i == -1 {
        gs.push((d, seq![p]))
    } else {
        gs.update(i, (d, gs[i].1.push(p)))
    }
}

/// No two positions of the store hold the same digest.
pub open spec fn store_wf(gs: StoreView) -> bool {
    forall|i: int, j: int| 0 <= i < j < gs.len() ==> gs[i].0 != gs[j].0
}

/// Appending a path keeps the digests distinct.
pub proof fn lemma_grouped_insert_wf(gs: StoreView, d: Seq<u8>, p: Seq<char>)
    requires
        store_wf(gs),
    ensures
        store_wf(grouped_insert(gs, d, p)),
{
    lemma_first_idx(gs, d);
}

/// Whether some group of the store holds the digest and, within it, the path.
pub open spec fn store_mem(gs: StoreView, d: Seq<u8>, p: Seq<char>) -> bool {
    exists|i: int| 0 <= i < gs.len() && gs[i].0 == d && gs[i].1.contains(p)
}

/// Membership after an append: exactly the old memberships plus the new pair.
pub proof fn lemma_grouped_insert_mem(
    gs: StoreView,
    d: Seq<u8>,
    p: Seq<char>,
    d2: Seq<u8>,
    p2: Seq<char>,
)
    ensures
        store_mem(grouped_insert(gs, d, p), d2, p2) <==> (store_mem(gs, d2, p2) || (d2 == d && p2
            == p)),
{
    lemma_first_idx(gs, d);
    let gs2 = grouped_insert(gs, d, p);
    let fi = first_idx(gs, d);
    if fi == -1 {
        assert(gs2 == gs.push((d, seq![p])));
        if store_mem(gs, d2, p2) {
            let i = choose|i: int| 0 <= i < gs.len() && gs[i].0 == d2 && gs[i].1.contains(p2);
            assert(gs2[i].0 == d2 && gs2[i].1.contains(p2));
        }
        if d2 == d && p2 == p {
            assert(gs2[gs.len() as int].0 == d);
            assert(gs2[gs.len() as int].1[0] == p);
            assert(gs2[gs.len() as int].1.contains(p));
        }
        if store_mem(gs2, d2, p2) {
            let i = choose|i: int| 0 <= i < gs2.len() && gs2[i].0 == d2 && gs2[i].1.contains(p2);
            if i < gs.len() {
                assert(store_mem(gs, d2, p2));
            } else {
                assert(gs2[i] == (d, seq![p]));
                let k = choose|k: int| 0 <= k < seq![p].len() && seq![p][k] == p2;
                assert(p2 == p);
            }
        }
    } else {
        let old_paths = gs[fi].1;
        assert(gs2 == gs.update(fi, (d, old_paths.push(p))));
        if store_mem(gs, d2, p2) {
            let i = choose|i: int| 0 <= i < gs.len() && gs[i].0 == d2 && gs[i].1.contains(p2);
            if i == fi {
                let k = choose|k: int| 0 <= k < gs[i].1.len() && gs[i].1[k] == p2;
                assert(gs2[fi].1[k] == p2);
                assert(gs2[fi].1.contains(p2));
                assert(gs2[fi].0 == d2);
            } else {
                assert(gs2[i].0 == d2 && gs2[i].1.contains(p2));
            }
        }
        if d2 == d && p2 == p {
            assert(gs2[fi].1[old_paths.len() as int] == p);
            assert(gs2[fi].1.contains(p));
        }
        if store_mem(gs2, d2, p2) {
            let i = choose|i: int| 0 <= i < gs2.len() && gs2[i].0 == d2 && gs2[i].1.contains(p2);
            if i == fi {
                let k = choose|k: int| 0 <= k < gs2[i].1.len() && gs2[i].1[k] == p2;
                if k < old_paths.len() {
                    assert(gs[fi].1.contains(p2));
                    assert(store_mem(gs, d2, p2));
                } else {
                    assert(p2 == p && d2 == d);
                }
            } else {
                assert(store_mem(gs, d2, p2));
            }
        }
    }
}

/// An entry placed before the first position whose digest is at or above it;
/// entries already in place keep their relative order.
pub open spec fn insert_sorted(gs: StoreView, e: (Seq<u8>, Seq<Seq<char>>)) -> StoreView
    decreases gs.len(),
{
    if gs.len() == 0 {
        seq![e]
    } else if lex_le(e.0, gs[0].0) {
        seq![e] + gs
    } else {
        seq![gs[0]] + insert_sorted(gs.drop_first(), e)
    }
}

/// The store's entries rearranged into ascending digest order.
pub open spec fn sort_entries(gs: StoreView) -> StoreView
    decreases gs.len(),
{
    if gs.len() == 0 {
        Seq::<(Seq<u8>, Seq<Seq<char>>)>::empty()
    } else {
        insert_sorted(sort_entries(gs.drop_first()), gs[0])
    }
}

/// Whether the digests appear in ascending order.
pub open spec fn sorted_store(gs: StoreView) -> bool {
    forall|i: int, j: int| 0 <= i <= j < gs.len() ==> lex_le(gs[i].0, gs[j].0)
}

/// Where `insert_sorted` puts the entry: at the first position whose digest
/// is at or above it.
pub proof fn lemma_insert_sorted_at(gs: StoreView, e: (Seq<u8>, Seq<Seq<char>>), k: int)
    requires
        0 <= k <= gs.len(),
        forall|j: int| 0 <= j < k ==> !lex_le(e.0, gs[j].0),
        k == gs.len() || lex_le(e.0, gs[k].0),
    ensures
        insert_sorted(gs, e) == gs.insert(k, e),
    decreases gs.len(),
{
    if gs.len() == 0 {
        assert(insert_sorted(gs, e) =~= gs.insert(0, e));
    } else if k == 0 {
        assert(seq![e] + gs =~= gs.insert(0, e));
    } else {
        assert(!lex_le(e.0, gs[0].0));
        lemma_insert_sorted_at(gs.drop_first(), e, k - 1);
        assert(seq![gs[0]] + gs.drop_first().insert(k - 1, e) =~= gs.insert(k, e));
    }
}

/// Inserting adds exactly the entry to the store's contents.
pub proof fn lemma_insert_sorted_multiset(gs: StoreView, e: (Seq<u8>, Seq<Seq<char>>))
    ensures
        insert_sorted(gs, e).to_multiset() == gs.to_multiset().insert(e),
    decreases gs.len(),
{
    broadcast use vstd::seq_lib::group_to_multiset_ensures;
    broadcast use vstd::multiset::group_multiset_axioms;

    if gs.len() == 0 {
        assert(seq![e] =~= Seq::<(Seq<u8>, Seq<Seq<char>>)>::empty().push(e));
        assert(insert_sorted(gs, e).to_multiset() =~= gs.to_multiset().insert(e));
    } else if lex_le(e.0, gs[0].0) {
        vstd::seq_lib::lemma_multiset_commutative(seq![e], gs);
        assert(seq![e] =~= Seq::<(Seq<u8>, Seq<Seq<char>>)>::empty().push(e));
        assert(insert_sorted(gs, e).to_multiset() =~= gs.to_multiset().insert(e));
    } else {
        lemma_insert_sorted_multiset(gs.drop_first(), e);
        vstd::seq_lib::lemma_multiset_commutative(seq![gs[0]], insert_sorted(gs.drop_first(), e));
        vstd::seq_lib::lemma_multiset_commutative(seq![gs[0]], gs.drop_first());
        assert(gs =~= seq![gs[0]] + gs.drop_first());
        assert(seq![gs[0]] =~= Seq::<(Seq<u8>, Seq<Seq<char>>)>::empty().push(gs[0]));
        assert(insert_sorted(gs, e).to_multiset() =~= gs.to_multiset().insert(e));
    }
}

/// Inserting into a sorted store keeps it sorted.
pub proof fn lemma_insert_sorted_sorted(gs: StoreView, e: (Seq<u8>, Seq<Seq<char>>))
    requires
        sorted_store(gs),
    ensures
        sorted_store(insert_sorted(gs, e)),
    decreases gs.len(),
{
    broadcast use vstd::seq_lib::group_to_multiset_ensures;
    broadcast use vstd::multiset::group_multiset_axioms;

    if gs.len() == 0 {
        lemma_lex_le_refl(e.0);
    } else if lex_le(e.0, gs[0].0) {
        let r = seq![e] + gs;
        assert forall|i: int, j: int| 0 <= i <= j < r.len() implies lex_le(r[i].0, r[j].0) by {
            lemma_lex_le_refl(r[i].0);
            if i == 0 {
                if j > 0 {
                    lemma_lex_le_trans(e.0, gs[0].0, gs[j - 1].0);
                }
            }
        }
    } else {
        lemma_lex_le_total(e.0, gs[0].0);
        assert(forall|i: int, j: int|
            0 <= i <= j < gs.drop_first().len() ==> lex_le(
                gs.drop_first()[i].0,
                gs.drop_first()[j].0,
            ));
        lemma_insert_sorted_sorted(gs.drop_first(), e);
        lemma_insert_sorted_multiset(gs.drop_first(), e);
        let rec = insert_sorted(gs.drop_first(), e);
        let r = seq![gs[0]] + rec;
        assert forall|i: int, j: int| 0 <= i <= j < r.len() implies lex_le(r[i].0, r[j].0) by {
            lemma_lex_le_refl(r[i].0);
            if i == 0 && j > 0 {
                let x = rec[j - 1];
                assert(rec.contains(x));
                assert(rec.to_multiset().count(x) > 0);
                if gs.drop_first().to_multiset().count(x) > 0 {
                    assert(gs.drop_first().contains(x));
                    let k = choose|k: int|
                        0 <= k < gs.drop_first().len() && gs.drop_first()[k] == x;
                    assert(lex_le(gs[0].0, gs[k + 1].0));
                } else {
                    assert(x == e);
                    assert(lex_le(gs[0].0, e.0));
                }
            }
        }
    }
}

/// Sorting yields ascending digest order.
pub proof fn lemma_sort_entries_sorted(gs: StoreView)
    ensures
        sorted_store(sort_entries(gs)),
    decreases gs.len(),
{
    if gs.len() > 0 {
        lemma_sort_entries_sorted(gs.drop_first());
        lemma_insert_sorted_sorted(sort_entries(gs.drop_first()), gs[0]);
    }
}

/// Sorting keeps exactly the store's entries.
pub proof fn lemma_sort_entries_multiset(gs: StoreView)
    ensures
        sort_entries(gs).to_multiset() == gs.to_multiset(),
    decreases gs.len(),
{
    broadcast use vstd::seq_lib::group_to_multiset_ensures;
    broadcast use vstd::multiset::group_multiset_axioms;

    if gs.len() == 0 {
    } else {
        lemma_sort_entries_multiset(gs.drop_first());
        lemma_insert_sorted_multiset(sort_entries(gs.drop_first()), gs[0]);
        vstd::seq_lib::lemma_multiset_commutative(seq![gs[0]], gs.drop_first());
        assert(gs =~= seq![gs[0]] + gs.drop_first());
        assert(seq![gs[0]] =~= Seq::<(Seq<u8>, Seq<Seq<char>>)>::empty().push(gs[0]));
        assert(sort_entries(gs).to_multiset() =~= gs.to_multiset());
    }
}

/// The abstract contents of a vector of store entries.
pub open spec fn entries_view(v: Seq<(Digest, Vec<String>)>) -> StoreView {
    v.map(|i: int, e: (Digest, Vec<String>)| (e.0@, e.1.deep_view()))
}

/// Copy a list of paths.
fn clone_paths(v: &Vec<String>) -> (r: Vec<String>)
    ensures
        r@ == v@,
{
    let mut r: Vec<String> = Vec::new();
    let mut i: usize = 0;
    while i < v.len()
        invariant
            i <= v@.len(),
            r@ == v@.take(i as int),
        decreases v@.len() - i,
    {
        r.push(v[i].clone());
        proof {
            assert(v@.take(i + 1) =~= v@.take(i as int).push(v@[i as int]));
        }
        i = i + 1;
    }
    proof {
        assert(v@.take(v@.len() as int) =~= v@);
    }
    r
}

/// Copy a store entry.
fn clone_entry(e: &(Digest, Vec<String>)) -> (r: (Digest, Vec<String>))
    ensures
        r.0@ == e.0@,
        r.1@ == e.1@,
{
    (e.0.clone(), clone_paths(&e.1))
}

/// The first position whose digest is at or above the given one.
fn find_insert_pos(v: &Vec<(Digest, Vec<String>)>, d: &Digest) -> (k: usize)
    ensures
        k <= v@.len(),
        forall|j: int| 0 <= j < k ==> !lex_le(d@, entries_view(v@)[j].0),
        k < v@.len() ==> lex_le(d@, entries_view(v@)[k as int].0),
{
    let mut k: usize = 0;
    while k < v.len()
        invariant
            k <= v@.len(),
            forall|j: int| 0 <= j < k ==> !lex_le(d@, entries_view(v@)[j].0),
        decreases v@.len() - k,
    {
        if digest_le(d, &v[k].0) {
            return k;
        }
        k = k + 1;
    }
    k
}

/// Place an entry into an already-sorted vector of entries.
fn insert_entry_sorted(v: &mut Vec<(Digest, Vec<String>)>, e: (Digest, Vec<String>))
    ensures
        entries_view(final(v)@) == insert_sorted(entries_view(old(v)@), (e.0@, e.1.deep_view())),
{
    let ghost ev = (e.0@, e.1.deep_view());
    let k = find_insert_pos(v, &e.0);
    proof {
        lemma_insert_sorted_at(entries_view(old(v)@), ev, k as int);
    }
    v.insert(k, e);
    proof {
        assert(entries_view(v@) =~= entries_view(old(v)@).insert(k as int, ev));
    }
}

/// The thread-safe grouping structure of one scan: each digest seen so far
/// maps to the paths whose content hashed to it. Concurrent callers must
/// serialise their appends; each append is atomic with respect to both the
/// set of groups and the group's path list.
pub struct GroupingStore {
    entries: Vec<(Digest, Vec<String>)>,
}

impl View for GroupingStore {
    type V = StoreView;

    closed spec fn view(&self) -> StoreView {
        self.entries@.map(|i: int, e: (Digest, Vec<String>)| (e.0@, e.1.deep_view()))
    }
}

impl GroupingStore {
    /// An empty store.
    pub fn new() -> (s: Self)
        ensures
            s@ == Seq::<(Seq<u8>, Seq<Seq<char>>)>::empty(),
            store_wf(s@),
    {
        let s = GroupingStore { entries: Vec::new() };
        proof {
            assert(s@ =~= Seq::<(Seq<u8>, Seq<Seq<char>>)>::empty());
        }
        s
    }

    /// How many groups the store holds.
    pub fn len(&self) -> (n: usize)
        ensures
            n == self@.len(),
    {
        self.entries.len()
    }

    /// Append the path under the digest, atomically from the caller's point
    /// of view: the digest's group grows by one path at its end, or a fresh
    /// singleton group appears after all existing groups.
    pub fn insert(&mut self, digest: Digest, path: String)
        ensures
            final(self)@ == grouped_insert(old(self)@, digest@, path@),
    {
        proof {
            lemma_first_idx(self@, digest@);
        }
        let mut i: usize = 0;
        while i < self.entries.len()
            invariant
                i <= self.entries@.len(),
                forall|j: int| 0 <= j < i ==> self.entries@[j].0@ != digest@,
                *self == *old(self),
            decreases self.entries@.len() - i,
        {
            if self.entries[i].0.equals(&digest) {
                let ghost gv = self@;
                proof {
                    assert(gv[i as int].0 == digest@);
                    assert(first_idx(gv, digest@) == i) by {
                        lemma_first_idx(gv, digest@);
                        if first_idx(gv, digest@) < i {
                            assert(gv[first_idx(gv, digest@)].0 == digest@);
                        }
                    }
                }
                let pair = self.entries.remove(i);
                let mut paths = pair.1;
                paths.push(path);
                self.entries.insert(i, (pair.0, paths));
                proof {
                    assert(self.entries@ =~= old(self).entries@.update(
                        i as int,
                        (pair.0, paths),
                    ));
                    assert(paths.deep_view() =~= gv[i as int].1.push(path@));
                    assert(self@ =~= grouped_insert(gv, digest@, path@));
                }
                return ;
            }
            i = i + 1;
        }
        let ghost gv = self@;
        proof {
            lemma_first_idx(gv, digest@);
            assert(first_idx(gv, digest@) == -1) by {
                if first_idx(gv, digest@) >= 0 {
                    assert(gv[first_idx(gv, digest@)].0 == digest@);
                }
            }
        }
        let mut paths: Vec<String> = Vec::new();
        paths.push(path);
        self.entries.push((digest, paths));
        proof {
            assert(paths.deep_view() =~= seq![path@]);
            assert(self@ =~= grouped_insert(gv, digest@, path@));
        }
    }

    /// The store's entries in ascending digest order, for deterministic
    /// iteration. The store itself is left untouched, so the query can be
    /// repeated at will.
    pub fn sorted_entries(&self) -> (r: Vec<(Digest, Vec<String>)>)
        ensures
            entries_view(r@) == sort_entries(self@),
    {
        let mut r: Vec<(Digest, Vec<String>)> = Vec::new();
        let mut i: usize = self.entries.len();
        proof {
            assert(self@.skip(self@.len() as int) =~= Seq::<(Seq<u8>, Seq<Seq<char>>)>::empty());
            assert(entries_view(r@) =~= Seq::<(Seq<u8>, Seq<Seq<char>>)>::empty());
        }
        while i > 0
            invariant
                i <= self.entries@.len(),
                entries_view(r@) == sort_entries(self@.skip(i as int)),
            decreases i,
        {
            i = i - 1;
            let e = clone_entry(&self.entries[i]);
            proof {
                assert((e.0@, e.1.deep_view()) == self@[i as int]);
                assert(self@.skip(i as int).drop_first() =~= self@.skip(i + 1));
                assert(self@.skip(i as int)[0] == self@[i as int]);
            }
            insert_entry_sorted(&mut r, e);
        }
        proof {
            assert(self@.skip(0) =~= self@);
        }
        r
    }

    /// Look up the paths grouped under a digest.
    pub fn get(&self, digest: &Digest) -> (r: Option<&Vec<String>>)
        ensures
            match r {
                Some(v) => {
                    &&& first_idx(self@, digest@) >= 0
                    &&& v.deep_view() == self@[first_idx(self@, digest@)].1
                },
                None => first_idx(self@, digest@) == -1,
            },
    {
        let mut i: usize = 0;
        while i < self.entries.len()
            invariant
                i <= self.entries@.len(),
                forall|j: int| 0 <= j < i ==> self.entries@[j].0@ != digest@,
            decreases self.entries@.len() - i,
        {
            if self.entries[i].0.equals(digest) {
                proof {
                    assert(self@[i as int].0 == digest@);
                    assert(first_idx(self@, digest@) == i) by {
                        lemma_first_idx(self@, digest@);
                        if 0 <= first_idx(self@, digest@) < i {
                            assert(self@[first_idx(self@, digest@)].0 == digest@);
                        }
                    }
                }
                return Some(&self.entries[i].1);
            }
            i = i + 1;
        }
        proof {
            lemma_first_idx(self@, digest@);
            if first_idx(self@, digest@) >= 0 {
                assert(self@[first_idx(self@, digest@)].0 == digest@);
            }
        }
        None
    }
}

} // verus!
