use vstd::prelude::*;

use crate::errors::StoreError;

verus! {

/// One live entry of the collection: an externally assigned row identifier
/// and its embedding, an ordered sequence of fixed-point coordinates.
pub struct Record {
    pub id: i64,
    pub embedding: Vec<i32>,
}

/// The square of an integer.
pub open spec fn sq(x: int) -> int {
    x * x
}

/// Squared Euclidean distance between two equal-length coordinate
/// sequences: the sum of squared per-coordinate differences.
pub open spec fn dist2(a: Seq<i32>, b: Seq<i32>) -> int
    decreases a.len(),
{
    if a.len() == 0 {
        0
    } else {
        dist2(a.drop_last(), b.drop_last()) + sq(a.last() - b.last())
    }
}

/// The abstract content of a sequence of records: a map from row
/// identifier to embedding. A later record with the same identifier
/// shadows an earlier one, so on sequences with distinct identifiers the
/// map holds exactly one entry per record.
pub open spec fn records_map(s: Seq<Record>) -> Map<i64, Seq<i32>>
    decreases s.len(),
{
    if s.len() == 0 {
        Map::empty()
    } else {
        records_map(s.drop_last()).insert(s.last().id, s.last().embedding@)
    }
}

/// Distinctness of the row identifiers of a record sequence.
pub open spec fn distinct_ids(s: Seq<Record>) -> bool {
    forall|i: int, j: int| 0 <= i < j < s.len() ==> s[i].id != s[j].id
}

/// The smaller of two integers.
pub open spec fn min_int(a: int, b: int) -> int {
    if a <= b {
        a
    } else {
        b
    }
}

/// Strict ordering of query hits: ascending by squared distance, with
/// ties broken by ascending row identifier, so query results are
/// reproducible.
pub open spec fn key_lt(d1: int, id1: i64, d2: int, id2: i64) -> bool {
    d1 < d2 || (d1 == d2 && id1 < id2)
}

/// Whether some hit in `s` carries the row identifier `id`.
pub open spec fn hits_have_id(s: Seq<(i64, u128)>, id: i64) -> bool {
    exists|i: int| 0 <= i < s.len() && s[i].0 == id
}

/// A hit sequence strictly sorted by (distance, identifier).
pub open spec fn hits_sorted(s: Seq<(i64, u128)>) -> bool {
    forall|i: int, j: int|
        #![trigger s[i], s[j]]
        0 <= i < j < s.len() ==> key_lt(s[i].1 as int, s[i].0, s[j].1 as int, s[j].0)
}

/// The hit `h` reports one of the first `t` records of `sr`, with its
/// exact squared distance from `q`.
pub open spec fn hit_matches(sr: Seq<Record>, q: Seq<i32>, t: int, h: (i64, u128)) -> bool {
    exists|u: int|
        0 <= u < t && sr[u].id == h.0 && h.1 as int == dist2(q, sr[u].embedding@)
}

/// Every hit of `s` reports one of the first `t` records of `sr`.
pub open spec fn hits_match(q: Seq<i32>, sr: Seq<Record>, t: int, s: Seq<(i64, u128)>) -> bool {
    forall|j: int| 0 <= j < s.len() ==> hit_matches(sr, q, t, #[trigger] s[j])
}

/// Each of the first `t` records of `sr` appears among the hits of `s`.
pub open spec fn covered(sr: Seq<Record>, t: int, s: Seq<(i64, u128)>) -> bool {
    forall|u: int| 0 <= u < t ==> hits_have_id(s, (#[trigger] sr[u]).id)
}

/// Every hit of `s` strictly precedes every one of the first `t` records
/// of `sr` that is missing from `s`: nothing kept is farther than
/// anything left out.
pub open spec fn dominates(q: Seq<i32>, sr: Seq<Record>, t: int, s: Seq<(i64, u128)>) -> bool {
    forall|u: int, j: int|
        #![trigger sr[u], s[j]]
        0 <= u < t && 0 <= j < s.len() && !hits_have_id(s, sr[u].id) ==> key_lt(
            s[j].1 as int,
            s[j].0,
            dist2(q, sr[u].embedding@),
            sr[u].id,
        )
}

/// The k-nearest-neighbour contract: `r` is the correct answer to
/// `QueryNearest(q, k)` against the collection `m` of dimension `dim`.
///
/// A correct answer holds the `min(k, |m|)` live records closest to `q`,
/// each with its exact squared Euclidean distance, strictly sorted by
/// (distance, identifier); every record left out lies strictly beyond
/// every record kept, under that same order.
pub open spec fn knn_post(
    m: Map<i64, Seq<i32>>,
    dim: int,
    q: Seq<i32>,
    k: int,
    r: Result<Vec<(i64, u128)>, StoreError>,
) -> bool {
    match r {
        Ok(res) => {
            &&& q.len() == dim && k >= 1
            &&& m.dom().finite()
            &&& res@.len() == min_int(k, m.dom().len() as int)
            &&& hits_sorted(res@)
            &&& forall|j: int|
                0 <= j < res@.len() ==> m.contains_key((#[trigger] res@[j]).0) && res@[j].1 as int
                    == dist2(q, m[res@[j].0])
            &&& forall|id: i64, j: int|
                #![trigger m[id], res@[j]]
                m.contains_key(id) && !hits_have_id(res@, id) && 0 <= j < res@.len() ==> key_lt(
                    res@[j].1 as int,
                    res@[j].0,
                    dist2(q, m[id]),
                    id,
                )
        },
        Err(e) => {
            &&& (e == StoreError::DimensionMismatch <==> q.len() != dim)
            &&& (e == StoreError::InvalidArgument <==> q.len() == dim && k == 0)
            &&& (e == StoreError::DimensionMismatch || e == StoreError::InvalidArgument)
        },
    }
}

/// A collection of vector records sharing one fixed dimension, queried by
/// exact brute-force squared Euclidean distance.
pub struct VecStore {
    dim: usize,
    records: Vec<Record>,
}

impl View for VecStore {
    type V = Map<i64, Seq<i32>>;

    closed spec fn view(&self) -> Map<i64, Seq<i32>> {
        records_map(self.records@)
    }
}

impl VecStore {
    /// Well-formedness: every stored embedding has the collection's width
    /// and row identifiers are unique among live records.
    pub closed spec fn wf(&self) -> bool {
        &&& forall|i: int|
            0 <= i < self.records@.len() ==> (#[trigger] self.records@[i]).embedding@.len()
                == self.dim as int
        &&& distinct_ids(self.records@)
    }

    /// The collection's fixed embedding width `D`.
    pub closed spec fn spec_dim(&self) -> int {
        self.dim as int
    }

    /// Create a fresh, empty collection with embedding width `dim`.
    pub fn new(dim: usize) -> (s: VecStore)
        ensures
            s.wf(),
            s.spec_dim() == dim as int,
            s@ == Map::<i64, Seq<i32>>::empty(),
    {
        VecStore { dim, records: Vec::new() }
    }

    /// The embedding width the collection was created with.
    pub fn dimension(&self) -> (d: usize)
        ensures
            d as int == self.spec_dim(),
    {
        self.dim
    }
}

/// A record sequence with distinct identifiers keeps them distinct when
/// its last record is dropped.
proof fn lemma_distinct_drop_last(s: Seq<Record>)
    requires
        s.len() > 0,
        distinct_ids(s),
    ensures
        distinct_ids(s.drop_last()),
{
    assert forall|i: int, j: int|
        0 <= i < j < s.drop_last().len() implies s.drop_last()[i].id != s.drop_last()[j].id by {
        assert(s.drop_last()[i] == s[i]);
        assert(s.drop_last()[j] == s[j]);
    }
}

/// A row identifier is in the map of a record sequence exactly when some
/// record carries it.
proof fn lemma_map_contains(s: Seq<Record>, id: i64)
    ensures
        records_map(s).contains_key(id) <==> exists|i: int| 0 <= i < s.len() && s[i].id == id,
    decreases s.len(),
{
    if s.len() > 0 {
        lemma_map_contains(s.drop_last(), id);
        if s.last().id == id {
            assert(s[s.len() - 1].id == id);
        } else {
            if exists|i: int| 0 <= i < s.len() && s[i].id == id {
                let i = choose|i: int| 0 <= i < s.len() && s[i].id == id;
                assert(s.drop_last()[i] == s[i]);
            }
            if exists|i: int| 0 <= i < s.drop_last().len() && s.drop_last()[i].id == id {
                let i = choose|i: int| 0 <= i < s.drop_last().len() && s.drop_last()[i].id == id;
                assert(s[i] == s.drop_last()[i]);
            }
        }
    }
}

/// On a sequence with distinct identifiers, the map sends each record's
/// identifier to that record's embedding.
proof fn lemma_map_value(s: Seq<Record>, i: int)
    requires
        distinct_ids(s),
        0 <= i < s.len(),
    ensures
        records_map(s).contains_key(s[i].id),
        records_map(s)[s[i].id] == s[i].embedding@,
    decreases s.len(),
{
    if i < s.len() - 1 {
        lemma_distinct_drop_last(s);
        lemma_map_value(s.drop_last(), i);
        assert(s.drop_last()[i] == s[i]);
        assert(s.last().id != s[i].id);
    }
}

/// On a sequence with distinct identifiers, the map holds exactly one
/// entry per record.
proof fn lemma_map_len(s: Seq<Record>)
    requires
        distinct_ids(s),
    ensures
        records_map(s).dom().finite(),
        records_map(s).dom().len() == s.len(),
    decreases s.len(),
{
    broadcast use vstd::set::axiom_set_insert_len;

    if s.len() > 0 {
        lemma_distinct_drop_last(s);
        lemma_map_len(s.drop_last());
        lemma_map_contains(s.drop_last(), s.last().id);
        assert forall|i: int|
            0 <= i < s.drop_last().len() implies s.drop_last()[i].id != s.last().id by {
            assert(s.drop_last()[i] == s[i]);
            assert(s[i].id != s[s.len() - 1].id);
        }
        assert(!records_map(s.drop_last()).contains_key(s.last().id));
        assert(records_map(s).dom() =~= records_map(s.drop_last()).dom().insert(s.last().id));
    }
}

/// Replacing one record's embedding in place (keeping its identifier)
/// updates the map at that identifier alone.
proof fn lemma_map_update_at(s: Seq<Record>, i: int, r: Record)
    requires
        distinct_ids(s),
        0 <= i < s.len(),
        r.id == s[i].id,
    ensures
        records_map(s.update(i, r)) == records_map(s).insert(r.id, r.embedding@),
{
    let t = s.update(i, r);
    assert(distinct_ids(t)) by {
        assert forall|a: int, b: int| 0 <= a < b < t.len() implies t[a].id != t[b].id by {
            assert(s[a].id != s[b].id);
        }
    }
    assert forall|k: i64| #[trigger]
        records_map(t).contains_key(k)
            == records_map(s).insert(r.id, r.embedding@).contains_key(k) by {
        lemma_map_contains(t, k);
        lemma_map_contains(s, k);
        if exists|a: int| 0 <= a < s.len() && s[a].id == k {
            let a = choose|a: int| 0 <= a < s.len() && s[a].id == k;
            assert(t[a].id == k);
        }
        if exists|a: int| 0 <= a < t.len() && t[a].id == k {
            let a = choose|a: int| 0 <= a < t.len() && t[a].id == k;
            assert(s[a].id == k || k == r.id);
        }
    }
    assert forall|k: i64|
        records_map(t).contains_key(k) implies records_map(t)[k] == records_map(s).insert(
        r.id,
        r.embedding@,
    )[k] by {
        lemma_map_contains(t, k);
        let a = choose|a: int| 0 <= a < t.len() && t[a].id == k;
        lemma_map_value(t, a);
        if k == r.id {
            assert(a == i) by {
                if a != i {
                    assert(t[a].id != t[i].id);
                }
            }
        } else {
            assert(a != i);
            assert(s[a] == t[a]);
            lemma_map_value(s, a);
        }
    }
    assert(records_map(t) =~= records_map(s).insert(r.id, r.embedding@));
}

/// Removing the record at one index removes exactly its identifier from
/// the map.
proof fn lemma_map_remove_at(s: Seq<Record>, i: int)
    requires
        distinct_ids(s),
        0 <= i < s.len(),
    ensures
        records_map(s.remove(i)) == records_map(s).remove(s[i].id),
{
    let t = s.remove(i);
    s.remove_ensures(i);
    assert(distinct_ids(t)) by {
        assert forall|a: int, b: int| 0 <= a < b < t.len() implies t[a].id != t[b].id by {
            let a0: int = if a < i { a } else { a + 1 };
            let b0: int = if b < i { b } else { b + 1 };
            assert(t[a] == s[a0]);
            assert(t[b] == s[b0]);
            assert(s[a0].id != s[b0].id);
        }
    }
    assert forall|k: i64| #[trigger]
        records_map(t).contains_key(k) == records_map(s).remove(s[i].id).contains_key(k) by {
        lemma_map_contains(t, k);
        lemma_map_contains(s, k);
        if exists|a: int| 0 <= a < t.len() && t[a].id == k {
            let a = choose|a: int| 0 <= a < t.len() && t[a].id == k;
            let a0: int = if a < i { a } else { a + 1 };
            assert(s[a0].id == k);
            assert(a0 != i);
            assert(s[a0].id != s[i].id);
        }
        if exists|a: int| 0 <= a < s.len() && s[a].id == k && k != s[i].id {
            let a = choose|a: int| 0 <= a < s.len() && s[a].id == k;
            assert(a != i);
            let a1: int = if a < i { a } else { a - 1 };
            assert(t[a1] == s[a]);
        }
    }
    assert forall|k: i64|
        records_map(t).contains_key(k) implies records_map(t)[k] == records_map(s).remove(
        s[i].id,
    )[k] by {
        lemma_map_contains(t, k);
        let a = choose|a: int| 0 <= a < t.len() && t[a].id == k;
        lemma_map_value(t, a);
        let a0: int = if a < i { a } else { a + 1 };
        assert(s[a0] == t[a]);
        lemma_map_value(s, a0);
        assert(a0 != i);
        assert(k != s[i].id);
    }
    assert(records_map(t) =~= records_map(s).remove(s[i].id));
}

/// Extending both prefixes by one coordinate adds that coordinate pair's
/// squared difference to the distance.
proof fn lemma_dist2_take_step(a: Seq<i32>, b: Seq<i32>, i: int)
    requires
        a.len() == b.len(),
        0 <= i < a.len(),
    ensures
        dist2(a.take(i + 1), b.take(i + 1)) == dist2(a.take(i), b.take(i)) + sq(a[i] - b[i]),
{
    assert(a.take(i + 1).drop_last() =~= a.take(i));
    assert(b.take(i + 1).drop_last() =~= b.take(i));
    assert(a.take(i + 1).last() == a[i]);
    assert(b.take(i + 1).last() == b[i]);
}

/// Squared Euclidean distance of two equal-length coordinate vectors, in
/// exact integer arithmetic. Each squared difference is at most
/// `(2^32 - 1)^2` and there are at most `usize::MAX` of them, so the sum
/// cannot reach `2^128`.
fn dist2_exec(a: &Vec<i32>, b: &Vec<i32>) -> (d: u128)
    requires
        a@.len() == b@.len(),
    ensures
        d as int == dist2(a@, b@),
{
    let mut acc: u128 = 0;
    let mut i: usize = 0;
    while i < a.len()
        invariant
            a@.len() == b@.len(),
            i <= a@.len(),
            acc as int == dist2(a@.take(i as int), b@.take(i as int)),
            acc <= (i as int) * 0xffff_fffe_0000_0001,
        decreases a@.len() - i as int,
    {
        let av = a[i];
        let bv = b[i];
        let d64: i64 = (av as i64) - (bv as i64);
        proof {
            assert(0 <= (d64 as int) * (d64 as int) <= 0xffff_fffe_0000_0001)
                by (nonlinear_arith)
                requires
                    -0xffff_ffff <= d64 as int <= 0xffff_ffff,
            ;
        }
        let prod: i128 = (d64 as i128) * (d64 as i128);
        let term: u128 = prod as u128;
        proof {
            lemma_dist2_take_step(a@, b@, i as int);
            assert(term as int == sq(a@[i as int] - b@[i as int]));
            assert(acc + term <= ((i as int) + 1) * 0xffff_fffe_0000_0001);
            assert(((i as int) + 1) * 0xffff_fffe_0000_0001 <= 0xffff_ffff_ffff_ffff
                * 0xffff_fffe_0000_0001);
        }
        acc = acc + term;
        i = i + 1;
    }
    proof {
        assert(a@.take(a@.len() as int) =~= a@);
        assert(b@.take(b@.len() as int) =~= b@);
    }
    acc
}

/// Whether hit `a` strictly precedes hit `b`: smaller squared distance,
/// or equal distance and smaller row identifier.
fn hit_before(a: (i64, u128), b: (i64, u128)) -> (r: bool)
    ensures
        r == key_lt(a.1 as int, a.0, b.1 as int, b.0),
{
    a.1 < b.1 || (a.1 == b.1 && a.0 < b.0)
}

impl VecStore {
    /// Index of the live record carrying `id`, if any.
    fn find_index(&self, id: i64) -> (r: Option<usize>)
        ensures
            match r {
                Some(i) => i < self.records@.len() && self.records@[i as int].id == id,
                None => forall|i: int| 0 <= i < self.records@.len() ==> self.records@[i].id != id,
            },
    {
        let mut i: usize = 0;
        while i < self.records.len()
            invariant
                i <= self.records@.len(),
                forall|j: int| 0 <= j < i as int ==> self.records@[j].id != id,
            decreases self.records@.len() - i as int,
        {
            if self.records[i].id == id {
                return Some(i);
            }
            i = i + 1;
        }
        None
    }

    /// Number of live records.
    pub fn len(&self) -> (n: usize)
        requires
            self.wf(),
        ensures
            n as int == self@.dom().len(),
            self@.dom().finite(),
    {
        proof {
            lemma_map_len(self.records@);
        }
        self.records.len()
    }

    /// Whether a live record carries `id`.
    pub fn contains(&self, id: i64) -> (r: bool)
        ensures
            r == self@.contains_key(id),
    {
        proof {
            lemma_map_contains(self.records@, id);
        }
        self.find_index(id).is_some()
    }

    /// Add a new record; never an implicit overwrite.
    ///
    /// Fails with `DimensionMismatch` exactly when the embedding's length
    /// differs from the collection dimension, and otherwise with
    /// `DuplicateKey` exactly when `id` is already present; a failed call
    /// leaves the collection unchanged.
    pub fn insert(&mut self, id: i64, embedding: Vec<i32>) -> (r: Result<(), StoreError>)
        requires
            old(self).wf(),
        ensures
            final(self).wf(),
            final(self).spec_dim() == old(self).spec_dim(),
            match r {
                Ok(()) => {
                    &&& embedding@.len() == old(self).spec_dim()
                    &&& !old(self)@.contains_key(id)
                    &&& final(self)@ == old(self)@.insert(id, embedding@)
                },
                Err(e) => {
                    &&& final(self)@ == old(self)@
                    &&& (e == StoreError::DimensionMismatch <==> embedding@.len()
                        != old(self).spec_dim())
                    &&& (e == StoreError::DuplicateKey <==> embedding@.len()
                        == old(self).spec_dim() && old(self)@.contains_key(id))
                },
            },
            r is Err <==> embedding@.len() != old(self).spec_dim() || old(self)@.contains_key(id),
    {
        proof {
            lemma_map_contains(self.records@, id);
        }
        if embedding.len() != self.dim {
            return Err(StoreError::DimensionMismatch);
        }
        if self.find_index(id).is_some() {
            return Err(StoreError::DuplicateKey);
        }
        let ghost s_old = self.records@;
        self.records.push(Record { id, embedding });
        proof {
            assert(self.records@.drop_last() =~= s_old);
            assert(self.records@.last().id == id);
            assert forall|a: int, b: int|
                0 <= a < b < self.records@.len() implies self.records@[a].id
                != self.records@[b].id by {
                if b < s_old.len() {
                    assert(self.records@[a] == s_old[a]);
                    assert(self.records@[b] == s_old[b]);
                } else {
                    assert(self.records@[a] == s_old[a]);
                }
            }
        }
        Ok(())
    }

    /// Replace the embedding of an existing record; a content replacement,
    /// not an upsert and never a blend with the prior value.
    ///
    /// Fails with `DimensionMismatch` exactly when the embedding's length
    /// differs from the collection dimension, and otherwise with
    /// `NotFound` exactly when `id` is absent; a failed call leaves the
    /// collection unchanged.
    pub fn update(&mut self, id: i64, embedding: Vec<i32>) -> (r: Result<(), StoreError>)
        requires
            old(self).wf(),
        ensures
            final(self).wf(),
            final(self).spec_dim() == old(self).spec_dim(),
            match r {
                Ok(()) => {
                    &&& embedding@.len() == old(self).spec_dim()
                    &&& old(self)@.contains_key(id)
                    &&& final(self)@ == old(self)@.insert(id, embedding@)
                },
                Err(e) => {
                    &&& final(self)@ == old(self)@
                    &&& (e == StoreError::DimensionMismatch <==> embedding@.len()
                        != old(self).spec_dim())
                    &&& (e == StoreError::NotFound <==> embedding@.len() == old(self).spec_dim()
                        && !old(self)@.contains_key(id))
                },
            },
            r is Err <==> embedding@.len() != old(self).spec_dim() || !old(self)@.contains_key(id),
    {
        proof {
            lemma_map_contains(self.records@, id);
        }
        if embedding.len() != self.dim {
            return Err(StoreError::DimensionMismatch);
        }
        match self.find_index(id) {
            None => Err(StoreError::NotFound),
            Some(i) => {
                let ghost s_old = self.records@;
                self.records[i] = Record { id, embedding };
                proof {
                    lemma_map_update_at(s_old, i as int, self.records@[i as int]);
                    assert forall|a: int, b: int|
                        0 <= a < b < self.records@.len() implies self.records@[a].id
                        != self.records@[b].id by {
                        assert(s_old[a].id != s_old[b].id);
                    }
                }
                Ok(())
            },
        }
    }

    /// Exact k-nearest-neighbour retrieval: the `k` live records whose
    /// embeddings are closest to `q` under squared Euclidean distance,
    /// ascending by distance, ties broken by ascending row identifier.
    ///
    /// Fails with `DimensionMismatch` exactly when `q`'s length differs
    /// from the collection dimension, and otherwise with
    /// `InvalidArgument` exactly when `k` is zero. When the collection
    /// holds fewer than `k` live records, all of them are returned.
    #[verifier::loop_isolation(false)]
    #[verifier::rlimit(100)]
    pub fn query_nearest(&self, q: &Vec<i32>, k: usize) -> (r: Result<
        Vec<(i64, u128)>,
        StoreError,
    >)
        requires
            self.wf(),
        ensures
            knn_post(self@, self.spec_dim(), q@, k as int, r),
            r is Err <==> q@.len() != self.spec_dim() || k == 0,
    {
        if q.len() != self.dim {
            return Err(StoreError::DimensionMismatch);
        }
        if k == 0 {
            return Err(StoreError::InvalidArgument);
        }
        let ghost sr = self.records@;
        let n = self.records.len();
        let mut res: Vec<(i64, u128)> = Vec::new();
        let mut t: usize = 0;
        while t < n
            invariant
                t <= n,
                res@.len() == min_int(k as int, t as int),
                hits_sorted(res@),
                hits_match(q@, sr, t as int, res@),
                res@.len() < k ==> covered(sr, t as int, res@),
                dominates(q@, sr, t as int, res@),
            decreases n - t,
        {
            let ghost res0 = res@;
            let rec_id = self.records[t].id;
            let d = dist2_exec(q, &self.records[t].embedding);
            let p = (rec_id, d);
            proof {
                // The new record's identifier is not among the hits yet.
                assert forall|j: int| 0 <= j < res0.len() implies (#[trigger] res0[j]).0
                    != rec_id by {
                    let u = choose|u: int|
                        0 <= u < t && sr[u].id == res0[j].0 && res0[j].1 as int == dist2(
                            q@,
                            sr[u].embedding@,
                        );
                    assert(sr[u].id != sr[t as int].id);
                }
            }
            let mut pos: usize = 0;
            while pos < res.len() && hit_before(res[pos], p)
                invariant
                    pos <= res@.len(),
                    forall|j: int|
                        0 <= j < pos ==> key_lt(
                            (#[trigger] res@[j]).1 as int,
                            res@[j].0,
                            d as int,
                            rec_id,
                        ),
                decreases res@.len() - pos as int,
            {
                pos = pos + 1;
            }
            proof {
                // At the stop position the new hit strictly precedes the rest.
                if pos < res0.len() {
                    assert(!key_lt(res0[pos as int].1 as int, res0[pos as int].0, d as int, rec_id));
                    assert(res0[pos as int].0 != rec_id);
                    assert(key_lt(d as int, rec_id, res0[pos as int].1 as int, res0[pos as int].0));
                }
            }
            res.insert(pos, p);
            proof {
                res0.insert_ensures(pos as int, p);
                let res1 = res@;
                assert(res1.len() == res0.len() + 1);
                assert(res1[pos as int] == p);
                // Strict sortedness of the extended hit list.
                assert forall|i: int, j: int| 0 <= i < j < res1.len() implies key_lt(
                    (#[trigger] res1[i]).1 as int,
                    res1[i].0,
                    (#[trigger] res1[j]).1 as int,
                    res1[j].0,
                ) by {
                    if i < pos as int && j < pos as int {
                        assert(res1[i] == res0[i] && res1[j] == res0[j]);
                    } else if i < pos as int && j == pos as int {
                        assert(res1[i] == res0[i]);
                    } else if i < pos as int && j > pos as int {
                        assert(res1[i] == res0[i] && res1[j] == res0[j - 1]);
                        if i < j - 1 {
                        } else {
                            assert(i == j - 1 && i < pos as int && j > pos as int);
                        }
                    } else if i == pos as int {
                        assert(res1[j] == res0[j - 1] && j - 1 >= pos as int);
                        if j - 1 > pos as int {
                            assert(key_lt(
                                res0[pos as int].1 as int,
                                res0[pos as int].0,
                                res0[j - 1].1 as int,
                                res0[j - 1].0,
                            ));
                        }
                    } else {
                        assert(res1[i] == res0[i - 1] && res1[j] == res0[j - 1]);
                    }
                }
                // Every hit still reports a processed record.
                assert forall|j: int| 0 <= j < res1.len() implies hit_matches(
                    sr,
                    q@,
                    t as int + 1,
                    #[trigger] res1[j],
                ) by {
                    if j == pos as int {
                        assert(sr[t as int].id == p.0 && p.1 as int == dist2(
                            q@,
                            sr[t as int].embedding@,
                        ));
                    } else {
                        let j0: int = if j < pos as int {
                            j
                        } else {
                            j - 1
                        };
                        assert(res1[j] == res0[j0]);
                        assert(hit_matches(sr, q@, t as int, res0[j0]));
                        let u = choose|u: int|
                            0 <= u < t && sr[u].id == res0[j0].0 && res0[j0].1 as int == dist2(
                                q@,
                                sr[u].embedding@,
                            );
                        assert(0 <= u < t as int + 1 && sr[u].id == res1[j].0);
                    }
                }
                // Membership carries over from the old hit list.
                assert forall|id: i64| hits_have_id(res0, id) implies hits_have_id(
                    res1,
                    id,
                ) by {
                    let j = choose|j: int| 0 <= j < res0.len() && res0[j].0 == id;
                    if j < pos as int {
                        assert(res1[j].0 == id);
                    } else {
                        assert(res1[j + 1].0 == id);
                    }
                }
                assert(hits_have_id(res1, rec_id)) by {
                    assert(res1[pos as int].0 == rec_id);
                }
            }
            if res.len() > k {
                let ghost res1 = res@;
                let popped = res.pop();
                proof {
                    let res2 = res@;
                    let kk = k as int;
                    assert(res1.len() == kk + 1);
                    assert(res2 =~= res1.subrange(0, kk));
                    let last = res1[kk];
                    // Whatever is dropped or already missing lies strictly
                    // beyond every kept hit.
                    assert forall|u: int, j: int|
                        #![trigger sr[u], res2[j]]
                        0 <= u < t as int + 1 && 0 <= j < res2.len() && !hits_have_id(
                            res2,
                            sr[u].id,
                        ) implies key_lt(
                        res2[j].1 as int,
                        res2[j].0,
                        dist2(q@, sr[u].embedding@),
                        sr[u].id,
                    ) by {
                        assert(res2[j] == res1[j]);
                        if hits_have_id(res1, sr[u].id) {
                            // Only the popped hit can carry it.
                            let jj = choose|jj: int| 0 <= jj < res1.len() && res1[jj].0 == sr[u].id;
                            assert(jj == kk) by {
                                if jj < kk {
                                    assert(res2[jj].0 == sr[u].id);
                                }
                            }
                            // The popped hit reports record u itself.
                            assert(hit_matches(sr, q@, t as int + 1, last));
                            let w = choose|w: int|
                                0 <= w < t as int + 1 && sr[w].id == last.0 && last.1 as int
                                    == dist2(q@, sr[w].embedding@);
                            assert(w == u) by {
                                if w != u {
                                    assert(sr[w].id != sr[u].id);
                                }
                            }
                            assert(key_lt(
                                res1[j].1 as int,
                                res1[j].0,
                                last.1 as int,
                                last.0,
                            ));
                        } else {
                            // Missing from the old list too: it was already
                            // dominated, and the new hit precedes the popped
                            // old last hit, which was dominated as well.
                            assert(u != t as int) by {
                                assert(hits_have_id(res1, sr[t as int].id));
                            }
                            assert(!hits_have_id(res0, sr[u].id)) by {
                                if hits_have_id(res0, sr[u].id) {
                                    assert(hits_have_id(res1, sr[u].id));
                                }
                            }
                            assert(res0.len() == kk);
                            if res1[j] == p {
                                // p strictly precedes the popped hit.
                                assert(j == pos as int && (pos as int) < kk);
                                assert(key_lt(p.1 as int, p.0, last.1 as int, last.0));
                                assert(last == res0[kk - 1]);
                                assert(key_lt(
                                    res0[kk - 1].1 as int,
                                    res0[kk - 1].0,
                                    dist2(q@, sr[u].embedding@),
                                    sr[u].id,
                                ));
                            } else {
                                let j0: int = if j < pos as int {
                                    j
                                } else {
                                    j - 1
                                };
                                assert(res1[j] == res0[j0]);
                                assert(key_lt(
                                    res0[j0].1 as int,
                                    res0[j0].0,
                                    dist2(q@, sr[u].embedding@),
                                    sr[u].id,
                                ));
                            }
                        }
                    }
                    // The kept hits stay sorted and matched.
                    assert forall|j: int| 0 <= j < res2.len() implies hit_matches(
                        sr,
                        q@,
                        t as int + 1,
                        #[trigger] res2[j],
                    ) by {
                        assert(res2[j] == res1[j]);
                    }
                }
            } else {
                proof {
                    let res1 = res@;
                    // Nothing processed is missing: the list was not full,
                    // so it already covered every earlier record.
                    assert forall|u: int| 0 <= u < t as int + 1 implies hits_have_id(
                        res1,
                        (#[trigger] sr[u]).id,
                    ) by {
                        if u < t as int {
                            assert(res0.len() < k);
                            assert(hits_have_id(res0, sr[u].id));
                        } else {
                            assert(res1[pos as int].0 == sr[u].id);
                        }
                    }
                    assert(dominates(q@, sr, t as int + 1, res1)) by {
                        assert forall|u: int, j: int|
                            #![trigger sr[u], res1[j]]
                            0 <= u < t as int + 1 && 0 <= j < res1.len() && !hits_have_id(
                                res1,
                                sr[u].id,
                            ) implies key_lt(
                            res1[j].1 as int,
                            res1[j].0,
                            dist2(q@, sr[u].embedding@),
                            sr[u].id,
                        ) by {
                            assert(hits_have_id(res1, sr[u].id));
                        }
                    }
                }
            }
            t = t + 1;
        }
        proof {
            lemma_map_len(sr);
            // Convert the record-level loop facts to map-level facts.
            assert forall|j: int| 0 <= j < res@.len() implies self@.contains_key(
                (#[trigger] res@[j]).0,
            ) && res@[j].1 as int == dist2(q@, self@[res@[j].0]) by {
                let u = choose|u: int|
                    0 <= u < n && sr[u].id == res@[j].0 && res@[j].1 as int == dist2(
                        q@,
                        sr[u].embedding@,
                    );
                lemma_map_value(sr, u);
            }
            assert forall|id: i64, j: int|
                #![trigger self@[id], res@[j]]
                self@.contains_key(id) && !hits_have_id(res@, id) && 0 <= j
                    < res@.len() implies key_lt(
                res@[j].1 as int,
                res@[j].0,
                dist2(q@, self@[id]),
                id,
            ) by {
                lemma_map_contains(sr, id);
                let u = choose|u: int| 0 <= u < sr.len() && sr[u].id == id;
                lemma_map_value(sr, u);
            }
        }
        Ok(res)
    }

    /// Remove the record carrying `id` if present; a no-op, not an error,
    /// when `id` is absent (idempotent delete).
    pub fn delete(&mut self, id: i64)
        requires
            old(self).wf(),
        ensures
            final(self).wf(),
            final(self).spec_dim() == old(self).spec_dim(),
            final(self)@ == old(self)@.remove(id),
    {
        proof {
            lemma_map_contains(self.records@, id);
        }
        match self.find_index(id) {
            None => {
                proof {
                    assert(self@.remove(id) =~= self@);
                }
            },
            Some(i) => {
                let ghost s_old = self.records@;
                self.records.remove(i);
                proof {
                    lemma_map_remove_at(s_old, i as int);
                    s_old.remove_ensures(i as int);
                    assert forall|a: int, b: int|
                        0 <= a < b < self.records@.len() implies self.records@[a].id
                        != self.records@[b].id by {
                        let a0: int = if a < i as int { a } else { a + 1 };
                        let b0: int = if b < i as int { b } else { b + 1 };
                        assert(self.records@[a] == s_old[a0]);
                        assert(self.records@[b] == s_old[b0]);
                        assert(s_old[a0].id != s_old[b0].id);
                    }
                    assert forall|a: int|
                        0 <= a < self.records@.len() implies (#[trigger] self.records@[a]).embedding@.len()
                        == self.dim as int by {
                        let a0: int = if a < i as int { a } else { a + 1 };
                        assert(self.records@[a] == s_old[a0]);
                    }
                }
            },
        }
    }
}

} // verus!
