//! Fail-closed recognition and factorization of a narrow batch-filter shape.
//!
//! Only filters equivalent to `must: [FieldCondition(key, Integer Value | Integer Any)]` are
//! accepted. Any residual condition makes the plan unsupported, so callers can safely fall back
//! to the per-query filter path.
use vstd::prelude::*;

use crate::arith::{ceil_div, div_ceil_usize, lemma_ceil_div, min_int};
use crate::bits::{
    count_ones64, ones_below, packed_bit64, set_packed_bit64, test_bit64, zero_words64,
};
use crate::filter::{
    contains_i64, AnyVariants, Condition, Filter, IntPayloadType, Match, PayloadKeyType,
    ValueVariants,
};
use crate::text::{decimal, decimal_text, joined};

verus! {

/// Number of members below `n` of a packed bit set.
pub open spec fn count_members(words: Seq<u64>, n: nat) -> nat
    decreases n,
{
    if n == 0 {
        0
    } else {
        count_members(words, (n - 1) as nat) + if packed_bit64(words, n - 1) {
            1nat
        } else {
            0nat
        }
    }
}

/// Inside one word, members are counted by its bits.
proof fn lemma_count_members_word(words: Seq<u64>, w: nat, j: nat)
    requires
        w < words.len(),
        j <= 64,
    ensures
        count_members(words, 64 * w + j) == count_members(words, 64 * w) + ones_below(
            words[w as int],
            j,
        ),
    decreases j,
{
    if j > 0 {
        lemma_count_members_word(words, w, (j - 1) as nat);
        let i = 64 * w + j - 1;
        assert(i / 64 == w && i % 64 == j - 1);
    }
}

/// Bits past the last member do not count.
proof fn lemma_count_members_tail(words: Seq<u64>, m: nat, n: nat)
    requires
        m <= n,
        forall|i: int| m <= i ==> !packed_bit64(words, i),
    ensures
        count_members(words, n) == count_members(words, m),
    decreases n,
{
    if m < n {
        lemma_count_members_tail(words, m, (n - 1) as nat);
    }
}

/// There are at most `n` members below `n`.
proof fn lemma_count_members_bound(words: Seq<u64>, n: nat)
    ensures
        count_members(words, n) <= n,
    decreases n,
{
    if n > 0 {
        lemma_count_members_bound(words, (n - 1) as nat);
    }
}

/// Indices in strictly ascending order.
pub open spec fn ascending(list: Seq<usize>) -> bool {
    forall|i: int, j: int| 0 <= i < j < list.len() ==> list[i] < list[j]
}

/// An ascending list of exactly the members has as many elements as there are members.
proof fn lemma_count_members_list(words: Seq<u64>, list: Seq<usize>, n: nat)
    requires
        ascending(list),
        forall|i: int| 0 <= i < list.len() ==> #[trigger] list[i] < n,
        forall|i: int| 0 <= i < n ==> (packed_bit64(words, i) <==> list.contains(i as usize)),
        n <= usize::MAX + 1,
    ensures
        count_members(words, n) == list.len(),
    decreases n,
{
    if n == 0 {
        if list.len() > 0 {
            assert(list[0] < n);
        }
    } else {
        let m = (n - 1) as nat;
        if packed_bit64(words, m as int) {
            let p = choose|p: int| 0 <= p < list.len() && list[p] == m as usize;
            if p < list.len() - 1 {
                assert(list[p] < list[list.len() - 1]);
                assert(list[list.len() - 1] < n);
            }
            let shorter = list.drop_last();
            assert forall|i: int| 0 <= i < shorter.len() implies #[trigger] shorter[i] < m by {
                assert(list[i] < list[list.len() - 1]);
            }
            assert forall|i: int| 0 <= i < m implies (packed_bit64(words, i)
                <==> shorter.contains(i as usize)) by {
                if packed_bit64(words, i) {
                    let t = choose|t: int| 0 <= t < list.len() && list[t] == i as usize;
                    assert(t < shorter.len());
                    assert(shorter[t] == i as usize);
                }
                if shorter.contains(i as usize) {
                    let t = choose|t: int| 0 <= t < shorter.len() && shorter[t] == i as usize;
                    assert(list[t] == i as usize);
                }
            }
            lemma_count_members_list(words, shorter, m);
        } else {
            assert forall|i: int| 0 <= i < list.len() implies #[trigger] list[i] < m by {
                if list[i] == m {
                    assert(list.contains(m as usize));
                }
            }
            lemma_count_members_list(words, list, m);
        }
    }
}

/// A dynamically sized query bit mask.
///
/// Unlike a single word, this remains correct for batches larger than 64 queries. The explicit
/// query indices stored on each atom are convenient for sparse iteration, while this mask is
/// convenient for set operations.
#[derive(Debug)]
pub struct QueryMask {
    query_count: usize,
    words: Vec<u64>,
}

impl QueryMask {
    /// Number of queries that the mask covers.
    pub closed spec fn spec_query_count(&self) -> nat {
        self.query_count as nat
    }

    /// The packed words, lowest query first.
    pub closed spec fn spec_words(&self) -> Seq<u64> {
        self.words@
    }

    /// Whether query `i` is in the mask.
    pub open spec fn has(&self, i: int) -> bool {
        packed_bit64(self.spec_words(), i)
    }

    /// The words are just enough for the batch and hold no bit beyond it.
    pub open spec fn wf(&self) -> bool {
        &&& self.spec_words().len() == ceil_div(self.spec_query_count() as int, 64)
        &&& forall|i: int| self.spec_query_count() <= i ==> !(#[trigger] self.has(i))
    }

    fn from_query_indices(query_count: usize, query_indices: &Vec<usize>) -> (mask: Self)
        requires
            forall|i: int| 0 <= i < query_indices@.len() ==> #[trigger] query_indices@[i]
                < query_count,
        ensures
            mask.wf(),
            mask.spec_query_count() == query_count,
            forall|i: int|
                #[trigger] mask.has(i) <==> exists|k: int|
                    0 <= k < query_indices@.len() && query_indices@[k] == i,
    {
        proof {
            lemma_ceil_div(query_count as int, 64);
        }
        let mut words = zero_words64(div_ceil_usize(query_count, 64));
        let mut n: usize = 0;
        while n < query_indices.len()
            invariant
                n <= query_indices@.len(),
                forall|i: int| 0 <= i < query_indices@.len() ==> #[trigger] query_indices@[i]
                    < query_count,
                words@.len() == ceil_div(query_count as int, 64),
                query_count <= 64 * words@.len(),
                forall|i: int|
                    #[trigger] packed_bit64(words@, i) <==> exists|k: int|
                        0 <= k < n && query_indices@[k] == i,
            decreases query_indices@.len() - n,
        {
            let index: usize = query_indices[n];
            let ghost before = words@;
            set_packed_bit64(&mut words, index);
            proof {
                assert forall|i: int|
                    #[trigger] packed_bit64(words@, i) <==> exists|k: int|
                        0 <= k < n + 1 && query_indices@[k] == i by {
                    if packed_bit64(words@, i) {
                        if i == index {
                            assert(query_indices@[n as int] == i);
                        } else {
                            assert(packed_bit64(before, i));
                        }
                    }
                    if exists|k: int| 0 <= k < n + 1 && query_indices@[k] == i {
                        let k = choose|k: int| 0 <= k < n + 1 && query_indices@[k] == i;
                        if k < n {
                            assert(packed_bit64(before, i));
                        }
                    }
                }
            }
            n = n + 1;
        }
        let mask = QueryMask { query_count, words };
        proof {
            assert forall|i: int|
                #[trigger] mask.has(i) <==> exists|k: int|
                    0 <= k < query_indices@.len() && query_indices@[k] == i by {
                assert(mask.has(i) == packed_bit64(words@, i));
            }
        }
        mask
    }

    /// Number of queries that the mask covers.
    pub fn query_count(&self) -> (count: usize)
        ensures
            count == self.spec_query_count(),
    {
        self.query_count
    }

    /// The packed words, lowest query first.
    pub fn words(&self) -> (words: &[u64])
        ensures
            words@ == self.spec_words(),
    {
        self.words.as_slice()
    }

    /// Whether a query is in the mask. No query outside the batch is.
    pub fn contains(&self, query_index: usize) -> (r: bool)
        requires
            self.wf(),
        ensures
            r == self.has(query_index as int),
            query_index >= self.spec_query_count() ==> !r,
    {
        proof {
            lemma_ceil_div(self.query_count as int, 64);
            assert(self.has(query_index as int) == packed_bit64(self.words@, query_index as int));
        }
        if query_index >= self.query_count {
            return false;
        }
        test_bit64(self.words[query_index / 64], query_index % 64)
    }

    /// Number of queries in the mask.
    pub fn count_ones(&self) -> (count: usize)
        requires
            self.wf(),
        ensures
            count == count_members(self.spec_words(), self.spec_query_count()),
    {
        let mut count: usize = 0;
        let mut i: usize = 0;
        proof {
            lemma_ceil_div(self.query_count as int, 64);
        }
        while i < self.words.len()
            invariant
                i <= self.words@.len(),
                self.wf(),
                count == count_members(self.words@, (64 * i) as nat),
            decreases self.words@.len() - i,
        {
            proof {
                lemma_count_members_word(self.words@, i as nat, 64);
                let m = (64 * i + 64) as nat;
                lemma_count_members_bound(self.words@, (self.query_count) as nat);
                if m >= self.query_count {
                    assert forall|j: int| self.query_count <= j implies !packed_bit64(
                        self.words@,
                        j,
                    ) by {
                        assert(!self.has(j));
                    }
                    lemma_count_members_tail(self.words@, self.query_count as nat, m);
                } else {
                    lemma_count_members_bound(self.words@, m);
                }
            }
            count = count + count_ones64(self.words[i]);
            i = i + 1;
        }
        proof {
            lemma_ceil_div(self.query_count as int, 64);
            assert forall|j: int| self.query_count <= j implies !packed_bit64(self.words@, j) by {
                assert(!self.has(j));
            }
            lemma_count_members_tail(
                self.words@,
                self.query_count as nat,
                (64 * self.words@.len()) as nat,
            );
        }
        count
    }
}

/// The integer atoms that a filter is a union of, in the given order, with their key.
///
/// `None` when the filter has any other shape.
pub open spec fn integer_atoms(filter: Filter) -> Option<(Seq<char>, Seq<IntPayloadType>)> {
    if filter.should is Some || filter.min_should is Some || filter.must_not is Some {
        None
    } else {
        match filter.must {
            None => None,
            Some(must) => if must@.len() != 1 {
                None
            } else {
                match must@[0] {
                    Condition::Field(field) => if field.range is Some || field.geo_bounding_box
                        is Some || field.geo_radius is Some || field.geo_polygon is Some
                        || field.values_count is Some || field.is_empty is Some || field.is_null
                        is Some {
                        None
                    } else {
                        match field.matching {
                            Some(Match::Value(ValueVariants::Integer(value))) => Some(
                                (field.key@, seq![value]),
                            ),
                            Some(Match::Any(AnyVariants::Integers(values))) => Some(
                                (field.key@, values@),
                            ),
                            _ => None,
                        }
                    },
                    _ => None,
                }
            },
        }
    }
}

/// First occurrences, in order.
pub open spec fn dedup(values: Seq<IntPayloadType>) -> Seq<IntPayloadType>
    decreases values.len(),
{
    if values.len() == 0 {
        Seq::empty()
    } else {
        let head = dedup(values.drop_last());
        if head.contains(values.last()) {
            head
        } else {
            head.push(values.last())
        }
    }
}

/// Deduplication keeps the members, once each.
pub proof fn lemma_dedup(values: Seq<IntPayloadType>)
    ensures
        dedup(values).no_duplicates(),
        dedup(values).len() <= values.len(),
        forall|v: IntPayloadType| #[trigger] dedup(values).contains(v) <==> values.contains(v),
    decreases values.len(),
{
    if values.len() > 0 {
        let shorter = values.drop_last();
        lemma_dedup(shorter);
        let head = dedup(shorter);
        assert forall|v: IntPayloadType| #[trigger] dedup(values).contains(v) <==> values.contains(
            v,
        ) by {
            assert(values =~= shorter.push(values.last()));
            if values.contains(v) {
                if v == values.last() {
                    if !head.contains(v) {
                        assert(dedup(values)[head.len() as int] == v);
                    }
                } else {
                    let i = choose|i: int| 0 <= i < values.len() && values[i] == v;
                    assert(shorter[i] == v);
                    assert(head.contains(v));
                    let j = choose|j: int| 0 <= j < head.len() && head[j] == v;
                    assert(dedup(values)[j] == v);
                }
            }
            if dedup(values).contains(v) {
                let j = choose|j: int| 0 <= j < dedup(values).len() && dedup(values)[j] == v;
                if j < head.len() {
                    assert(head[j] == v);
                    assert(head.contains(v));
                    let i = choose|i: int| 0 <= i < shorter.len() && shorter[i] == v;
                    assert(values[i] == v);
                } else {
                    assert(values[values.len() - 1] == v);
                }
            }
        }
    }
}

/// Some query lists `v` right behind `u`.
pub open spec fn follows<T>(queries: Seq<Seq<T>>, u: T, v: T) -> bool {
    exists|q: int, k: int|
        0 <= q < queries.len() && 0 <= k < queries[q].len() - 1 && (#[trigger] queries[q][k]) == u
            && queries[q][k + 1] == v
}

/// Some query lists `v`.
pub open spec fn is_atom<T>(queries: Seq<Seq<T>>, v: T) -> bool {
    exists|q: int, k: int|
        0 <= q < queries.len() && 0 <= k < queries[q].len() && (#[trigger] queries[q][k]) == v
}

/// `v` is not placed yet, and everything that some query lists right before it is.
pub open spec fn ready<T>(queries: Seq<Seq<T>>, placed: Seq<T>, v: T) -> bool {
    !placed.contains(v) && forall|u: T| #[trigger] follows(queries, u, v) ==> placed.contains(u)
}

/// An order that holds every atom once and agrees with the order of every query.
pub open spec fn compatible_order(
    queries: Seq<Seq<IntPayloadType>>,
    order: Seq<IntPayloadType>,
) -> bool {
    &&& order.no_duplicates()
    &&& forall|v: IntPayloadType| #[trigger] order.contains(v) <==> is_atom(queries, v)
    &&& forall|i: int, j: int|
        #![trigger order[i], order[j]]
        0 <= i < order.len() && 0 <= j < order.len() && follows(queries, order[i], order[j]) ==> i
            < j
}

/// An order in which every position holds the smallest atom that is ready there.
pub open spec fn canonical_order(
    queries: Seq<Seq<IntPayloadType>>,
    order: Seq<IntPayloadType>,
) -> bool {
    &&& order.no_duplicates()
    &&& forall|v: IntPayloadType| #[trigger] order.contains(v) <==> is_atom(queries, v)
    &&& forall|p: int| 0 <= p < order.len() ==> #[trigger] ready(queries, order.take(p), order[p])
    &&& forall|p: int, v: IntPayloadType|
        0 <= p < order.len() && is_atom(queries, v) && v < order[p] ==> !#[trigger] ready(
            queries,
            order.take(p),
            v,
        )
}

/// The key of a filter of the supported shape.
pub open spec fn shared_key(filter: Filter) -> Seq<char> {
    (integer_atoms(filter)->0).0
}

/// The distinct atoms of a filter of the supported shape, in the order that it gives.
pub open spec fn query_atoms_of(filter: Filter) -> Seq<IntPayloadType> {
    dedup((integer_atoms(filter)->0).1)
}

/// The filters of a batch up to `n` all have the supported shape and one key.
pub open spec fn uniform_prefix(filters: Seq<Filter>, n: int) -> bool {
    forall|i: int|
        0 <= i < n ==> integer_atoms(#[trigger] filters[i]) is Some && shared_key(
            filters[i],
        ) == shared_key(filters[0])
}

/// The distinct atoms of every query, in the order that the query gives.
pub open spec fn atom_lists(filters: Seq<Filter>) -> Seq<Seq<IntPayloadType>> {
    Seq::new(filters.len(), |i: int| query_atoms_of(filters[i]))
}

/// A canonical order agrees with every query.
pub proof fn lemma_canonical_is_compatible(
    queries: Seq<Seq<IntPayloadType>>,
    order: Seq<IntPayloadType>,
)
    requires
        canonical_order(queries, order),
    ensures
        compatible_order(queries, order),
{
    assert forall|i: int, j: int|
        #![trigger order[i], order[j]]
        0 <= i < order.len() && 0 <= j < order.len() && follows(
            queries,
            order[i],
            order[j],
        ) implies i < j by {
        assert(ready(queries, order.take(j), order[j]));
        assert(order.take(j).contains(order[i]));
        let m = choose|m: int| 0 <= m < order.take(j).len() && order.take(j)[m] == order[i];
        assert(order[m] == order[i]);
    }
}

/// Plans are deterministic: a batch has at most one canonical order.
pub proof fn lemma_canonical_order_unique(
    queries: Seq<Seq<IntPayloadType>>,
    a: Seq<IntPayloadType>,
    b: Seq<IntPayloadType>,
)
    requires
        canonical_order(queries, a),
        canonical_order(queries, b),
    ensures
        a == b,
{
    lemma_canonical_prefix_unique(queries, a, b, if a.len() <= b.len() {
        a.len()
    } else {
        b.len()
    });
    if a.len() < b.len() {
        let v = b[a.len() as int];
        assert(b.contains(v));
        assert(a.contains(v));
        let m = choose|m: int| 0 <= m < a.len() && a[m] == v;
        assert(a.take(a.len() as int)[m] == b.take(a.len() as int)[m]);
        assert(b[m] == v);
    }
    if b.len() < a.len() {
        let v = a[b.len() as int];
        assert(a.contains(v));
        assert(b.contains(v));
        let m = choose|m: int| 0 <= m < b.len() && b[m] == v;
        assert(a.take(b.len() as int)[m] == b.take(b.len() as int)[m]);
        assert(a[m] == v);
    }
    assert(a.take(a.len() as int) =~= a);
    assert(b.take(b.len() as int) =~= b);
}

proof fn lemma_canonical_prefix_unique(
    queries: Seq<Seq<IntPayloadType>>,
    a: Seq<IntPayloadType>,
    b: Seq<IntPayloadType>,
    n: nat,
)
    requires
        canonical_order(queries, a),
        canonical_order(queries, b),
        n <= a.len(),
        n <= b.len(),
    ensures
        a.take(n as int) == b.take(n as int),
    decreases n,
{
    if n == 0 {
        assert(a.take(0) =~= b.take(0));
    } else {
        let p = n - 1;
        lemma_canonical_prefix_unique(queries, a, b, p as nat);
        assert(ready(queries, a.take(p), a[p]));
        assert(ready(queries, b.take(p), b[p]));
        assert(a.contains(a[p]));
        assert(b.contains(b[p]));
        if a[p] < b[p] {
            assert(!ready(queries, b.take(p), a[p]));
        }
        if b[p] < a[p] {
            assert(!ready(queries, a.take(p), b[p]));
        }
        assert(a.take(n as int) =~= a.take(p).push(a[p]));
        assert(b.take(n as int) =~= b.take(p).push(b[p]));
    }
}

/// The position of the first element of `order` that is not placed.
proof fn lemma_first_unplaced(order: Seq<IntPayloadType>, placed: Seq<IntPayloadType>, n: nat)
    requires
        n <= order.len(),
        exists|i: int| 0 <= i < n && !placed.contains(#[trigger] order[i]),
    ensures
        exists|i: int|
            0 <= i < n && !placed.contains(#[trigger] order[i]) && forall|j: int|
                0 <= j < i ==> placed.contains(#[trigger] order[j]),
    decreases n,
{
    let m = (n - 1) as nat;
    if exists|i: int| 0 <= i < m && !placed.contains(#[trigger] order[i]) {
        lemma_first_unplaced(order, placed, m);
        let i = choose|i: int|
            0 <= i < m && !placed.contains(#[trigger] order[i]) && forall|j: int|
                0 <= j < i ==> placed.contains(#[trigger] order[j]);
        assert(0 <= i < n && !placed.contains(order[i]));
    } else {
        assert(!placed.contains(order[m as int]));
    }
}

/// When some atom stays unplaced although nothing is ready, no compatible order exists.
proof fn lemma_stuck_means_incompatible(
    queries: Seq<Seq<IntPayloadType>>,
    placed: Seq<IntPayloadType>,
    left: IntPayloadType,
)
    requires
        is_atom(queries, left),
        !placed.contains(left),
        forall|v: IntPayloadType| is_atom(queries, v) ==> !#[trigger] ready(queries, placed, v),
    ensures
        forall|order: Seq<IntPayloadType>| !#[trigger] compatible_order(queries, order),
{
    assert forall|order: Seq<IntPayloadType>| !#[trigger] compatible_order(queries, order) by {
        if compatible_order(queries, order) {
            assert(order.contains(left));
            let m = choose|m: int| 0 <= m < order.len() && order[m] == left;
            assert(!placed.contains(order[m]));
            lemma_first_unplaced(order, placed, order.len());
            let i = choose|i: int|
                0 <= i < order.len() && !placed.contains(#[trigger] order[i]) && forall|j: int|
                    0 <= j < i ==> placed.contains(#[trigger] order[j]);
            let v = order[i];
            assert(order.contains(v));
            assert(!ready(queries, placed, v));
            let u = choose|u: IntPayloadType|
                #[trigger] follows(queries, u, v) && !placed.contains(u);
            let (q, k) = choose|q: int, k: int|
                0 <= q < queries.len() && 0 <= k < queries[q].len() - 1 && (#[trigger] queries[q][k])
                    == u && queries[q][k + 1] == v;
            assert(is_atom(queries, u)) by {
                assert(queries[q][k] == u);
            }
            assert(order.contains(u));
            let j = choose|j: int| 0 <= j < order.len() && order[j] == u;
            assert(follows(queries, order[j], order[i]));
            assert(j < i);
            assert(placed.contains(order[j]));
        }
    }
}

/// Recognize the supported filter shape.
fn extract_integer_atoms(filter: &Filter) -> (r: Option<(&PayloadKeyType, Vec<IntPayloadType>)>)
    ensures
        match (r, integer_atoms(*filter)) {
            (Some((key, values)), Some((spec_key, spec_values))) => key@ == spec_key && values@
                == spec_values,
            (None, None) => true,
            _ => false,
        },
{
    if filter.should.is_some() || filter.min_should.is_some() || filter.must_not.is_some() {
        return None;
    }
    let must = match &filter.must {
        Some(must) => must,
        None => {
            return None;
        },
    };
    if must.len() != 1 {
        return None;
    }
    let field = match &must[0] {
        Condition::Field(field) => field,
        _ => {
            return None;
        },
    };
    if field.range.is_some() || field.geo_bounding_box.is_some() || field.geo_radius.is_some()
        || field.geo_polygon.is_some() || field.values_count.is_some() || field.is_empty.is_some()
        || field.is_null.is_some() {
        return None;
    }
    match &field.matching {
        Some(Match::Value(ValueVariants::Integer(value))) => {
            let mut values: Vec<IntPayloadType> = Vec::new();
            values.push(*value);
            proof {
                assert(values@ =~= seq![*value]);
            }
            Some((&field.key, values))
        },
        Some(Match::Any(AnyVariants::Integers(values))) => Some((&field.key, copy_values(values))),
        _ => None,
    }
}

/// A copy of a list of values.
fn copy_values(values: &Vec<IntPayloadType>) -> (r: Vec<IntPayloadType>)
    ensures
        r@ == values@,
{
    let mut r: Vec<IntPayloadType> = Vec::with_capacity(values.len());
    let mut i: usize = 0;
    while i < values.len()
        invariant
            i <= values@.len(),
            r@ == values@.take(i as int),
        decreases values@.len() - i,
    {
        r.push(values[i]);
        i = i + 1;
        proof {
            assert(values@.take(i as int) =~= values@.take(i - 1).push(values@[i - 1]));
        }
    }
    proof {
        assert(values@.take(values@.len() as int) =~= values@);
    }
    r
}

/// Keep first occurrences, in order.
fn dedup_values(values: &Vec<IntPayloadType>) -> (r: Vec<IntPayloadType>)
    ensures
        r@ == dedup(values@),
{
    let mut r: Vec<IntPayloadType> = Vec::new();
    let mut i: usize = 0;
    while i < values.len()
        invariant
            i <= values@.len(),
            r@ == dedup(values@.take(i as int)),
        decreases values@.len() - i,
    {
        proof {
            assert(values@.take(i + 1).drop_last() =~= values@.take(i as int));
        }
        if !contains_i64(&r, values[i]) {
            r.push(values[i]);
        }
        i = i + 1;
    }
    proof {
        assert(values@.take(values@.len() as int) =~= values@);
    }
    r
}

/// Values in strictly ascending order.
spec fn strictly_sorted(list: Seq<IntPayloadType>) -> bool {
    forall|i: int, j: int| 0 <= i < j < list.len() ==> list[i] < list[j]
}

/// Position of `value` in a sorted list, or where it belongs.
fn lower_bound(list: &Vec<IntPayloadType>, value: IntPayloadType) -> (r: usize)
    requires
        strictly_sorted(list@),
    ensures
        r <= list@.len(),
        forall|i: int| 0 <= i < r ==> list@[i] < value,
        forall|i: int| r <= i < list@.len() ==> value <= list@[i],
{
    let mut lo: usize = 0;
    let mut hi: usize = list.len();
    while lo < hi
        invariant
            lo <= hi <= list@.len(),
            strictly_sorted(list@),
            forall|i: int| 0 <= i < lo ==> list@[i] < value,
            forall|i: int| hi <= i < list@.len() ==> value <= list@[i],
        decreases hi - lo,
    {
        let mid: usize = lo + (hi - lo) / 2;
        if list[mid] < value {
            lo = mid + 1;
        } else {
            hi = mid;
        }
    }
    lo
}

/// Add a value to a sorted list unless it is there.
fn insert_sorted(list: &mut Vec<IntPayloadType>, value: IntPayloadType)
    requires
        strictly_sorted(old(list)@),
    ensures
        strictly_sorted(final(list)@),
        forall|v: IntPayloadType|
            #[trigger] final(list)@.contains(v) <==> old(list)@.contains(v) || v == value,
{
    let at: usize = lower_bound(list, value);
    let ghost before = list@;
    if at < list.len() && list[at] == value {
        proof {
            assert(before[at as int] == value);
        }
        return;
    }
    list.insert(at, value);
    proof {
        assert forall|v: IntPayloadType|
            #[trigger] list@.contains(v) <==> before.contains(v) || v == value by {
            if before.contains(v) {
                let i = choose|i: int| 0 <= i < before.len() && before[i] == v;
                if i < at {
                    assert(list@[i] == v);
                } else {
                    assert(list@[i + 1] == v);
                }
            }
            if v == value {
                assert(list@[at as int] == v);
            }
            if list@.contains(v) {
                let i = choose|i: int| 0 <= i < list@.len() && list@[i] == v;
                if i < at {
                    assert(before[i] == v);
                } else if i > at {
                    assert(before[i - 1] == v);
                }
            }
        }
    }
}

/// The lists of values of a list of lists.
pub open spec fn list_views<T>(lists: Seq<Vec<T>>) -> Seq<Seq<T>> {
    lists.map_values(|list: Vec<T>| list@)
}

/// The distinct values of all queries, ascending.
fn distinct_values(queries: &Vec<Vec<IntPayloadType>>) -> (r: Vec<IntPayloadType>)
    ensures
        strictly_sorted(r@),
        forall|v: IntPayloadType| #[trigger] r@.contains(v) <==> is_atom(list_views(queries@), v),
{
    let ghost views = list_views(queries@);
    let mut r: Vec<IntPayloadType> = Vec::new();
    let mut q: usize = 0;
    while q < queries.len()
        invariant
            q <= queries@.len(),
            views == list_views(queries@),
            strictly_sorted(r@),
            forall|v: IntPayloadType| #[trigger] r@.contains(v) ==> is_atom(views, v),
            forall|p: int, k: int|
                0 <= p < q && 0 <= k < views[p].len() ==> r@.contains(#[trigger] views[p][k]),
        decreases queries@.len() - q,
    {
        let values = &queries[q];
        let mut k: usize = 0;
        while k < values.len()
            invariant
                q < queries@.len(),
                views == list_views(queries@),
                values@ == views[q as int],
                k <= values@.len(),
                strictly_sorted(r@),
                forall|v: IntPayloadType| #[trigger] r@.contains(v) ==> is_atom(views, v),
                forall|p: int, j: int|
                    0 <= p < q && 0 <= j < views[p].len() ==> r@.contains(#[trigger] views[p][j]),
                forall|j: int| 0 <= j < k ==> r@.contains(#[trigger] views[q as int][j]),
            decreases values@.len() - k,
        {
            proof {
                assert(views[q as int][k as int] == values@[k as int]);
            }
            insert_sorted(&mut r, values[k]);
            k = k + 1;
        }
        q = q + 1;
    }
    r
}

/// The values behind lists of positions in `distinct`.
spec fn values_behind(
    distinct: Seq<IntPayloadType>,
    ids: Seq<Seq<usize>>,
) -> Seq<Seq<IntPayloadType>> {
    Seq::new(
        ids.len(),
        |q: int| Seq::new(ids[q].len(), |k: int| distinct[ids[q][k] as int]),
    )
}

/// Every position is inside `distinct`.
spec fn ids_in_range(ids: Seq<Seq<usize>>, n: int) -> bool {
    forall|q: int, k: int|
        0 <= q < ids.len() && 0 <= k < ids[q].len() ==> (#[trigger] ids[q][k]) < n
}

/// Replace values by their positions in `distinct`.
fn to_ids(distinct: &Vec<IntPayloadType>, queries: &Vec<Vec<IntPayloadType>>) -> (r: Vec<
    Vec<usize>,
>)
    requires
        strictly_sorted(distinct@),
        forall|v: IntPayloadType| is_atom(list_views(queries@), v) ==> distinct@.contains(v),
    ensures
        ids_in_range(list_views(r@), distinct@.len() as int),
        values_behind(distinct@, list_views(r@)) == list_views(queries@),
{
    let ghost views = list_views(queries@);
    let mut r: Vec<Vec<usize>> = Vec::with_capacity(queries.len());
    let mut q: usize = 0;
    while q < queries.len()
        invariant
            q <= queries@.len(),
            r@.len() == q,
            views == list_views(queries@),
            strictly_sorted(distinct@),
            forall|v: IntPayloadType| is_atom(views, v) ==> distinct@.contains(v),
            forall|p: int|
                0 <= p < q ==> (#[trigger] r@[p])@.len() == views[p].len() && forall|k: int|
                    0 <= k < views[p].len() ==> (#[trigger] r@[p]@[k]) < distinct@.len()
                        && distinct@[r@[p]@[k] as int] == views[p][k],
        decreases queries@.len() - q,
    {
        let values = &queries[q];
        let mut ids: Vec<usize> = Vec::with_capacity(values.len());
        let mut k: usize = 0;
        while k < values.len()
            invariant
                q < queries@.len(),
                views == list_views(queries@),
                values@ == views[q as int],
                k <= values@.len(),
                ids@.len() == k,
                strictly_sorted(distinct@),
                forall|v: IntPayloadType| is_atom(views, v) ==> distinct@.contains(v),
                forall|j: int|
                    0 <= j < k ==> (#[trigger] ids@[j]) < distinct@.len()
                        && distinct@[ids@[j] as int] == views[q as int][j],
            decreases values@.len() - k,
        {
            proof {
                assert(views[q as int][k as int] == values@[k as int]);
                assert(is_atom(views, values@[k as int]));
            }
            let id: usize = lower_bound(distinct, values[k]);
            proof {
                let m = choose|m: int| 0 <= m < distinct@.len() && distinct@[m] == values@[k as int];
                assert(m >= id);
                assert(id < distinct@.len());
                assert(distinct@[id as int] == values@[k as int]) by {
                    if id < m {
                        assert(distinct@[id as int] < distinct@[m]);
                    }
                }
            }
            ids.push(id);
            k = k + 1;
        }
        r.push(ids);
        q = q + 1;
    }
    proof {
        let ids = list_views(r@);
        assert forall|p: int, k: int|
            0 <= p < ids.len() && 0 <= k < ids[p].len() implies (#[trigger] ids[p][k])
            < distinct@.len() by {
            assert(ids[p] == r@[p]@);
            assert(r@[p]@[k] < distinct@.len());
        }
        assert(values_behind(distinct@, ids) =~= views) by {
            assert forall|p: int| 0 <= p < views.len() implies values_behind(distinct@, ids)[p]
                == views[p] by {
                assert(ids[p] == r@[p]@);
                assert(values_behind(distinct@, ids)[p] =~= views[p]);
            }
        }
    }
    r
}

/// For every position, the positions that some query lists right before it.
fn direct_predecessors(n: usize, ids: &Vec<Vec<usize>>) -> (r: Vec<Vec<usize>>)
    requires
        ids_in_range(list_views(ids@), n as int),
    ensures
        r@.len() == n,
        forall|u: usize, v: int|
            0 <= v < n ==> (#[trigger] r@[v]@.contains(u) <==> follows(
                list_views(ids@),
                u,
                v as usize,
            )),
{
    let ghost views = list_views(ids@);
    let mut r: Vec<Vec<usize>> = Vec::with_capacity(n);
    while r.len() < n
        invariant
            r@.len() <= n,
            forall|v: int| 0 <= v < r@.len() ==> (#[trigger] r@[v])@.len() == 0,
        decreases n - r@.len(),
    {
        r.push(Vec::new());
    }
    let mut q: usize = 0;
    while q < ids.len()
        invariant
            q <= ids@.len(),
            r@.len() == n,
            views == list_views(ids@),
            ids_in_range(views, n as int),
            forall|u: usize, v: int|
                0 <= v < n && #[trigger] r@[v]@.contains(u) ==> follows(views, u, v as usize),
            forall|p: int, k: int|
                0 <= p < q && 0 <= k < views[p].len() - 1 ==> r@[views[p][k + 1] as int]@.contains(
                    #[trigger] views[p][k],
                ),
        decreases ids@.len() - q,
    {
        let list = &ids[q];
        let mut k: usize = 1;
        while k < list.len()
            invariant
                q < ids@.len(),
                r@.len() == n,
                views == list_views(ids@),
                ids_in_range(views, n as int),
                list@ == views[q as int],
                1 <= k,
                k <= list@.len() || k == 1,
                forall|u: usize, v: int|
                    0 <= v < n && #[trigger] r@[v]@.contains(u) ==> follows(views, u, v as usize),
                forall|p: int, j: int|
                    0 <= p < q && 0 <= j < views[p].len() - 1 ==> r@[views[p][j
                        + 1] as int]@.contains(#[trigger] views[p][j]),
                forall|j: int|
                    0 <= j < k - 1 ==> r@[views[q as int][j + 1] as int]@.contains(
                        #[trigger] views[q as int][j],
                    ),
            decreases list@.len() - k,
        {
            let from: usize = list[k - 1];
            let to: usize = list[k];
            proof {
                assert(views[q as int][k - 1] == from);
                assert(views[q as int][k as int] == to);
                assert(follows(views, from, to)) by {
                    assert(views[q as int][k - 1] == from && views[q as int][k - 1 + 1] == to);
                }
            }
            let ghost before = r@;
            let slot = &mut r[to];
            slot.push(from);
            proof {
                assert(r@[to as int]@ == before[to as int]@.push(from));
                assert forall|u: usize, v: int|
                    0 <= v < n && #[trigger] r@[v]@.contains(u) implies follows(
                    views,
                    u,
                    v as usize,
                ) by {
                    if v == to {
                        let m = choose|m: int| 0 <= m < r@[v]@.len() && r@[v]@[m] == u;
                        if m < before[v]@.len() {
                            assert(before[v]@[m] == u);
                            assert(before[v]@.contains(u));
                        }
                    } else {
                        assert(r@[v] == before[v]);
                        assert(before[v]@.contains(u));
                    }
                }
                assert forall|u: usize, v: int| 0 <= v < n && before[v]@.contains(u) implies
                    #[trigger] r@[v]@.contains(u) by {
                    let m = choose|m: int| 0 <= m < before[v]@.len() && before[v]@[m] == u;
                    assert(r@[v]@[m] == u);
                }
                assert(r@[to as int]@[before[to as int]@.len() as int] == from);
                assert forall|p: int, j: int|
                    0 <= p < q && 0 <= j < views[p].len() - 1 implies r@[views[p][j
                    + 1] as int]@.contains(#[trigger] views[p][j]) by {
                    assert(before[views[p][j + 1] as int]@.contains(views[p][j]));
                }
                assert forall|j: int| 0 <= j < k implies r@[views[q as int][j + 1] as int]@.contains(
                    #[trigger] views[q as int][j],
                ) by {
                    if j < k - 1 {
                        assert(before[views[q as int][j + 1] as int]@.contains(
                            views[q as int][j],
                        ));
                    }
                }
            }
            k = k + 1;
        }
        q = q + 1;
    }
    proof {
        assert forall|u: usize, v: int| 0 <= v < n implies (#[trigger] r@[v]@.contains(u)
            <==> follows(views, u, v as usize)) by {
            if follows(views, u, v as usize) {
                let (p, k) = choose|p: int, k: int|
                    0 <= p < views.len() && 0 <= k < views[p].len() - 1 && (#[trigger] views[p][k])
                        == u && views[p][k + 1] == v as usize;
                assert(r@[views[p][k + 1] as int]@.contains(views[p][k]));
            }
        }
    }
    r
}

/// Whether everything listed is placed.
fn all_placed(list: &Vec<usize>, placed: &Vec<bool>) -> (r: bool)
    requires
        forall|i: int| 0 <= i < list@.len() ==> #[trigger] list@[i] < placed@.len(),
    ensures
        r == forall|i: int| 0 <= i < list@.len() ==> placed@[#[trigger] list@[i] as int],
{
    let mut i: usize = 0;
    while i < list.len()
        invariant
            i <= list@.len(),
            forall|j: int| 0 <= j < list@.len() ==> #[trigger] list@[j] < placed@.len(),
            forall|j: int| 0 <= j < i ==> placed@[#[trigger] list@[j] as int],
        decreases list@.len() - i,
    {
        if !placed[list[i]] {
            return false;
        }
        i = i + 1;
    }
    true
}

/// A sequence of distinct positions below `n` has at most `n` elements.
pub proof fn lemma_distinct_bound(order: Seq<usize>, n: nat)
    requires
        order.no_duplicates(),
        forall|i: int| 0 <= i < order.len() ==> #[trigger] order[i] < n,
    ensures
        order.len() <= n,
        order.len() == n ==> forall|v: usize| v < n ==> #[trigger] order.contains(v),
    decreases n,
{
    if n == 0 {
        if order.len() > 0 {
            assert(order[0] < n);
        }
    } else {
        let m = (n - 1) as nat;
        if order.contains(m as usize) {
            let p = choose|p: int| 0 <= p < order.len() && order[p] == m as usize;
            let rest = order.remove(p);
            assert forall|i: int, j: int|
                0 <= i < rest.len() && 0 <= j < rest.len() && i != j implies rest[i] != rest[j] by {
                let a = if i < p { i } else { i + 1 };
                let b = if j < p { j } else { j + 1 };
                assert(rest[i] == order[a] && rest[j] == order[b]);
            }
            assert forall|i: int| 0 <= i < rest.len() implies #[trigger] rest[i] < m by {
                let a = if i < p { i } else { i + 1 };
                assert(rest[i] == order[a]);
                assert(order[a] < n);
            }
            lemma_distinct_bound(rest, m);
            if order.len() == n {
                assert forall|v: usize| v < n implies #[trigger] order.contains(v) by {
                    if v < m {
                        assert(rest.contains(v));
                        let i = choose|i: int| 0 <= i < rest.len() && rest[i] == v;
                        let a = if i < p { i } else { i + 1 };
                        assert(order[a] == v);
                    }
                }
            }
        } else {
            assert forall|i: int| 0 <= i < order.len() implies #[trigger] order[i] < m by {
                assert(order[i] < n);
                assert(order.contains(order[i]));
            }
            lemma_distinct_bound(order, m);
        }
    }
}

/// Place positions one by one, always the smallest one that is ready, until none is.
fn topological_order(n: usize, ids: &Vec<Vec<usize>>) -> (order: Vec<usize>)
    requires
        ids_in_range(list_views(ids@), n as int),
    ensures
        order@.no_duplicates(),
        forall|i: int| 0 <= i < order@.len() ==> #[trigger] order@[i] < n,
        forall|p: int|
            0 <= p < order@.len() ==> #[trigger] ready(
                list_views(ids@),
                order@.take(p),
                order@[p],
            ),
        forall|p: int, v: usize|
            0 <= p < order@.len() && v < order@[p] ==> !#[trigger] ready(
                list_views(ids@),
                order@.take(p),
                v,
            ),
        forall|v: usize| v < n ==> !#[trigger] ready(list_views(ids@), order@, v),
{
    let ghost views = list_views(ids@);
    let predecessors = direct_predecessors(n, ids);
    let mut placed: Vec<bool> = Vec::with_capacity(n);
    while placed.len() < n
        invariant
            placed@.len() <= n,
            forall|i: int| 0 <= i < placed@.len() ==> !placed@[i],
        decreases n - placed@.len(),
    {
        placed.push(false);
    }
    let mut order: Vec<usize> = Vec::with_capacity(n);
    let mut stuck: bool = false;
    while !stuck
        invariant
            views == list_views(ids@),
            ids_in_range(views, n as int),
            predecessors@.len() == n,
            forall|u: usize, v: int|
                0 <= v < n ==> (#[trigger] predecessors@[v]@.contains(u) <==> follows(
                    views,
                    u,
                    v as usize,
                )),
            placed@.len() == n,
            forall|v: usize| v < n ==> (#[trigger] placed@[v as int] <==> order@.contains(v)),
            order@.no_duplicates(),
            forall|i: int| 0 <= i < order@.len() ==> #[trigger] order@[i] < n,
            forall|p: int|
                0 <= p < order@.len() ==> #[trigger] ready(views, order@.take(p), order@[p]),
            forall|p: int, v: usize|
                0 <= p < order@.len() && v < order@[p] ==> !#[trigger] ready(
                    views,
                    order@.take(p),
                    v,
                ),
            stuck ==> forall|v: usize| v < n ==> !#[trigger] ready(views, order@, v),
        decreases n - order@.len(), if stuck { 0int } else { 1int },
    {
        let mut v: usize = 0;
        let mut found: bool = false;
        while v < n && !found
            invariant
                views == list_views(ids@),
                ids_in_range(views, n as int),
                predecessors@.len() == n,
                forall|u: usize, w: int|
                    0 <= w < n ==> (#[trigger] predecessors@[w]@.contains(u) <==> follows(
                        views,
                        u,
                        w as usize,
                    )),
                placed@.len() == n,
                forall|w: usize| w < n ==> (#[trigger] placed@[w as int] <==> order@.contains(w)),
                v <= n,
                found ==> v < n && ready(views, order@, v),
                forall|w: usize| w < v ==> !#[trigger] ready(views, order@, w),
            decreases n - v, if found { 0int } else { 1int },
        {
            proof {
                lemma_predecessors_in_range(predecessors@, views, n, v);
            }
            if !placed[v] && all_placed(&predecessors[v], &placed) {
                found = true;
                proof {
                    assert forall|u: usize| #[trigger] follows(views, u, v) implies order@.contains(
                        u,
                    ) by {
                        assert(predecessors@[v as int]@.contains(u));
                        let m = choose|m: int|
                            0 <= m < predecessors@[v as int]@.len() && predecessors@[v as int]@[m]
                                == u;
                        assert(placed@[predecessors@[v as int]@[m] as int]);
                    }
                    assert(!placed@[v as int]);
                }
            } else {
                proof {
                    if ready(views, order@, v) {
                        assert(!placed@[v as int]);
                        let list = predecessors@[v as int]@;
                        assert forall|m: int| 0 <= m < list.len() implies placed@[#[trigger] list[m] as int] by {
                            assert(predecessors@[v as int]@.contains(list[m]));
                            assert(follows(views, list[m], v));
                            assert(order@.contains(list[m]));
                        }
                    }
                }
                v = v + 1;
            }
        }
        if found {
            let ghost before = order@;
            proof {
                assert(placed@[v as int] <==> order@.contains(v));
            }
            order.push(v);
            placed.set(v, true);
            proof {
                assert(order@.no_duplicates()) by {
                    assert forall|i: int, j: int|
                        0 <= i < order@.len() && 0 <= j < order@.len() && i != j implies order@[i]
                        != order@[j] by {
                        if i == before.len() {
                            assert(before.contains(before[j]));
                        }
                        if j == before.len() {
                            assert(before.contains(before[i]));
                        }
                    }
                }
                assert forall|w: usize| w < n implies (#[trigger] placed@[w as int]
                    <==> order@.contains(w)) by {
                    if before.contains(w) {
                        let m = choose|m: int| 0 <= m < before.len() && before[m] == w;
                        assert(order@[m] == w);
                    }
                    if w == v {
                        assert(order@[before.len() as int] == w);
                    }
                    if order@.contains(w) && w != v {
                        let m = choose|m: int| 0 <= m < order@.len() && order@[m] == w;
                        assert(before[m] == w);
                    }
                }
                assert forall|p: int| 0 <= p < order@.len() implies #[trigger] ready(
                    views,
                    order@.take(p),
                    order@[p],
                ) by {
                    if p < before.len() {
                        assert(order@.take(p) =~= before.take(p));
                        assert(ready(views, before.take(p), before[p]));
                    } else {
                        assert(order@.take(p) =~= before);
                    }
                }
                assert forall|p: int, w: usize| 0 <= p < order@.len() && w < order@[p] implies
                    !#[trigger] ready(views, order@.take(p), w) by {
                    if p < before.len() {
                        assert(order@.take(p) =~= before.take(p));
                        assert(before[p] == order@[p]);
                        assert(!ready(views, before.take(p), w));
                    } else {
                        assert(order@.take(p) =~= before);
                    }
                }
                lemma_distinct_bound(order@, n as nat);
            }
        } else {
            stuck = true;
        }
    }
    order
}

/// Recorded predecessors are positions.
proof fn lemma_predecessors_in_range(
    predecessors: Seq<Vec<usize>>,
    views: Seq<Seq<usize>>,
    n: usize,
    v: usize,
)
    requires
        v < n,
        predecessors.len() == n,
        ids_in_range(views, n as int),
        forall|u: usize, w: int|
            0 <= w < n ==> (#[trigger] predecessors[w]@.contains(u) <==> follows(
                views,
                u,
                w as usize,
            )),
    ensures
        forall|i: int|
            0 <= i < predecessors[v as int]@.len() ==> #[trigger] predecessors[v as int]@[i] < n,
{
    assert forall|i: int| 0 <= i < predecessors[v as int]@.len() implies #[trigger] predecessors[v as int]@[i]
        < n by {
        let u = predecessors[v as int]@[i];
        assert(predecessors[v as int]@.contains(u));
        assert(follows(views, u, v));
        let (q, k) = choose|q: int, k: int|
            0 <= q < views.len() && 0 <= k < views[q].len() - 1 && (#[trigger] views[q][k]) == u
                && views[q][k + 1] == v;
        assert(views[q][k] < n);
    }
}

/// Following in positions is following in values.
proof fn lemma_follows_transport(distinct: Seq<IntPayloadType>, ids: Seq<Seq<usize>>)
    requires
        strictly_sorted(distinct),
        ids_in_range(ids, distinct.len() as int),
    ensures
        forall|u: usize, v: usize|
            u < distinct.len() && v < distinct.len() ==> (#[trigger] follows(ids, u, v) <==> follows(
                values_behind(distinct, ids),
                distinct[u as int],
                distinct[v as int],
            )),
{
    let values = values_behind(distinct, ids);
    assert forall|u: usize, v: usize| u < distinct.len() && v < distinct.len() implies (
    #[trigger] follows(ids, u, v) <==> follows(
        values,
        distinct[u as int],
        distinct[v as int],
    )) by {
        if follows(ids, u, v) {
            let (q, k) = choose|q: int, k: int|
                0 <= q < ids.len() && 0 <= k < ids[q].len() - 1 && (#[trigger] ids[q][k]) == u
                    && ids[q][k + 1] == v;
            assert(values[q][k] == distinct[u as int]);
            assert(values[q][k + 1] == distinct[v as int]);
        }
        if follows(values, distinct[u as int], distinct[v as int]) {
            let (q, k) = choose|q: int, k: int|
                0 <= q < values.len() && 0 <= k < values[q].len() - 1 && (#[trigger] values[q][k])
                    == distinct[u as int] && values[q][k + 1] == distinct[v as int];
            let a = ids[q][k];
            let b = ids[q][k + 1];
            assert(a < distinct.len() && b < distinct.len());
            assert(distinct[a as int] == distinct[u as int]);
            assert(distinct[b as int] == distinct[v as int]);
            assert(a == u && b == v);
        }
    }
}

/// Readiness in positions is readiness in values.
proof fn lemma_ready_transport(
    distinct: Seq<IntPayloadType>,
    ids: Seq<Seq<usize>>,
    placed: Seq<usize>,
    v: usize,
)
    requires
        strictly_sorted(distinct),
        ids_in_range(ids, distinct.len() as int),
        forall|i: int| 0 <= i < placed.len() ==> #[trigger] placed[i] < distinct.len(),
        v < distinct.len(),
    ensures
        ready(ids, placed, v) <==> ready(
            values_behind(distinct, ids),
            values_at(distinct, placed),
            distinct[v as int],
        ),
{
    let values = values_behind(distinct, ids);
    let names = values_at(distinct, placed);
    lemma_follows_transport(distinct, ids);
    assert forall|u: usize| u < distinct.len() implies (#[trigger] placed.contains(u)
        <==> names.contains(distinct[u as int])) by {
        if placed.contains(u) {
            let m = choose|m: int| 0 <= m < placed.len() && placed[m] == u;
            assert(names[m] == distinct[u as int]);
        }
        if names.contains(distinct[u as int]) {
            let m = choose|m: int| 0 <= m < names.len() && names[m] == distinct[u as int];
            assert(placed[m] < distinct.len());
            assert(distinct[placed[m] as int] == distinct[u as int]);
            assert(placed[m] == u);
        }
    }
    assert(placed.contains(v) <==> names.contains(distinct[v as int]));
    if ready(ids, placed, v) {
        assert forall|w: IntPayloadType| #[trigger] follows(
            values,
            w,
            distinct[v as int],
        ) implies names.contains(w) by {
            let (q, k) = choose|q: int, k: int|
                0 <= q < values.len() && 0 <= k < values[q].len() - 1 && (#[trigger] values[q][k])
                    == w && values[q][k + 1] == distinct[v as int];
            let a = ids[q][k];
            assert(a < distinct.len());
            assert(w == distinct[a as int]);
            assert(follows(ids, a, v));
            assert(placed.contains(a));
        }
    }
    if ready(values, names, distinct[v as int]) {
        assert forall|u: usize| #[trigger] follows(ids, u, v) implies placed.contains(u) by {
            let (q, k) = choose|q: int, k: int|
                0 <= q < ids.len() && 0 <= k < ids[q].len() - 1 && (#[trigger] ids[q][k]) == u
                    && ids[q][k + 1] == v;
            assert(ids[q][k] < distinct.len());
            assert(follows(values, distinct[u as int], distinct[v as int]));
            assert(names.contains(distinct[u as int]));
        }
    }
}

/// The values at a list of positions.
spec fn values_at(distinct: Seq<IntPayloadType>, positions: Seq<usize>) -> Seq<IntPayloadType> {
    Seq::new(positions.len(), |i: int| distinct[positions[i] as int])
}

/// What placing the smallest ready position means for the values.
proof fn lemma_order_transport(
    distinct: Seq<IntPayloadType>,
    ids: Seq<Seq<usize>>,
    order: Seq<usize>,
)
    requires
        strictly_sorted(distinct),
        ids_in_range(ids, distinct.len() as int),
        forall|v: IntPayloadType|
            #[trigger] distinct.contains(v) <==> is_atom(values_behind(distinct, ids), v),
        order.no_duplicates(),
        forall|i: int| 0 <= i < order.len() ==> #[trigger] order[i] < distinct.len(),
        forall|p: int| 0 <= p < order.len() ==> #[trigger] ready(ids, order.take(p), order[p]),
        forall|p: int, v: usize|
            0 <= p < order.len() && v < order[p] ==> !#[trigger] ready(ids, order.take(p), v),
        forall|v: usize| v < distinct.len() ==> !#[trigger] ready(ids, order, v),
        distinct.len() <= usize::MAX,
    ensures
        order.len() == distinct.len() ==> canonical_order(
            values_behind(distinct, ids),
            values_at(distinct, order),
        ),
        order.len() != distinct.len() ==> forall|other: Seq<IntPayloadType>|
            !#[trigger] compatible_order(values_behind(distinct, ids), other),
{
    let values = values_behind(distinct, ids);
    let names = values_at(distinct, order);
    lemma_distinct_bound(order, distinct.len());
    if order.len() == distinct.len() {
        assert(names.no_duplicates()) by {
            assert forall|i: int, j: int|
                0 <= i < names.len() && 0 <= j < names.len() && i != j implies names[i]
                != names[j] by {
                assert(order[i] < distinct.len() && order[j] < distinct.len());
                assert(order[i] != order[j]);
            }
        }
        assert forall|v: IntPayloadType| #[trigger] names.contains(v) <==> is_atom(values, v) by {
            if names.contains(v) {
                let m = choose|m: int| 0 <= m < names.len() && names[m] == v;
                assert(order[m] < distinct.len());
                assert(distinct.contains(v));
            }
            if is_atom(values, v) {
                assert(distinct.contains(v));
                let m = choose|m: int| 0 <= m < distinct.len() && distinct[m] == v;
                assert(order.contains(m as usize));
                let p = choose|p: int| 0 <= p < order.len() && order[p] == m as usize;
                assert(names[p] == v);
            }
        }
        assert forall|p: int| 0 <= p < names.len() implies #[trigger] ready(
            values,
            names.take(p),
            names[p],
        ) by {
            assert(names.take(p) =~= values_at(distinct, order.take(p)));
            assert(ready(ids, order.take(p), order[p]));
            lemma_ready_transport(distinct, ids, order.take(p), order[p]);
        }
        assert forall|p: int, v: IntPayloadType|
            0 <= p < names.len() && is_atom(values, v) && v < names[p] implies !#[trigger] ready(
            values,
            names.take(p),
            v,
        ) by {
            assert(names.take(p) =~= values_at(distinct, order.take(p)));
            assert(distinct.contains(v));
            let m = choose|m: int| 0 <= m < distinct.len() && distinct[m] == v;
            let id = m as usize;
            if id >= order[p] {
                if order[p] < id {
                    assert(distinct[order[p] as int] < distinct[m]);
                }
                assert(false);
            }
            assert(!ready(ids, order.take(p), id));
            lemma_ready_transport(distinct, ids, order.take(p), id);
        }
    } else {
        let left = lemma_missing_position(order, distinct.len());
        let v = distinct[left as int];
        assert(distinct.contains(v));
        assert(!names.contains(v)) by {
            if names.contains(v) {
                let m = choose|m: int| 0 <= m < names.len() && names[m] == v;
                assert(order[m] < distinct.len());
                assert(order[m] == left);
                assert(order.contains(left));
            }
        }
        assert forall|w: IntPayloadType| is_atom(values, w) implies !#[trigger] ready(
            values,
            names,
            w,
        ) by {
            assert(distinct.contains(w));
            let m = choose|m: int| 0 <= m < distinct.len() && distinct[m] == w;
            assert(!ready(ids, order, m as usize));
            lemma_ready_transport(distinct, ids, order, m as usize);
        }
        lemma_stuck_means_incompatible(values, names, v);
    }
}

/// A shorter order misses a position.
proof fn lemma_missing_position(order: Seq<usize>, n: nat) -> (left: usize)
    requires
        order.no_duplicates(),
        forall|i: int| 0 <= i < order.len() ==> #[trigger] order[i] < n,
        order.len() < n,
        n <= usize::MAX,
    ensures
        left < n,
        !order.contains(left),
    decreases n,
{
    if forall|v: usize| v < n ==> #[trigger] order.contains(v) {
        let m = (n - 1) as usize;
        assert(order.contains(m));
        let p = choose|p: int| 0 <= p < order.len() && order[p] == m;
        let rest = order.remove(p);
        assert forall|i: int, j: int|
            0 <= i < rest.len() && 0 <= j < rest.len() && i != j implies rest[i] != rest[j] by {
            let a = if i < p { i } else { i + 1 };
            let b = if j < p { j } else { j + 1 };
            assert(rest[i] == order[a] && rest[j] == order[b]);
        }
        assert forall|i: int| 0 <= i < rest.len() implies #[trigger] rest[i] < m by {
            let a = if i < p { i } else { i + 1 };
            assert(rest[i] == order[a]);
            assert(order[a] < n);
        }
        let left = lemma_missing_position(rest, m as nat);
        assert(order.contains(left));
        let q = choose|q: int| 0 <= q < order.len() && order[q] == left;
        let i = if q < p { q } else { q - 1 };
        assert(rest[i] == left);
        assert(false);
        left
    } else {
        choose|v: usize| v < n && !#[trigger] order.contains(v)
    }
}

/// One unique integer atom and all queries which reference it.
#[derive(Debug)]
pub struct FactorizedAtom {
    value: IntPayloadType,
    query_indices: Vec<usize>,
    query_mask: QueryMask,
}

impl FactorizedAtom {
    /// The integer of the atom.
    pub closed spec fn spec_value(&self) -> IntPayloadType {
        self.value
    }

    /// The queries that reference the atom.
    pub closed spec fn spec_query_indices(&self) -> Seq<usize> {
        self.query_indices@
    }

    /// The same queries as a mask.
    pub closed spec fn spec_query_mask(&self) -> QueryMask {
        self.query_mask
    }

    /// The indices ascend inside the batch and the mask holds exactly them.
    pub open spec fn wf(&self, query_count: nat) -> bool {
        &&& ascending(self.spec_query_indices())
        &&& forall|i: int|
            0 <= i < self.spec_query_indices().len() ==> #[trigger] self.spec_query_indices()[i]
                < query_count
        &&& self.spec_query_mask().wf()
        &&& self.spec_query_mask().spec_query_count() == query_count
        &&& forall|i: int|
            #[trigger] self.spec_query_mask().has(i) <==> exists|k: int|
                0 <= k < self.spec_query_indices().len() && self.spec_query_indices()[k] == i
    }

    /// The integer of the atom.
    pub fn value(&self) -> (value: IntPayloadType)
        ensures
            value == self.spec_value(),
    {
        self.value
    }

    /// The queries that reference the atom, ascending.
    pub fn query_indices(&self) -> (indices: &[usize])
        ensures
            indices@ == self.spec_query_indices(),
    {
        self.query_indices.as_slice()
    }

    /// The queries that reference the atom, as a mask.
    pub fn query_mask(&self) -> (mask: &QueryMask)
        ensures
            *mask == self.spec_query_mask(),
    {
        &self.query_mask
    }

    /// Number of distinct queries which reference this atom.
    pub fn reference_count(&self) -> (count: usize)
        ensures
            count == self.spec_query_indices().len(),
    {
        self.query_indices.len()
    }
}

/// An atom's mask counts exactly its references.
pub proof fn lemma_mask_counts_references(atom: FactorizedAtom, query_count: nat)
    requires
        atom.wf(query_count),
        query_count <= usize::MAX,
    ensures
        count_members(atom.spec_query_mask().spec_words(), query_count)
            == atom.spec_query_indices().len(),
{
    let words = atom.spec_query_mask().spec_words();
    let list = atom.spec_query_indices();
    assert forall|i: int| 0 <= i < query_count implies (packed_bit64(words, i) <==> list.contains(
        i as usize,
    )) by {
        assert(atom.spec_query_mask().has(i) == packed_bit64(words, i));
        if list.contains(i as usize) {
            let k = choose|k: int| 0 <= k < list.len() && list[k] == i as usize;
            assert(list[k] == i);
        }
        if packed_bit64(words, i) {
            let k = choose|k: int| 0 <= k < list.len() && list[k] == i;
            assert(list[k] == i as usize);
        }
    }
    lemma_count_members_list(words, list, query_count);
}

/// A batch filter represented as unique atoms and their query memberships.
///
/// Atom IDs are stable within a plan and correspond to positions in [`Self::atoms`]. Every query
/// lists its atoms in ascending position; among the orders with that property the plan takes the
/// one that always puts the smallest possible value next.
#[derive(Debug)]
pub struct FactorizedFilterPlan {
    key: PayloadKeyType,
    query_count: usize,
    atoms: Vec<FactorizedAtom>,
    query_atoms: Vec<Vec<usize>>,
}

/// Total length of a list of lists.
pub open spec fn total_len<T>(lists: Seq<Seq<T>>) -> nat
    decreases lists.len(),
{
    if lists.len() == 0 {
        0
    } else {
        total_len(lists.drop_last()) + lists.last().len()
    }
}

/// Prefixes are no longer than the whole.
pub proof fn lemma_total_len_prefix<T>(lists: Seq<Seq<T>>, n: nat)
    requires
        n <= lists.len(),
    ensures
        total_len(lists.take(n as int)) <= total_len(lists),
    decreases lists.len() - n,
{
    if n < lists.len() {
        lemma_total_len_prefix(lists, n + 1);
        assert(lists.take((n + 1) as int).drop_last() =~= lists.take(n as int));
    } else {
        assert(lists.take(n as int) =~= lists);
    }
}

impl FactorizedFilterPlan {
    /// The shared payload key.
    pub closed spec fn spec_key(&self) -> Seq<char> {
        self.key@
    }

    /// Number of queries in the batch.
    pub closed spec fn spec_query_count(&self) -> nat {
        self.query_count as nat
    }

    /// The unique atoms in execution order.
    pub closed spec fn spec_atoms(&self) -> Seq<FactorizedAtom> {
        self.atoms@
    }

    /// For every query the positions of its atoms.
    pub closed spec fn spec_query_atoms(&self) -> Seq<Seq<usize>> {
        list_views(self.query_atoms@)
    }

    /// The values of the atoms in execution order.
    pub open spec fn atom_values(&self) -> Seq<IntPayloadType> {
        self.spec_atoms().map_values(|atom: FactorizedAtom| atom.spec_value())
    }

    /// The plan is for one batch throughout.
    pub open spec fn wf(&self) -> bool {
        &&& self.spec_query_count() == self.spec_query_atoms().len()
        &&& self.spec_query_count() <= usize::MAX
        &&& forall|a: int|
            0 <= a < self.spec_atoms().len() ==> (#[trigger] self.spec_atoms()[a]).wf(
                self.spec_query_count(),
            )
        &&& forall|q: int, k: int|
            0 <= q < self.spec_query_atoms().len() && 0 <= k < self.spec_query_atoms()[q].len()
                ==> (#[trigger] self.spec_query_atoms()[q][k]) < self.spec_atoms().len()
    }

    /// The plan is the factorization of a batch of queries, each a list of distinct values.
    pub open spec fn factorizes(&self, queries: Seq<Seq<IntPayloadType>>) -> bool {
        &&& self.wf()
        &&& self.spec_query_count() == queries.len()
        &&& canonical_order(queries, self.atom_values())
        &&& forall|q: int|
            0 <= q < queries.len() ==> (#[trigger] self.spec_query_atoms()[q]).len()
                == queries[q].len()
        &&& forall|q: int, k: int|
            0 <= q < queries.len() && 0 <= k < queries[q].len() ==> self.atom_values()[(
            #[trigger] self.spec_query_atoms()[q][k]) as int] == queries[q][k]
        &&& forall|a: int, q: int|
            0 <= a < self.spec_atoms().len() && 0 <= q < queries.len() ==> (
            #[trigger] self.spec_atoms()[a].spec_query_mask().has(q) <==> queries[q].contains(
                self.atom_values()[a],
            ))
    }

    /// Build a factorized plan, rejecting any shape which cannot be proved equivalent to a union
    /// of integer equality atoms.
    pub fn try_from_filters(filters: &[Filter]) -> (r: Result<Self, FactorizedFilterPlanError>)
        ensures
            factorization_outcome(filters@, r),
    {
        let mut refs: Vec<&Filter> = Vec::with_capacity(filters.len());
        let mut i: usize = 0;
        while i < filters.len()
            invariant
                i <= filters@.len(),
                refs@.len() == i,
                forall|j: int| 0 <= j < i ==> *(#[trigger] refs@[j]) == filters@[j],
            decreases filters@.len() - i,
        {
            refs.push(&filters[i]);
            i = i + 1;
        }
        proof {
            assert(refs@.map_values(|f: &Filter| *f) =~= filters@);
        }
        Self::try_from_filter_iter(&refs)
    }

    /// Reference-based variant used by the query executor to avoid cloning wire filters before
    /// recognizing the supported shape.
    pub fn try_from_filter_refs(filters: &[&Filter]) -> (r: Result<
        Self,
        FactorizedFilterPlanError,
    >)
        ensures
            factorization_outcome(filters@.map_values(|f: &Filter| *f), r),
    {
        let mut refs: Vec<&Filter> = Vec::with_capacity(filters.len());
        let mut i: usize = 0;
        while i < filters.len()
            invariant
                i <= filters@.len(),
                refs@.len() == i,
                forall|j: int| 0 <= j < i ==> #[trigger] refs@[j] == filters@[j],
            decreases filters@.len() - i,
        {
            refs.push(filters[i]);
            i = i + 1;
        }
        proof {
            assert(refs@.map_values(|f: &Filter| *f) =~= filters@.map_values(|f: &Filter| *f));
        }
        Self::try_from_filter_iter(&refs)
    }

    fn try_from_filter_iter(filters: &Vec<&Filter>) -> (r: Result<Self, FactorizedFilterPlanError>)
        ensures
            factorization_outcome(filters@.map_values(|f: &Filter| *f), r),
    {
        let ghost batch = filters@.map_values(|f: &Filter| *f);
        if filters.len() == 0 {
            return Err(FactorizedFilterPlanError::EmptyBatch);
        }
        let first = match extract_integer_atoms(filters[0]) {
            Some((key, _)) => key,
            None => {
                proof {
                    assert(batch[0] == *filters@[0]);
                }
                return Err(FactorizedFilterPlanError::UnsupportedFilterShape { query_index: 0 });
            },
        };
        proof {
            assert(batch[0] == *filters@[0]);
        }
        let mut queries: Vec<Vec<IntPayloadType>> = Vec::with_capacity(filters.len());
        let mut i: usize = 0;
        while i < filters.len()
            invariant
                i <= filters@.len(),
                batch == filters@.map_values(|f: &Filter| *f),
                batch.len() > 0,
                first@ == shared_key(batch[0]),
                uniform_prefix(batch, i as int),
                list_views(queries@) == atom_lists(batch).take(i as int),
            decreases filters@.len() - i,
        {
            proof {
                assert(batch[i as int] == *filters@[i as int]);
            }
            match extract_integer_atoms(filters[i]) {
                None => {
                    return Err(
                        FactorizedFilterPlanError::UnsupportedFilterShape { query_index: i },
                    );
                },
                Some((key, values)) => {
                    if *key != *first {
                        return Err(
                            FactorizedFilterPlanError::DifferentKey {
                                query_index: i,
                                expected: first.clone(),
                                actual: key.clone(),
                            },
                        );
                    }
                    let distinct = dedup_values(&values);
                    let ghost before = queries@;
                    queries.push(distinct);
                    proof {
                        assert(list_views(queries@) =~= list_views(before).push(distinct@));
                        assert(atom_lists(batch).take(i + 1) =~= atom_lists(batch).take(
                            i as int,
                        ).push(atom_lists(batch)[i as int]));
                    }
                },
            }
            i = i + 1;
        }
        proof {
            assert(atom_lists(batch).take(batch.len() as int) =~= atom_lists(batch));
        }
        let distinct = distinct_values(&queries);
        let ids = to_ids(&distinct, &queries);
        let order = topological_order(distinct.len(), &ids);
        let ghost views = list_views(queries@);
        proof {
            assert forall|v: IntPayloadType|
                #[trigger] distinct@.contains(v) <==> is_atom(
                    values_behind(distinct@, list_views(ids@)),
                    v,
                ) by {}
            lemma_order_transport(distinct@, list_views(ids@), order@);
        }
        if order.len() != distinct.len() {
            return Err(FactorizedFilterPlanError::IncompatibleAtomOrder);
        }
        let positions = invert_order(&order);
        let query_atoms = positions_of(&positions, &ids);
        let query_count: usize = filters.len();
        let atoms = build_atoms(&distinct, &order, &queries);
        let plan = FactorizedFilterPlan { key: first.clone(), query_count, atoms, query_atoms };
        proof {
            let names = values_at(distinct@, order@);
            assert(plan.atom_values() =~= names) by {
                assert forall|a: int| 0 <= a < atoms@.len() implies plan.atom_values()[a]
                    == names[a] by {
                    assert(atoms@[a].spec_value() == distinct@[order@[a] as int]);
                }
            }
            let located = list_views(query_atoms@);
            assert(plan.spec_query_atoms() == located);
            assert(plan.spec_atoms() == atoms@);
            assert forall|q: int| 0 <= q < views.len() implies (#[trigger] located[q]).len()
                == views[q].len() by {
                assert(values_behind(distinct@, list_views(ids@))[q].len() == views[q].len());
            }
            assert forall|q: int, k: int|
                0 <= q < views.len() && 0 <= k < views[q].len() implies plan.atom_values()[(
            #[trigger] located[q][k]) as int] == views[q][k] by {
                assert(values_behind(distinct@, list_views(ids@))[q][k] == views[q][k]);
                assert(located[q][k] == positions@[list_views(ids@)[q][k] as int]);
            }
            assert forall|q: int, k: int|
                0 <= q < located.len() && 0 <= k < located[q].len() implies (
            #[trigger] located[q][k]) < atoms@.len() by {
                assert(located[q][k] == positions@[list_views(ids@)[q][k] as int]);
            }
            assert forall|a: int| 0 <= a < atoms@.len() implies (#[trigger] plan.spec_atoms()[a]).wf(
                plan.spec_query_count(),
            ) by {
                assert(atoms@[a].wf(queries@.len()));
            }
            assert forall|a: int, q: int| 0 <= a < atoms@.len() && 0 <= q < views.len() implies (
            #[trigger] plan.spec_atoms()[a].spec_query_mask().has(q) <==> views[q].contains(
                plan.atom_values()[a],
            )) by {
                assert(atoms@[a].spec_value() == names[a]);
            }
            assert(plan.factorizes(views));
        }
        Ok(plan)
    }

    /// The shared payload key.
    pub fn key(&self) -> (key: &PayloadKeyType)
        ensures
            key@ == self.spec_key(),
    {
        &self.key
    }

    /// Number of queries in the batch.
    pub fn query_count(&self) -> (count: usize)
        ensures
            count == self.spec_query_count(),
    {
        self.query_count
    }

    /// The unique atoms in execution order.
    pub fn atoms(&self) -> (atoms: &[FactorizedAtom])
        ensures
            atoms@ == self.spec_atoms(),
    {
        self.atoms.as_slice()
    }

    /// Number of atom references over all queries. Counting ends at the largest number.
    pub fn atom_reference_count(&self) -> (count: usize)
        ensures
            count == min_int(total_len(self.spec_query_atoms()) as int, usize::MAX as int),
    {
        let ghost lists = list_views(self.query_atoms@);
        let mut count: usize = 0;
        let mut i: usize = 0;
        while i < self.query_atoms.len()
            invariant
                i <= self.query_atoms@.len(),
                lists == list_views(self.query_atoms@),
                count == min_int(total_len(lists.take(i as int)) as int, usize::MAX as int),
            decreases self.query_atoms@.len() - i,
        {
            proof {
                assert(lists.take(i + 1).drop_last() =~= lists.take(i as int));
                assert(lists[i as int] == self.query_atoms@[i as int]@);
            }
            count = count.saturating_add(self.query_atoms[i].len());
            i = i + 1;
        }
        proof {
            assert(lists.take(lists.len() as int) =~= lists);
        }
        count
    }

    /// Atom IDs referenced by a query.
    pub fn query_atoms(&self, query_index: usize) -> (r: Option<&[usize]>)
        ensures
            match r {
                Some(ids) => query_index < self.spec_query_atoms().len() && ids@
                    == self.spec_query_atoms()[query_index as int],
                None => query_index >= self.spec_query_atoms().len(),
            },
    {
        if query_index < self.query_atoms.len() {
            Some(self.query_atoms[query_index].as_slice())
        } else {
            None
        }
    }
}

/// For every position of a permutation, where the permutation puts it.
fn invert_order(order: &Vec<usize>) -> (r: Vec<usize>)
    requires
        order@.no_duplicates(),
        forall|i: int| 0 <= i < order@.len() ==> #[trigger] order@[i] < order@.len(),
    ensures
        r@.len() == order@.len(),
        forall|v: int|
            0 <= v < order@.len() ==> (#[trigger] r@[v]) < order@.len() && order@[r@[v] as int]
                == v,
{
    let n: usize = order.len();
    let mut r: Vec<usize> = Vec::with_capacity(n);
    while r.len() < n
        invariant
            n == order@.len(),
            r@.len() <= n,
        decreases n - r@.len(),
    {
        r.push(0);
    }
    let mut i: usize = 0;
    while i < n
        invariant
            n == order@.len(),
            r@.len() == n,
            i <= n,
            order@.no_duplicates(),
            forall|j: int| 0 <= j < n ==> #[trigger] order@[j] < n,
            forall|j: int| 0 <= j < i ==> r@[#[trigger] order@[j] as int] == j,
        decreases n - i,
    {
        let v: usize = order[i];
        let ghost before = r@;
        r.set(v, i);
        proof {
            assert forall|j: int| 0 <= j < i + 1 implies r@[#[trigger] order@[j] as int] == j by {
                if j < i {
                    assert(order@[j] != order@[i as int]);
                    assert(before[order@[j] as int] == j);
                }
            }
        }
        i = i + 1;
    }
    proof {
        lemma_distinct_bound(order@, n as nat);
        assert forall|v: int| 0 <= v < n implies (#[trigger] r@[v]) < n && order@[r@[v] as int]
            == v by {
            assert(order@.contains(v as usize));
            let j = choose|j: int| 0 <= j < order@.len() && order@[j] == v as usize;
            assert(r@[order@[j] as int] == j);
        }
    }
    r
}

/// Replace every element by its entry in `positions`.
fn positions_of(positions: &Vec<usize>, ids: &Vec<Vec<usize>>) -> (r: Vec<Vec<usize>>)
    requires
        ids_in_range(list_views(ids@), positions@.len() as int),
    ensures
        r@.len() == ids@.len(),
        forall|q: int|
            0 <= q < ids@.len() ==> (#[trigger] list_views(r@)[q]).len() == list_views(
                ids@,
            )[q].len(),
        forall|q: int, k: int|
            0 <= q < ids@.len() && 0 <= k < list_views(ids@)[q].len() ==> (#[trigger] list_views(
                r@,
            )[q][k]) == positions@[list_views(ids@)[q][k] as int],
{
    let ghost views = list_views(ids@);
    let mut r: Vec<Vec<usize>> = Vec::with_capacity(ids.len());
    let mut q: usize = 0;
    while q < ids.len()
        invariant
            q <= ids@.len(),
            r@.len() == q,
            views == list_views(ids@),
            ids_in_range(views, positions@.len() as int),
            forall|p: int|
                0 <= p < q ==> (#[trigger] r@[p])@.len() == views[p].len() && forall|k: int|
                    0 <= k < views[p].len() ==> (#[trigger] r@[p]@[k])
                        == positions@[views[p][k] as int],
        decreases ids@.len() - q,
    {
        let list = &ids[q];
        let mut out: Vec<usize> = Vec::with_capacity(list.len());
        let mut k: usize = 0;
        while k < list.len()
            invariant
                q < ids@.len(),
                views == list_views(ids@),
                ids_in_range(views, positions@.len() as int),
                list@ == views[q as int],
                k <= list@.len(),
                out@.len() == k,
                forall|j: int|
                    0 <= j < k ==> (#[trigger] out@[j]) == positions@[views[q as int][j] as int],
            decreases list@.len() - k,
        {
            proof {
                assert(views[q as int][k as int] < positions@.len());
            }
            out.push(positions[list[k]]);
            k = k + 1;
        }
        r.push(out);
        q = q + 1;
    }
    proof {
        assert forall|p: int| 0 <= p < ids@.len() implies (#[trigger] list_views(r@)[p]).len()
            == views[p].len() by {
            assert(list_views(r@)[p] == r@[p]@);
        }
        assert forall|p: int, k: int|
            0 <= p < ids@.len() && 0 <= k < views[p].len() implies (#[trigger] list_views(
            r@,
        )[p][k]) == positions@[views[p][k] as int] by {
            assert(list_views(r@)[p] == r@[p]@);
            assert(r@[p]@[k] == positions@[views[p][k] as int]);
        }
    }
    r
}

/// The queries that list a value, ascending.
fn queries_with(queries: &Vec<Vec<IntPayloadType>>, value: IntPayloadType) -> (r: Vec<usize>)
    ensures
        ascending(r@),
        forall|i: int| 0 <= i < r@.len() ==> #[trigger] r@[i] < queries@.len(),
        forall|q: int|
            0 <= q < queries@.len() ==> (#[trigger] list_views(queries@)[q].contains(value)
                <==> exists|k: int| 0 <= k < r@.len() && r@[k] == q),
{
    let ghost views = list_views(queries@);
    let mut r: Vec<usize> = Vec::new();
    let mut q: usize = 0;
    while q < queries.len()
        invariant
            q <= queries@.len(),
            views == list_views(queries@),
            ascending(r@),
            forall|i: int| 0 <= i < r@.len() ==> #[trigger] r@[i] < q,
            forall|p: int|
                0 <= p < q ==> (#[trigger] views[p].contains(value) <==> exists|k: int|
                    0 <= k < r@.len() && r@[k] == p),
        decreases queries@.len() - q,
    {
        proof {
            assert(views[q as int] == queries@[q as int]@);
        }
        let ghost before = r@;
        if contains_i64(&queries[q], value) {
            r.push(q);
            proof {
                assert(r@[before.len() as int] == q);
                assert forall|p: int| 0 <= p < q + 1 implies (#[trigger] views[p].contains(value)
                    <==> exists|k: int| 0 <= k < r@.len() && r@[k] == p) by {
                    if p < q {
                        if views[p].contains(value) {
                            let k = choose|k: int| 0 <= k < before.len() && before[k] == p;
                            assert(r@[k] == p);
                        }
                        if exists|k: int| 0 <= k < r@.len() && r@[k] == p {
                            let k = choose|k: int| 0 <= k < r@.len() && r@[k] == p;
                            assert(before[k] == p);
                        }
                    }
                }
            }
        } else {
            proof {
                assert forall|p: int| 0 <= p < q + 1 implies (#[trigger] views[p].contains(value)
                    <==> exists|k: int| 0 <= k < r@.len() && r@[k] == p) by {
                    if p == q {
                        assert(forall|k: int| 0 <= k < r@.len() ==> #[trigger] r@[k] < q);
                    }
                }
            }
        }
        q = q + 1;
    }
    r
}

/// The atoms of a plan in execution order.
fn build_atoms(
    distinct: &Vec<IntPayloadType>,
    order: &Vec<usize>,
    queries: &Vec<Vec<IntPayloadType>>,
) -> (atoms: Vec<FactorizedAtom>)
    requires
        forall|i: int| 0 <= i < order@.len() ==> #[trigger] order@[i] < distinct@.len(),
    ensures
        atoms@.len() == order@.len(),
        forall|a: int|
            0 <= a < atoms@.len() ==> (#[trigger] atoms@[a]).spec_value()
                == distinct@[order@[a] as int] && atoms@[a].wf(queries@.len()),
        forall|a: int, q: int|
            0 <= a < atoms@.len() && 0 <= q < queries@.len() ==> (
            #[trigger] atoms@[a].spec_query_mask().has(q) <==> list_views(queries@)[q].contains(
                atoms@[a].spec_value(),
            )),
{
    let mut atoms: Vec<FactorizedAtom> = Vec::with_capacity(order.len());
    let mut i: usize = 0;
    while i < order.len()
        invariant
            i <= order@.len(),
            forall|j: int| 0 <= j < order@.len() ==> #[trigger] order@[j] < distinct@.len(),
            atoms@.len() == i,
            forall|a: int|
                0 <= a < atoms@.len() ==> (#[trigger] atoms@[a]).spec_value()
                    == distinct@[order@[a] as int] && atoms@[a].wf(queries@.len()),
            forall|a: int, q: int|
                0 <= a < atoms@.len() && 0 <= q < queries@.len() ==> (
                #[trigger] atoms@[a].spec_query_mask().has(q) <==> list_views(queries@)[q].contains(
                    atoms@[a].spec_value(),
                )),
        decreases order@.len() - i,
    {
        let value: IntPayloadType = distinct[order[i]];
        let query_indices = queries_with(queries, value);
        let query_mask = QueryMask::from_query_indices(queries.len(), &query_indices);
        let atom = FactorizedAtom { value, query_indices, query_mask };
        proof {
            assert(atom.spec_query_indices() == query_indices@);
            assert(atom.spec_query_mask() == query_mask);
            assert forall|q: int| 0 <= q < queries@.len() implies (
            #[trigger] atom.spec_query_mask().has(q) <==> list_views(queries@)[q].contains(
                atom.spec_value(),
            )) by {}
        }
        atoms.push(atom);
        i = i + 1;
    }
    atoms
}

/// Why a batch could not use the factorized fast path.
#[derive(Debug)]
pub enum FactorizedFilterPlanError {
    EmptyBatch,
    UnsupportedFilterShape { query_index: usize },
    DifferentKey { query_index: usize, expected: PayloadKeyType, actual: PayloadKeyType },
    IncompatibleAtomOrder,
}

/// What the factorization of a batch of filters gives.
///
/// The first filter that has another shape or another key than the first one is reported.
/// Otherwise a plan is owed exactly when some order of the atoms agrees with every query.
pub open spec fn factorization_outcome(
    filters: Seq<Filter>,
    r: Result<FactorizedFilterPlan, FactorizedFilterPlanError>,
) -> bool {
    match r {
        Ok(plan) => {
            &&& filters.len() > 0
            &&& uniform_prefix(filters, filters.len() as int)
            &&& plan.spec_key() == shared_key(filters[0])
            &&& plan.factorizes(atom_lists(filters))
        },
        Err(FactorizedFilterPlanError::EmptyBatch) => filters.len() == 0,
        Err(FactorizedFilterPlanError::UnsupportedFilterShape { query_index }) => {
            &&& query_index < filters.len()
            &&& uniform_prefix(filters, query_index as int)
            &&& integer_atoms(filters[query_index as int]) is None
        },
        Err(FactorizedFilterPlanError::DifferentKey { query_index, expected, actual }) => {
            &&& query_index < filters.len()
            &&& uniform_prefix(filters, query_index as int)
            &&& integer_atoms(filters[query_index as int]) is Some
            &&& expected@ == shared_key(filters[0])
            &&& actual@ == shared_key(filters[query_index as int])
            &&& expected@ != actual@
        },
        Err(FactorizedFilterPlanError::IncompatibleAtomOrder) => {
            &&& filters.len() > 0
            &&& uniform_prefix(filters, filters.len() as int)
            &&& forall|order: Seq<IntPayloadType>|
                !#[trigger] compatible_order(atom_lists(filters), order)
        },
    }
}

impl FactorizedFilterPlanError {
    /// The text of the error.
    pub open spec fn text(&self) -> Seq<char> {
        match *self {
            FactorizedFilterPlanError::EmptyBatch => "cannot factorize an empty filter batch"@,
            FactorizedFilterPlanError::UnsupportedFilterShape { query_index } => "query "@
                + decimal(query_index as nat) + " has an unsupported filter shape"@,
            FactorizedFilterPlanError::DifferentKey { query_index, expected, actual } => "query "@
                + decimal(query_index as nat) + " uses key "@ + actual@ + ", expected shared key "@
                + expected@,
            FactorizedFilterPlanError::IncompatibleAtomOrder =>
                "query atom orders conflict and cannot preserve stock tie semantics"@,
        }
    }

    /// A readable description of the error.
    pub fn message(&self) -> (text: String)
        ensures
            text@ == self.text(),
    {
        match self {
            FactorizedFilterPlanError::EmptyBatch =>
                "cannot factorize an empty filter batch".to_owned(),
            FactorizedFilterPlanError::UnsupportedFilterShape { query_index } => {
                let number = decimal_text(*query_index as u64);
                joined(
                    joined("query ".to_owned(), number.as_str()),
                    " has an unsupported filter shape",
                )
            },
            FactorizedFilterPlanError::DifferentKey { query_index, expected, actual } => {
                let number = decimal_text(*query_index as u64);
                let head = joined(joined("query ".to_owned(), number.as_str()), " uses key ");
                let middle = joined(joined(head, actual.as_str()), ", expected shared key ");
                joined(middle, expected.as_str())
            },
            FactorizedFilterPlanError::IncompatibleAtomOrder =>
                "query atom orders conflict and cannot preserve stock tie semantics".to_owned(),
        }
    }
}

/// Every query lists its atoms in ascending plan position, so one pass over the plan meets the
/// atoms of each query in the order that the query gives.
pub proof fn lemma_query_order_is_preserved(
    plan: FactorizedFilterPlan,
    queries: Seq<Seq<IntPayloadType>>,
    q: int,
)
    requires
        plan.factorizes(queries),
        0 <= q < queries.len(),
    ensures
        ascending(plan.spec_query_atoms()[q]),
{
    let ids = plan.spec_query_atoms()[q];
    let values = plan.atom_values();
    lemma_canonical_is_compatible(queries, values);
    assert forall|i: int, j: int| 0 <= i < j < ids.len() implies ids[i] < ids[j] by {
        lemma_query_order_step(plan, queries, q, i, j);
    }
}

proof fn lemma_query_order_step(
    plan: FactorizedFilterPlan,
    queries: Seq<Seq<IntPayloadType>>,
    q: int,
    i: int,
    j: int,
)
    requires
        plan.factorizes(queries),
        compatible_order(queries, plan.atom_values()),
        0 <= q < queries.len(),
        0 <= i < j < plan.spec_query_atoms()[q].len(),
    ensures
        plan.spec_query_atoms()[q][i] < plan.spec_query_atoms()[q][j],
    decreases j,
{
    let ids = plan.spec_query_atoms()[q];
    let values = plan.atom_values();
    let a = plan.spec_query_atoms()[q][j - 1];
    let b = plan.spec_query_atoms()[q][j];
    assert(a < plan.spec_atoms().len() && b < plan.spec_atoms().len());
    assert(values[a as int] == queries[q][j - 1]);
    assert(values[b as int] == queries[q][j]);
    assert(follows(queries, values[a as int], values[b as int])) by {
        assert(queries[q][j - 1] == values[a as int]);
        assert(queries[q][j - 1 + 1] == values[b as int]);
    }
    if i < j - 1 {
        lemma_query_order_step(plan, queries, q, i, j - 1);
    }
}

/// A plan is equivalent to the filters it was built from: an integer satisfies a filter exactly
/// when one of the atoms that the plan gives to that query has this value.
pub proof fn lemma_plan_is_equivalent_to_filters(
    filters: Seq<Filter>,
    plan: FactorizedFilterPlan,
    q: int,
    value: IntPayloadType,
)
    requires
        factorization_outcome(filters, Ok(plan)),
        0 <= q < filters.len(),
    ensures
        (integer_atoms(filters[q])->0).1.contains(value) <==> exists|k: int|
            0 <= k < plan.spec_query_atoms()[q].len() && plan.atom_values()[(
            #[trigger] plan.spec_query_atoms()[q][k]) as int] == value,
{
    let queries = atom_lists(filters);
    let given = (integer_atoms(filters[q])->0).1;
    lemma_dedup(given);
    assert(queries[q] == dedup(given));
    assert(dedup(given).contains(value) <==> given.contains(value));
    let ids = plan.spec_query_atoms()[q];
    if dedup(given).contains(value) {
        let k = choose|k: int| 0 <= k < queries[q].len() && queries[q][k] == value;
        assert(plan.atom_values()[plan.spec_query_atoms()[q][k] as int] == value);
    }
    if exists|k: int|
        0 <= k < ids.len() && plan.atom_values()[(#[trigger] plan.spec_query_atoms()[q][k]) as int]
            == value {
        let k = choose|k: int|
            0 <= k < ids.len() && plan.atom_values()[(
            #[trigger] plan.spec_query_atoms()[q][k]) as int] == value;
        assert(queries[q][k] == value);
        assert(dedup(given).contains(value));
    }
}

/// How many of the first numbers have a property.
pub open spec fn count_where(p: spec_fn(int) -> bool, n: nat) -> nat
    decreases n,
{
    if n == 0 {
        0
    } else {
        count_where(p, (n - 1) as nat) + if p(n - 1) {
            1nat
        } else {
            0
        }
    }
}

/// How many pairs of the first numbers are related.
spec fn count_pairs(f: spec_fn(int, int) -> bool, n: nat, m: nat) -> nat
    decreases n,
{
    if n == 0 {
        0
    } else {
        count_pairs(f, (n - 1) as nat, m) + count_where(|j: int| f(n - 1, j), m)
    }
}

/// An ascending list of exactly the numbers with a property is as long as there are such numbers.
proof fn lemma_count_where_list(list: Seq<usize>, p: spec_fn(int) -> bool, n: nat)
    requires
        ascending(list),
        n <= usize::MAX + 1,
        forall|i: int| 0 <= i < list.len() ==> #[trigger] list[i] < n,
        forall|x: int| 0 <= x < n ==> (#[trigger] p(x) <==> list.contains(x as usize)),
    ensures
        list.len() == count_where(p, n),
    decreases n,
{
    if n == 0 {
        if list.len() > 0 {
            assert(list[0] < n);
        }
    } else {
        let x = n - 1;
        assert(p(x) <==> list.contains(x as usize));
        if p(x) {
            let k = choose|k: int| 0 <= k < list.len() && list[k] == x as usize;
            if k < list.len() - 1 {
                assert(list[k] < list[list.len() - 1]);
                assert(list[list.len() - 1] < n);
            }
            let rest = list.drop_last();
            assert forall|i: int| 0 <= i < rest.len() implies #[trigger] rest[i] < x by {
                assert(list[i] < list[list.len() - 1]);
            }
            assert forall|y: int| 0 <= y < x implies (#[trigger] p(y) <==> rest.contains(
                y as usize,
            )) by {
                if list.contains(y as usize) {
                    let i = choose|i: int| 0 <= i < list.len() && list[i] == y as usize;
                    assert(rest[i] == y as usize);
                }
                if rest.contains(y as usize) {
                    let i = choose|i: int| 0 <= i < rest.len() && rest[i] == y as usize;
                    assert(list[i] == y as usize);
                }
            }
            lemma_count_where_list(rest, p, x as nat);
        } else {
            assert forall|i: int| 0 <= i < list.len() implies #[trigger] list[i] < x by {
                assert(list[i] < n);
                if list[i] == x {
                    assert(list.contains(x as usize));
                }
            }
            lemma_count_where_list(list, p, x as nat);
        }
    }
}

/// Pairs can be counted by their first or by their second numbers.
proof fn lemma_count_pairs_swap(f: spec_fn(int, int) -> bool, n: nat, m: nat)
    ensures
        count_pairs(f, n, m) == count_pairs(|j: int, i: int| f(i, j), m, n),
    decreases n + m,
{
    let g = |j: int, i: int| f(i, j);
    if n == 0 {
        if m > 0 {
            lemma_count_pairs_swap(f, n, (m - 1) as nat);
        }
    } else if m == 0 {
        lemma_count_pairs_swap(f, (n - 1) as nat, m);
    } else {
        let a = (n - 1) as nat;
        let b = (m - 1) as nat;
        lemma_count_pairs_swap(f, a, m);
        lemma_count_pairs_swap(f, n, b);
        lemma_count_pairs_swap(f, a, b);
        lemma_count_pairs_column(f, a, b);
        lemma_count_pairs_column(g, b, a);
        assert(count_where(|i: int| f(i, b as int), a) == count_where(
            |i: int| g(b as int, i),
            a,
        )) by {
            lemma_count_where_equal(|i: int| f(i, b as int), |i: int| g(b as int, i), a);
        }
        assert(count_where(|j: int| g(j, a as int), b) == count_where(
            |j: int| f(a as int, j),
            b,
        )) by {
            lemma_count_where_equal(|j: int| g(j, a as int), |j: int| f(a as int, j), b);
        }
    }
}

/// One more second number adds the pairs that it belongs to.
proof fn lemma_count_pairs_column(f: spec_fn(int, int) -> bool, n: nat, m: nat)
    ensures
        count_pairs(f, n, m + 1) == count_pairs(f, n, m) + count_where(|i: int| f(i, m as int), n),
    decreases n,
{
    if n > 0 {
        lemma_count_pairs_column(f, (n - 1) as nat, m);
    }
}

/// Properties that agree on the first numbers count alike.
proof fn lemma_count_where_equal(p: spec_fn(int) -> bool, q: spec_fn(int) -> bool, n: nat)
    requires
        forall|x: int| 0 <= x < n ==> #[trigger] p(x) == q(x),
    ensures
        count_where(p, n) == count_where(q, n),
    decreases n,
{
    if n > 0 {
        assert(p(n - 1) == q(n - 1));
        lemma_count_where_equal(p, q, (n - 1) as nat);
    }
}

/// The lists of related numbers are together as long as there are related pairs.
proof fn lemma_count_pairs_lists(
    lists: Seq<Seq<usize>>,
    f: spec_fn(int, int) -> bool,
    n: nat,
    m: nat,
)
    requires
        n <= lists.len(),
        m <= usize::MAX + 1,
        forall|i: int| 0 <= i < n ==> ascending(#[trigger] lists[i]),
        forall|i: int, k: int|
            0 <= i < n && 0 <= k < lists[i].len() ==> (#[trigger] lists[i][k]) < m,
        forall|i: int, j: int|
            0 <= i < n && 0 <= j < m ==> (#[trigger] f(i, j) <==> lists[i].contains(j as usize)),
    ensures
        total_len(lists.take(n as int)) == count_pairs(f, n, m),
    decreases n,
{
    if n > 0 {
        let a = (n - 1) as nat;
        lemma_count_pairs_lists(lists, f, a, m);
        assert(lists.take(n as int).drop_last() =~= lists.take(a as int));
        lemma_count_where_list(lists[a as int], |j: int| f(a as int, j), m);
    }
}

/// Two queries use the same value.
pub open spec fn shares_value(queries: Seq<Seq<IntPayloadType>>) -> bool {
    exists|p: int, q: int, value: IntPayloadType|
        0 <= p < q < queries.len() && #[trigger] queries[p].contains(value)
            && #[trigger] queries[q].contains(value)
}

/// References are counted alike from the atoms and from the queries. There is at least one
/// reference per atom, and exactly one when no value is used by two queries.
pub proof fn lemma_reference_counts(
    plan: FactorizedFilterPlan,
    queries: Seq<Seq<IntPayloadType>>,
)
    requires
        plan.factorizes(queries),
    ensures
        total_len(plan.spec_query_atoms()) == total_len(
            plan.spec_atoms().map_values(|atom: FactorizedAtom| atom.spec_query_indices()),
        ),
        total_len(plan.spec_query_atoms()) >= plan.spec_atoms().len(),
        total_len(plan.spec_query_atoms()) == plan.spec_atoms().len() <==> !shares_value(queries),
{
    let values = plan.atom_values();
    let by_query = plan.spec_query_atoms();
    let by_atom = plan.spec_atoms().map_values(
        |atom: FactorizedAtom| atom.spec_query_indices(),
    );
    let n = plan.spec_atoms().len();
    let m = queries.len();
    let used = |a: int, q: int| queries[q].contains(values[a]);
    lemma_plan_lengths(plan);
    assert forall|a: int, q: int| 0 <= a < n && 0 <= q < m implies (#[trigger] used(a, q)
        <==> by_atom[a].contains(q as usize)) by {
        let atom = plan.spec_atoms()[a];
        assert(atom.wf(m));
        assert(atom.spec_query_mask().has(q) <==> queries[q].contains(values[a]));
        if by_atom[a].contains(q as usize) {
            let k = choose|k: int| 0 <= k < by_atom[a].len() && by_atom[a][k] == q as usize;
            assert(atom.spec_query_indices()[k] == q);
        }
    }
    assert forall|a: int| 0 <= a < n implies ascending(#[trigger] by_atom[a]) by {
        assert(plan.spec_atoms()[a].wf(m));
    }
    assert forall|a: int, k: int| 0 <= a < n && 0 <= k < by_atom[a].len() implies (
    #[trigger] by_atom[a][k]) < m by {
        assert(plan.spec_atoms()[a].wf(m));
        assert(plan.spec_atoms()[a].spec_query_indices()[k] < m);
    }
    lemma_count_pairs_lists(by_atom, used, n, m);
    assert(by_atom.take(n as int) =~= by_atom);
    let uses = |q: int, a: int| used(a, q);
    assert forall|q: int, a: int| 0 <= q < m && 0 <= a < n implies (#[trigger] uses(q, a)
        <==> by_query[q].contains(a as usize)) by {
        lemma_atom_of_query(plan, queries, q, a);
    }
    assert forall|q: int| 0 <= q < m implies ascending(#[trigger] by_query[q]) by {
        lemma_query_order_is_preserved(plan, queries, q);
    }
    lemma_count_pairs_lists(by_query, uses, m, n);
    assert(by_query.take(m as int) =~= by_query);
    lemma_count_pairs_swap(used, n, m);
    assert forall|a: int| 0 <= a < n implies (#[trigger] by_atom[a]).len() > 0 by {
        assert(values.contains(values[a]));
        let (q, k) = choose|q: int, k: int|
            0 <= q < queries.len() && 0 <= k < queries[q].len() && (#[trigger] queries[q][k])
                == values[a];
        assert(used(a, q));
    }
    lemma_one_each(by_atom);
    if shares_value(queries) {
        let (p, q, value) = choose|p: int, q: int, value: IntPayloadType|
            0 <= p < q < queries.len() && #[trigger] queries[p].contains(value)
                && #[trigger] queries[q].contains(value);
        assert(is_atom(queries, value));
        assert(values.contains(value));
        let a = choose|a: int| 0 <= a < values.len() && values[a] == value;
        assert(used(a, p) && used(a, q));
        assert(by_atom[a].contains(p as usize) && by_atom[a].contains(q as usize));
        let i = choose|i: int| 0 <= i < by_atom[a].len() && by_atom[a][i] == p as usize;
        let j = choose|j: int| 0 <= j < by_atom[a].len() && by_atom[a][j] == q as usize;
        assert(by_atom[a].len() > 1);
    } else {
        assert forall|a: int| 0 <= a < n implies (#[trigger] by_atom[a]).len() == 1 by {
            if by_atom[a].len() > 1 {
                assert(ascending(by_atom[a]));
                let p = by_atom[a][0] as int;
                let q = by_atom[a][1] as int;
                assert(by_atom[a].contains(p as usize) && by_atom[a].contains(q as usize));
                assert(used(a, p) && used(a, q));
                assert(queries[p].contains(values[a]) && queries[q].contains(values[a]));
            }
        }
    }
}

/// Numbers of queries and atoms fit.
proof fn lemma_plan_lengths(plan: FactorizedFilterPlan)
    requires
        plan.wf(),
    ensures
        plan.spec_query_count() <= usize::MAX,
        plan.spec_atoms().len() <= usize::MAX,
{
    assert(plan.spec_atoms() == plan.atoms@);
    assert(plan.atoms@.len() == plan.atoms.len());
}

/// A query lists exactly the positions of the values that it uses.
proof fn lemma_atom_of_query(
    plan: FactorizedFilterPlan,
    queries: Seq<Seq<IntPayloadType>>,
    q: int,
    a: int,
)
    requires
        plan.factorizes(queries),
        0 <= q < queries.len(),
        0 <= a < plan.spec_atoms().len() <= usize::MAX,
    ensures
        queries[q].contains(plan.atom_values()[a]) <==> plan.spec_query_atoms()[q].contains(
            a as usize,
        ),
{
    let values = plan.atom_values();
    let ids = plan.spec_query_atoms()[q];
    lemma_canonical_is_compatible(queries, values);
    if queries[q].contains(values[a]) {
        let k = choose|k: int| 0 <= k < queries[q].len() && queries[q][k] == values[a];
        let id = plan.spec_query_atoms()[q][k];
        assert(values[id as int] == values[a]);
        assert(id < plan.spec_atoms().len());
        assert(id == a);
        assert(ids[k] == a as usize);
    }
    if ids.contains(a as usize) {
        let k = choose|k: int| 0 <= k < ids.len() && ids[k] == a as usize;
        assert(values[plan.spec_query_atoms()[q][k] as int] == queries[q][k]);
    }
}

/// Lists that are not empty are together at least as long as there are lists, and exactly as long
/// when each has one element.
proof fn lemma_one_each<T>(lists: Seq<Seq<T>>)
    requires
        forall|i: int| 0 <= i < lists.len() ==> (#[trigger] lists[i]).len() > 0,
    ensures
        total_len(lists) >= lists.len(),
        total_len(lists) == lists.len() <==> forall|i: int|
            0 <= i < lists.len() ==> (#[trigger] lists[i]).len() == 1,
    decreases lists.len(),
{
    if lists.len() > 0 {
        let rest = lists.drop_last();
        assert forall|i: int| 0 <= i < rest.len() implies (#[trigger] rest[i]).len() > 0 by {
            assert(lists[i].len() > 0);
        }
        lemma_one_each(rest);
        assert(lists[lists.len() - 1].len() > 0);
        if forall|i: int| 0 <= i < lists.len() ==> (#[trigger] lists[i]).len() == 1 {
            assert forall|i: int| 0 <= i < rest.len() implies (#[trigger] rest[i]).len() == 1 by {
                assert(lists[i].len() == 1);
            }
        }
        if total_len(lists) == lists.len() {
            assert forall|i: int| 0 <= i < lists.len() implies (#[trigger] lists[i]).len() == 1 by {
                if i < rest.len() {
                    assert(rest[i].len() == 1);
                }
            }
        }
    }
}

impl FactorizedFilterPlan {
    /// There are more references to atoms than atoms, so some atom serves several queries.
    pub fn shares_atoms(&self) -> (r: bool)
        ensures
            r == (total_len(self.spec_query_atoms()) > self.spec_atoms().len()),
    {
        let ghost lists = list_views(self.query_atoms@);
        let limit: usize = self.atoms.len();
        let mut count: usize = 0;
        let mut i: usize = 0;
        while i < self.query_atoms.len()
            invariant
                i <= self.query_atoms@.len(),
                lists == list_views(self.query_atoms@),
                limit == self.atoms@.len(),
                count <= limit,
                count == total_len(lists.take(i as int)),
            decreases self.query_atoms@.len() - i,
        {
            let len: usize = self.query_atoms[i].len();
            proof {
                assert(lists.take(i + 1).drop_last() =~= lists.take(i as int));
                assert(lists[i as int] == self.query_atoms@[i as int]@);
                lemma_total_len_prefix(lists, (i + 1) as nat);
            }
            if len > limit - count {
                return true;
            }
            count = count + len;
            i = i + 1;
        }
        proof {
            assert(lists.take(lists.len() as int) =~= lists);
        }
        false
    }
}

} // verus!
