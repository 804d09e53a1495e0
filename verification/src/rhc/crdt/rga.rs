//! RGA (Replicated Growable Array) CRDT implementation.

use vstd::prelude::*;
use vstd::pervasive::strictly_cloned;
use vstd::utf8::encode_utf8;
use crate::keyed::{KeyEq, KeyedVec, clone_exact};
use crate::rhc::crdt::{ActorId, CRDT};
use crate::rhc::hlc::HLCTimestamp;

verus! {

/// Lexicographic order of byte strings (a proper prefix comes first).
pub open spec fn bytes_lt(a: Seq<u8>, b: Seq<u8>) -> bool
    decreases a.len(),
{
    if b.len() == 0 {
        false
    } else if a.len() == 0 {
        true
    } else if a[0] != b[0] {
        a[0] < b[0]
    } else {
        bytes_lt(a.drop_first(), b.drop_first())
    }
}

/// No byte string precedes itself.
pub proof fn lemma_bytes_lt_irreflexive(a: Seq<u8>)
    ensures
        !bytes_lt(a, a),
    decreases a.len(),
{
    if a.len() > 0 {
        lemma_bytes_lt_irreflexive(a.drop_first());
    }
}

/// The byte order is transitive.
pub proof fn lemma_bytes_lt_transitive(a: Seq<u8>, b: Seq<u8>, c: Seq<u8>)
    requires
        bytes_lt(a, b),
        bytes_lt(b, c),
    ensures
        bytes_lt(a, c),
    decreases a.len(),
{
    if a.len() > 0 && b.len() > 0 && c.len() > 0 && a[0] == b[0] && b[0] == c[0] {
        lemma_bytes_lt_transitive(a.drop_first(), b.drop_first(), c.drop_first());
    }
}

/// Of two different byte strings, one precedes the other.
pub proof fn lemma_bytes_lt_total(a: Seq<u8>, b: Seq<u8>)
    requires
        a != b,
    ensures
        bytes_lt(a, b) || bytes_lt(b, a),
    decreases a.len(),
{
    if a.len() > 0 && b.len() > 0 && a[0] == b[0] {
        if a.drop_first() == b.drop_first() {
            assert(a.drop_first().len() == b.drop_first().len());
            assert(a.len() == b.len());
            assert(a =~= b) by {
                assert forall|i: int| 0 <= i < a.len() implies a[i] == b[i] by {
                    if i > 0 {
                        assert(a[i] == a.drop_first()[i - 1]);
                        assert(b[i] == b.drop_first()[i - 1]);
                    }
                }
            }
        }
        lemma_bytes_lt_total(a.drop_first(), b.drop_first());
    } else if a.len() == 0 && b.len() == 0 {
        assert(a =~= b);
    }
}

/// Comparing past an equal first byte compares the rests.
proof fn lemma_bytes_lt_skip(a: Seq<u8>, b: Seq<u8>, i: int)
    requires
        0 <= i < a.len(),
        i < b.len(),
        a[i] == b[i],
    ensures
        bytes_lt(a.skip(i), b.skip(i)) == bytes_lt(a.skip(i + 1), b.skip(i + 1)),
{
    assert(a.skip(i).drop_first() =~= a.skip(i + 1));
    assert(b.skip(i).drop_first() =~= b.skip(i + 1));
}

/// Whether the byte string `a` precedes `b`.
fn bytes_less(a: &[u8], b: &[u8]) -> (r: bool)
    ensures
        r == bytes_lt(a@, b@),
{
    let mut i: usize = 0;
    proof {
        assert(a@.skip(0) =~= a@);
        assert(b@.skip(0) =~= b@);
    }
    while i < a.len() && i < b.len()
        invariant
            i <= a.len(),
            i <= b.len(),
            bytes_lt(a@, b@) == bytes_lt(a@.skip(i as int), b@.skip(i as int)),
        decreases a.len() - i,
    {
        if a[i] != b[i] {
            return a[i] < b[i];
        }
        proof {
            lemma_bytes_lt_skip(a@, b@, i as int);
        }
        i = i + 1;
    }
    i < b.len()
}

/// The value of an element identifier: actor and timestamp.
pub type IdView = (Seq<char>, HLCTimestamp);

/// Order of element identifiers: by actor (its UTF-8 bytes), then by timestamp.
pub open spec fn id_lt(a: IdView, b: IdView) -> bool {
    ||| bytes_lt(encode_utf8(a.0), encode_utf8(b.0))
    ||| (encode_utf8(a.0) == encode_utf8(b.0) && a.1.precedes(b.1))
}

/// No identifier precedes itself.
pub proof fn lemma_id_lt_irreflexive(a: IdView)
    ensures
        !id_lt(a, a),
{
    lemma_bytes_lt_irreflexive(encode_utf8(a.0));
}

/// The identifier order is transitive.
pub proof fn lemma_id_lt_transitive(a: IdView, b: IdView, c: IdView)
    requires
        id_lt(a, b),
        id_lt(b, c),
    ensures
        id_lt(a, c),
{
    if bytes_lt(encode_utf8(a.0), encode_utf8(b.0)) && bytes_lt(encode_utf8(b.0), encode_utf8(c.0)) {
        lemma_bytes_lt_transitive(encode_utf8(a.0), encode_utf8(b.0), encode_utf8(c.0));
    }
}

/// Of two different identifiers, one precedes the other.
pub proof fn lemma_id_lt_total(a: IdView, b: IdView)
    requires
        a != b,
    ensures
        id_lt(a, b) || id_lt(b, a),
{
    broadcast use vstd::utf8::encode_utf8_decode_utf8;
    if encode_utf8(a.0) != encode_utf8(b.0) {
        lemma_bytes_lt_total(encode_utf8(a.0), encode_utf8(b.0));
    } else {
        assert(vstd::utf8::decode_utf8(encode_utf8(a.0)) == a.0);
        assert(vstd::utf8::decode_utf8(encode_utf8(b.0)) == b.0);
    }
}

#[derive(Debug, PartialEq, Eq, Hash, PartialOrd, Ord)]
pub struct ElementId {
    actor: ActorId,
    timestamp: HLCTimestamp,
}

impl View for ElementId {
    type V = IdView;

    closed spec fn view(&self) -> IdView {
        (self.actor@, self.timestamp)
    }
}

impl Clone for ElementId {
    fn clone(&self) -> (r: Self)
        ensures
            r == *self,
    {
        ElementId { actor: self.actor.clone(), timestamp: self.timestamp }
    }
}

impl KeyEq for ElementId {
    open spec fn key_ok() -> bool {
        true
    }

    fn key_eq(&self, other: &Self) -> (r: bool) {
        self.actor.0 == other.actor.0 && self.timestamp == other.timestamp
    }

    fn key_clone(&self) -> (r: Self) {
        self.clone()
    }
}

impl ElementId {
    /// Whether this identifier precedes `other`.
    pub fn less_than(&self, other: &ElementId) -> (r: bool)
        ensures
            r == id_lt(self@, other@),
    {
        let a = self.actor.0.as_str().as_bytes();
        let b = other.actor.0.as_str().as_bytes();
        if bytes_less(a, b) {
            true
        } else if bytes_less(b, a) {
            false
        } else {
            proof {
                if a@ != b@ {
                    lemma_bytes_lt_total(a@, b@);
                }
            }
            self.timestamp.is_before(&other.timestamp)
        }
    }
}

/// The value of an element: its value (none once deleted), the element
/// before it, the element after it, and whether it was deleted.
pub type ElementView<T> = (Option<T>, IdView, Option<IdView>, bool);

/// The values of optional identifiers.
pub open spec fn opt_id(o: Option<ElementId>) -> Option<IdView> {
    match o {
        Some(i) => Some(i@),
        None => None,
    }
}

/// Where a new element inserted after `after` goes, walking on from it:
/// past the elements after it whose identifiers are greater than the new
/// one (inserts made later, which come first), up to the first that is not;
/// the result is the element the new one follows and the link it takes over
/// from it. `None` when the walk takes more than `fuel` steps.
pub open spec fn place_from<T>(
    m: Map<IdView, ElementView<T>>,
    after: IdView,
    new_id: IdView,
    fuel: nat,
) -> Option<(IdView, Option<IdView>)>
    decreases fuel,
{
    match m[after].2 {
        None => Some((after, None)),
        Some(c) => if !m.contains_key(c) || !id_lt(new_id, c) {
            Some((after, Some(c)))
        } else if fuel == 0 {
            None
        } else {
            place_from(m, c, new_id, (fuel - 1) as nat)
        },
    }
}

/// Where a new element inserted after `prev` goes (see `place_from`); an
/// unknown `prev` is kept as the new element's neighbour with no link.
pub open spec fn insert_place<T>(
    m: Map<IdView, ElementView<T>>,
    prev: IdView,
    new_id: IdView,
) -> Option<(IdView, Option<IdView>)> {
    if m.contains_key(prev) {
        place_from(m, prev, new_id, m.dom().len())
    } else {
        Some((prev, None))
    }
}

/// The elements after inserting `value` under `new_id` between `p` and
/// `next`: `p` links to the new element, which links to `next`, and `next`
/// links back to it.
pub open spec fn link_between<T>(
    m: Map<IdView, ElementView<T>>,
    p: IdView,
    new_id: IdView,
    value: T,
    next: Option<IdView>,
) -> Map<IdView, ElementView<T>> {
    let m1 = if m.contains_key(p) {
        m.insert(p, (m[p].0, m[p].1, Some(new_id), m[p].3))
    } else {
        m
    };
    let m2 = m1.insert(new_id, (Some(value), p, next, false));
    match next {
        Some(c) => if m2.contains_key(c) {
            m2.insert(c, (m2[c].0, new_id, m2[c].2, m2[c].3))
        } else {
            m2
        },
        None => m2,
    }
}

/// The values shown by the walk from `cur` along the links: those of the
/// elements that are neither deleted nor empty; `None` when the walk takes
/// more than `fuel` steps.
pub open spec fn visible_from<T>(m: Map<IdView, ElementView<T>>, cur: IdView, fuel: nat) -> Option<Seq<T>>
    decreases fuel,
{
    if !m.contains_key(cur) {
        Some(Seq::empty())
    } else if fuel == 0 {
        None
    } else {
        match m[cur].2 {
            None => Some(shown_at(m, cur)),
            Some(nx) => match visible_from(m, nx, (fuel - 1) as nat) {
                Some(rest) => Some(shown_at(m, cur) + rest),
                None => None,
            },
        }
    }
}

/// The value an element shows: none if it is deleted or empty.
pub open spec fn shown_at<T>(m: Map<IdView, ElementView<T>>, k: IdView) -> Seq<T> {
    if m[k].0 is Some && !m[k].3 {
        seq![m[k].0->0]
    } else {
        Seq::empty()
    }
}

/// The values shown by the elements `ids`, in that order.
pub open spec fn shown<T>(m: Map<IdView, ElementView<T>>, ids: Seq<IdView>) -> Seq<T>
    decreases ids.len(),
{
    if ids.len() == 0 {
        Seq::empty()
    } else {
        shown_at(m, ids[0]) + shown(m, ids.drop_first())
    }
}

/// The sequence held by the elements from `root`, if the walk ends.
pub open spec fn sequence<T>(m: Map<IdView, ElementView<T>>, root: IdView) -> Option<Seq<T>> {
    visible_from(m, root, m.dom().len())
}

/// The links never loop: some rank below the number of elements decreases
/// along every link between elements.
pub open spec fn ranked<T>(m: Map<IdView, ElementView<T>>) -> bool {
    exists|rank: spec_fn(IdView) -> nat| #[trigger] rank_fits(m, rank)
}

/// `rank` is below the number of elements and decreases along every link.
pub open spec fn rank_fits<T>(m: Map<IdView, ElementView<T>>, rank: spec_fn(IdView) -> nat) -> bool {
    forall|k: IdView| #[trigger] m.contains_key(k) ==> rank(k) < m.dom().len() && (m[k].2 matches Some(n)
        ==> (m.contains_key(n) ==> rank(n) < rank(k)))
}

/// Every link leads to an element.
pub open spec fn linked<T>(m: Map<IdView, ElementView<T>>) -> bool {
    forall|k: IdView| #[trigger] m.contains_key(k) ==> (m[k].2 matches Some(n) ==> m.contains_key(n))
}

proof fn lemma_place_ends<T>(
    m: Map<IdView, ElementView<T>>,
    rank: spec_fn(IdView) -> nat,
    after: IdView,
    new_id: IdView,
    fuel: nat,
)
    requires
        rank_fits(m, rank),
        m.contains_key(after),
        rank(after) <= fuel,
    ensures
        place_from(m, after, new_id, fuel) is Some,
    decreases fuel,
{
    if let Some(c) = m[after].2 {
        if m.contains_key(c) && id_lt(new_id, c) {
            lemma_place_ends(m, rank, c, new_id, (fuel - 1) as nat);
        }
    }
}

proof fn lemma_place_found<T>(m: Map<IdView, ElementView<T>>, after: IdView, new_id: IdView, fuel: nat)
    requires
        m.contains_key(after),
    ensures
        place_from(m, after, new_id, fuel) matches Some(pl) ==> m.contains_key(pl.0) && m[pl.0].2 == pl.1,
    decreases fuel,
{
    if let Some(c) = m[after].2 {
        if m.contains_key(c) && id_lt(new_id, c) && fuel > 0 {
            lemma_place_found(m, c, new_id, (fuel - 1) as nat);
        }
    }
}

proof fn lemma_visible_ends<T>(m: Map<IdView, ElementView<T>>, rank: spec_fn(IdView) -> nat, cur: IdView, fuel: nat)
    requires
        rank_fits(m, rank),
        m.contains_key(cur) ==> rank(cur) < fuel,
    ensures
        visible_from(m, cur, fuel) is Some,
    decreases fuel,
{
    if m.contains_key(cur) {
        if let Some(n) = m[cur].2 {
            lemma_visible_ends(m, rank, n, (fuel - 1) as nat);
        }
    }
}

/// On elements whose links never loop, every walk ends: the sequence from
/// any element is defined, and so is the position of any insertion.
pub proof fn lemma_ranked_walks_end<T>(m: Map<IdView, ElementView<T>>, start: IdView, prev: IdView, new_id: IdView)
    requires
        ranked(m),
    ensures
        sequence(m, start) is Some,
        insert_place(m, prev, new_id) is Some,
{
    let rank = choose|rank: spec_fn(IdView) -> nat| #[trigger] rank_fits(m, rank);
    lemma_visible_ends(m, rank, start, m.dom().len());
    if m.contains_key(prev) {
        lemma_place_ends(m, rank, prev, new_id, m.dom().len());
    }
}

/// The identifiers of a sequence of element identifiers.
pub open spec fn id_views(s: Seq<ElementId>) -> Seq<IdView> {
    Seq::new(s.len(), |i: int| s[i]@)
}

/// Identifiers in strictly increasing order.
pub open spec fn sorted_ids(s: Seq<IdView>) -> bool {
    forall|i: int, j: int| 0 <= i < j < s.len() ==> id_lt(#[trigger] s[i], #[trigger] s[j])
}

/// The identifiers of a set in increasing order.
pub open spec fn listing_of(ids: Set<IdView>) -> Seq<IdView> {
    choose|s: Seq<IdView>| sorted_ids(s) && s.to_set() == ids
}

/// A set is listed in increasing order in one way only.
pub proof fn lemma_sorted_unique(a: Seq<IdView>, b: Seq<IdView>)
    requires
        sorted_ids(a),
        sorted_ids(b),
        a.to_set() == b.to_set(),
    ensures
        a == b,
    decreases a.len(),
{
    if a.len() == 0 {
        if b.len() > 0 {
            assert(b.to_set().contains(b[0]));
        }
        assert(a =~= b);
    } else if b.len() == 0 {
        assert(a.to_set().contains(a[0]));
    } else {
        assert(a.to_set().contains(b[0]));
        assert(b.to_set().contains(a[0]));
        if a[0] != b[0] {
            let i = choose|i: int| 0 <= i < a.len() && a[i] == b[0];
            let j = choose|j: int| 0 <= j < b.len() && b[j] == a[0];
            assert(id_lt(a[0], a[i]));
            assert(id_lt(b[0], b[j]));
            lemma_id_lt_transitive(a[0], b[0], a[0]);
            lemma_id_lt_irreflexive(a[0]);
        }
        let ra = a.drop_first();
        let rb = b.drop_first();
        assert forall|x: IdView| #[trigger] ra.to_set().contains(x) <==> rb.to_set().contains(x) by {
            if ra.to_set().contains(x) {
                let i = choose|i: int| 0 <= i < ra.len() && ra[i] == x;
                assert(a[i + 1] == x);
                assert(a.to_set().contains(x));
                let j = choose|j: int| 0 <= j < b.len() && b[j] == x;
                if j == 0 {
                    assert(id_lt(a[0], a[i + 1]));
                    lemma_id_lt_irreflexive(x);
                }
                assert(rb[j - 1] == x);
            }
            if rb.to_set().contains(x) {
                let j = choose|j: int| 0 <= j < rb.len() && rb[j] == x;
                assert(b[j + 1] == x);
                assert(b.to_set().contains(x));
                let i = choose|i: int| 0 <= i < a.len() && a[i] == x;
                if i == 0 {
                    assert(id_lt(b[0], b[j + 1]));
                    lemma_id_lt_irreflexive(x);
                }
                assert(ra[i - 1] == x);
            }
        }
        assert(ra.to_set() =~= rb.to_set());
        lemma_sorted_unique(ra, rb);
        assert(a =~= b) by {
            assert forall|i: int| 0 <= i < a.len() implies a[i] == b[i] by {
                if i > 0 {
                    assert(a[i] == ra[i - 1]);
                    assert(b[i] == rb[i - 1]);
                }
            }
        }
    }
}

/// The sorted listing of a set is the increasing one.
pub proof fn lemma_listing_of(s: Seq<IdView>)
    requires
        sorted_ids(s),
    ensures
        listing_of(s.to_set()) == s,
{
    let l = listing_of(s.to_set());
    assert(sorted_ids(s) && s.to_set() == s.to_set());
    lemma_sorted_unique(l, s);
}

/// Inserts `id` into the sorted `v` at its place.
fn insert_sorted(v: &mut Vec<ElementId>, id: ElementId)
    requires
        sorted_ids(id_views(old(v)@)),
        !id_views(old(v)@).contains(id@),
    ensures
        sorted_ids(id_views(final(v)@)),
        id_views(final(v)@).to_set() == id_views(old(v)@).to_set().insert(id@),
{
    let ghost w = id_views(v@);
    let mut p: usize = 0;
    loop
        invariant
            w == id_views(v@),
            sorted_ids(w),
            !w.contains(id@),
            p <= v.len(),
            forall|q: int| 0 <= q < p ==> id_lt(#[trigger] w[q], id@),
        ensures
            p <= v.len(),
            forall|q: int| 0 <= q < p ==> id_lt(#[trigger] w[q], id@),
            p < v.len() ==> id_lt(id@, w[p as int]),
        decreases v.len() - p,
    {
        if p >= v.len() {
            break;
        }
        if id.less_than(&v[p]) {
            break;
        }
        proof {
            if w[p as int] != id@ {
                lemma_id_lt_total(w[p as int], id@);
            } else {
                assert(w.contains(id@));
            }
        }
        p = p + 1;
    }
    let ghost idv = id@;
    v.insert(p, id);
    proof {
        let w2 = id_views(v@);
        assert(w2 =~= w.insert(p as int, idv));
        assert forall|i: int, j: int| 0 <= i < j < w2.len() implies id_lt(#[trigger] w2[i], #[trigger] w2[j]) by {
            if j < p {
                assert(w2[i] == w[i] && w2[j] == w[j]);
            } else if j == p {
                assert(w2[i] == w[i]);
            } else if i < p {
                assert(w2[i] == w[i] && w2[j] == w[j - 1]);
                assert(id_lt(w[i], idv));
                assert(id_lt(idv, w[p as int]));
                lemma_id_lt_transitive(w[i], idv, w[p as int]);
                if j - 1 > p {
                    lemma_id_lt_transitive(w[i], w[p as int], w[j - 1]);
                }
            } else if i == p {
                assert(w2[j] == w[j - 1]);
                if j - 1 > p {
                    lemma_id_lt_transitive(idv, w[p as int], w[j - 1]);
                }
            } else {
                assert(w2[i] == w[i - 1] && w2[j] == w[j - 1]);
            }
        }
        assert forall|x: IdView| #[trigger] w2.to_set().contains(x) <==> w.to_set().insert(idv).contains(x) by {
            if w2.to_set().contains(x) {
                let i = choose|i: int| 0 <= i < w2.len() && w2[i] == x;
                if i < p {
                    assert(w[i] == x);
                } else if i > p {
                    assert(w[i - 1] == x);
                }
            }
            if w.to_set().contains(x) {
                let i = choose|i: int| 0 <= i < w.len() && w[i] == x;
                if i < p {
                    assert(w2[i] == x);
                } else {
                    assert(w2[i + 1] == x);
                }
            }
            if x == idv {
                assert(w2[p as int] == x);
            }
        }
        assert(w2.to_set() =~= w.to_set().insert(idv));
    }
}

/// Increasing identifiers are distinct.
proof fn lemma_sorted_distinct(s: Seq<IdView>)
    requires
        sorted_ids(s),
    ensures
        s.no_duplicates(),
        forall|i: int| 0 <= i < s.len() ==> s.index_of(#[trigger] s[i]) == i,
{
    assert forall|i: int, j: int| 0 <= i < s.len() && 0 <= j < s.len() && i != j implies s[i] != s[j] by {
        if s[i] == s[j] {
            lemma_id_lt_irreflexive(s[i]);
            if i < j {
                assert(id_lt(s[i], s[j]));
            } else {
                assert(id_lt(s[j], s[i]));
            }
        }
    }
    assert forall|i: int| 0 <= i < s.len() implies s.index_of(#[trigger] s[i]) == i by {
        assert(s[i] == s[i]);
    }
}

/// A sorted listing with `x` added at its place.
proof fn lemma_insert_sorted(l: Seq<IdView>, x: IdView) -> (r: Seq<IdView>)
    requires
        sorted_ids(l),
        !l.contains(x),
    ensures
        sorted_ids(r),
        r.to_set() == l.to_set().insert(x),
    decreases l.len(),
{
    if l.len() == 0 {
        let r = seq![x];
        assert(r.to_set() =~= l.to_set().insert(x)) by {
            assert(r[0] == x);
        }
        r
    } else {
        let last = l.last();
        let init = l.drop_last();
        assert(l =~= init.push(last));
        if id_lt(last, x) {
            let r = l.push(x);
            assert forall|i: int, j: int| 0 <= i < j < r.len() implies id_lt(#[trigger] r[i], #[trigger] r[j]) by {
                if j == r.len() - 1 && i < l.len() - 1 {
                    assert(id_lt(l[i], last));
                    lemma_id_lt_transitive(l[i], last, x);
                }
            }
            assert(r.to_set() =~= l.to_set().insert(x)) by {
                assert(r[r.len() - 1] == x);
                assert forall|y: IdView| r.contains(y) implies l.to_set().insert(x).contains(y) by {
                    let i = choose|i: int| 0 <= i < r.len() && r[i] == y;
                    if i < l.len() {
                        assert(l[i] == y);
                    }
                }
                assert forall|y: IdView| l.contains(y) implies r.contains(y) by {
                    let i = choose|i: int| 0 <= i < l.len() && l[i] == y;
                    assert(r[i] == y);
                }
            }
            r
        } else {
            assert(last != x) by {
                assert(l[l.len() - 1] == last);
            }
            lemma_id_lt_total(last, x);
            assert(sorted_ids(init)) by {
                assert forall|i: int, j: int| 0 <= i < j < init.len() implies id_lt(#[trigger] init[i], #[trigger] init[j]) by {
                    assert(init[i] == l[i] && init[j] == l[j]);
                }
            }
            assert(!init.contains(x)) by {
                if init.contains(x) {
                    let i = choose|i: int| 0 <= i < init.len() && init[i] == x;
                    assert(l[i] == x);
                }
            }
            let r0 = lemma_insert_sorted(init, x);
            let r = r0.push(last);
            assert forall|y: IdView| #[trigger] r0.contains(y) implies id_lt(y, last) by {
                assert(r0.to_set().contains(y));
                if y != x {
                    assert(init.to_set().contains(y));
                    let i = choose|i: int| 0 <= i < init.len() && init[i] == y;
                    assert(l[i] == y);
                }
            }
            assert forall|i: int, j: int| 0 <= i < j < r.len() implies id_lt(#[trigger] r[i], #[trigger] r[j]) by {
                if j == r.len() - 1 {
                    assert(r0.contains(r0[i]));
                } else {
                    assert(r[i] == r0[i] && r[j] == r0[j]);
                }
            }
            assert(r.to_set() =~= l.to_set().insert(x)) by {
                assert forall|y: IdView| #[trigger] r.to_set().contains(y) == l.to_set().insert(x).contains(y) by {
                    if r.contains(y) {
                        let i = choose|i: int| 0 <= i < r.len() && r[i] == y;
                        if i < r0.len() {
                            assert(r0[i] == y);
                            assert(r0.to_set().contains(y));
                            if y != x {
                                let k = choose|k: int| 0 <= k < init.len() && init[k] == y;
                                assert(l[k] == y);
                            }
                        } else {
                            assert(l[l.len() - 1] == y);
                        }
                    }
                    if l.contains(y) {
                        let i = choose|i: int| 0 <= i < l.len() && l[i] == y;
                        if i < init.len() {
                            assert(init[i] == y);
                            assert(init.to_set().contains(y));
                            assert(r0.to_set().contains(y));
                            let k = choose|k: int| 0 <= k < r0.len() && r0[k] == y;
                            assert(r[k] == y);
                        } else {
                            assert(r[r.len() - 1] == y);
                        }
                    }
                    if y == x {
                        assert(r0.to_set().contains(x));
                        let k = choose|k: int| 0 <= k < r0.len() && r0[k] == x;
                        assert(r[k] == x);
                    }
                }
            }
            r
        }
    }
}

/// Every finite set of identifiers has its listing in increasing order.
pub proof fn lemma_listing_exists(ids: Set<IdView>)
    requires
        ids.finite(),
    ensures
        sorted_ids(listing_of(ids)),
        listing_of(ids).to_set() == ids,
    decreases ids.len(),
{
    if ids.len() == 0 {
        let e = Seq::<IdView>::empty();
        assert(e.to_set() =~= ids);
        assert(sorted_ids(e) && e.to_set() == ids);
    } else {
        let x = ids.choose();
        let rest = ids.remove(x);
        lemma_listing_exists(rest);
        let l = listing_of(rest);
        assert(!l.contains(x)) by {
            if l.contains(x) {
                assert(l.to_set().contains(x));
            }
        }
        let r = lemma_insert_sorted(l, x);
        assert(r.to_set() =~= ids);
        assert(sorted_ids(r) && r.to_set() == ids);
    }
}

/// The elements after taking in those of `theirs`: the ones this replica
/// lacks, and the deletions of the ones it has.
pub open spec fn absorb<T>(mine: Map<IdView, ElementView<T>>, theirs: Map<IdView, ElementView<T>>) -> Map<IdView, ElementView<T>> {
    Map::new(
        |k: IdView| mine.contains_key(k) || theirs.contains_key(k),
        |k: IdView|
            if mine.contains_key(k) {
                if theirs.contains_key(k) && theirs[k].3 {
                    (None, mine[k].1, mine[k].2, true)
                } else {
                    mine[k]
                }
            } else {
                theirs[k]
            },
    )
}

/// The links of the element at position `i` of `ord`, chained from `root`.
pub open spec fn relinked<T>(e: ElementView<T>, root: IdView, ord: Seq<IdView>, i: int) -> ElementView<T> {
    (e.0, if i == 0 { root } else { ord[i - 1] }, if i + 1 < ord.len() { Some(ord[i + 1]) } else { None }, e.3)
}

/// The elements re-chained in the order `ord` after the head `root`; the
/// first `n` of `ord` only.
pub open spec fn relink_upto<T>(m: Map<IdView, ElementView<T>>, root: IdView, ord: Seq<IdView>, n: int) -> Map<IdView, ElementView<T>> {
    Map::new(
        |k: IdView| m.contains_key(k),
        |k: IdView|
            if ord.take(n).contains(k) {
                relinked(m[k], root, ord, ord.index_of(k))
            } else if k == root && ord.len() > 0 {
                (m[k].0, m[k].1, Some(ord[0]), m[k].3)
            } else {
                m[k]
            },
    )
}

/// The elements re-chained in the order `ord` after the head `root`.
pub open spec fn relink<T>(m: Map<IdView, ElementView<T>>, root: IdView, ord: Seq<IdView>) -> Map<IdView, ElementView<T>> {
    relink_upto(m, root, ord, ord.len() as int)
}

/// The elements of `m` re-chained after `root` in increasing order.
pub open spec fn rebuilt<T>(m: Map<IdView, ElementView<T>>, root: IdView) -> Map<IdView, ElementView<T>> {
    relink(m, root, listing_of(m.dom().remove(root)))
}

/// Chaining all elements after the head in increasing order leaves links
/// that never loop.
proof fn lemma_relink_is_list<T>(m: Map<IdView, ElementView<T>>, root: IdView, ord: Seq<IdView>)
    requires
        m.dom().finite(),
        m.contains_key(root),
        sorted_ids(ord),
        ord.to_set() == m.dom().remove(root),
        ord.len() == 0 ==> m[root].2 is None,
    ensures
        ranked(relink(m, root, ord)),
        linked(relink(m, root, ord)),
{
    let m2 = relink(m, root, ord);
    lemma_sorted_distinct(ord);
    ord.unique_seq_to_set();
    assert(m.dom().remove(root).len() == m.dom().len() - 1);
    assert(m2.dom() =~= m.dom());
    assert(!ord.contains(root)) by {
        if ord.contains(root) {
            assert(ord.to_set().contains(root));
        }
    }
    assert(ord.take(ord.len() as int) =~= ord);
    let n = ord.len();
    let rank = |k: IdView| if k == root { n } else { (n - 1 - ord.index_of(k)) as nat };
    assert forall|k: IdView| #[trigger] m2.contains_key(k) implies rank(k) < m2.dom().len() && (m2[k].2 matches Some(x)
        ==> (m2.contains_key(x) ==> rank(x) < rank(k))) by {
        if k != root {
            assert(ord.to_set().contains(k));
            let i = choose|i: int| 0 <= i < ord.len() && ord[i] == k;
            assert(ord.index_of(ord[i]) == i);
            if i + 1 < n {
                assert(ord.index_of(ord[i + 1]) == i + 1);
                assert(ord[i + 1] != root);
            }
        } else if n > 0 {
            assert(ord.index_of(ord[0]) == 0);
            assert(ord[0] != root);
        }
    }
    assert(rank_fits(m2, rank));
    assert forall|k: IdView| #[trigger] m2.contains_key(k) implies (m2[k].2 matches Some(x) ==> m2.contains_key(x)) by {
        if k != root {
            assert(ord.to_set().contains(k));
            let i = choose|i: int| 0 <= i < ord.len() && ord[i] == k;
            assert(ord.index_of(ord[i]) == i);
            if i + 1 < n {
                assert(ord.to_set().contains(ord[i + 1]));
            }
        } else if n > 0 {
            assert(ord.to_set().contains(ord[0]));
        }
    }
}


proof fn lemma_relink_suffix<T>(m: Map<IdView, ElementView<T>>, root: IdView, ord: Seq<IdView>, i: int, fuel: nat)
    requires
        sorted_ids(ord),
        ord.to_set() == m.dom().remove(root),
        0 <= i < ord.len(),
        fuel >= ord.len() - i,
    ensures
        visible_from(relink(m, root, ord), ord[i], fuel) == Some(shown(m, ord.skip(i))),
    decreases ord.len() - i,
{
    let m2 = relink(m, root, ord);
    lemma_sorted_distinct(ord);
    assert(ord.take(ord.len() as int) =~= ord);
    assert(ord.to_set().contains(ord[i]));
    assert(ord.index_of(ord[i]) == i);
    assert(m2[ord[i]] == relinked(m[ord[i]], root, ord, i));
    assert(shown_at(m2, ord[i]) == shown_at(m, ord[i]));
    assert(ord.skip(i).drop_first() =~= ord.skip(i + 1));
    assert(ord.skip(i)[0] == ord[i]);
    if i + 1 < ord.len() {
        lemma_relink_suffix(m, root, ord, i + 1, (fuel - 1) as nat);
    } else {
        assert(ord.skip(i + 1) =~= Seq::<IdView>::empty());
        assert(shown(m, ord.skip(i + 1)) == Seq::<T>::empty());
        assert(shown(m, ord.skip(i)) == shown_at(m, ord[i]) + shown(m, ord.skip(i + 1)));
        assert(shown(m, ord.skip(i)) =~= shown_at(m, ord[i]));
    }
}

/// After chaining all elements behind the head in increasing order, the
/// sequence shows the head's value, then those of the other elements in
/// increasing order of identifier.
pub proof fn lemma_relink_sequence<T>(m: Map<IdView, ElementView<T>>, root: IdView, ord: Seq<IdView>)
    requires
        m.dom().finite(),
        m.contains_key(root),
        sorted_ids(ord),
        ord.to_set() == m.dom().remove(root),
        ord.len() == 0 ==> m[root].2 is None,
    ensures
        sequence(relink(m, root, ord), root) == Some(shown_at(m, root) + shown(m, ord)),
{
    let m2 = relink(m, root, ord);
    lemma_sorted_distinct(ord);
    ord.unique_seq_to_set();
    assert(m2.dom() =~= m.dom());
    assert(m.dom().remove(root).len() == m.dom().len() - 1);
    assert(!ord.contains(root)) by {
        if ord.contains(root) {
            assert(ord.to_set().contains(root));
        }
    }
    assert(shown_at(m2, root) == shown_at(m, root));
    if ord.len() > 0 {
        lemma_relink_suffix(m, root, ord, 0, (m.dom().len() - 1) as nat);
        assert(ord.skip(0) =~= ord);
    } else {
        assert(shown(m, ord) =~= Seq::<T>::empty());
        assert(shown_at(m, root) + shown(m, ord) =~= shown_at(m, root));
    }
}

proof fn lemma_shown_append<T>(m: Map<IdView, ElementView<T>>, a: Seq<IdView>, b: Seq<IdView>)
    ensures
        shown(m, a + b) == shown(m, a) + shown(m, b),
    decreases a.len(),
{
    if a.len() == 0 {
        assert(a + b =~= b);
        assert(shown(m, a) + shown(m, b) =~= shown(m, b));
    } else {
        assert((a + b)[0] == a[0]);
        assert((a + b).drop_first() =~= a.drop_first() + b);
        lemma_shown_append(m, a.drop_first(), b);
        assert(shown_at(m, a[0]) + (shown(m, a.drop_first()) + shown(m, b)) =~= (shown_at(m, a[0]) + shown(m, a.drop_first()))
            + shown(m, b));
    }
}

proof fn lemma_shown_agree<T>(m1: Map<IdView, ElementView<T>>, m2: Map<IdView, ElementView<T>>, ids: Seq<IdView>)
    requires
        forall|i: int| 0 <= i < ids.len() ==> shown_at(m1, #[trigger] ids[i]) == shown_at(m2, ids[i]),
    ensures
        shown(m1, ids) == shown(m2, ids),
    decreases ids.len(),
{
    if ids.len() > 0 {
        assert forall|i: int| 0 <= i < ids.drop_first().len() implies shown_at(m1, #[trigger] ids.drop_first()[i])
            == shown_at(m2, ids.drop_first()[i]) by {
            assert(ids.drop_first()[i] == ids[i + 1]);
        }
        lemma_shown_agree(m1, m2, ids.drop_first());
        assert(shown_at(m1, ids[0]) == shown_at(m2, ids[0]));
    }
}

/// Leaving out an element that shows nothing changes nothing shown.
proof fn lemma_drop_silent<T>(m: Map<IdView, ElementView<T>>, ids: Seq<IdView>, i: int)
    requires
        0 <= i < ids.len(),
        shown_at(m, ids[i]) == Seq::<T>::empty(),
    ensures
        shown(m, ids.remove(i)) == shown(m, ids),
{
    let head = ids.take(i);
    let tail = ids.skip(i + 1);
    let mid = seq![ids[i]] + tail;
    assert(ids =~= head + mid);
    assert(ids.remove(i) =~= head + tail);
    lemma_shown_append(m, head, mid);
    lemma_shown_append(m, head, tail);
    assert(mid[0] == ids[i]);
    assert(mid.drop_first() =~= tail);
    assert(shown(m, mid) == shown_at(m, ids[i]) + shown(m, tail));
    assert(shown(m, mid) =~= shown(m, tail));
}

/// Leaving an element out of a set leaves it out of the set's listing.
proof fn lemma_listing_remove(ids: Set<IdView>, r: IdView) -> (i: int)
    requires
        ids.finite(),
        ids.contains(r),
    ensures
        0 <= i < listing_of(ids).len(),
        listing_of(ids)[i] == r,
        listing_of(ids.remove(r)) == listing_of(ids).remove(i),
{
    lemma_listing_exists(ids);
    let full = listing_of(ids);
    assert(full.to_set().contains(r));
    let i = choose|i: int| 0 <= i < full.len() && full[i] == r;
    let rest = full.remove(i);
    lemma_sorted_distinct(full);
    assert(sorted_ids(rest)) by {
        assert forall|x: int, y: int| 0 <= x < y < rest.len() implies id_lt(#[trigger] rest[x], #[trigger] rest[y]) by {
            let xf = if x < i { x } else { x + 1 };
            let yf = if y < i { y } else { y + 1 };
            assert(rest[x] == full[xf] && rest[y] == full[yf]);
        }
    }
    assert(rest.to_set() =~= ids.remove(r)) by {
        assert forall|y: IdView| #[trigger] rest.to_set().contains(y) == ids.remove(r).contains(y) by {
            if rest.contains(y) {
                let x = choose|x: int| 0 <= x < rest.len() && rest[x] == y;
                let xf = if x < i { x } else { x + 1 };
                assert(full[xf] == y);
                assert(full.to_set().contains(y));
                assert(xf != i);
            }
            if ids.remove(r).contains(y) {
                assert(full.to_set().contains(y));
                let xf = choose|xf: int| 0 <= xf < full.len() && full[xf] == y;
                assert(xf != i);
                let x = if xf < i { xf } else { xf - 1 };
                assert(rest[x] == y);
            }
        }
    }
    lemma_listing_of(rest);
    i
}

/// The sequence of elements re-chained after a head that shows nothing
/// (and does not link to itself) is what all of them show, in increasing
/// order of identifier.
proof fn lemma_rebuilt_sequence<T>(m: Map<IdView, ElementView<T>>, r: IdView)
    requires
        m.dom().finite(),
        m.contains_key(r),
        m[r].2 != Some(r),
        shown_at(m, r) == Seq::<T>::empty(),
    ensures
        sequence(rebuilt(m, r), r) == Some(shown(m, listing_of(m.dom()))),
{
    let rest = m.dom().remove(r);
    lemma_listing_exists(rest);
    let ord = listing_of(rest);
    let i = lemma_listing_remove(m.dom(), r);
    lemma_drop_silent(m, listing_of(m.dom()), i);
    if ord.len() > 0 || m[r].2 is None {
        lemma_relink_sequence(m, r, ord);
        assert(shown_at(m, r) + shown(m, ord) =~= shown(m, ord));
    } else {
        assert(rest =~= Set::<IdView>::empty()) by {
            assert forall|y: IdView| !rest.contains(y) by {
                if rest.contains(y) {
                    assert(ord.to_set().contains(y));
                }
            }
        }
        assert(m.dom() =~= set![r]);
        assert(m.dom().len() == 1);
        assert(relink(m, r, ord) =~= m);
        let n = m[r].2->0;
        assert(!m.contains_key(n));
        assert(visible_from(m, n, 0) == Some(Seq::<T>::empty()));
        assert(visible_from(m, r, 1) == Some(shown_at(m, r) + Seq::<T>::empty()));
        assert(shown_at(m, r) + Seq::<T>::empty() =~= shown(m, ord));
    }
}

/// Replicas converge: two replicas that take in each other's elements show
/// the same sequence, whatever their heads, when their heads hold no value,
/// their links never loop, and they agree on the value of every element
/// neither has deleted.
pub proof fn lemma_merge_converges<T>(
    a: Map<IdView, ElementView<T>>,
    b: Map<IdView, ElementView<T>>,
    ra: IdView,
    rb: IdView,
)
    requires
        a.dom().finite(),
        b.dom().finite(),
        a.contains_key(ra),
        b.contains_key(rb),
        ranked(a),
        ranked(b),
        a[ra].0 is None,
        b[rb].0 is None,
        forall|k: IdView| #![trigger a[k], b[k]] a.contains_key(k) && b.contains_key(k) && !a[k].3 && !b[k].3 ==> a[k].0 == b[k].0,
    ensures
        sequence(rebuilt(absorb(a, b), ra), ra) is Some,
        sequence(rebuilt(absorb(a, b), ra), ra) == sequence(rebuilt(absorb(b, a), rb), rb),
{
    let m1 = absorb(a, b);
    let m2 = absorb(b, a);
    assert(m1.dom() =~= a.dom().union(b.dom()));
    assert(m2.dom() =~= a.dom().union(b.dom()));
    let rank_a = choose|rank: spec_fn(IdView) -> nat| #[trigger] rank_fits(a, rank);
    let rank_b = choose|rank: spec_fn(IdView) -> nat| #[trigger] rank_fits(b, rank);
    assert(a.contains_key(ra));
    assert(b.contains_key(rb));
    assert(m1[ra].2 != Some(ra));
    assert(m2[rb].2 != Some(rb));
    assert(shown_at(m1, ra) =~= Seq::<T>::empty());
    assert(shown_at(m2, rb) =~= Seq::<T>::empty());
    lemma_rebuilt_sequence(m1, ra);
    lemma_rebuilt_sequence(m2, rb);
    let full = listing_of(m1.dom());
    lemma_listing_exists(m1.dom());
    assert forall|i: int| 0 <= i < full.len() implies shown_at(m1, #[trigger] full[i]) == shown_at(m2, full[i]) by {
        let k = full[i];
        assert(full.to_set().contains(k));
        if a.contains_key(k) && b.contains_key(k) {
            if !a[k].3 && !b[k].3 {
                assert(a[k].0 == b[k].0);
            }
        }
    }
    lemma_shown_agree(m1, m2, full);
}

/// The walk from `cur` ends at `last`, whose link is empty, within `fuel`
/// elements.
pub open spec fn ends_at<T>(m: Map<IdView, ElementView<T>>, cur: IdView, last: IdView, fuel: nat) -> bool
    decreases fuel,
{
    &&& m.contains_key(cur)
    &&& fuel > 0
    &&& if cur == last {
        m[cur].2 is None
    } else {
        m[cur].2 matches Some(n) && ends_at(m, n, last, (fuel - 1) as nat)
    }
}

proof fn lemma_append_walk<T>(m: Map<IdView, ElementView<T>>, cur: IdView, last: IdView, new_id: IdView, value: T, fuel: nat)
    requires
        ends_at(m, cur, last, fuel),
        !m.contains_key(new_id),
    ensures
        visible_from(m, cur, fuel) is Some,
        visible_from(link_between(m, last, new_id, value, None), cur, fuel + 1)
            == Some((visible_from(m, cur, fuel)->0).push(value)),
        ends_at(link_between(m, last, new_id, value, None), cur, new_id, fuel + 1),
    decreases fuel,
{
    let m2 = link_between(m, last, new_id, value, None);
    assert(m2[new_id] == (Some(value), last, None::<IdView>, false));
    assert(shown_at(m2, new_id) =~= seq![value]);
    assert(ends_at(m2, new_id, new_id, fuel));
    if cur == last {
        assert(shown_at(m2, cur) == shown_at(m, cur));
        assert(visible_from(m2, new_id, fuel) == Some(seq![value]));
        assert(shown_at(m, cur) + seq![value] =~= shown_at(m, cur).push(value));
    } else {
        let n = m[cur].2->0;
        lemma_append_walk(m, n, last, new_id, value, (fuel - 1) as nat);
        assert(m2[cur] == m[cur]);
        assert(shown_at(m2, cur) == shown_at(m, cur));
        let rest = visible_from(m, n, (fuel - 1) as nat)->0;
        assert(shown_at(m, cur) + rest.push(value) =~= (shown_at(m, cur) + rest).push(value));
    }
}

/// Inserting a new element after the one where the walk from the head ends
/// appends its value to the sequence, and the walk then ends at it.
pub proof fn lemma_append<T>(m: Map<IdView, ElementView<T>>, root: IdView, last: IdView, new_id: IdView, value: T)
    requires
        m.dom().finite(),
        ends_at(m, root, last, m.dom().len()),
        !m.contains_key(new_id),
    ensures
        insert_place(m, last, new_id) == Some((last, None::<IdView>)),
        sequence(m, root) is Some,
        sequence(link_between(m, last, new_id, value, None), root) == Some((sequence(m, root)->0).push(value)),
        ends_at(link_between(m, last, new_id, value, None), root, new_id, link_between(m, last, new_id, value, None).dom().len()),
{
    lemma_ends_at_last(m, root, last, m.dom().len());
    lemma_append_walk(m, root, last, new_id, value, m.dom().len());
    let m2 = link_between(m, last, new_id, value, None);
    assert(m2.dom() =~= m.dom().insert(new_id));
}

proof fn lemma_ends_at_last<T>(m: Map<IdView, ElementView<T>>, cur: IdView, last: IdView, fuel: nat)
    requires
        ends_at(m, cur, last, fuel),
    ensures
        m.contains_key(last),
        m[last].2 is None,
    decreases fuel,
{
    if cur != last {
        lemma_ends_at_last(m, m[cur].2->0, last, (fuel - 1) as nat);
    }
}

/// The walk from `cur` reaches `target` after exactly `steps` links.
pub open spec fn reaches<T>(m: Map<IdView, ElementView<T>>, cur: IdView, target: IdView, steps: nat) -> bool
    decreases steps,
{
    &&& m.contains_key(cur)
    &&& if steps == 0 {
        cur == target
    } else {
        m[cur].2 matches Some(n) && reaches(m, n, target, (steps - 1) as nat)
    }
}

/// The values shown by the first `count` elements of the walk from `cur`.
pub open spec fn shown_through<T>(m: Map<IdView, ElementView<T>>, cur: IdView, count: nat) -> Seq<T>
    decreases count,
{
    if count == 0 {
        Seq::empty()
    } else {
        match m[cur].2 {
            Some(n) => shown_at(m, cur) + shown_through(m, n, (count - 1) as nat),
            None => shown_at(m, cur),
        }
    }
}

proof fn lemma_reaches_rank<T>(
    m: Map<IdView, ElementView<T>>,
    rank: spec_fn(IdView) -> nat,
    cur: IdView,
    target: IdView,
    steps: nat,
)
    requires
        rank_fits(m, rank),
        linked(m),
        reaches(m, cur, target, steps),
    ensures
        m.contains_key(target),
        rank(target) + steps <= rank(cur),
    decreases steps,
{
    if steps > 0 {
        lemma_reaches_rank(m, rank, m[cur].2->0, target, (steps - 1) as nat);
    }
}

/// Two element maps that agree, outside `skip`, on the values, links and
/// marks of the elements of `m` give the same walk from any element ranked
/// below `skip`.
proof fn lemma_walk_agrees<T>(
    m: Map<IdView, ElementView<T>>,
    m2: Map<IdView, ElementView<T>>,
    rank: spec_fn(IdView) -> nat,
    skip: IdView,
    cur: IdView,
    fuel: nat,
)
    requires
        rank_fits(m, rank),
        linked(m),
        m.contains_key(skip),
        m.contains_key(cur),
        rank(cur) < rank(skip),
        forall|k: IdView| #[trigger] m.contains_key(k) && k != skip ==> m2.contains_key(k) && m2[k].0 == m[k].0
            && m2[k].2 == m[k].2 && m2[k].3 == m[k].3,
    ensures
        visible_from(m2, cur, fuel) == visible_from(m, cur, fuel),
    decreases fuel,
{
    assert(shown_at(m2, cur) == shown_at(m, cur));
    if fuel > 0 {
        if let Some(n) = m[cur].2 {
            lemma_walk_agrees(m, m2, rank, skip, n, (fuel - 1) as nat);
        }
    }
}

proof fn lemma_splice_walk<T>(
    m: Map<IdView, ElementView<T>>,
    rank: spec_fn(IdView) -> nat,
    cur: IdView,
    prev: IdView,
    steps: nat,
    new_id: IdView,
    value: T,
    fuel: nat,
)
    requires
        rank_fits(m, rank),
        linked(m),
        !m.contains_key(new_id),
        reaches(m, cur, prev, steps),
        steps < fuel,
        visible_from(m, cur, fuel) is Some,
    ensures
        ({
            let head = shown_through(m, cur, steps + 1);
            let rest = (visible_from(m, cur, fuel)->0).skip(head.len() as int);
            &&& visible_from(m, cur, fuel)->0 == head + rest
            &&& visible_from(link_between(m, prev, new_id, value, m[prev].2), cur, fuel + 1)
                == Some(head + seq![value] + rest)
        }),
    decreases steps,
{
    let m2 = link_between(m, prev, new_id, value, m[prev].2);
    lemma_reaches_rank(m, rank, cur, prev, steps);
    assert forall|k: IdView| #[trigger] m.contains_key(k) && k != prev implies m2.contains_key(k) && m2[k].0 == m[k].0
        && m2[k].2 == m[k].2 && m2[k].3 == m[k].3 by {}
    let whole = visible_from(m, cur, fuel)->0;
    if steps == 0 {
        assert(m2[new_id] == (Some(value), prev, m[prev].2, false));
        assert(shown_at(m2, new_id) =~= seq![value]);
        assert(shown_at(m2, prev) == shown_at(m, prev));
        let head = shown_through(m, prev, 1);
        match m[prev].2 {
            None => {
                assert(head == shown_at(m, prev));
                assert(whole.skip(head.len() as int) =~= Seq::<T>::empty());
                assert(whole =~= head + Seq::<T>::empty());
                assert(visible_from(m2, new_id, fuel) == Some(seq![value]));
                assert(head + seq![value] =~= head + seq![value] + Seq::<T>::empty());
            },
            Some(c) => {
                assert(shown_through(m, c, 0) == Seq::<T>::empty());
                assert(head == shown_at(m, prev) + shown_through(m, c, 0));
                assert(head =~= shown_at(m, prev) + Seq::<T>::empty());
                lemma_walk_agrees(m, m2, rank, prev, c, (fuel - 1) as nat);
                let tail = visible_from(m, c, (fuel - 1) as nat)->0;
                assert(whole == shown_at(m, prev) + tail);
                assert(whole.skip(head.len() as int) =~= tail);
                assert(visible_from(m2, new_id, fuel) == Some(seq![value] + tail));
                assert(shown_at(m, prev) + (seq![value] + tail) =~= head + seq![value] + tail);
            },
        }
    } else {
        let n = m[cur].2->0;
        assert(cur != prev);
        assert(cur != new_id);
        assert(shown_at(m2, cur) == shown_at(m, cur));
        lemma_splice_walk(m, rank, n, prev, (steps - 1) as nat, new_id, value, (fuel - 1) as nat);
        let head1 = shown_through(m, n, steps);
        let tail = visible_from(m, n, (fuel - 1) as nat)->0;
        let rest = tail.skip(head1.len() as int);
        let head = shown_through(m, cur, steps + 1);
        assert(head == shown_at(m, cur) + head1);
        assert(whole == shown_at(m, cur) + tail);
        assert(whole.skip(head.len() as int) =~= rest);
        assert(whole =~= head + rest);
        assert(shown_at(m, cur) + (head1 + seq![value] + rest) =~= head + seq![value] + rest);
    }
}

/// Inserting after an element reached from the head, under an identifier
/// greater than every one present, puts the value right after the values up
/// to and including that element, and loses none of the others.
pub proof fn lemma_insert_splices<T>(
    m: Map<IdView, ElementView<T>>,
    root: IdView,
    prev: IdView,
    steps: nat,
    new_id: IdView,
    value: T,
)
    requires
        ranked(m),
        linked(m),
        m.dom().finite(),
        reaches(m, root, prev, steps),
        forall|k: IdView| #[trigger] m.contains_key(k) ==> id_lt(k, new_id),
    ensures
        insert_place(m, prev, new_id) == Some((prev, m[prev].2)),
        sequence(m, root) is Some,
        ({
            let s = sequence(m, root)->0;
            let at = shown_through(m, root, steps + 1).len() as int;
            sequence(link_between(m, prev, new_id, value, m[prev].2), root) == Some(
                s.take(at) + seq![value] + s.skip(at),
            )
        }),
{
    let rank = choose|rank: spec_fn(IdView) -> nat| #[trigger] rank_fits(m, rank);
    lemma_reaches_rank(m, rank, root, prev, steps);
    if m.contains_key(new_id) {
        lemma_id_lt_irreflexive(new_id);
    }
    if let Some(c) = m[prev].2 {
        assert(m.contains_key(c));
        assert(id_lt(c, new_id));
        if id_lt(new_id, c) {
            lemma_id_lt_transitive(new_id, c, new_id);
            lemma_id_lt_irreflexive(new_id);
        }
    }
    let f = m.dom().len();
    lemma_visible_ends(m, rank, root, f);
    lemma_splice_walk(m, rank, root, prev, steps, new_id, value, f);
    let m2 = link_between(m, prev, new_id, value, m[prev].2);
    assert(m2.dom() =~= m.dom().insert(new_id));
    assert(m2.dom().len() == f + 1);
    let s = sequence(m, root)->0;
    let head = shown_through(m, root, steps + 1);
    let at = head.len() as int;
    assert(s.take(at) =~= head);
}

#[derive(Debug)]
struct Element<T> {
    value: Option<T>,  // None for deleted elements
    prev: ElementId,
    next: Option<ElementId>,
    deleted: bool,
}

impl<T: Clone> Element<T> {
    fn clone_elem(&self) -> (r: Self)
        ensures
            clone_exact::<T>() ==> elem_view(r) == elem_view(*self),
    {
        let value = match &self.value {
            Some(v) => {
                let c = v.clone();
                proof {
                    assert(strictly_cloned(*v, c));
                }
                Some(c)
            },
            None => None,
        };
        Element { value, prev: self.prev.clone(), next: clone_opt_id(&self.next), deleted: self.deleted }
    }
}

impl<T: Clone> Clone for Element<T> {
    fn clone(&self) -> (r: Self)
        ensures
            clone_exact::<T>() ==> r@ == self@,
    {
        self.clone_elem()
    }
}

impl<T> View for Element<T> {
    type V = ElementView<T>;

    closed spec fn view(&self) -> ElementView<T> {
        elem_view(*self)
    }
}

spec fn elem_view<T>(e: Element<T>) -> ElementView<T> {
    (e.value, e.prev@, opt_id(e.next), e.deleted)
}

fn clone_opt_id(o: &Option<ElementId>) -> (r: Option<ElementId>)
    ensures
        opt_id(r) == opt_id(*o),
{
    match o {
        Some(i) => Some(i.clone()),
        None => None,
    }
}

/// RGA - CRDT for ordered sequences (like text).
/// Supports concurrent insert/delete operations while maintaining order.
#[derive(Debug)]
pub struct RGA<T: Clone> {
    /// Map from unique ID to element and its metadata
    elements: KeyedVec<ElementId, Element<T>>,
    /// The root element ID (virtual head)
    root: ElementId,
}

impl<T: Clone> RGA<T> {
    /// The elements by identifier.
    pub closed spec fn nodes(&self) -> Map<IdView, ElementView<T>> {
        self.elements.map().map_values(|e: Element<T>| elem_view(e))
    }

    /// The identifier of the virtual head.
    pub closed spec fn root_id(&self) -> IdView {
        self.root@
    }

    /// The internal consistency of the array: the head is an element.
    pub closed spec fn wf(&self) -> bool {
        &&& self.elements.wf()
        &&& self.nodes().contains_key(self.root@)
    }

    /// The links lead from element to element and never loop.
    pub open spec fn is_list(&self) -> bool {
        ranked(self.nodes()) && linked(self.nodes())
    }

    proof fn lemma_finite(&self)
        requires
            self.elements.wf(),
        ensures
            self.nodes().dom().finite(),
            self.nodes().dom() == self.elements.map().dom(),
    {
        self.elements.lemma_key_order();
        assert(self.nodes().dom() =~= self.elements.map().dom());
    }

    pub fn new(actor: ActorId) -> (r: Self)
        ensures
            r.wf(),
            r.is_list(),
            r.root_id() == (actor@, HLCTimestamp { physical: 0, logical: 0 }),
            r.nodes() == map![r.root_id() => (None::<T>, r.root_id(), None::<IdView>, false)],
            ends_at(r.nodes(), r.root_id(), r.root_id(), r.nodes().dom().len()),
    {
        let root = ElementId { actor, timestamp: HLCTimestamp::new(0, 0) };
        let mut elements: KeyedVec<ElementId, Element<T>> = KeyedVec::new();
        let _ = elements.insert(root.clone(), Element { value: None, prev: root.clone(), next: None, deleted: false });
        let r = Self { elements, root };
        proof {
            r.lemma_finite();
            assert(r.nodes() =~= map![r.root_id() => (None::<T>, r.root_id(), None::<IdView>, false)]);
            let rank = |k: IdView| 0nat;
            assert(rank_fits(r.nodes(), rank));
            assert(linked(r.nodes()));
        }
        r
    }

    /// The virtual head.
    pub fn root(&self) -> (r: &ElementId)
        ensures
            r@ == self.root_id(),
    {
        &self.root
    }

    /// Find the correct insertion position for concurrent inserts: walking
    /// on from `prev_id` past the elements with greater identifiers, the
    /// element the new one follows and the element it goes before.
    fn find_insert_position(&self, prev_id: &ElementId, new_id: &ElementId) -> (r: (ElementId, Option<ElementId>))
        requires
            self.wf(),
            insert_place(self.nodes(), prev_id@, new_id@) is Some,
        ensures
            Some((r.0@, opt_id(r.1))) == insert_place(self.nodes(), prev_id@, new_id@),
    {
        let ghost m = self.nodes();
        let ghost target = insert_place(m, prev_id@, new_id@);
        proof {
            self.lemma_finite();
        }
        match self.elements.get(prev_id) {
            Some(prev_elem) => {
                let mut after = prev_id.clone();
                let mut next = clone_opt_id(&prev_elem.next);
                let mut fuel: usize = self.elements.len();
                loop
                    invariant
                        self.wf(),
                        m == self.nodes(),
                        target == insert_place(m, prev_id@, new_id@),
                        target is Some,
                        m.contains_key(after@),
                        opt_id(next) == m[after@].2,
                        place_from(m, after@, new_id@, fuel as nat) == target,
                    decreases fuel,
                {
                    match next {
                        None => {
                            return (after, None);
                        },
                        Some(c) => {
                            match self.elements.get(&c) {
                                None => {
                                    return (after, Some(c));
                                },
                                Some(curr_elem) => {
                                    if !new_id.less_than(&c) {
                                        return (after, Some(c));
                                    }
                                    let following = clone_opt_id(&curr_elem.next);
                                    after = c;
                                    next = following;
                                    fuel = fuel - 1;
                                },
                            }
                        },
                    }
                }
            },
            None => (prev_id.clone(), None),
        }
    }

    /// Insert an element after the given position: the new element follows
    /// `prev_id` and the elements after it with greater identifiers (inserts
    /// made later at the same place), and goes before the next one.
    pub fn insert_after(&mut self, prev_id: &ElementId, value: T, actor: ActorId, timestamp: HLCTimestamp) -> (r: ElementId)
        requires
            old(self).wf(),
            insert_place(old(self).nodes(), prev_id@, (actor@, timestamp)) is Some,
        ensures
            final(self).wf(),
            r@ == (actor@, timestamp),
            final(self).root_id() == old(self).root_id(),
            final(self).nodes() == link_between(
                old(self).nodes(),
                (insert_place(old(self).nodes(), prev_id@, r@)->0).0,
                r@,
                value,
                (insert_place(old(self).nodes(), prev_id@, r@)->0).1,
            ),
            old(self).is_list() && !old(self).nodes().contains_key(r@) ==> final(self).is_list(),
    {
        let ghost m = self.nodes();
        proof {
            self.lemma_finite();
        }
        let new_id = ElementId { actor, timestamp };
        let (p, next_id) = self.find_insert_position(prev_id, &new_id);
        let ghost next = opt_id(next_id);
        let ghost m1 = if m.contains_key(p@) {
            m.insert(p@, (m[p@].0, m[p@].1, Some(new_id@), m[p@].3))
        } else {
            m
        };
        match self.elements.get_mut(&p) {
            Some(prev_elem) => {
                prev_elem.next = Some(new_id.clone());
            },
            None => {},
        }
        proof {
            assert(self.nodes() =~= m1);
        }
        let ghost m2 = m1.insert(new_id@, (Some(value), p@, next, false));
        let _ = self.elements.insert(
            new_id.clone(),
            Element { value: Some(value), prev: p.clone(), next: clone_opt_id(&next_id), deleted: false },
        );
        proof {
            assert(self.nodes() =~= m2);
        }
        match &next_id {
            Some(n) => {
                match self.elements.get_mut(n) {
                    Some(next_elem) => {
                        next_elem.prev = new_id.clone();
                    },
                    None => {},
                }
            },
            None => {},
        }
        proof {
            assert(self.nodes() =~= link_between(m, p@, new_id@, value, next));
            if old(self).is_list() && !m.contains_key(new_id@) {
                if m.contains_key(prev_id@) {
                    lemma_place_found(m, prev_id@, new_id@, m.dom().len());
                }
                self.lemma_insert_keeps_list(m, p@, new_id@, value, next);
            }
        }
        new_id
    }

    proof fn lemma_insert_keeps_list(&self, m: Map<IdView, ElementView<T>>, p: IdView, new_id: IdView, value: T, next: Option<IdView>)
        requires
            self.elements.wf(),
            ranked(m),
            linked(m),
            m.dom().finite(),
            !m.contains_key(new_id),
            m.contains_key(p) ==> m[p].2 == next,
            !m.contains_key(p) ==> next is None,
            self.nodes() == link_between(m, p, new_id, value, next),
        ensures
            self.is_list(),
    {
        let m2 = self.nodes();
        let rank = choose|rank: spec_fn(IdView) -> nat| #[trigger] rank_fits(m, rank);
        assert(m2.dom() =~= m.dom().insert(new_id));
        assert(m2.dom().len() == m.dom().len() + 1);
        match next {
            None => {
                let rank2 = |k: IdView| if k == new_id { 0nat } else { rank(k) + 1 };
                assert forall|k: IdView| #[trigger] m2.contains_key(k) implies rank2(k) < m2.dom().len() && (m2[k].2 matches Some(n)
                    ==> (m2.contains_key(n) ==> rank2(n) < rank2(k))) by {
                    if k != new_id {
                        assert(m.contains_key(k));
                    }
                }
                assert(rank_fits(m2, rank2));
            },
            Some(c) => {
                assert(m.contains_key(c));
                let rc = rank(c);
                let rank2 = |k: IdView| if k == new_id { rc + 1 } else if rank(k) > rc { rank(k) + 1 } else { rank(k) };
                assert forall|k: IdView| #[trigger] m2.contains_key(k) implies rank2(k) < m2.dom().len() && (m2[k].2 matches Some(n)
                    ==> (m2.contains_key(n) ==> rank2(n) < rank2(k))) by {
                    if k != new_id {
                        assert(m.contains_key(k));
                        if k == p {
                            assert(rank(c) < rank(p));
                        }
                    }
                }
                assert(rank_fits(m2, rank2));
            },
        }
        assert(linked(m2));
    }

    /// Get the sequence as a vector (excluding deleted elements): the values
    /// met walking the links from the head.
    pub fn to_vec(&self) -> (r: Vec<T>)
        requires
            self.wf(),
            sequence(self.nodes(), self.root_id()) is Some,
        ensures
            r@.len() == (sequence(self.nodes(), self.root_id())->0).len(),
            forall|i: int| 0 <= i < r@.len() ==> strictly_cloned(
                (sequence(self.nodes(), self.root_id())->0)[i],
                #[trigger] r@[i],
            ),
    {
        let ghost m = self.nodes();
        let ghost total = sequence(m, self.root@)->0;
        proof {
            self.lemma_finite();
        }
        let mut result: Vec<T> = Vec::new();
        let ghost mut acc: Seq<T> = Seq::empty();
        let mut current = self.root.clone();
        let mut fuel: usize = self.elements.len();
        loop
            invariant_except_break
                visible_from(m, current@, fuel as nat) is Some,
                acc + (visible_from(m, current@, fuel as nat)->0) == total,
            invariant
                self.wf(),
                m == self.nodes(),
                total == sequence(m, self.root@)->0,
                result@.len() == acc.len(),
                forall|i: int| 0 <= i < acc.len() ==> strictly_cloned(acc[i], #[trigger] result@[i]),
            ensures
                acc == total,
                result@.len() == acc.len(),
                forall|i: int| 0 <= i < acc.len() ==> strictly_cloned(acc[i], #[trigger] result@[i]),
            decreases fuel,
        {
            match self.elements.get(&current) {
                None => {
                    proof {
                        assert(acc + Seq::<T>::empty() =~= acc);
                    }
                    break;
                },
                Some(elem) => {
                    let ghost before = acc;
                    let ghost here: Seq<T> = shown_at(m, current@);
                    match &elem.value {
                        Some(v) => {
                            if !elem.deleted {
                                result.push(v.clone());
                                proof {
                                    acc = acc.push(*v);
                                }
                            }
                        },
                        None => {},
                    }
                    proof {
                        assert(acc =~= before + here);
                    }
                    match &elem.next {
                        Some(nx) => {
                            proof {
                                assert(acc + (visible_from(m, nx@, (fuel - 1) as nat)->0) =~= before + (here + (visible_from(m, nx@, (fuel - 1) as nat)->0)));
                            }
                            current = nx.clone();
                            fuel = fuel - 1;
                        },
                        None => {
                            proof {
                                assert(acc =~= total);
                            }
                            break;
                        },
                    }
                },
            }
        }
        result
    }

    /// The identifiers of all elements but the head, in increasing order.
    fn sorted_keys(&self) -> (r: Vec<ElementId>)
        requires
            self.wf(),
        ensures
            sorted_ids(id_views(r@)),
            id_views(r@).to_set() == self.nodes().dom().remove(self.root@),
    {
        proof {
            self.elements.lemma_key_order();
            self.lemma_finite();
        }
        let ghost ko = self.elements.key_order();
        let n = self.elements.len();
        let mut v: Vec<ElementId> = Vec::new();
        let mut i: usize = 0;
        proof {
            assert(id_views(v@).to_set() =~= ko.take(0).to_set().remove(self.root@));
        }
        while i < n
            invariant
                self.wf(),
                ko == self.elements.key_order(),
                ko.no_duplicates(),
                n == ko.len(),
                i <= n,
                sorted_ids(id_views(v@)),
                id_views(v@).to_set() == ko.take(i as int).to_set().remove(self.root@),
            decreases n - i,
        {
            let (k, _) = self.elements.entry_at(i);
            let ghost before = id_views(v@).to_set();
            if !k.key_eq(&self.root) {
                proof {
                    if id_views(v@).contains(k@) {
                        assert(id_views(v@).to_set().contains(k@));
                        let j = choose|j: int| 0 <= j < ko.take(i as int).len() && ko.take(i as int)[j] == k@;
                        assert(ko[j] == ko[i as int]);
                    }
                }
                insert_sorted(&mut v, k.clone());
            }
            proof {
                let t = ko.take(i as int);
                let t1 = ko.take(i + 1);
                assert forall|x: IdView| #[trigger] t1.to_set().contains(x) <==> (t.to_set().contains(x) || x == ko[i as int]) by {
                    if t1.to_set().contains(x) {
                        let j = choose|j: int| 0 <= j < t1.len() && t1[j] == x;
                        if j < i {
                            assert(t[j] == x);
                        }
                    }
                    if t.to_set().contains(x) {
                        let j = choose|j: int| 0 <= j < t.len() && t[j] == x;
                        assert(t1[j] == x);
                    }
                    if x == ko[i as int] {
                        assert(t1[i as int] == x);
                    }
                }
                assert(id_views(v@).to_set() =~= t1.to_set().remove(self.root@));
            }
            i = i + 1;
        }
        proof {
            assert(ko.take(n as int) =~= ko);
            assert(ko.to_set() == self.elements.map().dom());
        }
        v
    }

    /// Rebuild the linked list structure: all elements but the head chained
    /// after it in increasing order of identifier.
    fn rebuild_links(&mut self)
        requires
            old(self).wf(),
        ensures
            final(self).wf(),
            final(self).root_id() == old(self).root_id(),
            final(self).nodes() == rebuilt(old(self).nodes(), old(self).root_id()),
            sorted_ids(listing_of(old(self).nodes().dom().remove(old(self).root_id()))),
            listing_of(old(self).nodes().dom().remove(old(self).root_id())).to_set()
                == old(self).nodes().dom().remove(old(self).root_id()),
    {
        let ghost m = self.nodes();
        let ordered = self.sorted_keys();
        let ghost ord = id_views(ordered@);
        proof {
            lemma_listing_of(ord);
            lemma_sorted_distinct(ord);
            assert(!ord.contains(self.root@)) by {
                if ord.contains(self.root@) {
                    assert(ord.to_set().contains(self.root@));
                }
            }
            assert(ord.take(0) =~= Seq::<IdView>::empty());
        }
        if ordered.len() > 0 {
            match self.elements.get_mut(&self.root) {
                Some(root_elem) => {
                    root_elem.next = Some(ordered[0].clone());
                },
                None => {},
            }
        }
        proof {
            assert(self.nodes() =~= relink_upto(m, self.root@, ord, 0));
        }
        let mut i: usize = 0;
        while i < ordered.len()
            invariant
                self.wf(),
                self.root@ == old(self).root@,
                ord == id_views(ordered@),
                sorted_ids(ord),
                ord.no_duplicates(),
                forall|j: int| 0 <= j < ord.len() ==> ord.index_of(#[trigger] ord[j]) == j,
                !ord.contains(self.root@),
                ord.to_set() == m.dom().remove(self.root@),
                i <= ordered.len(),
                self.nodes() == relink_upto(m, self.root@, ord, i as int),
            decreases ordered.len() - i,
        {
            let prev = if i == 0 {
                self.root.clone()
            } else {
                ordered[i - 1].clone()
            };
            let next = if i + 1 < ordered.len() {
                Some(ordered[i + 1].clone())
            } else {
                None
            };
            let ghost before = self.nodes();
            let ghost prev_v = prev@;
            let ghost next_v = opt_id(next);
            proof {
                assert(ord.to_set().contains(ord[i as int]));
                assert(prev_v == if i == 0 { self.root@ } else { ord[i - 1] });
                assert(next_v == if i + 1 < ord.len() { Some(ord[i + 1]) } else { None::<IdView> });
                assert(m.dom().remove(self.root@).contains(ord[i as int]));
                assert(self.nodes().contains_key(ord[i as int]));
                self.lemma_finite();
                assert(ordered@[i as int]@ == ord[i as int]);
            }
            match self.elements.get_mut(&ordered[i]) {
                Some(elem) => {
                    elem.prev = prev;
                    elem.next = next;
                    proof {
                        assert(self.elements.map()[ord[i as int]].prev@ == prev_v);
                        assert(opt_id(self.elements.map()[ord[i as int]].next) == next_v);
                        assert(self.nodes()[ord[i as int]] == (before[ord[i as int]].0, prev_v, next_v, before[ord[i as int]].3));
                    }
                },
                None => {
                    proof {
                        assert(false);
                    }
                },
            }
            proof {
                let k = ord[i as int];
                assert(ord.take(i + 1) =~= ord.take(i as int).push(k));
                assert(!ord.take(i as int).contains(k)) by {
                    if ord.take(i as int).contains(k) {
                        let j = choose|j: int| 0 <= j < ord.take(i as int).len() && ord.take(i as int)[j] == k;
                        assert(ord[j] == ord[i as int]);
                    }
                }
                assert(k != self.root@) by {
                    if k == self.root@ {
                        assert(ord.contains(self.root@));
                    }
                }
                assert(m.contains_key(k));
                assert(before[k] == m[k]);
                assert(self.nodes()[k] == (m[k].0, prev_v, next_v, m[k].3));
                assert forall|x: IdView| #[trigger] self.nodes().contains_key(x) implies self.nodes()[x]
                    == relink_upto(m, self.root@, ord, i + 1)[x] by {
                    if x != k {
                        assert(ord.take(i + 1).contains(x) == ord.take(i as int).contains(x)) by {
                            let t1 = ord.take(i + 1);
                            let t0 = ord.take(i as int);
                            if t1.contains(x) {
                                let j = choose|j: int| 0 <= j < t1.len() && #[trigger] t1[j] == x;
                                assert(t0[j] == x);
                            }
                            if t0.contains(x) {
                                let j = choose|j: int| 0 <= j < t0.len() && #[trigger] t0[j] == x;
                                assert(t1[j] == x);
                            }
                        }
                        assert(self.nodes()[x] == before[x]);
                    } else {
                        assert(ord.take(i + 1)[i as int] == k);
                        assert(ord.index_of(ord[i as int]) == i);
                        assert(relink_upto(m, self.root@, ord, i + 1)[k] == relinked(m[k], self.root@, ord, i as int));
                        assert(self.nodes()[k] == relinked(m[k], self.root@, ord, i as int));
                    }
                }
                assert(self.nodes() =~= relink_upto(m, self.root@, ord, i + 1));
            }
            i = i + 1;
        }
        proof {
            assert(ord.take(ord.len() as int) =~= ord);
        }
    }

    /// Delete an element
    pub fn delete(&mut self, id: &ElementId)
        requires
            old(self).wf(),
        ensures
            final(self).wf(),
            final(self).root_id() == old(self).root_id(),
            final(self).nodes() == if old(self).nodes().contains_key(id@) {
                old(self).nodes().insert(id@, (None, old(self).nodes()[id@].1, old(self).nodes()[id@].2, true))
            } else {
                old(self).nodes()
            },
            old(self).is_list() ==> final(self).is_list(),
    {
        match self.elements.get_mut(id) {
            Some(elem) => {
                elem.deleted = true;
                elem.value = None;
            },
            None => {},
        }
        proof {
            let m = old(self).nodes();
            if m.contains_key(id@) {
                assert(self.nodes() =~= m.insert(id@, (None, m[id@].1, m[id@].2, true)));
            } else {
                assert(self.nodes() =~= m);
            }
            if old(self).is_list() {
                let rank = choose|rank: spec_fn(IdView) -> nat| #[trigger] rank_fits(m, rank);
                assert(self.nodes().dom() =~= m.dom());
                assert(rank_fits(self.nodes(), rank));
                assert(linked(self.nodes()));
            }
        }
    }
}

impl<T: Clone> Clone for RGA<T> {
    fn clone(&self) -> (r: Self)
        ensures
            clone_exact::<T>() && self.wf() ==> r.wf() && r.nodes() == self.nodes() && r.root_id() == self.root_id(),
    {
        let elements = self.elements.clone_entries();
        let r = RGA { elements, root: self.root.clone() };
        proof {
            if clone_exact::<T>() && self.wf() {
                assert(clone_exact::<ElementId>()) by {
                    assert forall|a: ElementId, b: ElementId| #[trigger] strictly_cloned(a, b) implies a == b by {}
                }
                assert forall|a: Element<T>, b: Element<T>| #[trigger] strictly_cloned(a, b) implies a@ == b@ by {}
                self.elements.lemma_view_clone(&r.elements);
                assert(r.nodes() =~= self.nodes());
            }
        }
        r
    }
}

impl<T: Clone> CRDT for RGA<T> {
    open spec fn crdt_wf(&self) -> bool {
        self.wf() && clone_exact::<T>()
    }

    /// Takes in the other replica's elements and deletions, then chains all
    /// elements after the head in increasing order of identifier.
    fn merge(&mut self, other: &Self)
        ensures
            final(self).root_id() == old(self).root_id(),
            final(self).nodes() == rebuilt(absorb(old(self).nodes(), other.nodes()), old(self).root_id()),
            sorted_ids(listing_of(absorb(old(self).nodes(), other.nodes()).dom().remove(old(self).root_id()))),
            listing_of(absorb(old(self).nodes(), other.nodes()).dom().remove(old(self).root_id())).to_set()
                == absorb(old(self).nodes(), other.nodes()).dom().remove(old(self).root_id()),
            old(self).is_list() ==> final(self).is_list(),
    {
        let ghost mine = self.nodes();
        let ghost theirs = other.nodes();
        proof {
            other.elements.lemma_key_order();
            other.lemma_finite();
        }
        let ghost ko = other.elements.key_order();
        let n = other.elements.len();
        let mut j: usize = 0;
        proof {
            assert(theirs.restrict(ko.take(0).to_set()) =~= Map::<IdView, ElementView<T>>::empty());
            assert(absorb(mine, Map::<IdView, ElementView<T>>::empty()) =~= mine);
        }
        while j < n
            invariant
                self.wf(),
                other.wf(),
                clone_exact::<T>(),
                self.root@ == old(self).root@,
                theirs == other.nodes(),
                ko == other.elements.key_order(),
                ko.no_duplicates(),
                n == ko.len(),
                forall|k: IdView| #[trigger] theirs.contains_key(k) <==> ko.contains(k),
                j <= n,
                self.nodes() == absorb(mine, theirs.restrict(ko.take(j as int).to_set())),
            decreases n - j,
        {
            let (id, elem) = other.elements.entry_at(j);
            let ghost e = id@;
            let ghost before = self.nodes();
            if !self.elements.contains_key(id) {
                let _ = self.elements.insert(id.clone(), elem.clone_elem());
                proof {
                    assert(self.nodes() =~= before.insert(e, theirs[e]));
                }
            } else if elem.deleted {
                match self.elements.get_mut(id) {
                    Some(our_elem) => {
                        our_elem.deleted = true;
                        our_elem.value = None;
                    },
                    None => {},
                }
                proof {
                    assert(self.nodes() =~= before.insert(e, (None, before[e].1, before[e].2, true)));
                }
            } else {
                proof {
                    assert(self.nodes() =~= before);
                }
            }
            proof {
                let t0 = ko.take(j as int);
                let t1 = ko.take(j + 1);
                assert forall|x: IdView| #[trigger] t1.to_set().contains(x) <==> (t0.to_set().contains(x) || x == e) by {
                    if t1.to_set().contains(x) {
                        let i = choose|i: int| 0 <= i < t1.len() && #[trigger] t1[i] == x;
                        if i < j {
                            assert(t0[i] == x);
                        }
                    }
                    if t0.to_set().contains(x) {
                        let i = choose|i: int| 0 <= i < t0.len() && #[trigger] t0[i] == x;
                        assert(t1[i] == x);
                    }
                    if x == e {
                        assert(t1[j as int] == x);
                    }
                }
                assert(!t0.to_set().contains(e)) by {
                    if t0.to_set().contains(e) {
                        let i = choose|i: int| 0 <= i < t0.len() && #[trigger] t0[i] == e;
                        assert(ko[i] == ko[j as int]);
                    }
                }
                let r0 = theirs.restrict(t0.to_set());
                let r1 = theirs.restrict(t1.to_set());
                assert(r1 =~= r0.insert(e, theirs[e]));
                assert(before == absorb(mine, r0));
                assert(before.contains_key(e) == mine.contains_key(e));
                assert forall|x: IdView| #[trigger] self.nodes().contains_key(x) <==> absorb(mine, r1).contains_key(x) by {
                    if x != e {
                        assert(r1.contains_key(x) == r0.contains_key(x));
                    }
                }
                assert forall|x: IdView| #[trigger] self.nodes().contains_key(x) implies self.nodes()[x] == absorb(mine, r1)[x] by {
                    if x != e {
                        assert(r1.contains_key(x) == r0.contains_key(x));
                        assert(self.nodes()[x] == before[x]);
                    } else if mine.contains_key(e) {
                        assert(before[e] == mine[e]);
                    }
                }
                assert(self.nodes() =~= absorb(mine, r1));
            }
            j = j + 1;
        }
        proof {
            assert(ko.take(n as int) =~= ko);
            assert(theirs.restrict(ko.take(n as int).to_set()) =~= theirs);
        }
        let ghost absorbed = self.nodes();
        self.rebuild_links();
        proof {
            if old(self).is_list() {
                self.lemma_finite();
                let ord = listing_of(absorbed.dom().remove(self.root@));
                if ord.len() == 0 {
                    assert(absorbed.dom().remove(self.root@) =~= Set::<IdView>::empty()) by {
                        assert forall|x: IdView| !absorbed.dom().remove(self.root@).contains(x) by {
                            if absorbed.dom().remove(self.root@).contains(x) {
                                assert(ord.to_set().contains(x));
                            }
                        }
                    }
                    if let Some(nx) = mine[self.root@].2 {
                        assert(mine.contains_key(nx));
                        let rank = choose|rank: spec_fn(IdView) -> nat| #[trigger] rank_fits(mine, rank);
                        assert(rank_fits(mine, rank));
                        assert(absorbed.contains_key(nx));
                    }
                }
                lemma_relink_is_list(absorbed, self.root@, ord);
            }
        }
    }

    /// An RGA has no single happens-before relationship.
    fn happens_before(&self, _other: &Self) -> (r: bool)
        ensures
            !r,
    {
        false
    }
}

} // verus!
