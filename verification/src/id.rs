//! Endpoint identifiers and their order.
use vstd::prelude::*;

verus! {

/// The identity of a node: the bytes of its ed25519 public key.
#[derive(Clone, Copy, Debug, Eq)]
pub struct EndpointId {
    pub bytes: [u8; 32],
}

impl PartialEq for EndpointId {
    fn eq(&self, other: &Self) -> (r: bool) {
        let mut i: usize = 0;
        while i < 32
            invariant
                i <= 32,
                forall|j: int| 0 <= j < i ==> self.bytes@[j] == other.bytes@[j],
            decreases 32 - i,
        {
            if self.bytes[i] != other.bytes[i] {
                assert(self.bytes@[i as int] != other.bytes@[i as int]);
                return false;
            }
            i = i + 1;
        }
        proof {
            assert(self.bytes@ =~= other.bytes@);
            lemma_same_bytes(*self, *other);
        }
        true
    }
}

impl vstd::std_specs::cmp::PartialEqSpecImpl for EndpointId {
    open spec fn obeys_eq_spec() -> bool {
        true
    }

    open spec fn eq_spec(&self, other: &Self) -> bool {
        *self == *other
    }
}

/// Two identifiers with the same bytes are the same identifier.
pub proof fn lemma_same_bytes(a: EndpointId, b: EndpointId)
    requires
        a.bytes@ == b.bytes@,
    ensures
        a == b,
{
    assert(a.bytes =~= b.bytes);
}

/// `i` is the first position at which `a` and `b` hold different bytes.
pub open spec fn first_difference(a: Seq<u8>, b: Seq<u8>, i: int) -> bool {
    &&& 0 <= i < a.len()
    &&& i < b.len()
    &&& a[i] != b[i]
    &&& forall|j: int| 0 <= j < i ==> a[j] == b[j]
}

/// The order of strings of bytes of one length: the first byte that differs decides.
pub open spec fn lex_less(a: Seq<u8>, b: Seq<u8>) -> bool {
    exists|i: int| #[trigger] first_difference(a, b, i) && a[i] < b[i]
}

/// Whether `a` comes before `b`.
pub fn lex_before(a: &[u8; 32], b: &[u8; 32]) -> (r: bool)
    ensures
        r == lex_less(a@, b@),
{
    let mut i: usize = 0;
    while i < 32
        invariant
            i <= 32,
            forall|j: int| 0 <= j < i ==> a@[j] == b@[j],
        decreases 32 - i,
    {
        if a[i] != b[i] {
            proof {
                assert(first_difference(a@, b@, i as int));
                lemma_one_first_difference(a@, b@, i as int);
            }
            return a[i] < b[i];
        }
        i = i + 1;
    }
    false
}

impl EndpointId {
    /// The order of identifiers is that of their bytes.
    #[verifier::opaque]
    pub open spec fn precedes(self, other: Self) -> bool {
        lex_less(self.bytes@, other.bytes@)
    }

    /// Whether this identifier comes before `other`.
    pub fn is_before(&self, other: &Self) -> (r: bool)
        ensures
            r == self.precedes(*other),
    {
        proof {
            reveal(EndpointId::precedes);
        }
        lex_before(&self.bytes, &other.bytes)
    }
}

proof fn lemma_one_first_difference(a: Seq<u8>, b: Seq<u8>, i: int)
    requires
        first_difference(a, b, i),
    ensures
        forall|k: int| #[trigger] first_difference(a, b, k) ==> k == i,
{
    assert forall|k: int| #[trigger] first_difference(a, b, k) implies k == i by {
        if k < i {
            assert(a[k] == b[k]);
        }
    }
}

/// No identifier comes before itself.
pub proof fn lemma_precedes_irreflexive(a: EndpointId)
    ensures
        !a.precedes(a),
{
    reveal(EndpointId::precedes);
}

/// The order is transitive.
pub proof fn lemma_precedes_transitive(a: EndpointId, b: EndpointId, c: EndpointId)
    requires
        a.precedes(b),
        b.precedes(c),
    ensures
        a.precedes(c),
{
    reveal(EndpointId::precedes);
    let i = choose|i: int| #[trigger]
        first_difference(a.bytes@, b.bytes@, i) && a.bytes@[i] < b.bytes@[i];
    let j = choose|j: int| #[trigger]
        first_difference(b.bytes@, c.bytes@, j) && b.bytes@[j] < c.bytes@[j];
    let k = if i < j { i } else { j };
    assert(first_difference(a.bytes@, c.bytes@, k) && a.bytes@[k] < c.bytes@[k]);
}

/// Of two different identifiers, one comes before the other.
pub proof fn lemma_precedes_total(a: EndpointId, b: EndpointId)
    ensures
        a == b || a.precedes(b) || b.precedes(a),
{
    reveal(EndpointId::precedes);
    if a.bytes@ == b.bytes@ {
        lemma_same_bytes(a, b);
    } else {
        let i = lemma_differing_has_first(a.bytes@, b.bytes@, 0);
        assert(first_difference(a.bytes@, b.bytes@, i));
        assert(first_difference(b.bytes@, a.bytes@, i));
    }
}

proof fn lemma_differing_has_first(a: Seq<u8>, b: Seq<u8>, from: int) -> (i: int)
    requires
        a.len() == b.len(),
        a != b,
        0 <= from <= a.len(),
        forall|j: int| 0 <= j < from ==> a[j] == b[j],
    ensures
        first_difference(a, b, i),
    decreases a.len() - from,
{
    if from == a.len() {
        assert(a =~= b);
        from
    } else if a[from] != b[from] {
        from
    } else {
        lemma_differing_has_first(a, b, from + 1)
    }
}

/// Never both before and after.
pub proof fn lemma_precedes_asymmetric(a: EndpointId, b: EndpointId)
    requires
        a.precedes(b),
    ensures
        !b.precedes(a),
        a != b,
{
    lemma_precedes_irreflexive(a);
    if b.precedes(a) {
        lemma_precedes_transitive(a, b, a);
    }
}

/// The identifiers of `s` grow from left to right.
pub open spec fn ascending(s: Seq<EndpointId>) -> bool {
    forall|i: int, j: int| 0 <= i < j < s.len() ==> (#[trigger] s[i]).precedes(#[trigger] s[j])
}

/// The members of `ids` from the lowest to the highest.
pub open spec fn listed(ids: Set<EndpointId>) -> Seq<EndpointId> {
    choose|s: Seq<EndpointId>| #[trigger] ascending(s) && s.to_set() == ids
}

/// An ascending sequence is the listing of its members.
pub proof fn lemma_listed(s: Seq<EndpointId>)
    requires
        ascending(s),
    ensures
        listed(s.to_set()) == s,
{
    let t = listed(s.to_set());
    assert(ascending(t) && t.to_set() == s.to_set());
    lemma_ascending_unique(s, t);
}

proof fn lemma_ascending_unique(s: Seq<EndpointId>, t: Seq<EndpointId>)
    requires
        ascending(s),
        ascending(t),
        s.to_set() == t.to_set(),
    ensures
        s == t,
    decreases s.len(),
{
    broadcast use vstd::seq_lib::group_to_multiset_ensures;

    if s.len() == 0 {
        if t.len() > 0 {
            assert(t.to_set().contains(t[0]));
            assert(s.to_set().contains(t[0]));
        }
        assert(s =~= t);
    } else {
        assert(s.to_set().contains(s[0]));
        assert(t.contains(s[0]));
        let j = choose|j: int| 0 <= j < t.len() && t[j] == s[0];
        assert(t.to_set().contains(t[0]));
        assert(s.contains(t[0]));
        let i = choose|i: int| 0 <= i < s.len() && s[i] == t[0];
        if j > 0 {
            assert(t[0].precedes(t[j]));
            if i > 0 {
                assert(s[0].precedes(s[i]));
                lemma_precedes_asymmetric(s[0], t[0]);
            } else {
                lemma_precedes_irreflexive(s[0]);
            }
        }
        assert(s[0] == t[0]);
        let s1 = s.drop_first();
        let t1 = t.drop_first();
        assert forall|x: EndpointId| s1.to_set().contains(x) <==> t1.to_set().contains(x) by {
            lemma_rest_members(s, x);
            lemma_rest_members(t, x);
        }
        assert(s1.to_set() =~= t1.to_set());
        lemma_ascending_unique(s1, t1);
        assert(s =~= seq![s[0]] + s1);
        assert(t =~= seq![t[0]] + t1);
    }
}

proof fn lemma_rest_members(s: Seq<EndpointId>, x: EndpointId)
    requires
        ascending(s),
        s.len() > 0,
    ensures
        s.drop_first().to_set().contains(x) <==> s.to_set().contains(x) && x != s[0],
{
    let r = s.drop_first();
    if r.contains(x) {
        let i = choose|i: int| 0 <= i < r.len() && r[i] == x;
        assert(s[i + 1] == x);
        assert(s[0].precedes(s[i + 1]));
        lemma_precedes_irreflexive(s[0]);
        assert(s.contains(x));
    }
    if s.contains(x) && x != s[0] {
        let i = choose|i: int| 0 <= i < s.len() && s[i] == x;
        assert(r[i - 1] == x);
    }
}

/// The members of an ascending sequence that have a property, picked in order, are
/// the listing of the set they form.
pub proof fn lemma_listed_filter(s: Seq<EndpointId>, p: spec_fn(EndpointId) -> bool)
    requires
        ascending(s),
    ensures
        ascending(s.filter(p)),
        listed(Set::new(|id: EndpointId| s.contains(id) && p(id))) == s.filter(p),
        s.filter(p).to_set() == Set::new(|id: EndpointId| s.contains(id) && p(id)),
        Set::new(|id: EndpointId| s.contains(id) && p(id)).finite(),
        Set::new(|id: EndpointId| s.contains(id) && p(id)).len() == s.filter(p).len(),
{
    lemma_filter(s, p);
    let f = s.filter(p);
    let set = Set::new(|id: EndpointId| s.contains(id) && p(id));
    assert(f.to_set() =~= set);
    lemma_listed(f);
    assert forall|i: int, j: int| 0 <= i < f.len() && 0 <= j < f.len() && i != j implies f[i] != f[j] by {
        lemma_precedes_irreflexive(f[i]);
    }
    assert(f.no_duplicates());
    f.unique_seq_to_set();
}

proof fn lemma_filter(s: Seq<EndpointId>, p: spec_fn(EndpointId) -> bool)
    requires
        ascending(s),
    ensures
        ascending(s.filter(p)),
        forall|id: EndpointId| #[trigger] s.filter(p).contains(id) <==> s.contains(id) && p(id),
    decreases s.len(),
{
    reveal(Seq::filter);
    if s.len() > 0 {
        let r = s.drop_last();
        lemma_filter(r, p);
        let f = r.filter(p);
        let x = s.last();
        assert forall|id: EndpointId| s.contains(id) <==> r.contains(id) || id == x by {
            if s.contains(id) {
                let i = choose|i: int| 0 <= i < s.len() && s[i] == id;
                if i < r.len() {
                    assert(r[i] == id);
                }
            }
            if r.contains(id) {
                let i = choose|i: int| 0 <= i < r.len() && r[i] == id;
                assert(s[i] == id);
            }
            assert(s[s.len() - 1] == x);
        }
        if p(x) {
            assert(s.filter(p) == f.push(x));
            assert forall|i: int| 0 <= i < f.len() implies (#[trigger] f[i]).precedes(x) by {
                assert(f.contains(f[i]));
                let j = choose|j: int| 0 <= j < r.len() && r[j] == f[i];
                assert(s[j].precedes(s[s.len() - 1]));
            }
            assert forall|id: EndpointId| #[trigger] s.filter(p).contains(id) <==> s.contains(id) && p(id) by {
                if f.contains(id) {
                    let i = choose|i: int| 0 <= i < f.len() && f[i] == id;
                    assert(f.push(x)[i] == id);
                }
                assert(f.push(x)[f.len() as int] == x);
                if f.push(x).contains(id) {
                    let i = choose|i: int| 0 <= i < f.push(x).len() && f.push(x)[i] == id;
                    if i < f.len() {
                        assert(f[i] == id);
                    }
                }
            }
        }
    }
}

/// `a` put into its place in an ascending sequence.
proof fn lemma_insert_ascending(s: Seq<EndpointId>, a: EndpointId) -> (t: Seq<EndpointId>)
    requires
        ascending(s),
        !s.contains(a),
    ensures
        ascending(t),
        forall|x: EndpointId| #[trigger] t.contains(x) <==> s.contains(x) || x == a,
    decreases s.len(),
{
    if s.len() == 0 {
        let t = seq![a];
        assert(t[0] == a);
        t
    } else {
        let r = s.drop_first();
        let h = s[0];
        assert(s.contains(h));
        assert forall|x: EndpointId| s.contains(x) <==> r.contains(x) || x == h by {
            if s.contains(x) {
                let i = choose|i: int| 0 <= i < s.len() && s[i] == x;
                if i > 0 {
                    assert(r[i - 1] == x);
                }
            }
            if r.contains(x) {
                let i = choose|i: int| 0 <= i < r.len() && r[i] == x;
                assert(s[i + 1] == x);
            }
        }
        let (first, rest) = if a.precedes(h) {
            (a, s)
        } else {
            (h, lemma_insert_ascending(r, a))
        };
        let t = seq![first] + rest;
        assert(t[0] == first);
        assert forall|x: EndpointId| #[trigger] t.contains(x) <==> rest.contains(x) || x == first by {
            if t.contains(x) {
                let i = choose|i: int| 0 <= i < t.len() && t[i] == x;
                if i > 0 {
                    assert(rest[i - 1] == x);
                }
            }
            if rest.contains(x) {
                let i = choose|i: int| 0 <= i < rest.len() && rest[i] == x;
                assert(t[i + 1] == x);
            }
        }
        assert forall|i: int| 0 <= i < rest.len() implies first.precedes(#[trigger] rest[i]) by {
            let x = rest[i];
            assert(rest.contains(x));
            if a.precedes(h) {
                if i > 0 {
                    assert(s[0].precedes(s[i]));
                    lemma_precedes_transitive(a, h, x);
                }
            } else {
                lemma_precedes_total(a, h);
                if x != a {
                    let j = choose|j: int| 0 <= j < r.len() && r[j] == x;
                    assert(s[0].precedes(s[j + 1]));
                }
            }
        }
        assert forall|i: int, j: int| 0 <= i < j < t.len() implies (#[trigger] t[i]).precedes(#[trigger] t[j]) by {
            assert(t[j] == rest[j - 1]);
            if i > 0 {
                assert(t[i] == rest[i - 1]);
            }
        }
        t
    }
}

/// Every finite set of identifiers has a listing.
pub proof fn lemma_listed_finite(ids: Set<EndpointId>)
    requires
        ids.finite(),
    ensures
        ascending(listed(ids)),
        listed(ids).to_set() == ids,
    decreases ids.len(),
{
    if ids.len() == 0 {
        let s = Seq::<EndpointId>::empty();
        assert(s.to_set() =~= ids);
        assert(ascending(s));
    } else {
        let a = ids.choose();
        let rest = ids.remove(a);
        lemma_listed_finite(rest);
        let s = listed(rest);
        assert(!s.contains(a)) by {
            if s.contains(a) {
                assert(s.to_set().contains(a));
            }
        }
        let t = lemma_insert_ascending(s, a);
        assert forall|x: EndpointId| t.to_set().contains(x) <==> ids.contains(x) by {
            assert(s.to_set().contains(x) <==> s.contains(x));
        }
        assert(t.to_set() =~= ids);
        assert(ascending(t));
    }
}

/// Of two different strings of bytes of one length, exactly one comes before the other.
pub proof fn lemma_lex_total(a: Seq<u8>, b: Seq<u8>)
    requires
        a.len() == b.len(),
        a != b,
    ensures
        lex_less(a, b) <==> !lex_less(b, a),
{
    let i = lemma_differing_has_first(a, b, 0);
    assert(first_difference(b, a, i));
    lemma_one_first_difference(a, b, i);
    lemma_one_first_difference(b, a, i);
}

/// Of two identifiers the one whose first differing byte is lower comes first.
pub proof fn first_differing_byte_decides(a: EndpointId, b: EndpointId, i: int)
    requires
        0 <= i < 32,
        forall|j: int| 0 <= j < i ==> a.bytes@[j] == b.bytes@[j],
        a.bytes@[i] < b.bytes@[i],
    ensures
        a.precedes(b),
        !b.precedes(a),
{
    reveal(EndpointId::precedes);
    assert(first_difference(a.bytes@, b.bytes@, i));
    lemma_precedes_asymmetric(a, b);
}

} // verus!
