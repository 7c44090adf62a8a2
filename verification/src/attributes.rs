//! HTML attribute maps with a canonical rendering.
//!
//! An attribute collection maps attribute names to values. It renders as
//! `key="value"` pairs joined by single spaces, keys in ascending
//! lexicographic order, so that two collections with the same entries always
//! render to the same string no matter in which order the entries were
//! inserted. The collection is kept as a vector of pairs sorted strictly by
//! key; its abstract content is a `Map` from key to value.

use vstd::prelude::*;

use crate::order::lex_lt;
use crate::order::lemma_lex_irreflexive;
use crate::order::lemma_lex_lt_neq;
use crate::order::lemma_lex_transitive;
use crate::order::lemma_lex_trichotomy;
use crate::order::str_lt;

verus! {

/// An attribute collection, held as key/value pairs sorted strictly by key.
#[derive(Debug, PartialEq)]
pub struct HTMLAttributes {
    pub attr: Vec<(String, String)>,
}

impl View for HTMLAttributes {
    type V = Seq<(Seq<char>, Seq<char>)>;

    open spec fn view(&self) -> Seq<(Seq<char>, Seq<char>)> {
        self.attr@.map_values(|p: (String, String)| (p.0@, p.1@))
    }
}

/// Keys appear in strictly ascending lexicographic order.
pub open spec fn keys_sorted(s: Seq<(Seq<char>, Seq<char>)>) -> bool {
    forall|i: int, j: int| 0 <= i < j < s.len() ==> lex_lt(#[trigger] s[i].0, #[trigger] s[j].0)
}

/// Some pair in `s` carries the key `k`.
pub open spec fn has_key(s: Seq<(Seq<char>, Seq<char>)>, k: Seq<char>) -> bool {
    exists|i: int| 0 <= i < s.len() && (#[trigger] s[i].0) == k
}

/// The mapping described by a pair sequence; later pairs win on equal keys.
pub open spec fn map_of(s: Seq<(Seq<char>, Seq<char>)>) -> Map<Seq<char>, Seq<char>>
    decreases s.len(),
{
    if s.len() == 0 {
        Map::empty()
    } else {
        map_of(s.drop_last()).insert(s.last().0, s.last().1)
    }
}

/// The domain of `map_of(s)` is exactly the set of keys of `s`.
pub proof fn lemma_map_of_dom(s: Seq<(Seq<char>, Seq<char>)>, k: Seq<char>)
    ensures
        map_of(s).dom().contains(k) <==> has_key(s, k),
    decreases s.len(),
{
    if s.len() > 0 {
        lemma_map_of_dom(s.drop_last(), k);
        if s.last().0 == k {
            assert(s[s.len() - 1].0 == k);
        }
        if has_key(s.drop_last(), k) {
            let i = choose|i: int| 0 <= i < s.drop_last().len() && s.drop_last()[i].0 == k;
            assert(s[i].0 == k);
        }
        if has_key(s, k) && s.last().0 != k {
            let i = choose|i: int| 0 <= i < s.len() && s[i].0 == k;
            assert(s.drop_last()[i].0 == k);
        }
    }
}

/// Inserting a pair with a fresh key anywhere before pairs with other keys
/// adds exactly that entry to the mapping.
pub proof fn lemma_map_of_insert_middle(
    s: Seq<(Seq<char>, Seq<char>)>,
    t: Seq<(Seq<char>, Seq<char>)>,
    k: Seq<char>,
    v: Seq<char>,
)
    requires
        !has_key(t, k),
    ensures
        map_of(s + seq![(k, v)] + t) == map_of(s + t).insert(k, v),
    decreases t.len(),
{
    if t.len() == 0 {
        assert(s + seq![(k, v)] + t =~= s.push((k, v)));
        assert(s.push((k, v)).drop_last() =~= s);
        assert(s + t =~= s);
    } else {
        let u = s + seq![(k, v)] + t;
        let tl = t.last();
        assert(u.drop_last() =~= s + seq![(k, v)] + t.drop_last());
        assert(u.last() == tl);
        assert(!has_key(t.drop_last(), k)) by {
            if has_key(t.drop_last(), k) {
                let i = choose|i: int| 0 <= i < t.drop_last().len() && t.drop_last()[i].0 == k;
                assert(t[i].0 == k);
            }
        };
        lemma_map_of_insert_middle(s, t.drop_last(), k, v);
        assert(tl.0 != k) by {
            assert(t[t.len() - 1].0 == tl.0);
        };
        assert((s + t).drop_last() =~= s + t.drop_last());
        assert((s + t).last() == tl);
        assert(map_of(s + t.drop_last()).insert(k, v).insert(tl.0, tl.1) =~= map_of(
            s + t.drop_last(),
        ).insert(tl.0, tl.1).insert(k, v));
    }
}

/// Replacing the value at position `i` updates the mapping at that key.
pub proof fn lemma_map_of_update(s: Seq<(Seq<char>, Seq<char>)>, i: int, v: Seq<char>)
    requires
        keys_sorted(s),
        0 <= i < s.len(),
    ensures
        map_of(s.update(i, (s[i].0, v))) == map_of(s).insert(s[i].0, v),
{
    let k = s[i].0;
    let a = s.subrange(0, i);
    let t = s.subrange(i + 1, s.len() as int);
    assert(!has_key(t, k)) by {
        if has_key(t, k) {
            let j = choose|j: int| 0 <= j < t.len() && t[j].0 == k;
            assert(s[i + 1 + j].0 == k);
            lemma_lex_lt_neq(k, s[i + 1 + j].0);
        }
    };
    assert(s =~= a + seq![(k, s[i].1)] + t);
    assert(s.update(i, (k, v)) =~= a + seq![(k, v)] + t);
    lemma_map_of_insert_middle(a, t, k, s[i].1);
    lemma_map_of_insert_middle(a, t, k, v);
    assert(map_of(a + t).insert(k, s[i].1).insert(k, v) =~= map_of(a + t).insert(k, v));
}

/// Inserting a pair whose key is absent adds exactly that entry.
pub proof fn lemma_map_of_insert_at(
    s: Seq<(Seq<char>, Seq<char>)>,
    i: int,
    k: Seq<char>,
    v: Seq<char>,
)
    requires
        0 <= i <= s.len(),
        !has_key(s.subrange(i, s.len() as int), k),
        forall|j: int| 0 <= j < i ==> (#[trigger] s[j].0) != k,
    ensures
        map_of(s.insert(i, (k, v))) == map_of(s).insert(k, v),
{
    let a = s.subrange(0, i);
    let t = s.subrange(i, s.len() as int);
    assert(s.insert(i, (k, v)) =~= a + seq![(k, v)] + t);
    assert(s =~= a + t);
    lemma_map_of_insert_middle(a, t, k, v);
}

/// Renders one pair as `key="value"`.
pub open spec fn spec_pair_html(p: (Seq<char>, Seq<char>)) -> Seq<char> {
    p.0 + seq!['=', '"'] + p.1 + seq!['"']
}

/// The canonical rendering of a pair sequence: pairs joined by single spaces.
pub open spec fn spec_attrs_html(s: Seq<(Seq<char>, Seq<char>)>) -> Seq<char>
    decreases s.len(),
{
    if s.len() == 0 {
        Seq::empty()
    } else if s.len() == 1 {
        spec_pair_html(s[0])
    } else {
        spec_attrs_html(s.drop_last()) + seq![' '] + spec_pair_html(s.last())
    }
}

/// The first position whose key is not below `key`, in a key-sorted vector.
fn find_slot(attr: &Vec<(String, String)>, key: &str) -> (i: usize)
    ensures
        i <= attr@.len(),
        forall|j: int| 0 <= j < i ==> lex_lt(#[trigger] attr@[j].0@, key@),
        i < attr@.len() ==> !lex_lt(attr@[i as int].0@, key@),
{
    let mut i: usize = 0;
    while i < attr.len()
        invariant
            i <= attr@.len(),
            forall|j: int| 0 <= j < i ==> lex_lt(#[trigger] attr@[j].0@, key@),
        decreases attr@.len() - i,
    {
        if !str_lt(attr[i].0.as_str(), key) {
            return i;
        }
        i += 1;
    }
    i
}

impl HTMLAttributes {
    /// The keys stand in strictly ascending order, so each key occurs once.
    pub open spec fn wf(&self) -> bool {
        keys_sorted(self@)
    }

    /// The mapping this collection holds.
    pub open spec fn to_map(&self) -> Map<Seq<char>, Seq<char>> {
        map_of(self@)
    }

    /// Creates an empty attribute collection.
    pub fn new() -> (r: HTMLAttributes)
        ensures
            r.wf(),
            r@ == Seq::<(Seq<char>, Seq<char>)>::empty(),
            r.to_map() == Map::<Seq<char>, Seq<char>>::empty(),
    {
        let r = HTMLAttributes { attr: Vec::new() };
        proof {
            assert(r@ =~= Seq::<(Seq<char>, Seq<char>)>::empty());
        }
        r
    }

    /// Inserts `key` with `value`, replacing the value if the key is present.
    pub fn insert(&mut self, key: String, value: String)
        requires
            old(self).wf(),
        ensures
            final(self).wf(),
            final(self).to_map() == old(self).to_map().insert(key@, value@),
    {
        let ghost s0 = self@;
        let i = find_slot(&self.attr, key.as_str());
        if i < self.attr.len() && !str_lt(key.as_str(), self.attr[i].0.as_str()) {
            proof {
                lemma_lex_trichotomy(key@, s0[i as int].0);
                assert(s0[i as int].0 == key@);
            }
            let pair = self.attr.remove(i);
            self.attr.insert(i, (pair.0, value));
            proof {
                assert(self@ =~= s0.update(i as int, (s0[i as int].0, value@)));
                lemma_map_of_update(s0, i as int, value@);
                assert(keys_sorted(self@)) by {
                    assert(forall|j: int|
                        0 <= j < self@.len() ==> (#[trigger] self@[j]).0 == s0[j].0);
                };
            }
        } else {
            self.attr.insert(i, (key, value));
            proof {
                let n = self@;
                assert(n =~= s0.insert(i as int, (key@, value@)));
                assert forall|j: int| i <= j < s0.len() implies lex_lt(
                    key@,
                    #[trigger] s0[j].0,
                ) by {
                    if j > i {
                        lemma_lex_transitive(key@, s0[i as int].0, s0[j].0);
                    }
                };
                assert(!has_key(s0.subrange(i as int, s0.len() as int), key@)) by {
                    let t = s0.subrange(i as int, s0.len() as int);
                    if has_key(t, key@) {
                        let j = choose|j: int| 0 <= j < t.len() && t[j].0 == key@;
                        assert(s0[i + j].0 == key@);
                        lemma_lex_lt_neq(key@, s0[i + j].0);
                    }
                };
                assert forall|j: int| 0 <= j < i implies (#[trigger] s0[j].0) != key@ by {
                    lemma_lex_lt_neq(s0[j].0, key@);
                };
                lemma_map_of_insert_at(s0, i as int, key@, value@);
                assert forall|p: int, q: int| 0 <= p < q < n.len() implies lex_lt(
                    (#[trigger] n[p]).0,
                    (#[trigger] n[q]).0,
                ) by {
                    if q < i {
                    } else if p < i && q == i {
                    } else if p == i {
                        assert(n[q] == s0[q - 1]);
                    } else if p < i && q > i {
                        assert(n[q] == s0[q - 1]);
                    } else {
                        assert(n[p] == s0[p - 1]);
                        assert(n[q] == s0[q - 1]);
                    }
                };
            }
        }
    }

    /// Converts the collection into its HTML string: `key="value"` pairs in
    /// ascending key order, joined by single spaces.
    pub fn to_html(&self) -> (r: String)
        ensures
            r@ == spec_attrs_html(self@),
    {
        let mut out = String::new();
        let mut i: usize = 0;
        proof {
            assert(self@.take(0) =~= Seq::<(Seq<char>, Seq<char>)>::empty());
        }
        while i < self.attr.len()
            invariant
                i <= self.attr@.len(),
                out@ == spec_attrs_html(self@.take(i as int)),
            decreases self.attr@.len() - i,
        {
            if i > 0 {
                out.append(" ");
            }
            out.append(self.attr[i].0.as_str());
            out.append("=\"");
            out.append(self.attr[i].1.as_str());
            out.append("\"");
            proof {
                reveal_strlit(" ");
                reveal_strlit("=\"");
                reveal_strlit("\"");
                assert(" "@ =~= seq![' ']);
                assert("=\""@ =~= seq!['=', '"']);
                assert("\""@ =~= seq!['"']);
                let t = self@.take(i + 1);
                assert(t.drop_last() =~= self@.take(i as int));
                assert(t.last() == self@[i as int]);
                assert(out@ =~= spec_attrs_html(t));
            }
            i += 1;
        }
        proof {
            assert(self@.take(self.attr@.len() as int) =~= self@);
        }
        out
    }
}

/// Rendering an attribute collection depends on its entries alone: two
/// well-formed collections holding the same mapping render to the same
/// string, whatever order their entries were inserted in.
pub proof fn lemma_attrs_render_deterministic(a1: HTMLAttributes, a2: HTMLAttributes)
    requires
        a1.wf(),
        a2.wf(),
        a1.to_map() == a2.to_map(),
    ensures
        spec_attrs_html(a1@) == spec_attrs_html(a2@),
{
    lemma_sorted_map_determines_pairs(a1@, a2@);
}

/// Two strictly key-sorted pair sequences describing the same mapping are the
/// same sequence.
pub proof fn lemma_sorted_map_determines_pairs(
    s1: Seq<(Seq<char>, Seq<char>)>,
    s2: Seq<(Seq<char>, Seq<char>)>,
)
    requires
        keys_sorted(s1),
        keys_sorted(s2),
        map_of(s1) == map_of(s2),
    ensures
        s1 == s2,
    decreases s1.len(),
{
    if s1.len() == 0 {
        if s2.len() > 0 {
            assert(map_of(s2).dom().contains(s2.last().0));
        }
        assert(s1 =~= s2);
    } else if s2.len() == 0 {
        assert(map_of(s1).dom().contains(s1.last().0));
    } else {
        let k1 = s1.last().0;
        let k2 = s2.last().0;
        assert(map_of(s1).dom().contains(k1));
        assert(map_of(s2).dom().contains(k2));
        lemma_map_of_dom(s2, k1);
        lemma_map_of_dom(s1, k2);
        assert(k1 == k2) by {
            if k1 != k2 {
                let i = choose|i: int| 0 <= i < s2.len() && s2[i].0 == k1;
                assert(i < s2.len() - 1);
                assert(lex_lt(k1, k2));
                let j = choose|j: int| 0 <= j < s1.len() && s1[j].0 == k2;
                assert(j < s1.len() - 1);
                assert(lex_lt(k2, k1));
                lemma_lex_transitive(k1, k2, k1);
                lemma_lex_irreflexive(k1);
            }
        };
        assert(map_of(s1)[k1] == s1.last().1);
        assert(map_of(s2)[k1] == s2.last().1);
        assert(s1.last() == s2.last());
        assert(!has_key(s1.drop_last(), k1)) by {
            if has_key(s1.drop_last(), k1) {
                let i = choose|i: int| 0 <= i < s1.drop_last().len() && s1.drop_last()[i].0 == k1;
                assert(s1[i].0 == k1);
                assert(lex_lt(s1[i].0, s1[s1.len() - 1].0));
                lemma_lex_irreflexive(k1);
            }
        };
        assert(!has_key(s2.drop_last(), k1)) by {
            if has_key(s2.drop_last(), k1) {
                let i = choose|i: int| 0 <= i < s2.drop_last().len() && s2.drop_last()[i].0 == k1;
                assert(s2[i].0 == k1);
                assert(lex_lt(s2[i].0, s2[s2.len() - 1].0));
                lemma_lex_irreflexive(k1);
            }
        };
        lemma_map_of_dom(s1.drop_last(), k1);
        lemma_map_of_dom(s2.drop_last(), k1);
        assert(map_of(s1.drop_last()) =~= map_of(s1).remove(k1));
        assert(map_of(s2.drop_last()) =~= map_of(s2).remove(k1));
        assert(keys_sorted(s1.drop_last())) by {
            assert(forall|i: int, j: int|
                0 <= i < j < s1.drop_last().len() ==> lex_lt(
                    #[trigger] s1.drop_last()[i].0,
                    #[trigger] s1.drop_last()[j].0,
                )) by {
                assert(forall|i: int|
                    0 <= i < s1.drop_last().len() ==> #[trigger] s1.drop_last()[i] == s1[i]);
            };
        };
        assert(keys_sorted(s2.drop_last())) by {
            assert(forall|i: int|
                0 <= i < s2.drop_last().len() ==> #[trigger] s2.drop_last()[i] == s2[i]);
        };
        lemma_sorted_map_determines_pairs(s1.drop_last(), s2.drop_last());
        assert(s1 =~= s2) by {
            assert(forall|i: int|
                0 <= i < s1.len() - 1 ==> #[trigger] s1[i] == s1.drop_last()[i]
                    && #[trigger] s2[i] == s2.drop_last()[i]);
        };
    }
}

} // verus!
