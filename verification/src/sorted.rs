//! Sorted sets and maps of texts.

use vstd::prelude::*;
use crate::order::{text_before, ascending_texts};
use crate::text::{chars_of, same};
#[allow(unused_imports)]
use crate::order::{
    ascending_is_determined, char_codes, lemma_absent, lemma_char_codes_injective,
    lemma_insert_ascending, lex_irreflexive, lex_less, lex_total, text_less,
};
#[allow(unused_imports)]
use crate::text::string_views;

verus! {

/// The keys of the rows of a map.
pub open spec fn row_keys(rows: Seq<(String, String)>) -> Seq<Seq<char>> {
    rows.map_values(|r: (String, String)| r.0@)
}

/// The members of a finite set of texts in ascending order.
pub open spec fn ordered(members: Set<Seq<char>>) -> Seq<Seq<char>> {
    choose|s: Seq<Seq<char>>| #[trigger] ascending_texts(s) && s.to_set() == members
}

/// An ascending sequence is the ordered sequence of its members.
pub proof fn ascending_is_ordered(s: Seq<Seq<char>>)
    requires
        ascending_texts(s),
    ensures
        ordered(s.to_set()) == s,
{
    let o = ordered(s.to_set());
    let f = |k: Seq<char>| char_codes(k);
    assert(ascending_texts(o) && o.to_set() == s.to_set());
    s.lemma_to_set_map_commutes(f);
    o.lemma_to_set_map_commutes(f);
    ascending_is_determined(s.map_values(f), o.map_values(f));
    assert(s.map_values(f).len() == s.len());
    assert(o.map_values(f).len() == o.len());
    assert forall|i: int| 0 <= i < s.len() implies s[i] == o[i] by {
        assert(s.map_values(f)[i] == char_codes(s[i]));
        assert(o.map_values(f)[i] == char_codes(o[i]));
        lemma_char_codes_injective(s[i], o[i]);
    }
    assert(s =~= o);
}

/// An ascending sequence of texts repeats none.
pub proof fn ascending_repeats_none(s: Seq<Seq<char>>)
    requires
        ascending_texts(s),
    ensures
        s.no_duplicates(),
{
    let f = |k: Seq<char>| char_codes(k);
    assert forall|i: int, j: int| 0 <= i < s.len() && 0 <= j < s.len() && i != j implies s[i]
        != s[j] by {
        let c = s.map_values(f);
        assert(c[i] == char_codes(s[i]) && c[j] == char_codes(s[j]));
        lex_irreflexive(c[i]);
        if i < j {
            assert(lex_less(c[i], c[j]));
        } else {
            assert(lex_less(c[j], c[i]));
        }
    }
}

/// A set of texts, kept in ascending order.
pub struct TextSet {
    pub items: Vec<String>,
}

impl TextSet {
    /// The members in order.
    pub open spec fn sequence(&self) -> Seq<Seq<char>> {
        string_views(self.items@)
    }

    pub open spec fn wf(&self) -> bool {
        ascending_texts(self.sequence())
    }

    /// The members.
    pub open spec fn members(&self) -> Set<Seq<char>> {
        self.sequence().to_set()
    }

    /// The empty set.
    pub fn new() -> (r: Self)
        ensures
            r.wf(),
            r.members() == Set::<Seq<char>>::empty(),
    {
        let r = TextSet { items: Vec::new() };
        assert(r.sequence() =~= Seq::<Seq<char>>::empty());
        assert(r.members() =~= Set::<Seq<char>>::empty());
        r
    }

    /// Adds `item` to the set.
    pub fn insert(&mut self, item: String)
        requires
            old(self).wf(),
        ensures
            final(self).wf(),
            final(self).members() == old(self).members().insert(item@),
    {
        let ghost before = self.sequence();
        let ghost codes = before.map_values(|k: Seq<char>| char_codes(k));
        let wanted = chars_of(item.as_str());
        let mut p: usize = 0;
        while p < self.items.len() && text_before(
            chars_of(self.items[p].as_str()).as_slice(),
            wanted.as_slice(),
        )
            invariant
                p <= self.items.len(),
                before == string_views(self.items@),
                wanted@ == item@,
                forall|i: int| 0 <= i < p ==> text_less(#[trigger] before[i], item@),
            decreases self.items.len() - p,
        {
            p = p + 1;
        }
        if p < self.items.len() && same(
            chars_of(self.items[p].as_str()).as_slice(),
            wanted.as_slice(),
        ) {
            assert(before[p as int] == item@);
            assert(before.to_set().contains(item@));
            assert(before.to_set().insert(item@) =~= before.to_set());
            return ;
        }
        proof {
            let x = char_codes(item@);
            assert forall|i: int| 0 <= i < p implies lex_less(#[trigger] codes[i], x) by {
                assert(text_less(before[i], item@));
            }
            if p < before.len() {
                lex_total(codes[p as int], x);
                if codes[p as int] == x {
                    lemma_char_codes_injective(before[p as int], item@);
                }
            }
            lemma_insert_ascending(codes, x, p as int);
        }
        let ghost added = item@;
        self.items.insert(p, item);
        proof {
            let after = self.sequence();
            assert(after =~= before.insert(p as int, added));
            assert(after.map_values(|k: Seq<char>| char_codes(k)) =~= codes.insert(
                p as int,
                char_codes(added),
            ));
            assert forall|t: Seq<char>| #[trigger]
                after.contains(t) <==> before.contains(t) || t == added by {
                if after.contains(t) {
                    let k = choose|k: int| 0 <= k < after.len() && after[k] == t;
                    if k < p {
                        assert(before[k] == t);
                    } else if k > p {
                        assert(before[k - 1] == t);
                    }
                }
                if before.contains(t) {
                    let k = choose|k: int| 0 <= k < before.len() && before[k] == t;
                    if k < p {
                        assert(after[k] == t);
                    } else {
                        assert(after[k + 1] == t);
                    }
                }
                if t == added {
                    assert(after[p as int] == t);
                }
            }
            assert(after.to_set() =~= before.to_set().insert(added));
        }
    }
}

/// A map from texts to texts, kept in ascending order of the keys.
pub struct TextMap {
    pub rows: Vec<(String, String)>,
}

impl TextMap {
    pub open spec fn keys(&self) -> Seq<Seq<char>> {
        row_keys(self.rows@)
    }

    pub open spec fn wf(&self) -> bool {
        ascending_texts(self.keys())
    }

    /// Does the map take `key` to `value`?
    pub open spec fn maps(&self, key: Seq<char>, value: Seq<char>) -> bool {
        exists|i: int| 0 <= i < self.rows@.len() && (#[trigger] self.rows@[i]).0@ == key
            && self.rows@[i].1@ == value
    }

    /// The empty map.
    pub fn new() -> (r: Self)
        ensures
            r.wf(),
            r.rows@.len() == 0,
    {
        TextMap { rows: Vec::new() }
    }

    /// Takes `key` to `value`, whatever it was taken to before.
    pub fn insert(&mut self, key: String, value: String)
        requires
            old(self).wf(),
        ensures
            final(self).wf(),
            forall|k: Seq<char>, v: Seq<char>| #[trigger]
                final(self).maps(k, v) <==> if k == key@ {
                    v == value@
                } else {
                    old(self).maps(k, v)
                },
    {
        let ghost before = *self;
        let ghost codes = before.keys().map_values(|k: Seq<char>| char_codes(k));
        let ghost k0 = key@;
        let ghost v0 = value@;
        let wanted = chars_of(key.as_str());
        let mut p: usize = 0;
        while p < self.rows.len() && text_before(
            chars_of(self.rows[p].0.as_str()).as_slice(),
            wanted.as_slice(),
        )
            invariant
                p <= self.rows.len(),
                *self == before,
                wanted@ == k0,
                forall|i: int| 0 <= i < p ==> text_less(#[trigger] before.keys()[i], k0),
            decreases self.rows.len() - p,
        {
            assert(before.keys()[p as int] == self.rows@[p as int].0@);
            p = p + 1;
        }
        proof {
            assert forall|i: int| 0 <= i < p implies lex_less(
                #[trigger] codes[i],
                char_codes(k0),
            ) by {
                assert(text_less(before.keys()[i], k0));
            }
        }
        if p < self.rows.len() && same(
            chars_of(self.rows[p].0.as_str()).as_slice(),
            wanted.as_slice(),
        ) {
            self.rows.set(p, (key, value));
            proof {
                let after = *self;
                assert(after.keys() =~= before.keys());
                assert forall|k: Seq<char>, v: Seq<char>| #[trigger]
                    after.maps(k, v) <==> if k == k0 {
                        v == v0
                    } else {
                        before.maps(k, v)
                    } by {
                    lemma_replaced(before.rows@, after.rows@, p as int, k, v);
                }
            }
            return ;
        }
        proof {
            let x = char_codes(k0);
            if p < before.rows@.len() {
                assert(before.keys()[p as int] == before.rows@[p as int].0@);
                lex_total(codes[p as int], x);
                if codes[p as int] == x {
                    lemma_char_codes_injective(before.keys()[p as int], k0);
                }
            }
            lemma_insert_ascending(codes, x, p as int);
            lemma_absent(codes, x, p as int);
        }
        self.rows.insert(p, (key, value));
        proof {
            let after = *self;
            assert(after.keys() =~= before.keys().insert(p as int, k0));
            assert(after.keys().map_values(|k: Seq<char>| char_codes(k)) =~= codes.insert(
                p as int,
                char_codes(k0),
            ));
            assert forall|k: Seq<char>, v: Seq<char>| #[trigger]
                after.maps(k, v) <==> if k == k0 {
                    v == v0
                } else {
                    before.maps(k, v)
                } by {
                lemma_inserted(before.rows@, after.rows@, p as int, k, v);
            }
        }
    }
}

/// What a map takes its keys to determines its rows.
pub proof fn map_is_determined(a: TextMap, b: TextMap)
    requires
        a.wf(),
        b.wf(),
        forall|k: Seq<char>, v: Seq<char>| #[trigger] a.maps(k, v) <==> b.maps(k, v),
    ensures
        a.rows@.len() == b.rows@.len(),
        forall|i: int|
            0 <= i < a.rows@.len() ==> (#[trigger] a.rows@[i]).0@ == b.rows@[i].0@ && a.rows@[i].1@
                == b.rows@[i].1@,
{
    assert forall|k: Seq<char>| a.keys().to_set().contains(k) <==> b.keys().to_set().contains(k) by {
        lemma_keys_are_mapped(a, k);
        lemma_keys_are_mapped(b, k);
        if b.keys().to_set().contains(k) {
            let v = choose|v: Seq<char>| b.maps(k, v);
            assert(a.maps(k, v));
        }
    }
    assert(a.keys().to_set() =~= b.keys().to_set());
    ascending_is_ordered(a.keys());
    ascending_is_ordered(b.keys());
    ascending_repeats_none(b.keys());
    assert(a.keys() == b.keys());
    assert(a.rows@.len() == a.keys().len());
    assert forall|i: int| 0 <= i < a.rows@.len() implies (#[trigger] a.rows@[i]).0@ == b.rows@[i].0@
        && a.rows@[i].1@ == b.rows@[i].1@ by {
        let k = a.rows@[i].0@;
        let v = a.rows@[i].1@;
        assert(a.maps(k, v));
        assert(b.maps(k, v));
        let j = choose|j: int|
            0 <= j < b.rows@.len() && (#[trigger] b.rows@[j]).0@ == k && b.rows@[j].1@ == v;
        assert(a.keys()[i] == k);
        assert(b.keys()[j] == k);
        assert(b.keys()[i] == k);
        assert(i == j);
    }
}

proof fn lemma_keys_are_mapped(map: TextMap, k: Seq<char>)
    ensures
        map.keys().to_set().contains(k) <==> exists|v: Seq<char>| map.maps(k, v),
{
    if map.keys().contains(k) {
        let i = choose|i: int| 0 <= i < map.keys().len() && map.keys()[i] == k;
        assert(map.rows@[i].0@ == k);
        assert(map.maps(k, map.rows@[i].1@));
    }
    if exists|v: Seq<char>| map.maps(k, v) {
        let v = choose|v: Seq<char>| map.maps(k, v);
        let i = choose|i: int|
            0 <= i < map.rows@.len() && (#[trigger] map.rows@[i]).0@ == k && map.rows@[i].1@ == v;
        assert(map.keys()[i] == k);
    }
}

/// Does some row hold `k` and `v`?
spec fn row_holds(rows: Seq<(String, String)>, k: Seq<char>, v: Seq<char>) -> bool {
    exists|i: int| 0 <= i < rows.len() && (#[trigger] rows[i]).0@ == k && rows[i].1@ == v
}

proof fn lemma_replaced(
    before: Seq<(String, String)>,
    after: Seq<(String, String)>,
    p: int,
    k: Seq<char>,
    v: Seq<char>,
)
    requires
        0 <= p < before.len(),
        ascending_texts(row_keys(before)),
        after == before.update(p, after[p]),
        after[p].0@ == before[p].0@,
    ensures
        row_holds(after, k, v) <==> if k == after[p].0@ {
            v == after[p].1@
        } else {
            row_holds(before, k, v)
        },
{
    let codes = row_keys(before).map_values(|t: Seq<char>| char_codes(t));
    if row_holds(after, k, v) {
        let i = choose|i: int| 0 <= i < after.len() && (#[trigger] after[i]).0@ == k && after[i].1@ == v;
        if i != p {
            assert(before[i].0@ == k);
            assert(codes[i] == char_codes(before[i].0@));
            assert(codes[p] == char_codes(before[p].0@));
            lex_irreflexive(codes[p]);
            if i < p {
                assert(lex_less(codes[i], codes[p]));
            } else {
                assert(lex_less(codes[p], codes[i]));
            }
        }
    }
    if k == after[p].0@ && v == after[p].1@ {
        assert(row_holds(after, k, v));
    }
    if k != after[p].0@ && row_holds(before, k, v) {
        let i = choose|i: int| 0 <= i < before.len() && (#[trigger] before[i]).0@ == k && before[i].1@ == v;
        assert(after[i] == before[i]);
    }
}

proof fn lemma_inserted(
    before: Seq<(String, String)>,
    after: Seq<(String, String)>,
    p: int,
    k: Seq<char>,
    v: Seq<char>,
)
    requires
        0 <= p <= before.len(),
        after == before.insert(p, after[p]),
        !row_keys(before).map_values(|t: Seq<char>| char_codes(t)).contains(
            char_codes(after[p].0@),
        ),
    ensures
        row_holds(after, k, v) <==> if k == after[p].0@ {
            v == after[p].1@
        } else {
            row_holds(before, k, v)
        },
{
    let codes = row_keys(before).map_values(|t: Seq<char>| char_codes(t));
    if row_holds(after, k, v) {
        let i = choose|i: int| 0 <= i < after.len() && (#[trigger] after[i]).0@ == k && after[i].1@ == v;
        if i != p {
            let j = if i < p { i } else { i - 1 };
            assert(before[j] == after[i]);
            assert(codes[j] == char_codes(before[j].0@));
        }
    }
    if k == after[p].0@ && v == after[p].1@ {
        assert(row_holds(after, k, v));
    }
    if k != after[p].0@ && row_holds(before, k, v) {
        let j = choose|i: int| 0 <= i < before.len() && (#[trigger] before[i]).0@ == k && before[i].1@ == v;
        let i = if j < p { j } else { j + 1 };
        assert(after[i] == before[j]);
    }
}

/// A set holds the texts of its items, which it keeps in ascending order; a map takes the first text
/// of each of its rows to the second, and keeps the rows in ascending order of the first.
pub proof fn sets_and_maps_are_seen_whole(set: TextSet, map: TextMap, text: Seq<char>, value: Seq<char>)
    ensures
        set.members().contains(text) <==> exists|i: int|
            0 <= i < set.items@.len() && (#[trigger] set.items@[i])@ == text,
        set.sequence().len() == set.items@.len(),
        forall|i: int| 0 <= i < set.items@.len() ==> set.sequence()[i] == (#[trigger] set.items@[i])@,
        set.wf() ==> forall|i: int, j: int|
            0 <= i < j < set.items@.len() ==> text_less(
                (#[trigger] set.items@[i])@,
                (#[trigger] set.items@[j])@,
            ),
        map.maps(text, value) <==> exists|i: int|
            0 <= i < map.rows@.len() && (#[trigger] map.rows@[i]).0@ == text && map.rows@[i].1@
                == value,
        map.keys().len() == map.rows@.len(),
        forall|i: int| 0 <= i < map.rows@.len() ==> map.keys()[i] == (#[trigger] map.rows@[i]).0@,
        map.wf() ==> forall|i: int, j: int|
            0 <= i < j < map.rows@.len() ==> text_less(
                (#[trigger] map.rows@[i]).0@,
                (#[trigger] map.rows@[j]).0@,
            ),
{
    let texts = set.sequence();
    let keys = map.keys();
    let f = |k: Seq<char>| char_codes(k);
    assert forall|i: int| 0 <= i < set.items@.len() implies texts[i] == (
    #[trigger] set.items@[i])@ by {
    }
    if set.members().contains(text) {
        let i = choose|i: int| 0 <= i < texts.len() && texts[i] == text;
        assert(set.items@[i]@ == text);
    }
    if exists|i: int| 0 <= i < set.items@.len() && (#[trigger] set.items@[i])@ == text {
        let i = choose|i: int| 0 <= i < set.items@.len() && (#[trigger] set.items@[i])@ == text;
        assert(texts[i] == text);
    }
    if set.wf() {
        assert forall|i: int, j: int| 0 <= i < j < set.items@.len() implies text_less(
            (#[trigger] set.items@[i])@,
            (#[trigger] set.items@[j])@,
        ) by {
            assert(texts.map_values(f)[i] == char_codes(set.items@[i]@));
            assert(texts.map_values(f)[j] == char_codes(set.items@[j]@));
        }
    }
    if map.wf() {
        assert forall|i: int, j: int| 0 <= i < j < map.rows@.len() implies text_less(
            (#[trigger] map.rows@[i]).0@,
            (#[trigger] map.rows@[j]).0@,
        ) by {
            assert(keys.map_values(f)[i] == char_codes(map.rows@[i].0@));
            assert(keys.map_values(f)[j] == char_codes(map.rows@[j].0@));
        }
    }
}

} // verus!
