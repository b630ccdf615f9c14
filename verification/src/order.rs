//! Dictionary order, and the sorted collections that are kept in it.

use vstd::prelude::*;

verus! {

/// Does `a` stand before `b` in dictionary order?
pub open spec fn lex_less(a: Seq<int>, b: Seq<int>) -> bool
    decreases a.len(),
{
    if b.len() == 0 {
        false
    } else if a.len() == 0 {
        true
    } else if a[0] != b[0] {
        a[0] < b[0]
    } else {
        lex_less(a.skip(1), b.skip(1))
    }
}

/// Are the keys in strictly increasing dictionary order?
pub open spec fn ascending(keys: Seq<Seq<int>>) -> bool {
    forall|i: int, j: int| 0 <= i < j < keys.len() ==> lex_less(#[trigger] keys[i], #[trigger] keys[j])
}

/// The code points of a text. Texts are ordered by them, as by their UTF-8 bytes.
pub open spec fn char_codes(s: Seq<char>) -> Seq<int> {
    s.map_values(|c: char| c as int)
}

/// The numbers of a list of CPUs.
pub open spec fn cpu_codes(s: Seq<usize>) -> Seq<int> {
    s.map_values(|c: usize| c as int)
}

/// Does the text `a` stand before the text `b`?
pub open spec fn text_less(a: Seq<char>, b: Seq<char>) -> bool {
    lex_less(char_codes(a), char_codes(b))
}

/// Are the texts in strictly increasing order?
pub open spec fn ascending_texts(keys: Seq<Seq<char>>) -> bool {
    ascending(keys.map_values(|k: Seq<char>| char_codes(k)))
}

/// Are the CPU lists in strictly increasing order?
pub open spec fn ascending_cpus(keys: Seq<Seq<usize>>) -> bool {
    ascending(keys.map_values(|k: Seq<usize>| cpu_codes(k)))
}

/// Nothing stands before itself.
pub proof fn lex_irreflexive(a: Seq<int>)
    ensures
        !lex_less(a, a),
    decreases a.len(),
{
    if a.len() > 0 {
        lex_irreflexive(a.skip(1));
    }
}

/// Dictionary order is transitive.
pub proof fn lex_transitive(a: Seq<int>, b: Seq<int>, c: Seq<int>)
    requires
        lex_less(a, b),
        lex_less(b, c),
    ensures
        lex_less(a, c),
    decreases a.len(),
{
    if a.len() > 0 && b.len() > 0 && c.len() > 0 && a[0] == b[0] && b[0] == c[0] {
        lex_transitive(a.skip(1), b.skip(1), c.skip(1));
    }
}

/// Of two different sequences one stands before the other.
pub proof fn lex_total(a: Seq<int>, b: Seq<int>)
    ensures
        a == b || lex_less(a, b) || lex_less(b, a),
    decreases a.len(),
{
    if a.len() == 0 || b.len() == 0 {
        if a.len() == 0 && b.len() == 0 {
            assert(a =~= b);
        }
    } else if a[0] == b[0] {
        lex_total(a.skip(1), b.skip(1));
        if a.skip(1) == b.skip(1) {
            assert(a =~= seq![a[0]] + a.skip(1));
            assert(b =~= seq![b[0]] + b.skip(1));
        }
    }
}

proof fn lemma_all_but_last(a: Seq<Seq<int>>, y: Seq<int>)
    requires
        ascending(a),
        a.len() > 0,
    ensures
        a.drop_last().contains(y) <==> a.contains(y) && y != a.last(),
{
    if a.drop_last().contains(y) {
        let k = choose|k: int| 0 <= k < a.drop_last().len() && a.drop_last()[k] == y;
        assert(a[k] == y);
        assert(lex_less(a[k], a[a.len() - 1]));
        lex_irreflexive(y);
    }
    if a.contains(y) && y != a.last() {
        let k = choose|k: int| 0 <= k < a.len() && a[k] == y;
        assert(a.drop_last()[k] == y);
    }
}

/// Two ascending sequences with the same members are the same sequence.
pub proof fn ascending_is_determined(a: Seq<Seq<int>>, b: Seq<Seq<int>>)
    requires
        ascending(a),
        ascending(b),
        a.to_set() == b.to_set(),
    ensures
        a == b,
    decreases a.len(),
{
    if a.len() == 0 {
        if b.len() > 0 {
            assert(b.to_set().contains(b[0]));
            assert(a.to_set().contains(b[0]));
        }
        assert(a =~= b);
    } else {
        assert(a.to_set().contains(a.last()));
        assert(b.to_set().contains(a.last()));
        assert(b.contains(a.last()));
        assert(a.to_set().contains(b.last())) by {
            assert(b.to_set().contains(b.last()));
        }
        let i = choose|i: int| 0 <= i < b.len() && b[i] == a.last();
        let j = choose|j: int| 0 <= j < a.len() && a[j] == b.last();
        if a.last() != b.last() {
            assert(lex_less(b[i], b[b.len() - 1]));
            assert(lex_less(a[j], a[a.len() - 1]));
            lex_transitive(a.last(), b.last(), a.last());
            lex_irreflexive(a.last());
        }
        let x = a.last();
        assert forall|y: Seq<int>|
            #![trigger a.drop_last().to_set().contains(y)]
            #![trigger b.drop_last().to_set().contains(y)]
            a.drop_last().to_set().contains(y) == b.drop_last().to_set().contains(y) by {
            lemma_all_but_last(a, y);
            lemma_all_but_last(b, y);
            assert(a.to_set().contains(y) <==> a.contains(y));
            assert(b.to_set().contains(y) <==> b.contains(y));
        }
        assert(a.drop_last().to_set() =~= b.drop_last().to_set());
        ascending_is_determined(a.drop_last(), b.drop_last());
        assert(a =~= a.drop_last().push(x));
        assert(b =~= b.drop_last().push(x));
    }
}

/// Inserting a new key where it belongs keeps the keys ascending.
pub proof fn lemma_insert_ascending(keys: Seq<Seq<int>>, x: Seq<int>, p: int)
    requires
        ascending(keys),
        0 <= p <= keys.len(),
        forall|i: int| 0 <= i < p ==> lex_less(#[trigger] keys[i], x),
        p < keys.len() ==> lex_less(x, keys[p]),
    ensures
        ascending(keys.insert(p, x)),
{
    let new = keys.insert(p, x);
    assert forall|i: int, j: int| 0 <= i < j < new.len() implies lex_less(
        #[trigger] new[i],
        #[trigger] new[j],
    ) by {
        if i == p {
            assert(new[j] == keys[j - 1]);
            if j - 1 > p {
                lex_transitive(x, keys[p], keys[j - 1]);
            }
        } else if j == p {
            assert(new[i] == keys[i]);
        } else {
            let i2 = if i < p { i } else { i - 1 };
            let j2 = if j < p { j } else { j - 1 };
            assert(new[i] == keys[i2]);
            assert(new[j] == keys[j2]);
        }
    }
}

/// A key is not among ascending keys if those before a position are less and that there is greater.
pub proof fn lemma_absent(keys: Seq<Seq<int>>, x: Seq<int>, p: int)
    requires
        ascending(keys),
        0 <= p <= keys.len(),
        forall|i: int| 0 <= i < p ==> lex_less(#[trigger] keys[i], x),
        p < keys.len() ==> lex_less(x, keys[p]),
    ensures
        !keys.contains(x),
{
    lex_irreflexive(x);
    if keys.contains(x) {
        let k = choose|k: int| 0 <= k < keys.len() && keys[k] == x;
        if k > p {
            lex_transitive(x, keys[p], keys[k]);
        }
    }
}

/// Texts with the same code points are the same.
pub proof fn lemma_char_codes_injective(a: Seq<char>, b: Seq<char>)
    requires
        char_codes(a) == char_codes(b),
    ensures
        a == b,
{
    assert(a.len() == char_codes(a).len());
    assert(b.len() == char_codes(b).len());
    assert forall|i: int| 0 <= i < a.len() implies a[i] == b[i] by {
        assert(char_codes(a)[i] == a[i] as int);
        assert(char_codes(b)[i] == b[i] as int);
    }
    assert(a =~= b);
}

/// CPU lists with the same numbers are the same.
pub proof fn lemma_cpu_codes_injective(a: Seq<usize>, b: Seq<usize>)
    requires
        cpu_codes(a) == cpu_codes(b),
    ensures
        a == b,
{
    assert(a.len() == cpu_codes(a).len());
    assert(b.len() == cpu_codes(b).len());
    assert forall|i: int| 0 <= i < a.len() implies a[i] == b[i] by {
        assert(cpu_codes(a)[i] == a[i] as int);
        assert(cpu_codes(b)[i] == b[i] as int);
    }
    assert(a =~= b);
}

/// Does the text `a` stand before the text `b`?
pub fn text_before(a: &[char], b: &[char]) -> (r: bool)
    ensures
        r == text_less(a@, b@),
{
    let mut i: usize = 0;
    assert(char_codes(a@).skip(0) == char_codes(a@));
    assert(char_codes(b@).skip(0) == char_codes(b@));
    while i < a.len() && i < b.len()
        invariant
            i <= a.len(),
            i <= b.len(),
            text_less(a@, b@) == lex_less(
                char_codes(a@).skip(i as int),
                char_codes(b@).skip(i as int),
            ),
        decreases a.len() - i,
    {
        assert(char_codes(a@).skip(i as int)[0] == a@[i as int] as int);
        assert(char_codes(b@).skip(i as int)[0] == b@[i as int] as int);
        if a[i] != b[i] {
            return a[i] < b[i];
        }
        assert(char_codes(a@).skip(i as int).skip(1) == char_codes(a@).skip(i + 1));
        assert(char_codes(b@).skip(i as int).skip(1) == char_codes(b@).skip(i + 1));
        i = i + 1;
    }
    i < b.len()
}

/// Does the CPU list `a` stand before the CPU list `b`?
pub fn cpus_before(a: &Vec<usize>, b: &Vec<usize>) -> (r: bool)
    ensures
        r == lex_less(cpu_codes(a@), cpu_codes(b@)),
{
    let mut i: usize = 0;
    assert(cpu_codes(a@).skip(0) == cpu_codes(a@));
    assert(cpu_codes(b@).skip(0) == cpu_codes(b@));
    while i < a.len() && i < b.len()
        invariant
            i <= a.len(),
            i <= b.len(),
            lex_less(cpu_codes(a@), cpu_codes(b@)) == lex_less(
                cpu_codes(a@).skip(i as int),
                cpu_codes(b@).skip(i as int),
            ),
        decreases a.len() - i,
    {
        assert(cpu_codes(a@).skip(i as int)[0] == a@[i as int] as int);
        assert(cpu_codes(b@).skip(i as int)[0] == b@[i as int] as int);
        if a[i] != b[i] {
            return a[i] < b[i];
        }
        assert(cpu_codes(a@).skip(i as int).skip(1) == cpu_codes(a@).skip(i + 1));
        assert(cpu_codes(b@).skip(i as int).skip(1) == cpu_codes(b@).skip(i + 1));
        i = i + 1;
    }
    i < b.len()
}

/// Dictionary order: at the first difference the lesser number decides, and a sequence stands before
/// every longer one that begins with it.
pub proof fn first_difference_decides(
    prefix: Seq<int>,
    x: int,
    a: Seq<int>,
    y: int,
    b: Seq<int>,
)
    requires
        x != y,
    ensures
        lex_less(prefix + seq![x] + a, prefix + seq![y] + b) <==> x < y,
        lex_less(prefix, prefix + seq![x] + a),
        !lex_less(prefix + seq![x] + a, prefix),
    decreases prefix.len(),
{
    let s = prefix + seq![x] + a;
    let t = prefix + seq![y] + b;
    if prefix.len() == 0 {
        assert(s[0] == x && t[0] == y);
    } else {
        let rest = prefix.skip(1);
        first_difference_decides(rest, x, a, y, b);
        assert(s[0] == prefix[0] && t[0] == prefix[0]);
        assert(s.skip(1) =~= rest + seq![x] + a);
        assert(t.skip(1) =~= rest + seq![y] + b);
    }
}

/// Texts are ordered by the code point at the first difference, and a text stands before every
/// longer one that begins with it.
pub proof fn texts_are_ordered_by_code_points(
    prefix: Seq<char>,
    x: char,
    a: Seq<char>,
    y: char,
    b: Seq<char>,
)
    requires
        x != y,
    ensures
        text_less(prefix + seq![x] + a, prefix + seq![y] + b) <==> x < y,
        text_less(prefix, prefix + seq![x] + a),
        !text_less(prefix + seq![x] + a, prefix),
        !text_less(prefix, prefix),
{
    let p = char_codes(prefix);
    let c = char_codes(a);
    let d = char_codes(b);
    assert(char_codes(prefix + seq![x] + a) =~= p + seq![x as int] + c);
    assert(char_codes(prefix + seq![y] + b) =~= p + seq![y as int] + d);
    first_difference_decides(p, x as int, c, y as int, d);
    lex_irreflexive(p);
}

/// Lists of CPUs are ordered by the number at the first difference, and a list stands before every
/// longer one that begins with it.
pub proof fn cpu_lists_are_ordered_by_numbers(
    prefix: Seq<usize>,
    x: usize,
    a: Seq<usize>,
    y: usize,
    b: Seq<usize>,
)
    requires
        x != y,
    ensures
        ascending_cpus(seq![prefix + seq![x] + a, prefix + seq![y] + b]) <==> x < y,
        ascending_cpus(seq![prefix, prefix + seq![x] + a]),
        !ascending_cpus(seq![prefix + seq![x] + a, prefix]),
        !ascending_cpus(seq![prefix, prefix]),
{
    let p = cpu_codes(prefix);
    let c = cpu_codes(a);
    let d = cpu_codes(b);
    let s = prefix + seq![x] + a;
    let t = prefix + seq![y] + b;
    assert(cpu_codes(s) =~= p + seq![x as int] + c);
    assert(cpu_codes(t) =~= p + seq![y as int] + d);
    first_difference_decides(p, x as int, c, y as int, d);
    lemma_pair_of_cpus(s, t);
    lemma_pair_of_cpus(prefix, s);
    lemma_pair_of_cpus(s, prefix);
    lemma_pair_of_cpus(prefix, prefix);
    lex_irreflexive(p);
}

proof fn lemma_pair_of_cpus(s: Seq<usize>, t: Seq<usize>)
    ensures
        ascending_cpus(seq![s, t]) <==> lex_less(cpu_codes(s), cpu_codes(t)),
{
    let codes = seq![s, t].map_values(|k: Seq<usize>| cpu_codes(k));
    assert(codes[0] == cpu_codes(s) && codes[1] == cpu_codes(t));
    if ascending_cpus(seq![s, t]) {
        assert(lex_less(codes[0], codes[1]));
    }
}

/// Texts, or lists of CPUs, are in ascending order where every two of them are, the earlier first.
pub proof fn ascending_where_every_two_are(texts: Seq<Seq<char>>, lists: Seq<Seq<usize>>)
    ensures
        ascending_texts(texts) <==> forall|i: int, j: int|
            0 <= i < j < texts.len() ==> text_less(#[trigger] texts[i], #[trigger] texts[j]),
        ascending_cpus(lists) <==> forall|i: int, j: int|
            0 <= i < j < lists.len() ==> ascending_cpus(
                seq![#[trigger] lists[i], #[trigger] lists[j]],
            ),
{
    let a = texts.map_values(|k: Seq<char>| char_codes(k));
    let b = lists.map_values(|k: Seq<usize>| cpu_codes(k));
    if ascending_texts(texts) {
        assert forall|i: int, j: int| 0 <= i < j < texts.len() implies text_less(
            #[trigger] texts[i],
            #[trigger] texts[j],
        ) by {
            assert(lex_less(a[i], a[j]));
        }
    }
    if forall|i: int, j: int|
        0 <= i < j < texts.len() ==> text_less(#[trigger] texts[i], #[trigger] texts[j]) {
        assert forall|i: int, j: int| 0 <= i < j < a.len() implies lex_less(
            #[trigger] a[i],
            #[trigger] a[j],
        ) by {
            assert(text_less(texts[i], texts[j]));
        }
    }
    if ascending_cpus(lists) {
        assert forall|i: int, j: int| 0 <= i < j < lists.len() implies ascending_cpus(
            seq![#[trigger] lists[i], #[trigger] lists[j]],
        ) by {
            assert(lex_less(b[i], b[j]));
            lemma_pair_of_cpus(lists[i], lists[j]);
        }
    }
    if forall|i: int, j: int|
        0 <= i < j < lists.len() ==> ascending_cpus(
            seq![#[trigger] lists[i], #[trigger] lists[j]],
        ) {
        assert forall|i: int, j: int| 0 <= i < j < b.len() implies lex_less(
            #[trigger] b[i],
            #[trigger] b[j],
        ) by {
            assert(ascending_cpus(seq![lists[i], lists[j]]));
            lemma_pair_of_cpus(lists[i], lists[j]);
        }
    }
}

/// The characters of a text are compared by their code points, and CPUs by their numbers.
pub proof fn codes_are_those_of_the_members(text: Seq<char>, cpus: Seq<usize>, i: int)
    ensures
        char_codes(text).len() == text.len(),
        0 <= i < text.len() ==> char_codes(text)[i] == text[i] as int,
        cpu_codes(cpus).len() == cpus.len(),
        0 <= i < cpus.len() ==> cpu_codes(cpus)[i] == cpus[i] as int,
{
}

} // verus!
