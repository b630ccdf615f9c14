//! CPU lists such as `0-2, 5, 7-8`.

use vstd::prelude::*;
use crate::text::{chars_of, parse_usize, split_at_first, split_on, trimmed};
#[allow(unused_imports)]
use crate::text::{
    all_digits, decimal, decimal_is_digits, decimal_reads_back, find, is_digit, is_white,
    lemma_find_after, lemma_find_within, lemma_trim_keeps, lemma_trim_skips_end,
    lemma_trim_skips_front, parse_up_to, slice_views, split, split_of_joined, split_once, trim,
    trim_end, trim_start, trimming_takes_off_the_white_ends,
};

verus! {

/// The CPU numbers from `first` through `last`.
pub open spec fn cpu_range(first: nat, last: nat) -> Seq<usize> {
    if first <= last {
        Seq::new((last - first + 1) as nat, |i: int| (first + i) as usize)
    } else {
        Seq::empty()
    }
}

/// The CPUs that one entry of a CPU list names: a number, a range, or nothing readable.
pub open spec fn list_entry_cpus(entry: Seq<char>) -> Seq<usize> {
    let entry = trim(entry);
    match split_once(entry, '-') {
        Some((first, last)) => match (
            parse_up_to(first, usize::MAX as nat),
            parse_up_to(last, usize::MAX as nat),
        ) {
            (Some(a), Some(b)) => cpu_range(a, b),
            _ => Seq::empty(),
        },
        None => match parse_up_to(entry, usize::MAX as nat) {
            Some(n) => seq![n as usize],
            None => Seq::empty(),
        },
    }
}

/// The CPUs that the entries of a CPU list name, in order.
pub open spec fn entries_cpus(entries: Seq<Seq<char>>) -> Seq<usize>
    decreases entries.len(),
{
    if entries.len() == 0 {
        Seq::empty()
    } else {
        entries_cpus(entries.drop_last()) + list_entry_cpus(entries.last())
    }
}

/// The CPUs that a comma-separated list names.
pub open spec fn cpu_list(value: Seq<char>) -> Seq<usize> {
    entries_cpus(split(trim(value), ','))
}

/// Appends the CPU numbers from `first` through `last`.
fn push_cpu_range(out: &mut Vec<usize>, first: usize, last: usize)
    ensures
        final(out)@ == old(out)@ + cpu_range(first as nat, last as nat),
{
    if first > last {
        assert(old(out)@ + Seq::<usize>::empty() == old(out)@);
        return ;
    }
    let mut next: usize = first;
    let ghost full = cpu_range(first as nat, last as nat);
    while next < last
        invariant
            first <= next <= last,
            full == cpu_range(first as nat, last as nat),
            out@ == old(out)@ + full.take(next - first),
        decreases last - next,
    {
        out.push(next);
        assert(full.take(next - first).push(next) =~= full.take(next + 1 - first));
        assert((old(out)@ + full.take(next - first)).push(next) =~= old(out)@ + full.take(
            next - first,
        ).push(next));
        next = next + 1;
    }
    out.push(next);
    assert((old(out)@ + full.take(next - first)).push(next) =~= old(out)@ + full);
}

/// The CPUs that a list such as `0-2, 5, 7-8` names. Entries that cannot be read name none.
pub fn parse_cpu_list(value: &str) -> (r: Vec<usize>)
    ensures
        r@ == cpu_list(value@),
{
    let chars = chars_of(value);
    let body = trimmed(chars.as_slice());
    let entries = split_on(body, ',');
    let ghost views = slice_views(entries@);
    let mut out: Vec<usize> = Vec::new();
    for i in 0..entries.len()
        invariant
            views == slice_views(entries@),
            out@ == entries_cpus(views.take(i as int)),
    {
        assert(views.take(i + 1).drop_last() == views.take(i as int));
        assert(views[i as int] == entries@[i as int]@);
        let entry = trimmed(entries[i]);
        match split_at_first(entry, '-') {
            Some((first, last)) => {
                match (parse_usize(first), parse_usize(last)) {
                    (Some(a), Some(b)) => {
                        push_cpu_range(&mut out, a, b);
                    },
                    _ => {
                        assert(out@ + Seq::<usize>::empty() == out@);
                    },
                }
            },
            None => {
                match parse_usize(entry) {
                    Some(n) => {
                        assert(out@.push(n) == out@ + seq![n]);
                        out.push(n);
                    },
                    None => {
                        assert(out@ + Seq::<usize>::empty() == out@);
                    },
                }
            },
        }
    }
    assert(views.take(views.len() as int) == views);
    out
}

proof fn lemma_entries_concat(a: Seq<Seq<char>>, b: Seq<Seq<char>>)
    ensures
        entries_cpus(a + b) == entries_cpus(a) + entries_cpus(b),
    decreases b.len(),
{
    if b.len() == 0 {
        assert(a + b == a);
        assert(entries_cpus(a) + Seq::<usize>::empty() == entries_cpus(a));
    } else {
        assert((a + b).drop_last() == a + b.drop_last());
        assert((a + b).last() == b.last());
        lemma_entries_concat(a, b.drop_last());
        assert(entries_cpus(a) + entries_cpus(b.drop_last()) + list_entry_cpus(b.last())
            == entries_cpus(a) + (entries_cpus(b.drop_last()) + list_entry_cpus(b.last())));
    }
}

proof fn lemma_entries_of_one(x: Seq<char>)
    ensures
        entries_cpus(seq![x]) == list_entry_cpus(x),
{
    assert(seq![x].drop_last() == Seq::<Seq<char>>::empty());
    reveal_with_fuel(entries_cpus, 2);
    assert(Seq::<usize>::empty() + list_entry_cpus(x) == list_entry_cpus(x));
}

proof fn lemma_front_space(s: Seq<char>)
    requires
        s.len() > 0,
        is_white(s[0]),
    ensures
        entries_cpus(split(s, ',')) == entries_cpus(split(s.skip(1), ',')),
{
    let t = s.skip(1);
    assert(find(s, ',') == 1 + find(t, ','));
    let i = find(t, ',') as int;
    lemma_find_within(t, Seq::empty(), ',');
    if i >= t.len() {
        lemma_entries_of_one(s);
        lemma_entries_of_one(t);
        lemma_trim_skips_front(s);
    } else {
        let head = s.take(i + 1);
        assert(head.skip(1) == t.take(i));
        assert(s.skip(i + 2) == t.skip(i + 1));
        lemma_trim_skips_front(head);
        lemma_entries_concat(seq![head], split(t.skip(i + 1), ','));
        lemma_entries_concat(seq![t.take(i)], split(t.skip(i + 1), ','));
        lemma_entries_of_one(head);
        lemma_entries_of_one(t.take(i));
    }
}

proof fn lemma_end_space(s: Seq<char>, w: char)
    requires
        is_white(w),
    ensures
        entries_cpus(split(s.push(w), ',')) == entries_cpus(split(s, ',')),
    decreases s.len(),
{
    let i = find(s, ',') as int;
    let longer = s.push(w);
    assert(longer == s + seq![w]);
    lemma_find_within(s, seq![w], ',');
    if i >= s.len() {
        lemma_find_after(s, seq![w], ',');
        reveal_with_fuel(find, 2);
        assert(find(seq![w], ',') == 1);
        lemma_entries_of_one(s);
        lemma_entries_of_one(longer);
        lemma_trim_skips_end(s, w);
    } else {
        assert(longer.take(i) == s.take(i));
        assert(longer.skip(i + 1) == s.skip(i + 1).push(w));
        lemma_end_space(s.skip(i + 1), w);
        lemma_entries_concat(seq![s.take(i)], split(s.skip(i + 1), ','));
        lemma_entries_concat(seq![s.take(i)], split(longer.skip(i + 1), ','));
    }
}

proof fn lemma_trim_start_redundant(s: Seq<char>)
    ensures
        entries_cpus(split(trim_start(s), ',')) == entries_cpus(split(s, ',')),
    decreases s.len(),
{
    if s.len() > 0 && is_white(s[0]) {
        lemma_front_space(s);
        lemma_trim_start_redundant(s.skip(1));
    }
}

proof fn lemma_trim_end_redundant(s: Seq<char>)
    ensures
        entries_cpus(split(trim_end(s), ',')) == entries_cpus(split(s, ',')),
    decreases s.len(),
{
    if s.len() > 0 && is_white(s.last()) {
        assert(s.drop_last().push(s.last()) == s);
        lemma_end_space(s.drop_last(), s.last());
        lemma_trim_end_redundant(s.drop_last());
    }
}

/// White space around a list names no CPUs and hides none.
pub proof fn space_around_a_list_is_nothing(value: Seq<char>)
    ensures
        cpu_list(value) == entries_cpus(split(value, ',')),
{
    lemma_trim_start_redundant(value);
    lemma_trim_end_redundant(trim_start(value));
}

/// Two lists with a comma between them name the CPUs of the first and then those of the second.
pub proof fn comma_joins_lists(a: Seq<char>, b: Seq<char>)
    ensures
        cpu_list(a + seq![','] + b) == cpu_list(a) + cpu_list(b),
{
    space_around_a_list_is_nothing(a);
    space_around_a_list_is_nothing(b);
    space_around_a_list_is_nothing(a + seq![','] + b);
    split_of_joined(a, b, ',');
    lemma_entries_concat(split(a, ','), split(b, ','));
}

proof fn lemma_digits_lack(s: Seq<char>, c: char)
    requires
        all_digits(s),
        !is_digit(c),
    ensures
        forall|i: int| 0 <= i < s.len() ==> s[i] != c,
{
    assert forall|i: int| 0 <= i < s.len() implies s[i] != c by {
        assert(is_digit(s[i]));
    }
}

/// A range as a CPU list writes it: one number where it holds one CPU.
pub open spec fn written_range(first: nat, last: nat) -> Seq<char> {
    if first == last {
        decimal(first)
    } else {
        decimal(first) + seq!['-'] + decimal(last)
    }
}

/// A list of ranges as it is written, with commas between them.
pub open spec fn written_list(ranges: Seq<(nat, nat)>) -> Seq<char>
    decreases ranges.len(),
{
    if ranges.len() == 0 {
        Seq::empty()
    } else if ranges.len() == 1 {
        written_range(ranges[0].0, ranges[0].1)
    } else {
        written_list(ranges.drop_last()) + seq![','] + written_range(
            ranges.last().0,
            ranges.last().1,
        )
    }
}

/// The CPUs of a list of ranges.
pub open spec fn ranges_cpus(ranges: Seq<(nat, nat)>) -> Seq<usize>
    decreases ranges.len(),
{
    if ranges.len() == 0 {
        Seq::empty()
    } else {
        ranges_cpus(ranges.drop_last()) + cpu_range(ranges.last().0, ranges.last().1)
    }
}

/// A written range reads back as its CPUs.
pub proof fn written_range_reads_back(first: nat, last: nat)
    requires
        first <= usize::MAX,
        last <= usize::MAX,
    ensures
        cpu_list(written_range(first, last)) == cpu_range(first, last),
{
    decimal_is_digits(first);
    decimal_is_digits(last);
    decimal_reads_back(first);
    decimal_reads_back(last);
    let a = decimal(first);
    let b = decimal(last);
    lemma_digits_lack(a, ',');
    lemma_digits_lack(b, ',');
    lemma_digits_lack(a, '-');
    lemma_digits_lack(b, '-');
    assert(is_digit(a[0]) && is_digit(a.last()) && is_digit(b[0]) && is_digit(b.last()));
    let s = written_range(first, last);
    assert(!is_white(s[0]) && !is_white(s.last()));
    lemma_trim_keeps(s);
    assert forall|i: int| 0 <= i < s.len() implies s[i] != ',' by {
        if first != last && i > a.len() {
            assert(s[i] == b[i - a.len() - 1]);
        }
    }
    lemma_find_within(s, Seq::empty(), ',');
    assert(split(s, ',') == seq![s]);
    lemma_entries_of_one(s);
    if first == last {
        lemma_find_within(s, Seq::empty(), '-');
        assert(cpu_range(first, last) =~= seq![first as usize]);
    } else {
        lemma_find_after(a, seq!['-'] + b, '-');
        assert(s == a + (seq!['-'] + b));
        assert((seq!['-'] + b)[0] == '-');
        assert(s.take(a.len() as int) == a);
        assert(s.skip(a.len() as int + 1) == b);
    }
}

/// A written list reads back as its CPUs, in order.
pub proof fn written_list_reads_back(ranges: Seq<(nat, nat)>)
    requires
        forall|i: int|
            0 <= i < ranges.len() ==> (#[trigger] ranges[i]).0 <= usize::MAX && ranges[i].1
                <= usize::MAX,
    ensures
        cpu_list(written_list(ranges)) == ranges_cpus(ranges),
    decreases ranges.len(),
{
    if ranges.len() == 0 {
        lemma_entries_of_one(Seq::empty());
        lemma_trim_keeps(Seq::empty());
        lemma_find_within(Seq::empty(), Seq::empty(), '-');
        assert(split(Seq::<char>::empty(), ',') == seq![Seq::<char>::empty()]);
        assert(cpu_list(Seq::<char>::empty()) == Seq::<usize>::empty());
    } else if ranges.len() == 1 {
        written_range_reads_back(ranges[0].0, ranges[0].1);
        assert(ranges.drop_last() == Seq::<(nat, nat)>::empty());
        reveal_with_fuel(ranges_cpus, 2);
        assert(Seq::<usize>::empty() + cpu_range(ranges[0].0, ranges[0].1) == cpu_range(
            ranges[0].0,
            ranges[0].1,
        ));
    } else {
        written_list_reads_back(ranges.drop_last());
        written_range_reads_back(ranges.last().0, ranges.last().1);
        comma_joins_lists(
            written_list(ranges.drop_last()),
            written_range(ranges.last().0, ranges.last().1),
        );
    }
}

/// One entry of a list: a number names that CPU, two numbers with a hyphen between them name the CPUs
/// from the one through the other, and anything else names none. White space around the entry does
/// not count.
pub proof fn entry_names_its_cpus(entry: Seq<char>)
    requires
        !entry.contains(','),
    ensures
        ({
            let text = trim(entry);
            let cpus = cpu_list(entry);
            match split_once(text, '-') {
                None => match parse_up_to(text, usize::MAX as nat) {
                    Some(n) => cpus.len() == 1 && cpus[0] == n,
                    None => cpus.len() == 0,
                },
                Some((a, b)) => match (
                    parse_up_to(a, usize::MAX as nat),
                    parse_up_to(b, usize::MAX as nat),
                ) {
                    (Some(first), Some(last)) => {
                        &&& cpus.len() == if first <= last {
                            last - first + 1
                        } else {
                            0
                        }
                        &&& forall|k: int| 0 <= k < cpus.len() ==> #[trigger] cpus[k] == first + k
                    },
                    _ => cpus.len() == 0,
                },
            }
        }),
{
    let text = trim(entry);
    trimming_takes_off_the_white_ends(entry);
    let (a, b) = choose|a: int, b: int|
        #![trigger entry.subrange(a, b)]
        {
            &&& 0 <= a <= b <= entry.len()
            &&& trim(entry) == entry.subrange(a, b)
            &&& forall|i: int| 0 <= i < a || b <= i < entry.len() ==> is_white(#[trigger] entry[i])
            &&& a < b ==> !is_white(entry[a]) && !is_white(entry[b - 1])
        };
    if text.contains(',') {
        let k = choose|k: int| 0 <= k < text.len() && text[k] == ',';
        assert(entry[a + k] == ',');
    }
    if text.len() > 0 {
        assert(text[0] == entry[a]);
        assert(text[text.len() - 1] == entry[b - 1]);
    }
    lemma_trim_keeps(text);
    lemma_find_within(text, Seq::empty(), ',');
    if find(text, ',') < text.len() {
        assert(text.contains(text[find(text, ',') as int]));
    }
    assert(split(text, ',') =~= seq![text]);
    lemma_entries_of_one(text);
}

} // verus!
