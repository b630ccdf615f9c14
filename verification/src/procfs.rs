//! What `/proc/cpuinfo` and `/proc/meminfo` tell of the machine.

use vstd::prelude::*;
use crate::info::{MemoryInfo, SizeOverflow, bytes_of_kib};
use crate::sorted::{TextMap, TextSet};
use crate::text::{
    after_prefix, chars_of, joined, lines_of, parse_u64, split_at_first, split_on_text, string_of,
    text_is, trimmed, words_of,
};
#[allow(unused_imports)]
use crate::info::kib_bytes;
#[allow(unused_imports)]
use crate::order::ascending_texts;
#[allow(unused_imports)]
use crate::sorted::{ascending_is_ordered, ascending_repeats_none, ordered};
#[allow(unused_imports)]
use crate::text::{
    join, last_field, lines, parse_up_to, slice_views, split_text, strip_prefix, words,
};

verus! {

/// The value that a paragraph of `key: value` lines gives `key`.
pub open spec fn field(paragraph: Seq<char>, key: Seq<char>) -> Option<Seq<char>> {
    last_field(lines(paragraph), key)
}

/// The values that the paragraphs give `key`.
pub open spec fn field_values(paragraphs: Seq<Seq<char>>, key: Seq<char>) -> Set<Seq<char>> {
    Set::new(
        |v: Seq<char>|
            exists|i: int|
                0 <= i < paragraphs.len() && field(#[trigger] paragraphs[i], key) == Some(v),
    )
}

/// The core that a paragraph names, by package and core number with a colon between them.
pub open spec fn core_name(paragraph: Seq<char>) -> Option<Seq<char>> {
    match (field(paragraph, "physical id"@), field(paragraph, "core id"@)) {
        (Some(package), Some(core)) => Some(package + ":"@ + core),
        _ => None,
    }
}

/// The cores that the paragraphs name.
pub open spec fn core_names(paragraphs: Seq<Seq<char>>) -> Set<Seq<char>> {
    Set::new(
        |n: Seq<char>|
            exists|i: int|
                0 <= i < paragraphs.len() && core_name(#[trigger] paragraphs[i]) == Some(n),
    )
}

/// The fields of `/proc/cpuinfo` that are reported.
pub open spec fn is_reported(key: Seq<char>) -> bool {
    ||| key == "model name"@
    ||| key == "vendor_id"@
    ||| key == "cpu family"@
    ||| key == "model"@
    ||| key == "stepping"@
    ||| key == "cpu MHz"@
    ||| key == "cache size"@
}

/// Is `value` what is reported of `key`: its different values in ascending order?
pub open spec fn is_detail(paragraphs: Seq<Seq<char>>, key: Seq<char>, value: Seq<char>) -> bool {
    &&& field_values(paragraphs, key) != Set::<Seq<char>>::empty()
    &&& value == join(ordered(field_values(paragraphs, key)), ", "@)
}

/// The value that a paragraph of `key: value` lines gives `key`.
fn field_of(paragraph: &[char], key: &str) -> (r: Option<String>)
    ensures
        match r {
            Some(v) => field(paragraph@, key@) == Some(v@),
            None => field(paragraph@, key@) is None,
        },
{
    let all = lines_of(paragraph);
    let ghost views = slice_views(all@);
    let mut found: Option<String> = None;
    for i in 0..all.len()
        invariant
            views == slice_views(all@),
            match found {
                Some(v) => last_field(views.take(i as int), key@) == Some(v@),
                None => last_field(views.take(i as int), key@) is None,
            },
    {
        assert(views.take(i + 1).drop_last() == views.take(i as int));
        assert(views.take(i + 1).last() == all@[i as int]@);
        if let Some((name, value)) = split_at_first(all[i], ':') {
            if text_is(trimmed(name), key) {
                found = Some(string_of(trimmed(value)));
            }
        }
    }
    assert(views.take(views.len() as int) == views);
    found
}

/// Reports `key`, where some paragraph gives it a value.
fn collect_detail(paragraphs: &Vec<&[char]>, key: &str, details: &mut TextMap)
    requires
        old(details).wf(),
        forall|k: Seq<char>, v: Seq<char>| #[trigger]
            old(details).maps(k, v) ==> is_detail(slice_views(paragraphs@), k, v),
    ensures
        final(details).wf(),
        forall|k: Seq<char>, v: Seq<char>| #[trigger]
            final(details).maps(k, v) <==> old(details).maps(k, v) || (k == key@ && is_detail(
                slice_views(paragraphs@),
                k,
                v,
            )),
{
    let ghost views = slice_views(paragraphs@);
    let mut values = TextSet::new();
    assert(field_values(views.take(0), key@) =~= Set::<Seq<char>>::empty());
    for i in 0..paragraphs.len()
        invariant
            views == slice_views(paragraphs@),
            values.wf(),
            values.members() == field_values(views.take(i as int), key@),
    {
        assert(views[i as int] == paragraphs@[i as int]@);
        let found = field_of(paragraphs[i], key);
        proof {
            lemma_field_values_step(views, key@, i as int);
        }
        if let Some(v) = found {
            values.insert(v);
        }
    }
    assert(views.take(views.len() as int) == views);
    if values.items.len() > 0 {
        proof {
            ascending_is_ordered(values.sequence());
            assert(values.members().contains(values.sequence()[0]));
        }
        let text = joined(&values.items, ", ");
        details.insert(key.to_string(), text);
    } else {
        assert(values.sequence().to_set() =~= Set::<Seq<char>>::empty());
    }
}

proof fn lemma_field_values_step(paragraphs: Seq<Seq<char>>, key: Seq<char>, i: int)
    requires
        0 <= i < paragraphs.len(),
    ensures
        field_values(paragraphs.take(i + 1), key) == match field(paragraphs[i], key) {
            Some(v) => field_values(paragraphs.take(i), key).insert(v),
            None => field_values(paragraphs.take(i), key),
        },
{
    let before = paragraphs.take(i);
    let after = paragraphs.take(i + 1);
    let expected = match field(paragraphs[i], key) {
        Some(v) => field_values(before, key).insert(v),
        None => field_values(before, key),
    };
    assert forall|v: Seq<char>| #[trigger]
        field_values(after, key).contains(v) <==> expected.contains(v) by {
        if field_values(after, key).contains(v) {
            let k = choose|k: int| 0 <= k < after.len() && field(#[trigger] after[k], key) == Some(v);
            if k < i {
                assert(before[k] == after[k]);
            }
        }
        if field_values(before, key).contains(v) {
            let k = choose|k: int|
                0 <= k < before.len() && field(#[trigger] before[k], key) == Some(v);
            assert(after[k] == before[k]);
        }
        if field(paragraphs[i], key) == Some(v) {
            assert(after[i] == paragraphs[i]);
        }
    }
    assert(field_values(after, key) =~= expected);
}

proof fn lemma_core_names_step(paragraphs: Seq<Seq<char>>, i: int)
    requires
        0 <= i < paragraphs.len(),
    ensures
        core_names(paragraphs.take(i + 1)) == match core_name(paragraphs[i]) {
            Some(n) => core_names(paragraphs.take(i)).insert(n),
            None => core_names(paragraphs.take(i)),
        },
{
    let before = paragraphs.take(i);
    let after = paragraphs.take(i + 1);
    let expected = match core_name(paragraphs[i]) {
        Some(n) => core_names(before).insert(n),
        None => core_names(before),
    };
    assert forall|n: Seq<char>| #[trigger]
        core_names(after).contains(n) <==> expected.contains(n) by {
        if core_names(after).contains(n) {
            let k = choose|k: int| 0 <= k < after.len() && core_name(#[trigger] after[k]) == Some(n);
            if k < i {
                assert(before[k] == after[k]);
            }
        }
        if core_names(before).contains(n) {
            let k = choose|k: int|
                0 <= k < before.len() && core_name(#[trigger] before[k]) == Some(n);
            assert(after[k] == before[k]);
        }
        if core_name(paragraphs[i]) == Some(n) {
            assert(after[i] == paragraphs[i]);
        }
    }
    assert(core_names(after) =~= expected);
}

/// The number of different cores that the paragraphs name.
fn count_cores(paragraphs: &Vec<&[char]>) -> (r: usize)
    ensures
        core_names(slice_views(paragraphs@)).finite(),
        r == core_names(slice_views(paragraphs@)).len(),
{
    let ghost views = slice_views(paragraphs@);
    let mut names = TextSet::new();
    assert(core_names(views.take(0)) =~= Set::<Seq<char>>::empty());
    for i in 0..paragraphs.len()
        invariant
            views == slice_views(paragraphs@),
            names.wf(),
            names.members() == core_names(views.take(i as int)),
    {
        assert(views[i as int] == paragraphs@[i as int]@);
        proof {
            lemma_core_names_step(views, i as int);
        }
        if let Some(package) = field_of(paragraphs[i], "physical id") {
            if let Some(core) = field_of(paragraphs[i], "core id") {
                let mut name = package;
                name.append(":");
                name.append(core.as_str());
                names.insert(name);
            }
        }
    }
    proof {
        assert(views.take(views.len() as int) == views);
        ascending_repeats_none(names.sequence());
        names.sequence().unique_seq_to_set();
        vstd::seq_lib::seq_to_set_is_finite(names.sequence());
        assert(names.items@.len() == names.sequence().len());
    }
    names.items.len()
}

/// What `/proc/cpuinfo` says: the number of cores, where it names any, and the reported fields.
pub fn cpu_details(contents: &str) -> (r: (Option<usize>, TextMap))
    ensures
        ({
            let paragraphs = split_text(contents@, "\n\n"@);
            &&& r.0 == if core_names(paragraphs).len() == 0 {
                None
            } else {
                Some(core_names(paragraphs).len() as usize)
            }
            &&& core_names(paragraphs).len() <= usize::MAX
            &&& r.1.wf()
            &&& forall|k: Seq<char>, v: Seq<char>| #[trigger]
                r.1.maps(k, v) <==> is_reported(k) && is_detail(paragraphs, k, v)
        }),
{
    let chars = chars_of(contents);
    let blank = chars_of("\n\n");
    proof {
        reveal_strlit("\n\n");
    }
    let paragraphs = split_on_text(chars.as_slice(), blank.as_slice());
    let mut details = TextMap::new();
    collect_detail(&paragraphs, "model name", &mut details);
    collect_detail(&paragraphs, "vendor_id", &mut details);
    collect_detail(&paragraphs, "cpu family", &mut details);
    collect_detail(&paragraphs, "model", &mut details);
    collect_detail(&paragraphs, "stepping", &mut details);
    collect_detail(&paragraphs, "cpu MHz", &mut details);
    collect_detail(&paragraphs, "cache size", &mut details);
    let cores: usize = count_cores(&paragraphs);
    if cores == 0 {
        (None, details)
    } else {
        (Some(cores), details)
    }
}

/// The KiB that a line of `/proc/meminfo` gives as the total.
pub open spec fn total_kib(line: Seq<char>) -> Option<nat> {
    match strip_prefix(line, "MemTotal:"@) {
        Some(rest) => if words(rest).len() > 0 {
            parse_up_to(words(rest)[0], u64::MAX as nat)
        } else {
            None
        },
        None => None,
    }
}

/// The KiB that the first line with a readable total gives.
pub open spec fn first_total_kib(lines: Seq<Seq<char>>) -> Option<nat>
    decreases lines.len(),
{
    if lines.len() == 0 {
        None
    } else {
        match total_kib(lines[0]) {
            Some(kib) => Some(kib),
            None => first_total_kib(lines.skip(1)),
        }
    }
}

/// The KiB that a line of `/proc/meminfo` gives as the total.
fn kib_of_line(line: &[char]) -> (r: Option<u64>)
    ensures
        match r {
            Some(kib) => total_kib(line@) == Some(kib as nat),
            None => total_kib(line@) is None,
        },
{
    let prefix = chars_of("MemTotal:");
    match after_prefix(line, prefix.as_slice()) {
        Some(rest) => {
            let tokens = words_of(rest);
            assert(tokens@.len() == slice_views(tokens@).len());
            if tokens.len() > 0 {
                assert(slice_views(tokens@)[0] == tokens@[0]@);
                parse_u64(tokens[0])
            } else {
                None
            }
        },
        None => None,
    }
}

/// The total memory that `/proc/meminfo` gives, where it could be read.
pub fn memory_info(contents: &Option<String>) -> (r: Result<MemoryInfo, SizeOverflow>)
    ensures
        r == match *contents {
            Some(text) => match first_total_kib(lines(text@)) {
                Some(kib) => match kib_bytes(kib) {
                    Ok(bytes) => Ok(MemoryInfo { total_bytes: Some(bytes) }),
                    Err(e) => Err(e),
                },
                None => Ok(MemoryInfo { total_bytes: None }),
            },
            None => Ok(MemoryInfo { total_bytes: None }),
        },
{
    match contents {
        Some(text) => {
            let chars = chars_of(text.as_str());
            let all = lines_of(chars.as_slice());
            let ghost views = slice_views(all@);
            assert(views.skip(0) == views);
            for i in 0..all.len()
                invariant
                    views == slice_views(all@),
                    views == lines(text@),
                    *contents == Some(*text),
                    first_total_kib(views) == first_total_kib(views.skip(i as int)),
            {
                assert(views.skip(i as int)[0] == all@[i as int]@);
                assert(views.skip(i as int).skip(1) == views.skip(i + 1));
                if let Some(kib) = kib_of_line(all[i]) {
                    return match bytes_of_kib(kib) {
                        Ok(bytes) => Ok(MemoryInfo { total_bytes: Some(bytes) }),
                        Err(e) => Err(e),
                    };
                }
            }
            Ok(MemoryInfo { total_bytes: None })
        },
        None => Ok(MemoryInfo { total_bytes: None }),
    }
}

/// The values of a field are those that the paragraphs give it, each paragraph by the last of its
/// lines for that field.
pub proof fn field_values_come_from_paragraphs(
    paragraphs: Seq<Seq<char>>,
    key: Seq<char>,
    value: Seq<char>,
)
    ensures
        field_values(paragraphs, key).contains(value) <==> exists|i: int|
            0 <= i < paragraphs.len() && last_field(lines(#[trigger] paragraphs[i]), key) == Some(
                value,
            ),
{
    if exists|i: int|
        0 <= i < paragraphs.len() && last_field(lines(#[trigger] paragraphs[i]), key) == Some(
            value,
        ) {
        let i = choose|i: int|
            0 <= i < paragraphs.len() && last_field(lines(#[trigger] paragraphs[i]), key) == Some(
                value,
            );
        assert(field(paragraphs[i], key) == Some(value));
    }
    if field_values(paragraphs, key).contains(value) {
        let i = choose|i: int|
            0 <= i < paragraphs.len() && field(#[trigger] paragraphs[i], key) == Some(value);
        assert(last_field(lines(paragraphs[i]), key) == Some(value));
    }
}

/// A core is named by each paragraph that has a package and a core number, and by both of them: two
/// paragraphs name the same core where package and number are the same, and, where no package number
/// holds a colon, only there.
pub proof fn cores_are_told_apart_by_package_and_number(
    p: Seq<char>,
    q: Seq<char>,
    package: Seq<char>,
    core: Seq<char>,
    other_package: Seq<char>,
    other_core: Seq<char>,
)
    requires
        last_field(lines(p), "physical id"@) == Some(package),
        last_field(lines(p), "core id"@) == Some(core),
        last_field(lines(q), "physical id"@) == Some(other_package),
        last_field(lines(q), "core id"@) == Some(other_core),
        !package.contains(':'),
        !other_package.contains(':'),
    ensures
        core_name(p) is Some,
        core_name(q) is Some,
        core_name(p) == core_name(q) <==> package == other_package && core == other_core,
{
    reveal_strlit(":");
    assert(":"@ =~= seq![':']);
    if core_name(p) == core_name(q) {
        let a = package + ":"@ + core;
        let b = other_package + ":"@ + other_core;
        assert(a == b);
        if package.len() < other_package.len() {
            assert(a[package.len() as int] == ':');
            assert(b[package.len() as int] == other_package[package.len() as int]);
        } else if other_package.len() < package.len() {
            assert(b[other_package.len() as int] == ':');
            assert(a[other_package.len() as int] == package[other_package.len() as int]);
        }
        assert(package =~= a.take(package.len() as int));
        assert(other_package =~= b.take(package.len() as int));
        assert(core =~= a.skip(package.len() as int + 1));
        assert(other_core =~= b.skip(package.len() as int + 1));
    }
}

/// The cores are those that the paragraphs name, and a paragraph without a package or a core number
/// names none.
pub proof fn paragraphs_name_the_cores(paragraphs: Seq<Seq<char>>, p: Seq<char>, name: Seq<char>)
    ensures
        core_names(paragraphs).contains(name) <==> exists|i: int|
            0 <= i < paragraphs.len() && core_name(#[trigger] paragraphs[i]) == Some(name),
        match (last_field(lines(p), "physical id"@), last_field(lines(p), "core id"@)) {
            (Some(package), Some(core)) => core_name(p) == Some(package + ":"@ + core),
            _ => core_name(p) is None,
        },
{
}

/// Seven fields are reported.
pub proof fn seven_fields_are_reported(key: Seq<char>)
    ensures
        is_reported(key) <==> seq![
            "model name"@,
            "vendor_id"@,
            "cpu family"@,
            "model"@,
            "stepping"@,
            "cpu MHz"@,
            "cache size"@,
        ].contains(key),
{
    let keys = seq![
        "model name"@,
        "vendor_id"@,
        "cpu family"@,
        "model"@,
        "stepping"@,
        "cpu MHz"@,
        "cache size"@,
    ];
    assert(keys[0] == "model name"@);
    assert(keys[1] == "vendor_id"@);
    assert(keys[2] == "cpu family"@);
    assert(keys[3] == "model"@);
    assert(keys[4] == "stepping"@);
    assert(keys[5] == "cpu MHz"@);
    assert(keys[6] == "cache size"@);
}

/// What is reported of a field is its different values in ascending order, with a comma and a space
/// between them, and nothing where it has none.
pub proof fn values_are_reported_in_order(
    paragraphs: Seq<Seq<char>>,
    key: Seq<char>,
    values: Seq<Seq<char>>,
    value: Seq<char>,
)
    requires
        ascending_texts(values),
        forall|v: Seq<char>| #[trigger]
            values.contains(v) <==> field_values(paragraphs, key).contains(v),
    ensures
        is_detail(paragraphs, key, value) <==> values.len() > 0 && value == join(values, ", "@),
{
    assert forall|v: Seq<char>| values.to_set().contains(v) <==> field_values(
        paragraphs,
        key,
    ).contains(v) by {
        assert(values.contains(v) <==> field_values(paragraphs, key).contains(v));
    }
    assert(values.to_set() =~= field_values(paragraphs, key));
    ascending_is_ordered(values);
    if values.len() > 0 {
        assert(values.contains(values[0]));
        assert(field_values(paragraphs, key).contains(values[0]));
    } else {
        assert(field_values(paragraphs, key) =~= Set::<Seq<char>>::empty());
    }
}

/// The total is given by the first line that begins with `MemTotal:` and goes on with a number as its
/// first word.
pub proof fn first_readable_total_counts(
    line: Seq<char>,
    later: Seq<Seq<char>>,
    rest: Seq<char>,
)
    ensures
        first_total_kib(seq![line] + later) == match total_kib(line) {
            Some(kib) => Some(kib),
            None => first_total_kib(later),
        },
        first_total_kib(Seq::<Seq<char>>::empty()) is None,
        words(rest).len() > 0 ==> total_kib("MemTotal:"@ + rest) == parse_up_to(
            words(rest)[0],
            u64::MAX as nat,
        ),
        words(rest).len() == 0 ==> total_kib("MemTotal:"@ + rest) is None,
        total_kib(line) is Some ==> exists|r: Seq<char>| line == #[trigger] ("MemTotal:"@ + r),
{
    assert((seq![line] + later).skip(1) =~= later);
    let text = "MemTotal:"@ + rest;
    assert(text.take("MemTotal:"@.len() as int) =~= "MemTotal:"@);
    assert(text.skip("MemTotal:"@.len() as int) =~= rest);
    if total_kib(line) is Some {
        assert(line =~= "MemTotal:"@ + line.skip("MemTotal:"@.len() as int));
    }
}

} // verus!
