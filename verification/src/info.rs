//! Metadata of the machine that explains benchmark results.

use vstd::prelude::*;
use crate::sorted::TextMap;
use crate::text::{
    chars_of, decimal_of, joined, lines_of, parse_u64, push_decimal, string_of, trimmed, words_of,
};
use crate::topology::{CpuCoreClass, CpuTopology};
#[allow(unused_imports)]
use crate::text::{
    decimal, decimal_is_digits, decimal_reads_back, digit_char, digits_make_numbers, join,
    is_digit, join_of_two, lines, parse_nat, parse_up_to, slice_views, string_views, trim, words,
};

verus! {

/// What is known of the CPUs.
pub struct CpuInfo {
    pub logical_cpus: usize,
    pub physical_cores: Option<usize>,
    pub details: TextMap,
}

/// What is known of the memory.
#[derive(Debug, Clone, Copy, PartialEq, Eq, Structural)]
pub struct MemoryInfo {
    pub total_bytes: Option<u64>,
}

/// What is known of the storage behind a path.
#[derive(Debug)]
pub struct IoInfo {
    pub path: String,
    /// The type of the file system.
    pub filesystem: Option<String>,
    pub total_bytes: Option<u64>,
    pub available_bytes: Option<u64>,
}

/// A number of KiB whose bytes cannot be counted in 64 bits.
#[derive(Debug, Clone, Copy, PartialEq, Eq, Structural)]
pub struct SizeOverflow;

/// The bytes of `kib` KiB, where they can be counted in 64 bits.
pub open spec fn kib_bytes(kib: nat) -> Result<u64, SizeOverflow> {
    if kib * 1024 <= u64::MAX {
        Ok((kib * 1024) as u64)
    } else {
        Err(SizeOverflow)
    }
}

/// The bytes of `kib` KiB.
pub fn bytes_of_kib(kib: u64) -> (r: Result<u64, SizeOverflow>)
    ensures
        r == kib_bytes(kib as nat),
{
    match kib.checked_mul(1024) {
        Some(bytes) => Ok(bytes),
        None => Err(SizeOverflow),
    }
}

/// The fields of the last line of the output of `df`; none where there is no such line.
pub open spec fn df_fields(output: Option<Seq<char>>) -> Seq<Seq<char>> {
    match output {
        Some(text) => if lines(text).len() > 0 {
            words(lines(text).last())
        } else {
            Seq::empty()
        },
        None => Seq::empty(),
    }
}

/// The bytes that a field gives in KiB, where it is a number.
pub open spec fn field_bytes(field: Seq<char>) -> Result<Option<u64>, SizeOverflow> {
    match parse_up_to(field, u64::MAX as nat) {
        Some(kib) => match kib_bytes(kib) {
            Ok(bytes) => Ok(Some(bytes)),
            Err(e) => Err(e),
        },
        None => Ok(None),
    }
}

fn bytes_of_field(field: &[char]) -> (r: Result<Option<u64>, SizeOverflow>)
    ensures
        r == field_bytes(field@),
{
    match parse_u64(field) {
        Some(kib) => match bytes_of_kib(kib) {
            Ok(bytes) => Ok(Some(bytes)),
            Err(e) => Err(e),
        },
        None => Ok(None),
    }
}

/// The text of an optional string.
pub open spec fn optional_text(text: Option<String>) -> Option<Seq<char>> {
    match text {
        Some(s) => Some(s@),
        None => None,
    }
}

fn fields_of_df(output: &str) -> (r: Vec<String>)
    ensures
        string_views(r@) == df_fields(Some(output@)),
{
    let mut out: Vec<String> = Vec::new();
    let chars = chars_of(output);
    let all = lines_of(chars.as_slice());
    assert(slice_views(all@).len() == all@.len());
    if all.len() > 0 {
        let line = all[all.len() - 1];
        assert(slice_views(all@).last() == line@);
        let fields = words_of(line);
        for i in 0..fields.len()
            invariant
                out@.len() == i,
                forall|k: int| 0 <= k < i ==> (#[trigger] out@[k])@ == fields@[k]@,
        {
            out.push(string_of(fields[i]));
        }
        assert(string_views(out@) =~= slice_views(fields@));
    }
    assert(string_views(out@) =~= df_fields(Some(output@)));
    out
}

/// The type of the file system behind a path, as `df` gives it where it is asked for types: the
/// second field of the last line, unless that has fewer than five fields.
pub fn filesystem_type(typed_df_output: &Option<String>) -> (r: Option<String>)
    ensures
        ({
            let fields = df_fields(optional_text(*typed_df_output));
            optional_text(r) == if fields.len() >= 5 {
                Some(fields[1])
            } else {
                None
            }
        }),
{
    match typed_df_output {
        Some(text) => {
            let fields = fields_of_df(text.as_str());
            assert(string_views(fields@).len() == fields@.len());
            if fields.len() >= 5 {
                assert(string_views(fields@)[1] == fields@[1]@);
                Some(fields[1].clone())
            } else {
                None
            }
        },
        None => None,
    }
}

/// The name of a file system type without the white space around it, where something is left.
pub open spec fn trimmed_type(text: Option<Seq<char>>) -> Option<Seq<char>> {
    match text {
        Some(name) if trim(name).len() > 0 => Some(trim(name)),
        _ => None,
    }
}

fn name_of_type(text: &Option<String>) -> (r: Option<String>)
    ensures
        optional_text(r) == trimmed_type(optional_text(*text)),
{
    match text {
        Some(name) => {
            let chars = chars_of(name.as_str());
            let name = trimmed(chars.as_slice());
            if name.len() > 0 {
                Some(string_of(name))
            } else {
                None
            }
        },
        None => None,
    }
}

/// What is known of the storage behind a path: the type of its file system, where that was found
/// out, and the size and what is available, which the last line of the output of `df` gives in KiB.
/// Nothing is known where `df` could not be run or that line has fewer than four fields.
pub fn io_info(
    path: &str,
    df_output: &Option<String>,
    filesystem_type: &Option<String>,
) -> (r: Result<IoInfo, SizeOverflow>)
    ensures
        ({
            let fields = df_fields(optional_text(*df_output));
            match r {
                Ok(info) => {
                    &&& info.path@ == path@
                    &&& if fields.len() >= 4 {
                        &&& optional_text(info.filesystem) == trimmed_type(
                            optional_text(*filesystem_type),
                        )
                        &&& field_bytes(fields[1]) == Ok::<_, SizeOverflow>(info.total_bytes)
                        &&& field_bytes(fields[3]) == Ok::<_, SizeOverflow>(info.available_bytes)
                    } else {
                        &&& info.filesystem is None
                        &&& info.total_bytes is None
                        &&& info.available_bytes is None
                    }
                },
                Err(_) => fields.len() >= 4 && (field_bytes(fields[1]) is Err || field_bytes(
                    fields[3],
                ) is Err),
            }
        }),
{
    let mut info = IoInfo {
        path: path.to_string(),
        filesystem: None,
        total_bytes: None,
        available_bytes: None,
    };
    if let Some(text) = df_output {
        let fields = fields_of_df(text.as_str());
        assert(string_views(fields@).len() == fields@.len());
        if fields.len() >= 4 {
            assert(string_views(fields@)[1] == fields@[1]@);
            assert(string_views(fields@)[3] == fields@[3]@);
            info.filesystem = name_of_type(filesystem_type);
            match bytes_of_field(chars_of(fields[1].as_str()).as_slice()) {
                Ok(bytes) => {
                    info.total_bytes = bytes;
                },
                Err(e) => {
                    return Err(e);
                },
            }
            match bytes_of_field(chars_of(fields[3].as_str()).as_slice()) {
                Ok(bytes) => {
                    info.available_bytes = bytes;
                },
                Err(e) => {
                    return Err(e);
                },
            }
        }
    }
    Ok(info)
}

/// How a core class is described.
pub open spec fn class_text(class: CpuCoreClass) -> Seq<char> {
    class.id@ + ": "@ + decimal(class.logical_cpus@.len()) + " logical / "@ + decimal(
        class.physical_cores as nat,
    ) + " physical"@
}

/// How the core classes are described.
pub open spec fn classes_text(classes: Seq<CpuCoreClass>) -> Seq<char> {
    join(classes.map_values(|class: CpuCoreClass| class_text(class)), ", "@)
}

fn describe_class(class: &CpuCoreClass) -> (r: String)
    ensures
        r@ == class_text(*class),
{
    let mut out = class.id.clone();
    out.append(": ");
    push_decimal(&mut out, class.logical_cpus.len() as u64);
    out.append(" logical / ");
    push_decimal(&mut out, class.physical_cores as u64);
    out.append(" physical");
    out
}

fn describe_classes(classes: &Vec<CpuCoreClass>) -> (r: String)
    ensures
        r@ == classes_text(classes@),
{
    let mut parts: Vec<String> = Vec::new();
    for i in 0..classes.len()
        invariant
            parts@.len() == i,
            forall|k: int| 0 <= k < i ==> (#[trigger] parts@[k])@ == class_text(classes@[k]),
    {
        parts.push(describe_class(&classes[i]));
    }
    assert(string_views(parts@) =~= classes@.map_values(|class: CpuCoreClass| class_text(class)));
    joined(&parts, ", ")
}

/// What is known of the CPUs: the topology, the physical cores that the platform reported, or
/// else those of the topology, and the platform's details with two of the topology beside them.
pub fn cpu_info(
    topology: &CpuTopology,
    reported_physical_cores: Option<usize>,
    details: TextMap,
) -> (r: CpuInfo)
    requires
        details.wf(),
    ensures
        r.logical_cpus == topology.logical_cpus@.len(),
        r.physical_cores == match reported_physical_cores {
            Some(cores) => Some(cores),
            None => Some(topology.physical_cores),
        },
        r.details.wf(),
        forall|k: Seq<char>, v: Seq<char>| #[trigger]
            r.details.maps(k, v) <==> if k == "topology source"@ {
                v == topology.source@
            } else if k == "core classes"@ {
                v == classes_text(topology.core_classes@)
            } else {
                details.maps(k, v)
            },
{
    proof {
        reveal_strlit("topology source");
        reveal_strlit("core classes");
        assert("topology source"@.len() != "core classes"@.len());
    }
    let mut details = details;
    details.insert("topology source".to_string(), topology.source.clone());
    details.insert("core classes".to_string(), describe_classes(&topology.core_classes));
    CpuInfo {
        logical_cpus: topology.logical_cpus.len(),
        physical_cores: match reported_physical_cores {
            Some(cores) => Some(cores),
            None => Some(topology.physical_cores),
        },
        details,
    }
}

/// What is known of the machine.
pub struct SystemInfo {
    pub cpu: CpuInfo,
    pub memory: MemoryInfo,
    pub io: IoInfo,
}

/// What is known of the machine.
pub fn system_info(cpu: CpuInfo, memory: MemoryInfo, io: IoInfo) -> (r: SystemInfo)
    ensures
        r == (SystemInfo { cpu, memory, io }),
{
    SystemInfo { cpu, memory, io }
}

/// `n / d` rounded to the nearest integer, and from halfway between two to the even one.
pub open spec fn rounded(n: nat, d: nat) -> nat {
    let q = n / d;
    if 2 * (n % d) > d || (2 * (n % d) == d && q % 2 == 1) {
        q + 1
    } else {
        q
    }
}

/// The distance of the 53-bit numbers around `n`.
pub open spec fn precision(n: nat) -> nat
    decreases n,
{
    if n < 0x20_0000_0000_0000 {
        1
    } else {
        2 * precision(n / 2)
    }
}

/// The number of 53 significant bits that is nearest to `n`.
pub open spec fn nearest_float(n: nat) -> nat {
    rounded(n, precision(n)) * precision(n)
}

/// A size in hundredths of a GiB.
pub open spec fn gib_hundredths(bytes: nat) -> nat {
    rounded(nearest_float(bytes) * 100, 0x4000_0000)
}

/// A size in GiB, with two digits behind the point.
pub open spec fn gib_text(bytes: nat) -> Seq<char> {
    let hundredths = gib_hundredths(bytes);
    decimal(hundredths / 100) + "."@ + seq![
        digit_char(hundredths / 10 % 10),
        digit_char(hundredths % 10),
    ] + " GiB"@
}

fn round(n: u128, d: u128) -> (r: u128)
    requires
        0 < d <= u64::MAX,
        n < u128::MAX,
    ensures
        r == rounded(n as nat, d as nat),
{
    let q: u128 = n / d;
    let rest: u128 = n % d;
    proof {
        vstd::arithmetic::div_mod::lemma_mod_bound(n as int, d as int);
        vstd::arithmetic::div_mod::lemma_div_is_ordered_by_denominator(n as int, 1, d as int);
        vstd::arithmetic::div_mod::lemma_div_basics(n as int);
    }
    if 2 * rest > d || (2 * rest == d && q % 2 == 1) {
        q + 1
    } else {
        q
    }
}

fn precision_of(n: u64) -> (r: u64)
    ensures
        r == precision(n as nat),
        1 <= r,
        r == 1 || r * 0x10_0000_0000_0000 <= n,
    decreases n,
{
    if n < 0x20_0000_0000_0000 {
        1
    } else {
        2 * precision_of(n / 2)
    }
}

/// `bytes` in GiB, with two digits behind the point.
pub fn format_bytes(bytes: u64) -> (r: String)
    ensures
        r@ == gib_text(bytes as nat),
{
    let unit: u64 = precision_of(bytes);
    let units: u128 = round(bytes as u128, unit as u128);
    proof {
        let n = bytes as int;
        let d = unit as int;
        vstd::arithmetic::div_mod::lemma_fundamental_div_mod(n, d);
        vstd::arithmetic::div_mod::lemma_mod_bound(n, d);
        assert(units * d <= (n / d + 1) * d) by (nonlinear_arith)
            requires
                units <= n / d + 1,
                d >= 1,
        ;
        assert((n / d + 1) * d == d * (n / d) + d) by (nonlinear_arith);
    }
    let float: u128 = units * (unit as u128);
    let hundredths: u128 = round(float * 100, 0x4000_0000);
    proof {
        assert(hundredths <= float * 100 / 0x4000_0000 + 1);
    }
    let whole: u64 = (hundredths / 100) as u64;
    let tenth: u8 = (hundredths / 10 % 10) as u8;
    let hundredth: u8 = (hundredths % 10) as u8;
    let mut out = decimal_of(whole);
    out.append(".");
    let ghost head = out@;
    out.push((48 + tenth) as char);
    out.push((48 + hundredth) as char);
    assert(out@ =~= head + seq![digit_char(tenth as nat), digit_char(hundredth as nat)]);
    out.append(" GiB");
    out
}

/// A size that 53 bits can hold is shown to the nearest hundredth of a GiB.
pub proof fn shown_size_is_nearest(bytes: nat)
    requires
        bytes < 0x20_0000_0000_0000,
    ensures
        2 * (gib_hundredths(bytes) * 0x4000_0000 - bytes * 100) <= 0x4000_0000,
        2 * (bytes * 100 - gib_hundredths(bytes) * 0x4000_0000) <= 0x4000_0000,
{
    assert(precision(bytes) == 1);
    assert(rounded(bytes, 1) == bytes);
    assert(nearest_float(bytes) == bytes);
    let n = bytes * 100;
    assert(n == 0x4000_0000 * (n / 0x4000_0000) + n % 0x4000_0000);
}

/// A number of KiB makes 1024 times as many bytes, and an error exactly where 64 bits cannot hold
/// them.
pub proof fn kib_are_1024_bytes(kib: nat)
    ensures
        match kib_bytes(kib) {
            Ok(bytes) => bytes == kib * 1024,
            Err(_) => kib * 1024 >= 0x1_0000_0000_0000_0000,
        },
{
}

/// The fields are the words of the last line; where there is no output or no line there are none.
pub proof fn fields_are_the_words_of_the_last_line(text: Seq<char>, earlier: Seq<Seq<char>>, last: Seq<char>)
    ensures
        lines(text) == earlier.push(last) ==> df_fields(Some(text)) == words(last),
        lines(text).len() == 0 ==> df_fields(Some(text)).len() == 0,
        df_fields(None).len() == 0,
{
}

/// A field that is a number below 2^64 gives 1024 times that many bytes, an error where 64 bits
/// cannot hold them, and any other field gives none.
pub proof fn fields_are_read_in_kib(field: Seq<char>)
    ensures
        match parse_nat(field) {
            Some(kib) => if kib * 1024 < 0x1_0000_0000_0000_0000 {
                field_bytes(field) == Ok::<_, SizeOverflow>(Some((kib * 1024) as u64))
            } else if kib < 0x1_0000_0000_0000_0000 {
                field_bytes(field) == Err::<Option<u64>, _>(SizeOverflow)
            } else {
                field_bytes(field) == Ok::<Option<u64>, SizeOverflow>(None)
            },
            None => field_bytes(field) == Ok::<Option<u64>, SizeOverflow>(None),
        },
{
}

/// The type of a file system is known exactly where its name has more than white space, and then
/// without the white space around it.
pub proof fn type_is_trimmed(name: Seq<char>)
    ensures
        match trimmed_type(Some(name)) {
            Some(shown) => shown == trim(name) && shown.len() > 0,
            None => trim(name).len() == 0,
        },
        trimmed_type(None) is None,
{
}

/// In the description of a core class the number before ` logical` reads back as the number of its
/// logical CPUs, and the one before ` physical` as the number of its physical cores.
pub proof fn class_numbers_read_back(class: CpuCoreClass, a: Seq<char>, b: Seq<char>)
    ensures
        exists|logical: Seq<char>, physical: Seq<char>|
            {
                &&& class_text(class) == #[trigger] (class.id@ + ": "@ + logical + " logical / "@
                    + physical + " physical"@)
                &&& parse_nat(logical) == Some(class.logical_cpus@.len())
                &&& parse_nat(physical) == Some(class.physical_cores as nat)
            },
        class_text(class) == class.id@ + ": "@ + a + " logical / "@ + b + " physical"@ && parse_nat(
            a,
        ) is Some && parse_nat(b) is Some ==> parse_nat(a) == Some(class.logical_cpus@.len())
            && parse_nat(b) == Some(class.physical_cores as nat),
{
    let logical = decimal(class.logical_cpus@.len());
    let physical = decimal(class.physical_cores as nat);
    decimal_reads_back(class.logical_cpus@.len());
    decimal_reads_back(class.physical_cores as nat);
    assert(class_text(class) == class.id@ + ": "@ + logical + " logical / "@ + physical
        + " physical"@);
    let front = class.id@ + ": "@;
    if class_text(class) == front + a + " logical / "@ + b + " physical"@ && parse_nat(a) is Some
        && parse_nat(b) is Some {
        reveal_strlit(" logical / ");
        reveal_strlit(" physical");
        let whole = class_text(class);
        let n = front.len() as int;
        lemma_no_space(logical);
        lemma_no_space(physical);
        lemma_no_space(a);
        lemma_no_space(b);
        let one = front + a + " logical / "@ + b + " physical"@;
        let two = front + logical + " logical / "@ + physical + " physical"@;
        assert(one =~= two);
        assert(one[n + a.len()] == ' ');
        assert(two[n + logical.len()] == ' ');
        if a.len() < logical.len() {
            assert(two[n + a.len()] == logical[a.len() as int]);
        }
        if logical.len() < a.len() {
            assert(one[n + logical.len()] == a[logical.len() as int]);
        }
        assert(a.len() == logical.len());
        assert(a =~= logical) by {
            assert forall|i: int| 0 <= i < a.len() implies a[i] == logical[i] by {
                assert(one[n + i] == a[i]);
                assert(two[n + i] == logical[i]);
            }
        }
        let m = n + a.len() + 11;
        assert(b.len() == physical.len());
        assert(b =~= physical) by {
            assert forall|i: int| 0 <= i < b.len() implies b[i] == physical[i] by {
                assert(one[m + i] == b[i]);
                assert(two[m + i] == physical[i]);
            }
        }
    }
}

/// No white space is part of a number.
proof fn lemma_no_space(number: Seq<char>)
    requires
        parse_nat(number) is Some,
    ensures
        forall|i: int| 0 <= i < number.len() ==> #[trigger] number[i] != ' ',
{
    assert forall|i: int| 0 <= i < number.len() implies #[trigger] number[i] != ' ' by {
        if number[0] == '+' {
            if i > 0 {
                assert(is_digit(number.skip(1)[i - 1]));
            }
        } else {
            assert(is_digit(number[i]));
        }
    }
}

/// The classes are described one after the other, with a comma and a space between neighbours.
pub proof fn classes_are_described_in_order(classes: Seq<CpuCoreClass>, class: CpuCoreClass)
    ensures
        classes_text(Seq::<CpuCoreClass>::empty()).len() == 0,
        classes_text(classes.push(class)) == if classes.len() == 0 {
            class_text(class)
        } else {
            classes_text(classes) + ", "@ + class_text(class)
        },
{
    let f = |class: CpuCoreClass| class_text(class);
    assert(classes.push(class).map_values(f) =~= classes.map_values(f) + seq![class_text(class)]);
    assert(Seq::<CpuCoreClass>::empty().map_values(f) =~= Seq::<Seq<char>>::empty());
    if classes.len() == 0 {
        assert(classes.push(class).map_values(f) =~= seq![class_text(class)]);
    } else {
        join_of_two(classes.map_values(f), seq![class_text(class)], ", "@);
    }
}

/// Rounding goes to a nearest whole number, and from halfway between two to the even one.
pub proof fn rounding_goes_to_the_nearest(n: nat, d: nat)
    requires
        d > 0,
    ensures
        ({
            let over = rounded(n, d) * d - n;
            &&& -(d as int) <= 2 * over <= d
            &&& 2 * over == d || 2 * over == -(d as int) ==> rounded(n, d) % 2 == 0
        }),
{
    let q = n / d;
    vstd::arithmetic::div_mod::lemma_fundamental_div_mod(n as int, d as int);
    vstd::arithmetic::div_mod::lemma_mod_bound(n as int, d as int);
    assert(d * q == q * d) by (nonlinear_arith);
    assert((q + 1) * d == q * d + d) by (nonlinear_arith);
}

/// The distance of the 53-bit numbers around `n` is the power of two of which `n` holds at least
/// 2^52 and less than 2^53, and one below that.
pub proof fn precision_leaves_53_bits(n: nat)
    ensures
        n < 0x20_0000_0000_0000 ==> precision(n) == 1,
        n >= 0x10_0000_0000_0000 ==> precision(n) * 0x10_0000_0000_0000 <= n < precision(n)
            * 0x20_0000_0000_0000,
        exists|k: nat| precision(n) == #[trigger] vstd::arithmetic::power2::pow2(k),
    decreases n,
{
    vstd::arithmetic::power2::lemma2_to64();
    if n < 0x20_0000_0000_0000 {
        assert(precision(n) == vstd::arithmetic::power2::pow2(0));
    } else {
        precision_leaves_53_bits(n / 2);
        let k = choose|k: nat| precision(n / 2) == #[trigger] vstd::arithmetic::power2::pow2(k);
        vstd::arithmetic::power2::lemma_pow2_unfold(k + 1);
        assert(precision(n) == vstd::arithmetic::power2::pow2(k + 1));
    }
}

/// The float nearest to a number is a multiple of the distance of the floats around it, half that
/// distance away at most, and from halfway the even multiple.
pub proof fn nearest_float_is_nearest(n: nat)
    ensures
        ({
            let over = nearest_float(n) - n;
            &&& nearest_float(n) % precision(n) == 0
            &&& -(precision(n) as int) <= 2 * over <= precision(n)
            &&& 2 * over == precision(n) || 2 * over == -(precision(n) as int) ==> (nearest_float(n)
                / precision(n)) % 2 == 0
        }),
{
    precision_leaves_53_bits(n);
    let p = precision(n);
    assert(p > 0);
    rounding_goes_to_the_nearest(n, p);
    vstd::arithmetic::div_mod::lemma_mod_multiples_basic(rounded(n, p) as int, p as int);
    vstd::arithmetic::div_mod::lemma_div_multiples_vanish(rounded(n, p) as int, p as int);
    assert(p * rounded(n, p) == rounded(n, p) * p) by (nonlinear_arith);
}

/// A size is shown in hundredths of a GiB: the digits before and behind the point together read back
/// as the whole number of them that is nearest to the float of the size, and two digits stand behind
/// the point.
pub proof fn shown_size_reads_back(bytes: nat)
    ensures
        exists|whole: Seq<char>, behind: Seq<char>|
            {
                &&& gib_text(bytes) == #[trigger] (whole + "."@ + behind + " GiB"@)
                &&& behind.len() == 2
                &&& parse_nat(whole + behind) == Some(gib_hundredths(bytes))
            },
        ({
            let over = gib_hundredths(bytes) * 0x4000_0000 - nearest_float(bytes) * 100;
            &&& -0x4000_0000 <= 2 * over <= 0x4000_0000
            &&& 2 * over == 0x4000_0000 || 2 * over == -0x4000_0000 ==> gib_hundredths(bytes) % 2
                == 0
        }),
{
    rounding_goes_to_the_nearest(nearest_float(bytes) * 100, 0x4000_0000);
    let h = gib_hundredths(bytes);
    let whole = decimal(h / 100);
    let tenth = digit_char(h / 10 % 10);
    let hundredth = digit_char(h % 10);
    decimal_reads_back(h / 100);
    digits_make_numbers(whole, tenth);
    digits_make_numbers(whole.push(tenth), hundredth);
    let behind = seq![tenth, hundredth];
    assert(whole + behind =~= whole.push(tenth).push(hundredth));
    assert(gib_text(bytes) == whole + "."@ + behind + " GiB"@);
}

/// A string that may be missing is seen as its text where it is there.
pub proof fn missing_text_is_seen(text: Option<String>)
    ensures
        match text {
            Some(s) => optional_text(text) == Some(s@),
            None => optional_text(text) is None,
        },
{
}

} // verus!
