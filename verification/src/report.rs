//! The terminal report, line by line. Measured numbers come in as texts.

use vstd::prelude::*;
use crate::chart::{push_chart_line, sparkline};
use crate::info::{format_bytes, SystemInfo};
use crate::paint::{Line, Style};
use crate::results::{
    CpuResult, CpuSequenceResult, CpuStageResult, IoResult, MemoryResult, NetworkResult,
    SuiteResult,
};
use crate::text::{
    chars_of, decimal_of, lines_of, padded_left, padded_right, push_decimal, push_repeated,
};
#[allow(unused_imports)]
use crate::chart::{chart_has_five_rows_and_labels, chart_lines, chart_spans};
#[allow(unused_imports)]
use crate::info::gib_text;
#[allow(unused_imports)]
use crate::paint::{line_view, pieces_are_written_in_order, plain_text, report_view};
#[allow(unused_imports)]
use crate::suite::present;
#[allow(unused_imports)]
use crate::text::{
    decimal, decimal_reads_back, pad_left, pad_right, parse_nat, repeated, slice_views,
};

verus! {

/// A line of a report: its pieces.
pub type LineView = Seq<(Style, Seq<char>)>;

fn push_line(out: &mut Vec<Line>, line: Line)
    ensures
        report_view(final(out)@) == report_view(old(out)@).push(line_view(line)),
{
    out.push(line);
    assert(report_view(out@) =~= report_view(old(out)@).push(line_view(line)));
}

fn no_lines() -> (r: Vec<Line>)
    ensures
        report_view(r@) == Seq::<LineView>::empty(),
{
    let r: Vec<Line> = Vec::new();
    assert(report_view(r@) =~= Seq::<LineView>::empty());
    r
}

/// The line between the progress messages and a report.
pub fn separator() -> (r: Line)
    ensures
        line_view(r) == seq![(Style::BrightBlack, repeated('┄', 62))],
{
    let mut text = String::new();
    push_repeated(&mut text, '┄', 62);
    assert(text@ =~= repeated('┄', 62));
    Line::of(Style::BrightBlack, text.as_str())
}

/// A part of a report: a benchmark, its score and its numbers.
#[derive(Debug)]
pub struct Section {
    pub name: &'static str,
    pub score: String,
    pub metrics: Vec<(&'static str, String)>,
}

/// The name, the score and the labelled numbers of a section.
pub type SectionView = (Seq<char>, Seq<char>, Seq<(Seq<char>, Seq<char>)>);

impl Section {
    pub open spec fn contents(&self) -> SectionView {
        (
            self.name@,
            self.score@,
            self.metrics@.map_values(|m: (&'static str, String)| (m.0@, m.1@)),
        )
    }

    fn new(name: &'static str, score: &String) -> (r: Self)
        ensures
            r.contents() == (name@, score@, Seq::<(Seq<char>, Seq<char>)>::empty()),
    {
        let r = Section { name, score: score.clone(), metrics: Vec::new() };
        assert(r.contents().2 =~= Seq::<(Seq<char>, Seq<char>)>::empty());
        r
    }

    fn add_metric(&mut self, label: &'static str, value: &String)
        ensures
            final(self).contents() == (
                old(self).contents().0,
                old(self).contents().1,
                old(self).contents().2.push((label@, value@)),
            ),
    {
        self.metrics.push((label, value.clone()));
        assert(self.contents().2 =~= old(self).contents().2.push((label@, value@)));
    }
}

/// The section of the CPU benchmark.
pub open spec fn cpu_contents(cpu: CpuResult<String>) -> SectionView {
    (
        "CPU"@,
        cpu.score@,
        seq![
            ("Single-thread score"@, cpu.single_thread_score@),
            ("All-logical score  "@, cpu.multi_thread_score@),
        ],
    )
}

/// The section of the CPU benchmark.
pub fn cpu_section(cpu: &CpuResult<String>) -> (r: Section)
    ensures
        r.contents() == cpu_contents(*cpu),
{
    let mut section = Section::new("CPU", &cpu.score);
    section.add_metric("Single-thread score", &cpu.single_thread_score);
    section.add_metric("All-logical score  ", &cpu.multi_thread_score);
    section
}

/// The section of the memory benchmark.
pub open spec fn memory_contents(memory: MemoryResult<String>) -> SectionView {
    (
        "MEMORY"@,
        memory.score@,
        seq![
            ("Seq Write MB/s     "@, memory.seq_write_mb_s@),
            ("Seq Read MB/s      "@, memory.seq_read_mb_s@),
            ("Rand Write MB/s    "@, memory.rand_write_mb_s@),
            ("Rand Read MB/s     "@, memory.rand_read_mb_s@),
        ],
    )
}

/// The section of the memory benchmark.
pub fn memory_section(memory: &MemoryResult<String>) -> (r: Section)
    ensures
        r.contents() == memory_contents(*memory),
{
    let mut section = Section::new("MEMORY", &memory.score);
    section.add_metric("Seq Write MB/s     ", &memory.seq_write_mb_s);
    section.add_metric("Seq Read MB/s      ", &memory.seq_read_mb_s);
    section.add_metric("Rand Write MB/s    ", &memory.rand_write_mb_s);
    section.add_metric("Rand Read MB/s     ", &memory.rand_read_mb_s);
    section
}

/// The section of the storage benchmark.
pub open spec fn io_contents(io: IoResult<String>) -> SectionView {
    (
        "IO"@,
        io.score@,
        seq![
            ("Seq Write MB/s     "@, io.seq_write_mb_s@),
            ("Seq Read MB/s      "@, io.seq_read_mb_s@),
            ("Rand Write MB/s    "@, io.rand_write_mb_s@),
            ("Rand Read MB/s     "@, io.rand_read_mb_s@),
            ("Seq Write IOPS     "@, io.seq_write_iops@),
            ("Seq Read IOPS      "@, io.seq_read_iops@),
            ("Rand Write IOPS    "@, io.rand_write_iops@),
            ("Rand Read IOPS     "@, io.rand_read_iops@),
        ],
    )
}

/// The section of the storage benchmark.
pub fn io_section(io: &IoResult<String>) -> (r: Section)
    ensures
        r.contents() == io_contents(*io),
{
    let mut section = Section::new("IO", &io.score);
    section.add_metric("Seq Write MB/s     ", &io.seq_write_mb_s);
    section.add_metric("Seq Read MB/s      ", &io.seq_read_mb_s);
    section.add_metric("Rand Write MB/s    ", &io.rand_write_mb_s);
    section.add_metric("Rand Read MB/s     ", &io.rand_read_mb_s);
    section.add_metric("Seq Write IOPS     ", &io.seq_write_iops);
    section.add_metric("Seq Read IOPS      ", &io.seq_read_iops);
    section.add_metric("Rand Write IOPS    ", &io.rand_write_iops);
    section.add_metric("Rand Read IOPS     ", &io.rand_read_iops);
    section
}

/// The section of the network benchmark.
pub open spec fn network_contents(network: NetworkResult<String>) -> SectionView {
    (
        "NETWORK"@,
        network.score@,
        seq![
            ("Throughput MB/s    "@, network.throughput_mb_s@),
            ("Req/s              "@, network.requests_per_sec@),
            ("Latency ms         "@, network.avg_latency_ms@),
        ],
    )
}

/// The section of the network benchmark.
pub fn network_section(network: &NetworkResult<String>) -> (r: Section)
    ensures
        r.contents() == network_contents(*network),
{
    let mut section = Section::new("NETWORK", &network.score);
    section.add_metric("Throughput MB/s    ", &network.throughput_mb_s);
    section.add_metric("Req/s              ", &network.requests_per_sec);
    section.add_metric("Latency ms         ", &network.avg_latency_ms);
    section
}

/// The line of a labelled number.
pub open spec fn metric_line(metric: (Seq<char>, Seq<char>)) -> LineView {
    seq![
        (Style::Plain, "  "@),
        (Style::Blue, pad_right(metric.0, 18)),
        (Style::Plain, " "@),
        (Style::Plain, pad_left(metric.1, 12)),
    ]
}

/// The lines of a section.
pub open spec fn section_lines(section: SectionView) -> Seq<LineView> {
    seq![
        Seq::empty(),
        seq![
            (Style::BoldBrightGreen, "▶"@),
            (Style::Plain, " "@),
            (Style::BoldBrightGreen, section.0),
            (Style::Plain, "  "@),
            (Style::BrightYellow, "Score"@),
            (Style::Plain, " "@),
            (Style::BoldBrightWhite, section.1),
        ],
    ] + section.2.map_values(|m: (Seq<char>, Seq<char>)| metric_line(m))
}

/// Appends the lines of a section.
pub fn push_section(out: &mut Vec<Line>, section: &Section)
    ensures
        report_view(final(out)@) == report_view(old(out)@) + section_lines(section.contents()),
{
    let ghost before = report_view(out@);
    let ghost all = section_lines(section.contents());
    push_line(out, Line::new());
    let mut head = Line::of(Style::BoldBrightGreen, "▶");
    head.push(Style::Plain, " ");
    head.push(Style::BoldBrightGreen, section.name);
    head.push(Style::Plain, "  ");
    head.push(Style::BrightYellow, "Score");
    head.push(Style::Plain, " ");
    head.push(Style::BoldBrightWhite, section.score.as_str());
    assert(all[0] =~= Seq::<(Style, Seq<char>)>::empty());
    assert(line_view(head) =~= all[1]);
    push_line(out, head);
    assert(report_view(out@) =~= before + all.take(2));
    for i in 0..section.metrics.len()
        invariant
            all == section_lines(section.contents()),
            report_view(out@) == before + all.take(2 + i),
    {
        let label = padded_right(section.metrics[i].0, 18);
        let value = padded_left(section.metrics[i].1.as_str(), 12);
        let mut line = Line::of(Style::Plain, "  ");
        line.push(Style::Blue, label.as_str());
        line.push(Style::Plain, " ");
        line.push(Style::Plain, value.as_str());
        assert(section.contents().2[i as int] == (
            section.metrics@[i as int].0@,
            section.metrics@[i as int].1@,
        ));
        assert(line_view(line) =~= metric_line(section.contents().2[i as int]));
        push_line(out, line);
        assert(all[2 + i] == metric_line(section.contents().2[i as int]));
        assert((before + all.take(2 + i)).push(all[2 + i]) =~= before + all.take(3 + i));
    }
    assert(all.take(all.len() as int) =~= all);
}

/// The sections of the four benchmarks, where they ran.
pub open spec fn category_sections(suite: SuiteResult<String>) -> Seq<Option<SectionView>> {
    seq![
        match suite.cpu {
            Some(cpu) => Some(cpu_contents(cpu)),
            None => None,
        },
        match suite.memory {
            Some(memory) => Some(memory_contents(memory)),
            None => None,
        },
        match suite.io {
            Some(io) => Some(io_contents(io)),
            None => None,
        },
        match suite.network {
            Some(network) => Some(network_contents(network)),
            None => None,
        },
    ]
}

/// The sections of a suite: one for each benchmark that ran.
pub open spec fn suite_sections(suite: SuiteResult<String>) -> Seq<SectionView> {
    present(category_sections(suite))
}

/// The lines of sections, one section after the other.
pub open spec fn sections_lines(sections: Seq<SectionView>) -> Seq<LineView>
    decreases sections.len(),
{
    if sections.len() == 0 {
        Seq::empty()
    } else {
        sections_lines(sections.drop_last()) + section_lines(sections.last())
    }
}

/// The lines above the sections of a suite.
pub open spec fn suite_title() -> Seq<LineView> {
    seq![
        Seq::empty(),
        seq![(Style::BoldBrightBlue, "╔══════════════════════════════════╗"@)],
        seq![(Style::BoldBrightBlue, "║ ⚡nsysbench performance report ⚡║"@)],
        seq![(Style::BoldBrightBlue, "╚══════════════════════════════════╝"@)],
    ]
}

/// The lines below them.
pub open spec fn total_lines(total: Seq<char>) -> Seq<LineView> {
    seq![
        Seq::empty(),
        seq![
            (Style::BoldBrightMagenta, "🏁 TOTAL SCORE:"@),
            (Style::Plain, " "@),
            (Style::BoldBrightWhite, total),
        ],
    ]
}

proof fn lemma_one_more_section(sections: Seq<SectionView>, section: SectionView)
    ensures
        sections_lines(sections.push(section)) == sections_lines(sections) + section_lines(section),
{
    assert(sections.push(section).drop_last() =~= sections);
}

/// The report of a suite.
pub fn suite_report(suite: &SuiteResult<String>) -> (r: Vec<Line>)
    ensures
        report_view(r@) == suite_title() + sections_lines(suite_sections(*suite)) + total_lines(
            suite.total_score@,
        ),
{
    let mut out = no_lines();
    push_line(&mut out, Line::new());
    push_line(
        &mut out,
        Line::of(Style::BoldBrightBlue, "╔══════════════════════════════════╗"),
    );
    push_line(
        &mut out,
        Line::of(Style::BoldBrightBlue, "║ ⚡nsysbench performance report ⚡║"),
    );
    push_line(
        &mut out,
        Line::of(Style::BoldBrightBlue, "╚══════════════════════════════════╝"),
    );
    assert(report_view(out@) =~= suite_title());
    let ghost mut sections: Seq<SectionView> = Seq::empty();
    assert(suite_title() + sections_lines(sections) =~= suite_title());
    if let Some(cpu) = &suite.cpu {
        let section = cpu_section(cpu);
        push_section(&mut out, &section);
        proof {
            lemma_one_more_section(sections, section.contents());
            sections = sections.push(section.contents());
        }
    }
    assert(report_view(out@) =~= suite_title() + sections_lines(sections));
    if let Some(memory) = &suite.memory {
        let section = memory_section(memory);
        push_section(&mut out, &section);
        proof {
            lemma_one_more_section(sections, section.contents());
            sections = sections.push(section.contents());
        }
    }
    assert(report_view(out@) =~= suite_title() + sections_lines(sections));
    if let Some(io) = &suite.io {
        let section = io_section(io);
        push_section(&mut out, &section);
        proof {
            lemma_one_more_section(sections, section.contents());
            sections = sections.push(section.contents());
        }
    }
    assert(report_view(out@) =~= suite_title() + sections_lines(sections));
    if let Some(network) = &suite.network {
        let section = network_section(network);
        push_section(&mut out, &section);
        proof {
            lemma_one_more_section(sections, section.contents());
            sections = sections.push(section.contents());
        }
    }
    assert(report_view(out@) =~= suite_title() + sections_lines(sections));
    proof {
        lemma_present_of_four(category_sections(*suite));
        assert(sections =~= suite_sections(*suite));
    }
    let ghost shown = report_view(out@);
    push_line(&mut out, Line::new());
    let mut total = Line::of(Style::BoldBrightMagenta, "🏁 TOTAL SCORE:");
    total.push(Style::Plain, " ");
    total.push(Style::BoldBrightWhite, suite.total_score.as_str());
    assert(line_view(total) =~= total_lines(suite.total_score@)[1]);
    push_line(&mut out, total);
    assert(report_view(out@) =~= shown + total_lines(suite.total_score@));
    out
}

spec fn listed<V>(value: Option<V>) -> Seq<V> {
    match value {
        Some(v) => seq![v],
        None => Seq::empty(),
    }
}

proof fn lemma_present_of_four<V>(values: Seq<Option<V>>)
    requires
        values.len() == 4,
    ensures
        present(values) =~= listed(values[0]) + listed(values[1]) + listed(values[2]) + listed(
            values[3],
        ),
{
    assert(values.drop_last() =~= values.take(3));
    assert(values.take(3).drop_last() =~= values.take(2));
    assert(values.take(2).drop_last() =~= values.take(1));
    assert(values.take(1).drop_last() =~= Seq::empty());
    reveal_with_fuel(present, 5);
}

/// The report of the memory benchmark.
pub fn memory_report(memory: &MemoryResult<String>) -> (r: Vec<Line>)
    ensures
        report_view(r@) == seq![seq![(Style::BoldBrightGreen, "🧠 Memory benchmark  "@)]]
            + section_lines(memory_contents(*memory)),
{
    let mut out = no_lines();
    push_line(&mut out, Line::of(Style::BoldBrightGreen, "🧠 Memory benchmark  "));
    push_section(&mut out, &memory_section(memory));
    out
}

/// The report of the storage benchmark.
pub fn io_report(io: &IoResult<String>) -> (r: Vec<Line>)
    ensures
        report_view(r@) == seq![seq![(Style::BoldBrightGreen, "💽 IO benchmark  "@)]]
            + section_lines(io_contents(*io)),
{
    let mut out = no_lines();
    push_line(&mut out, Line::of(Style::BoldBrightGreen, "💽 IO benchmark  "));
    push_section(&mut out, &io_section(io));
    out
}

/// The report of the network benchmark.
pub fn network_report(network: &NetworkResult<String>) -> (r: Vec<Line>)
    ensures
        report_view(r@) == seq![seq![(Style::BoldBrightGreen, "🌐 Network benchmark  "@)]]
            + section_lines(network_contents(*network)),
{
    let mut out = no_lines();
    push_line(&mut out, Line::of(Style::BoldBrightGreen, "🌐 Network benchmark  "));
    push_section(&mut out, &network_section(network));
    out
}

/// A line of one plain text.
pub open spec fn plain_line(text: Seq<char>) -> LineView {
    seq![(Style::Plain, text)]
}

/// The line on the CPUs of a topology.
pub open spec fn topology_text(cpu: CpuResult<String>) -> Seq<char> {
    "  Logical CPUs: "@ + decimal(cpu.topology.logical_cpus@.len()) + " | Physical cores: "@
        + decimal(cpu.topology.physical_cores as nat) + " | SMT: "@ + decimal(
        cpu.topology.smt_threads_per_core as nat,
    )
}

/// The line on how the CPUs were loaded.
pub open spec fn capability_text(cpu: CpuResult<String>) -> Seq<char> {
    "  Placement: "@ + cpu.capabilities.placement@ + " | SIMD: "@ + cpu.capabilities.simd_path@
}

/// The line of a stage.
pub open spec fn stage_text(stage: CpuStageResult<String>) -> Seq<char> {
    "  "@ + pad_right(stage.id@, 20) + " "@ + pad_left(stage.composite_gops@, 8) + " GOPS  "@
        + pad_left(decimal(stage.threads as nat), 2) + " threads  "@ + pad_left(
        stage.primes_per_sec@,
        10,
    ) + " primes/s"@
}

/// The lines of the comparisons that could be made.
pub open spec fn comparison_lines(cpu: CpuResult<String>) -> Seq<LineView> {
    (match cpu.smt_gain_percent {
        Some(gain) => seq![plain_line("  SMT gain: "@ + gain@ + "%"@)],
        None => Seq::empty(),
    }) + (match cpu.performance_efficiency_ratio {
        Some(ratio) => seq![plain_line("  Performance/efficiency ratio: "@ + ratio@ + "x"@)],
        None => Seq::empty(),
    })
}

/// The lines of the report of the CPU benchmark.
pub open spec fn cpu_lines(cpu: CpuResult<String>) -> Seq<LineView> {
    seq![seq![(Style::BoldBrightGreen, "⚙️  CPU benchmark  "@)]] + section_lines(cpu_contents(cpu))
        + seq![plain_line(topology_text(cpu)), plain_line(capability_text(cpu))]
        + cpu.stages@.map_values(|stage: CpuStageResult<String>| plain_line(stage_text(stage)))
        + comparison_lines(cpu)
}

fn stage_line(stage: &CpuStageResult<String>) -> (r: String)
    ensures
        r@ == stage_text(*stage),
{
    let mut text = "  ".to_string();
    text.append(padded_right(stage.id.as_str(), 20).as_str());
    text.append(" ");
    text.append(padded_left(stage.composite_gops.as_str(), 8).as_str());
    text.append(" GOPS  ");
    let threads = decimal_of(stage.threads as u64);
    text.append(padded_left(threads.as_str(), 2).as_str());
    text.append(" threads  ");
    text.append(padded_left(stage.primes_per_sec.as_str(), 10).as_str());
    text.append(" primes/s");
    text
}

fn push_plain(out: &mut Vec<Line>, text: &str)
    ensures
        report_view(final(out)@) == report_view(old(out)@).push(plain_line(text@)),
{
    push_line(out, Line::of(Style::Plain, text));
}

fn push_stage_lines(out: &mut Vec<Line>, stages: &Vec<CpuStageResult<String>>)
    ensures
        report_view(final(out)@) == report_view(old(out)@) + stages@.map_values(
            |stage: CpuStageResult<String>| plain_line(stage_text(stage)),
        ),
{
    let ghost before = report_view(out@);
    let ghost all = stages@.map_values(
        |stage: CpuStageResult<String>| plain_line(stage_text(stage)),
    );
    assert(before + all.take(0) =~= before);
    for i in 0..stages.len()
        invariant
            all.len() == stages@.len(),
            forall|k: int|
                0 <= k < all.len() ==> #[trigger] all[k] == plain_line(stage_text(stages@[k])),
            report_view(out@) == before + all.take(i as int),
    {
        let text = stage_line(&stages[i]);
        push_plain(out, text.as_str());
        assert((before + all.take(i as int)).push(all[i as int]) =~= before + all.take(i + 1));
    }
    assert(all.take(all.len() as int) =~= all);
}

/// The report of the CPU benchmark.
pub fn cpu_report(cpu: &CpuResult<String>) -> (r: Vec<Line>)
    ensures
        report_view(r@) == cpu_lines(*cpu),
{
    let mut out = no_lines();
    push_line(&mut out, Line::of(Style::BoldBrightGreen, "⚙️  CPU benchmark  "));
    push_section(&mut out, &cpu_section(cpu));
    let mut text = "  Logical CPUs: ".to_string();
    push_decimal(&mut text, cpu.topology.logical_cpus.len() as u64);
    text.append(" | Physical cores: ");
    push_decimal(&mut text, cpu.topology.physical_cores as u64);
    text.append(" | SMT: ");
    push_decimal(&mut text, cpu.topology.smt_threads_per_core as u64);
    push_plain(&mut out, text.as_str());
    let mut text = "  Placement: ".to_string();
    text.append(cpu.capabilities.placement.as_str());
    text.append(" | SIMD: ");
    text.append(cpu.capabilities.simd_path.as_str());
    push_plain(&mut out, text.as_str());
    push_stage_lines(&mut out, &cpu.stages);
    let ghost before = report_view(out@);
    if let Some(gain) = &cpu.smt_gain_percent {
        let mut text = "  SMT gain: ".to_string();
        text.append(gain.as_str());
        text.append("%");
        push_plain(&mut out, text.as_str());
    }
    if let Some(ratio) = &cpu.performance_efficiency_ratio {
        let mut text = "  Performance/efficiency ratio: ".to_string();
        text.append(ratio.as_str());
        text.append("x");
        push_plain(&mut out, text.as_str());
    }
    assert(report_view(out@) =~= before + comparison_lines(*cpu));
    assert(report_view(out@) =~= cpu_lines(*cpu));
    out
}

/// The line of a thread count.
pub open spec fn scaling_text(result: CpuStageResult<String>) -> Seq<char> {
    "  "@ + pad_left(decimal(result.threads as nat), 2) + " thread"@ + (if result.threads == 1 {
        " "@
    } else {
        "s"@
    }) + "  "@ + pad_left(result.composite_gops@, 12) + " GOPS"@
}

/// The lines of the chart in the report.
pub open spec fn colored_chart(heights: Seq<usize>) -> Seq<LineView> {
    if heights.len() == 0 {
        Seq::empty()
    } else {
        chart_lines(heights).map_values(
            |line: Seq<char>| seq![(Style::Plain, "  "@)] + chart_spans(line),
        )
    }
}

/// The lines of the report of a scaling sequence.
pub open spec fn sequence_lines(
    sequence: CpuSequenceResult<String>,
    heights: Seq<usize>,
) -> Seq<LineView> {
    seq![
        seq![(Style::BoldBrightGreen, "⚙️  CPU scaling benchmark"@)],
        Seq::empty(),
        seq![
            (Style::Plain, "  "@),
            (
                Style::BrightWhite,
                decimal(sequence.results@.len()) + " test(s), "@ + decimal(
                    sequence.duration_secs_per_stage as nat,
                ) + "s each"@,
            ),
        ],
    ] + sequence.results@.map_values(
        |result: CpuStageResult<String>| plain_line(scaling_text(result)),
    ) + seq![
        Seq::empty(),
        seq![(Style::Plain, "  "@), (Style::BrightYellow, "Composite GOPS"@)],
    ] + colored_chart(heights) + seq![seq![(Style::Plain, "  "@), (Style::Dimmed, "threads"@)]]
}

fn scaling_line(result: &CpuStageResult<String>) -> (r: String)
    ensures
        r@ == scaling_text(*result),
{
    let mut text = "  ".to_string();
    let threads = decimal_of(result.threads as u64);
    text.append(padded_left(threads.as_str(), 2).as_str());
    text.append(" thread");
    text.append(
        if result.threads == 1 {
            " "
        } else {
            "s"
        },
    );
    text.append("  ");
    text.append(padded_left(result.composite_gops.as_str(), 12).as_str());
    text.append(" GOPS");
    text
}

fn push_scaling_lines(out: &mut Vec<Line>, results: &Vec<CpuStageResult<String>>)
    ensures
        report_view(final(out)@) == report_view(old(out)@) + results@.map_values(
            |result: CpuStageResult<String>| plain_line(scaling_text(result)),
        ),
{
    let ghost before = report_view(out@);
    let ghost all = results@.map_values(
        |result: CpuStageResult<String>| plain_line(scaling_text(result)),
    );
    assert(before + all.take(0) =~= before);
    for i in 0..results.len()
        invariant
            all.len() == results@.len(),
            forall|k: int|
                0 <= k < all.len() ==> #[trigger] all[k] == plain_line(scaling_text(results@[k])),
            report_view(out@) == before + all.take(i as int),
    {
        let text = scaling_line(&results[i]);
        push_plain(out, text.as_str());
        assert((before + all.take(i as int)).push(all[i as int]) =~= before + all.take(i + 1));
    }
    assert(all.take(all.len() as int) =~= all);
}

fn push_chart(out: &mut Vec<Line>, heights: &Vec<usize>)
    ensures
        report_view(final(out)@) == report_view(old(out)@) + colored_chart(heights@),
{
    let ghost before = report_view(out@);
    let ghost all = colored_chart(heights@);
    let chart = sparkline(heights);
    let chars = chars_of(chart.as_str());
    let rows = lines_of(chars.as_slice());
    let ghost views = slice_views(rows@);
    proof {
        if heights@.len() > 0 {
            chart_has_five_rows_and_labels(heights@);
            assert(views == chart_lines(heights@));
        } else {
            assert(views.len() == 0);
        }
    }
    assert(before + all.take(0) =~= before);
    for i in 0..rows.len()
        invariant
            views == slice_views(rows@),
            all.len() == views.len(),
            forall|k: int|
                0 <= k < all.len() ==> #[trigger] all[k] == seq![(Style::Plain, "  "@)]
                    + chart_spans(views[k]),
            report_view(out@) == before + all.take(i as int),
    {
        let mut line = Line::of(Style::Plain, "  ");
        push_chart_line(&mut line, rows[i]);
        assert(views[i as int] == rows@[i as int]@);
        push_line(out, line);
        assert((before + all.take(i as int)).push(all[i as int]) =~= before + all.take(i + 1));
    }
    assert(all.take(all.len() as int) =~= all);
}

/// The report of a scaling sequence; the heights are those of its chart, none where it has none.
pub fn cpu_sequence_report(sequence: &CpuSequenceResult<String>, heights: &Vec<usize>) -> (r: Vec<
    Line,
>)
    ensures
        report_view(r@) == sequence_lines(*sequence, heights@),
{
    let mut out = no_lines();
    push_line(&mut out, Line::of(Style::BoldBrightGreen, "⚙️  CPU scaling benchmark"));
    push_line(&mut out, Line::new());
    let mut text = decimal_of(sequence.results.len() as u64);
    text.append(" test(s), ");
    push_decimal(&mut text, sequence.duration_secs_per_stage);
    text.append("s each");
    let mut tests = Line::of(Style::Plain, "  ");
    tests.push(Style::BrightWhite, text.as_str());
    assert(line_view(tests) =~= seq![(Style::Plain, "  "@), (Style::BrightWhite, text@)]);
    push_line(&mut out, tests);
    push_scaling_lines(&mut out, &sequence.results);
    push_line(&mut out, Line::new());
    let mut caption = Line::of(Style::Plain, "  ");
    caption.push(Style::BrightYellow, "Composite GOPS");
    assert(line_view(caption) =~= seq![
        (Style::Plain, "  "@),
        (Style::BrightYellow, "Composite GOPS"@),
    ]);
    push_line(&mut out, caption);
    push_chart(&mut out, heights);
    let mut axis = Line::of(Style::Plain, "  ");
    axis.push(Style::Dimmed, "threads");
    assert(line_view(axis) =~= seq![(Style::Plain, "  "@), (Style::Dimmed, "threads"@)]);
    push_line(&mut out, axis);
    assert(report_view(out@) =~= sequence_lines(*sequence, heights@));
    out
}

/// A size, where it is known.
pub open spec fn size_text(bytes: Option<u64>) -> Seq<char> {
    match bytes {
        Some(n) => gib_text(n as nat),
        None => "unknown"@,
    }
}

fn size_or_unknown(bytes: Option<u64>) -> (r: String)
    ensures
        r@ == size_text(bytes),
{
    match bytes {
        Some(n) => format_bytes(n),
        None => "unknown".to_string(),
    }
}

/// The lines of the details of the CPUs.
pub open spec fn detail_lines(rows: Seq<(String, String)>) -> Seq<LineView> {
    rows.map_values(|row: (String, String)| plain_line("  "@ + row.0@ + ": "@ + row.1@))
}

/// The lines of the report on the machine.
pub open spec fn info_lines(info: SystemInfo) -> Seq<LineView> {
    seq![
        seq![(Style::BoldBrightGreen, "ℹ️ System performance metadata  "@)],
        Seq::empty(),
        seq![(Style::BoldBrightCyan, "CPU"@)],
        plain_line(
            "  Logical CPUs: "@ + decimal(info.cpu.logical_cpus as nat) + " | Physical cores: "@
                + match info.cpu.physical_cores {
                Some(cores) => decimal(cores as nat),
                None => "unknown"@,
            },
        ),
    ] + detail_lines(info.cpu.details.rows@) + seq![
        Seq::empty(),
        seq![(Style::BoldBrightCyan, "Memory"@)],
        plain_line("  Total: "@ + size_text(info.memory.total_bytes)),
        Seq::empty(),
        seq![(Style::BoldBrightCyan, "Storage"@)],
        plain_line("  Path: "@ + info.io.path@),
        plain_line(
            "  Filesystem: "@ + match info.io.filesystem {
                Some(filesystem) => filesystem@,
                None => "unknown"@,
            },
        ),
        plain_line(
            "  Capacity: "@ + size_text(info.io.total_bytes) + " | Available: "@ + size_text(
                info.io.available_bytes,
            ),
        ),
    ]
}

fn push_details(out: &mut Vec<Line>, rows: &Vec<(String, String)>)
    ensures
        report_view(final(out)@) == report_view(old(out)@) + detail_lines(rows@),
{
    let ghost before = report_view(out@);
    let ghost all = detail_lines(rows@);
    assert(before + all.take(0) =~= before);
    for i in 0..rows.len()
        invariant
            all == detail_lines(rows@),
            report_view(out@) == before + all.take(i as int),
    {
        let mut text = "  ".to_string();
        text.append(rows[i].0.as_str());
        text.append(": ");
        text.append(rows[i].1.as_str());
        push_plain(out, text.as_str());
        assert((before + all.take(i as int)).push(all[i as int]) =~= before + all.take(i + 1));
    }
    assert(all.take(all.len() as int) =~= all);
}

/// The report on the machine.
pub fn system_info_report(info: &SystemInfo) -> (r: Vec<Line>)
    ensures
        report_view(r@) == info_lines(*info),
{
    let mut out = no_lines();
    push_line(&mut out, Line::of(Style::BoldBrightGreen, "ℹ️ System performance metadata  "));
    push_line(&mut out, Line::new());
    push_line(&mut out, Line::of(Style::BoldBrightCyan, "CPU"));
    let mut text = "  Logical CPUs: ".to_string();
    push_decimal(&mut text, info.cpu.logical_cpus as u64);
    text.append(" | Physical cores: ");
    match info.cpu.physical_cores {
        Some(cores) => {
            push_decimal(&mut text, cores as u64);
        },
        None => {
            text.append("unknown");
        },
    }
    push_plain(&mut out, text.as_str());
    push_details(&mut out, &info.cpu.details.rows);
    push_line(&mut out, Line::new());
    push_line(&mut out, Line::of(Style::BoldBrightCyan, "Memory"));
    let mut text = "  Total: ".to_string();
    text.append(size_or_unknown(info.memory.total_bytes).as_str());
    push_plain(&mut out, text.as_str());
    push_line(&mut out, Line::new());
    push_line(&mut out, Line::of(Style::BoldBrightCyan, "Storage"));
    let mut text = "  Path: ".to_string();
    text.append(info.io.path.as_str());
    push_plain(&mut out, text.as_str());
    let mut text = "  Filesystem: ".to_string();
    match &info.io.filesystem {
        Some(filesystem) => {
            text.append(filesystem.as_str());
        },
        None => {
            text.append("unknown");
        },
    }
    push_plain(&mut out, text.as_str());
    let mut text = "  Capacity: ".to_string();
    text.append(size_or_unknown(info.io.total_bytes).as_str());
    text.append(" | Available: ");
    text.append(size_or_unknown(info.io.available_bytes).as_str());
    push_plain(&mut out, text.as_str());
    assert(report_view(out@) =~= info_lines(*info));
    out
}

/// A section is seen as its name, its score and its labelled numbers, in order.
pub proof fn sections_are_seen_whole(section: Section, i: int)
    ensures
        section.contents().0 == section.name@,
        section.contents().1 == section.score@,
        section.contents().2.len() == section.metrics@.len(),
        0 <= i < section.metrics@.len() ==> section.contents().2[i] == (
            section.metrics@[i].0@,
            section.metrics@[i].1@,
        ),
{
}

/// Every number of a result stands behind its own label, below its benchmark's name and score.
pub proof fn numbers_stand_behind_their_labels(
    cpu: CpuResult<String>,
    memory: MemoryResult<String>,
    io: IoResult<String>,
    network: NetworkResult<String>,
)
    ensures
        cpu_contents(cpu).0 == "CPU"@ && cpu_contents(cpu).1 == cpu.score@,
        cpu_contents(cpu).2.len() == 2,
        cpu_contents(cpu).2[0] == ("Single-thread score"@, cpu.single_thread_score@),
        cpu_contents(cpu).2[1] == ("All-logical score  "@, cpu.multi_thread_score@),
        memory_contents(memory).0 == "MEMORY"@ && memory_contents(memory).1 == memory.score@,
        memory_contents(memory).2.len() == 4,
        memory_contents(memory).2[0] == ("Seq Write MB/s     "@, memory.seq_write_mb_s@),
        memory_contents(memory).2[1] == ("Seq Read MB/s      "@, memory.seq_read_mb_s@),
        memory_contents(memory).2[2] == ("Rand Write MB/s    "@, memory.rand_write_mb_s@),
        memory_contents(memory).2[3] == ("Rand Read MB/s     "@, memory.rand_read_mb_s@),
        io_contents(io).0 == "IO"@ && io_contents(io).1 == io.score@,
        io_contents(io).2.len() == 8,
        io_contents(io).2[0] == ("Seq Write MB/s     "@, io.seq_write_mb_s@),
        io_contents(io).2[1] == ("Seq Read MB/s      "@, io.seq_read_mb_s@),
        io_contents(io).2[2] == ("Rand Write MB/s    "@, io.rand_write_mb_s@),
        io_contents(io).2[3] == ("Rand Read MB/s     "@, io.rand_read_mb_s@),
        io_contents(io).2[4] == ("Seq Write IOPS     "@, io.seq_write_iops@),
        io_contents(io).2[5] == ("Seq Read IOPS      "@, io.seq_read_iops@),
        io_contents(io).2[6] == ("Rand Write IOPS    "@, io.rand_write_iops@),
        io_contents(io).2[7] == ("Rand Read IOPS     "@, io.rand_read_iops@),
        network_contents(network).0 == "NETWORK"@ && network_contents(network).1 == network.score@,
        network_contents(network).2.len() == 3,
        network_contents(network).2[0] == ("Throughput MB/s    "@, network.throughput_mb_s@),
        network_contents(network).2[1] == ("Req/s              "@, network.requests_per_sec@),
        network_contents(network).2[2] == ("Latency ms         "@, network.avg_latency_ms@),
{
}

/// A section begins with an empty line and one with its name and its score; then each of its numbers
/// has a line, in order, with the label padded to 18 characters and the number to 12.
pub proof fn section_shows_its_contents(
    name: Seq<char>,
    score: Seq<char>,
    metrics: Seq<(Seq<char>, Seq<char>)>,
    i: int,
)
    ensures
        ({
            let lines = section_lines((name, score, metrics));
            &&& lines.len() == 2 + metrics.len()
            &&& lines[0].len() == 0
            &&& plain_text(lines[1]) == "▶"@ + " "@ + name + "  "@ + "Score"@ + " "@ + score
            &&& lines[1].contains((Style::BoldBrightGreen, name))
            &&& lines[1].contains((Style::BoldBrightWhite, score))
            &&& 0 <= i < metrics.len() ==> {
                &&& plain_text(lines[2 + i]) == "  "@ + pad_right(metrics[i].0, 18) + " "@ + pad_left(
                    metrics[i].1,
                    12,
                )
                &&& lines[2 + i].contains((Style::Blue, pad_right(metrics[i].0, 18)))
            }
        }),
{
    let lines = section_lines((name, score, metrics));
    let head = lines[1];
    assert(head =~= Seq::<(Style, Seq<char>)>::empty().push((Style::BoldBrightGreen, "▶"@)).push(
        (Style::Plain, " "@),
    ).push((Style::BoldBrightGreen, name)).push((Style::Plain, "  "@)).push(
        (Style::BrightYellow, "Score"@),
    ).push((Style::Plain, " "@)).push((Style::BoldBrightWhite, score)));
    lemma_plain_of_seven(head);
    assert(head[2] == (Style::BoldBrightGreen, name));
    assert(head[6] == (Style::BoldBrightWhite, score));
    assert(plain_text(head) =~= "▶"@ + " "@ + name + "  "@ + "Score"@ + " "@ + score);
    if 0 <= i < metrics.len() {
        let line = lines[2 + i];
        assert(line == metric_line(metrics[i]));
        lemma_plain_of_four(line);
        assert(line[1] == (Style::Blue, pad_right(metrics[i].0, 18)));
    }
}

proof fn lemma_plain_of_more(line: LineView)
    requires
        line.len() > 0,
    ensures
        plain_text(line) == plain_text(line.drop_last()) + line.last().1,
{
    assert(line =~= line.drop_last().push((line.last().0, line.last().1)));
    pieces_are_written_in_order(line.drop_last(), line.last().0, line.last().1, Seq::empty());
}

proof fn lemma_plain_of_four(line: LineView)
    requires
        line.len() == 4,
    ensures
        plain_text(line) == line[0].1 + line[1].1 + line[2].1 + line[3].1,
{
    lemma_plain_of_more(line);
    lemma_plain_of_more(line.take(3));
    lemma_plain_of_more(line.take(2));
    lemma_plain_of_more(line.take(1));
    assert(line.drop_last() =~= line.take(3));
    assert(line.take(3).drop_last() =~= line.take(2));
    assert(line.take(2).drop_last() =~= line.take(1));
    assert(line.take(1).drop_last() =~= Seq::<(Style, Seq<char>)>::empty());
    pieces_are_written_in_order(line, Style::Plain, Seq::empty(), Seq::empty());
    assert(plain_text(line.take(1)) =~= line[0].1);
}

proof fn lemma_plain_of_seven(line: LineView)
    requires
        line.len() == 7,
    ensures
        plain_text(line) == line[0].1 + line[1].1 + line[2].1 + line[3].1 + line[4].1 + line[5].1
            + line[6].1,
{
    lemma_plain_of_more(line);
    lemma_plain_of_more(line.take(6));
    lemma_plain_of_more(line.take(5));
    assert(line.drop_last() =~= line.take(6));
    assert(line.take(6).drop_last() =~= line.take(5));
    assert(line.take(5).drop_last() =~= line.take(4));
    lemma_plain_of_four(line.take(4));
}

/// A suite has the sections of the benchmarks that ran, in the order of CPU, memory, storage and
/// network, below the title and above the total score.
pub proof fn suite_has_its_sections(
    suite: SuiteResult<String>,
    sections: Seq<SectionView>,
    section: SectionView,
    total: Seq<char>,
)
    ensures
        category_sections(suite).len() == 4,
        match suite.cpu {
            Some(cpu) => category_sections(suite)[0] == Some(cpu_contents(cpu)),
            None => category_sections(suite)[0] is None,
        },
        match suite.memory {
            Some(memory) => category_sections(suite)[1] == Some(memory_contents(memory)),
            None => category_sections(suite)[1] is None,
        },
        match suite.io {
            Some(io) => category_sections(suite)[2] == Some(io_contents(io)),
            None => category_sections(suite)[2] is None,
        },
        match suite.network {
            Some(network) => category_sections(suite)[3] == Some(network_contents(network)),
            None => category_sections(suite)[3] is None,
        },
        suite_sections(suite) == present(category_sections(suite)),
        sections_lines(Seq::<SectionView>::empty()).len() == 0,
        sections_lines(sections.push(section)) == sections_lines(sections) + section_lines(section),
        suite_title().len() == 4,
        suite_title()[0].len() == 0,
        suite_title()[1] == seq![(Style::BoldBrightBlue, "╔══════════════════════════════════╗"@)],
        suite_title()[2] == seq![(Style::BoldBrightBlue, "║ ⚡nsysbench performance report ⚡║"@)],
        suite_title()[3] == seq![(Style::BoldBrightBlue, "╚══════════════════════════════════╝"@)],
        total_lines(total).len() == 2,
        total_lines(total)[0].len() == 0,
        total_lines(total)[1] == seq![
            (Style::BoldBrightMagenta, "🏁 TOTAL SCORE:"@),
            (Style::Plain, " "@),
            (Style::BoldBrightWhite, total),
        ],
{
    lemma_one_more_section(sections, section);
}

/// In the line on the CPUs of a topology the numbers read back as those of its logical CPUs, its
/// physical cores and its threads for each core, each behind its own label.
pub proof fn topology_numbers_read_back(cpu: CpuResult<String>)
    ensures
        exists|logical: Seq<char>, physical: Seq<char>, smt: Seq<char>|
            {
                &&& topology_text(cpu) == #[trigger] ("  Logical CPUs: "@ + logical
                    + " | Physical cores: "@ + physical + " | SMT: "@ + smt)
                &&& parse_nat(logical) == Some(cpu.topology.logical_cpus@.len())
                &&& parse_nat(physical) == Some(cpu.topology.physical_cores as nat)
                &&& parse_nat(smt) == Some(cpu.topology.smt_threads_per_core as nat)
            },
{
    let logical = decimal(cpu.topology.logical_cpus@.len());
    let physical = decimal(cpu.topology.physical_cores as nat);
    let smt = decimal(cpu.topology.smt_threads_per_core as nat);
    decimal_reads_back(cpu.topology.logical_cpus@.len());
    decimal_reads_back(cpu.topology.physical_cores as nat);
    decimal_reads_back(cpu.topology.smt_threads_per_core as nat);
    assert(topology_text(cpu) == "  Logical CPUs: "@ + logical + " | Physical cores: "@ + physical
        + " | SMT: "@ + smt);
}

/// The placement and the SIMD path stand behind their labels.
pub proof fn capabilities_are_shown(cpu: CpuResult<String>)
    ensures
        capability_text(cpu) == "  Placement: "@ + cpu.capabilities.placement@ + " | SIMD: "@
            + cpu.capabilities.simd_path@,
{
}

/// The line of a stage has its name, its composite in front of `GOPS`, its threads, which read back,
/// and its primes in front of `primes/s`, each padded to its column.
pub proof fn stage_numbers_read_back(stage: CpuStageResult<String>)
    ensures
        exists|threads: Seq<char>|
            {
                &&& parse_nat(threads) == Some(stage.threads as nat)
                &&& stage_text(stage) == "  "@ + pad_right(stage.id@, 20) + " "@ + pad_left(
                    stage.composite_gops@,
                    8,
                ) + " GOPS  "@ + #[trigger] pad_left(threads, 2) + " threads  "@ + pad_left(
                    stage.primes_per_sec@,
                    10,
                ) + " primes/s"@
            },
{
    decimal_reads_back(stage.threads as nat);
    let threads = decimal(stage.threads as nat);
    assert(stage_text(stage) == "  "@ + pad_right(stage.id@, 20) + " "@ + pad_left(
        stage.composite_gops@,
        8,
    ) + " GOPS  "@ + pad_left(threads, 2) + " threads  "@ + pad_left(stage.primes_per_sec@, 10)
        + " primes/s"@);
}

/// The gain of SMT and the ratio of the core classes have a line each, in this order, where they are
/// known.
pub proof fn known_comparisons_are_shown(cpu: CpuResult<String>)
    ensures
        match (cpu.smt_gain_percent, cpu.performance_efficiency_ratio) {
            (Some(gain), Some(ratio)) => comparison_lines(cpu) == seq![
                seq![(Style::Plain, "  SMT gain: "@ + gain@ + "%"@)],
                seq![(Style::Plain, "  Performance/efficiency ratio: "@ + ratio@ + "x"@)],
            ],
            (Some(gain), None) => comparison_lines(cpu) == seq![
                seq![(Style::Plain, "  SMT gain: "@ + gain@ + "%"@)],
            ],
            (None, Some(ratio)) => comparison_lines(cpu) == seq![
                seq![(Style::Plain, "  Performance/efficiency ratio: "@ + ratio@ + "x"@)],
            ],
            (None, None) => comparison_lines(cpu).len() == 0,
        },
{
    let lines = comparison_lines(cpu);
    match (cpu.smt_gain_percent, cpu.performance_efficiency_ratio) {
        (Some(gain), Some(ratio)) => {
            assert(lines =~= seq![
                plain_line("  SMT gain: "@ + gain@ + "%"@),
                plain_line("  Performance/efficiency ratio: "@ + ratio@ + "x"@),
            ]);
        },
        (Some(gain), None) => {
            assert(lines =~= seq![plain_line("  SMT gain: "@ + gain@ + "%"@)]);
        },
        (None, Some(ratio)) => {
            assert(lines =~= seq![
                plain_line("  Performance/efficiency ratio: "@ + ratio@ + "x"@),
            ]);
        },
        (None, None) => {},
    }
}

/// The report of the CPU benchmark has its title, its section, the two lines on the machine, a line
/// for every stage, in order, and the comparisons.
pub proof fn cpu_report_has_its_lines(cpu: CpuResult<String>, i: int)
    ensures
        ({
            let lines = cpu_lines(cpu);
            let stages = cpu.stages@.len();
            &&& lines.len() == 7 + stages + comparison_lines(cpu).len()
            &&& lines[0] == seq![(Style::BoldBrightGreen, "⚙️  CPU benchmark  "@)]
            &&& 0 <= i < 4 ==> lines[1 + i] == section_lines(cpu_contents(cpu))[i]
            &&& lines[5] == seq![(Style::Plain, topology_text(cpu))]
            &&& lines[6] == seq![(Style::Plain, capability_text(cpu))]
            &&& 0 <= i < stages ==> lines[7 + i] == seq![(Style::Plain, stage_text(cpu.stages@[i]))]
            &&& 0 <= i < comparison_lines(cpu).len() ==> lines[7 + stages + i] == comparison_lines(
                cpu,
            )[i]
        }),
{
}

/// The line of a thread count has the count, which reads back, `thread` in the singular for one
/// thread alone, and the composite in front of `GOPS`.
pub proof fn scaling_numbers_read_back(result: CpuStageResult<String>)
    ensures
        exists|threads: Seq<char>|
            {
                &&& parse_nat(threads) == Some(result.threads as nat)
                &&& result.threads == 1 ==> scaling_text(result) == "  "@ + #[trigger] pad_left(
                    threads,
                    2,
                ) + " thread"@ + " "@ + "  "@ + pad_left(result.composite_gops@, 12) + " GOPS"@
                &&& result.threads != 1 ==> scaling_text(result) == "  "@ + pad_left(threads, 2)
                    + " thread"@ + "s"@ + "  "@ + pad_left(result.composite_gops@, 12) + " GOPS"@
            },
{
    decimal_reads_back(result.threads as nat);
    let threads = decimal(result.threads as nat);
    assert(scaling_text(result) == "  "@ + pad_left(threads, 2) + " thread"@ + (if result.threads
        == 1 {
        " "@
    } else {
        "s"@
    }) + "  "@ + pad_left(result.composite_gops@, 12) + " GOPS"@);
}

/// The report of a scaling sequence has the number of tests and the seconds of each, which read
/// back, a line for every test, in order, and then the chart, two spaces in, between its captions.
pub proof fn sequence_report_has_its_lines(
    sequence: CpuSequenceResult<String>,
    heights: Seq<usize>,
    i: int,
)
    ensures
        ({
            let lines = sequence_lines(sequence, heights);
            let tests = sequence.results@.len();
            let rows: nat = if heights.len() == 0 {
                0
            } else {
                6
            };
            &&& lines.len() == 6 + tests + rows
            &&& lines[0] == seq![(Style::BoldBrightGreen, "⚙️  CPU scaling benchmark"@)]
            &&& lines[1].len() == 0
            &&& lines[2].len() == 2
            &&& lines[2][0] == (Style::Plain, "  "@)
            &&& lines[2][1].0 == Style::BrightWhite
            &&& exists|count: Seq<char>, secs: Seq<char>|
                {
                    &&& lines[2][1].1 == #[trigger] (count + " test(s), "@ + secs + "s each"@)
                    &&& parse_nat(count) == Some(tests)
                    &&& parse_nat(secs) == Some(sequence.duration_secs_per_stage as nat)
                }
            &&& 0 <= i < tests ==> lines[3 + i] == seq![
                (Style::Plain, scaling_text(sequence.results@[i])),
            ]
            &&& lines[3 + tests as int].len() == 0
            &&& lines[4 + tests as int] == seq![
                (Style::Plain, "  "@),
                (Style::BrightYellow, "Composite GOPS"@),
            ]
            &&& 0 <= i < rows ==> lines[5 + tests + i] == seq![(Style::Plain, "  "@)] + chart_spans(
                chart_lines(heights)[i],
            )
            &&& lines[5 + tests + rows as int] == seq![
                (Style::Plain, "  "@),
                (Style::Dimmed, "threads"@),
            ]
        }),
{
    let lines = sequence_lines(sequence, heights);
    let tests = sequence.results@.len();
    decimal_reads_back(tests);
    decimal_reads_back(sequence.duration_secs_per_stage as nat);
    let count = decimal(tests);
    let secs = decimal(sequence.duration_secs_per_stage as nat);
    assert(lines[2][1].1 == count + " test(s), "@ + secs + "s each"@);
    if heights.len() == 0 {
        assert(colored_chart(heights).len() == 0);
    } else {
        assert(colored_chart(heights).len() == 6);
    }
}

/// A size is shown in GiB where it is known, and as unknown where it is not.
pub proof fn unknown_sizes_are_called_so(bytes: u64)
    ensures
        size_text(Some(bytes)) == gib_text(bytes as nat),
        size_text(None) == "unknown"@,
{
}

/// In the line on the CPUs of the machine the numbers read back as those of its logical CPUs and its
/// physical cores, each behind its own label; cores that are not known are called so.
pub proof fn machine_numbers_read_back(info: SystemInfo)
    ensures
        info_lines(info)[3].len() == 1,
        info_lines(info)[3][0].0 == Style::Plain,
        exists|logical: Seq<char>, physical: Seq<char>|
            {
                &&& info_lines(info)[3][0].1 == #[trigger] ("  Logical CPUs: "@ + logical
                    + " | Physical cores: "@ + physical)
                &&& parse_nat(logical) == Some(info.cpu.logical_cpus as nat)
                &&& match info.cpu.physical_cores {
                    Some(cores) => parse_nat(physical) == Some(cores as nat),
                    None => physical == "unknown"@,
                }
            },
{
    let logical = decimal(info.cpu.logical_cpus as nat);
    let physical = match info.cpu.physical_cores {
        Some(cores) => decimal(cores as nat),
        None => "unknown"@,
    };
    decimal_reads_back(info.cpu.logical_cpus as nat);
    if let Some(cores) = info.cpu.physical_cores {
        decimal_reads_back(cores as nat);
    }
    assert(info_lines(info)[3] == plain_line(
        "  Logical CPUs: "@ + logical + " | Physical cores: "@ + physical,
    ));
}

/// The report on the machine has its title, the line on the CPUs with the details below it, in the
/// order of their keys, the size of the memory, and of the storage the path, the type of the file
/// system, the capacity and what is available, each behind its label.
pub proof fn machine_report_has_its_lines(info: SystemInfo, i: int)
    ensures
        ({
            let lines = info_lines(info);
            let n = info.cpu.details.rows@.len() as int;
            &&& lines.len() == 12 + n
            &&& lines[0] == seq![(Style::BoldBrightGreen, "ℹ️ System performance metadata  "@)]
            &&& lines[1].len() == 0
            &&& lines[2] == seq![(Style::BoldBrightCyan, "CPU"@)]
            &&& 0 <= i < n ==> lines[4 + i] == seq![
                (
                    Style::Plain,
                    "  "@ + info.cpu.details.rows@[i].0@ + ": "@ + info.cpu.details.rows@[i].1@,
                ),
            ]
            &&& lines[4 + n].len() == 0
            &&& lines[5 + n] == seq![(Style::BoldBrightCyan, "Memory"@)]
            &&& lines[6 + n] == seq![
                (Style::Plain, "  Total: "@ + size_text(info.memory.total_bytes)),
            ]
            &&& lines[7 + n].len() == 0
            &&& lines[8 + n] == seq![(Style::BoldBrightCyan, "Storage"@)]
            &&& lines[9 + n] == seq![(Style::Plain, "  Path: "@ + info.io.path@)]
            &&& info.io.filesystem matches Some(name) ==> lines[10 + n] == seq![
                (Style::Plain, "  Filesystem: "@ + name@),
            ]
            &&& info.io.filesystem is None ==> lines[10 + n] == seq![
                (Style::Plain, "  Filesystem: "@ + "unknown"@),
            ]
            &&& lines[11 + n] == seq![
                (
                    Style::Plain,
                    "  Capacity: "@ + size_text(info.io.total_bytes) + " | Available: "@
                        + size_text(info.io.available_bytes),
                ),
            ]
        }),
{
}

} // verus!
