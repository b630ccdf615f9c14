use nsysbench::chart::{color_chart_line, sparkline};
use nsysbench::info::{cpu_info, io_info, system_info, MemoryInfo};
use nsysbench::paint::{paint, Line, Style};
use nsysbench::platform::CpuCapabilities;
use nsysbench::report::{
    cpu_report, cpu_sequence_report, io_report, memory_report, network_report, separator,
    suite_report, system_info_report,
};
use nsysbench::reporter::Reporter;
use nsysbench::results::{
    CpuResult, CpuSequenceResult, CpuStageResult, IoResult, MemoryResult, NetworkResult,
    SuiteResult,
};
use nsysbench::sorted::TextMap;
use nsysbench::text;
use nsysbench::topology::fallback_cpu_topology;

/// The heights of the columns for these values.
fn heights(values: &[f64]) -> Vec<usize> {
    let Some(&max) = values
        .iter()
        .filter(|value| value.is_finite())
        .max_by(|a, b| a.total_cmp(b))
    else {
        return vec![];
    };
    values
        .iter()
        .map(|value| {
            if max <= 0.0 || !value.is_finite() {
                0
            } else {
                ((value / max) * 5.0).round().clamp(1.0, 5.0) as usize
            }
        })
        .collect()
}

fn plain(lines: &[Line]) -> Vec<String> {
    colored::control::set_override(false);
    lines.iter().map(|line| line.render()).collect()
}

#[test]
fn sparkline_is_five_rows_with_dotted_grid_and_spaced_thread_labels() {
    let chart = sparkline(&heights(&[10.0, 20.0, 30.0]));
    let lines: Vec<_> = chart.lines().collect();
    assert_eq!(lines.len(), 6);
    assert_eq!(lines.last(), Some(&"1   2   3"));
    assert_eq!(lines[0], "┄┄┄┄┄┄┄┄█");
    assert_eq!(lines[4], "█┄┄┄█┄┄┄█");

    let ten_threads = sparkline(&heights(&(1..=10).map(f64::from).collect::<Vec<_>>()));
    assert!(ten_threads.lines().take(5).all(|line| !line.contains(' ')));
}

#[test]
fn wide_labels_stand_below_their_columns() {
    let chart = sparkline(&vec![5; 120]);
    let lines: Vec<Vec<char>> = chart.lines().map(|line| line.chars().collect()).collect();
    for i in 0..120usize {
        assert_eq!(lines[0][4 * i], '█');
        let label = (i + 1).to_string();
        let shown: String = lines[5][4 * i..4 * i + label.len()].iter().collect();
        assert_eq!(shown, label);
    }
    assert_eq!(sparkline(&vec![]), "");
    assert_eq!(sparkline(&vec![0]), "┄\n┄\n┄\n┄\n┄\n1");
}

#[test]
fn bars_stand_on_lower_bars() {
    let chart = sparkline(&vec![1, 3, 5]);
    let lines: Vec<_> = chart.lines().collect();
    assert_eq!(
        lines,
        vec![
            "┄┄┄┄┄┄┄┄█",
            "┄┄┄┄┄┄┄┄█",
            "┄┄┄┄█┄┄┄█",
            "┄┄┄┄█┄┄┄█",
            "█┄┄┄█┄┄┄█",
            "1   2   3",
        ]
    );
}

#[test]
fn chart_lines_are_plain_where_colours_are_off() {
    colored::control::set_override(false);
    assert_eq!(color_chart_line("█┄1"), "█┄1");
}

#[test]
fn styles_are_plain_where_colours_are_off() {
    colored::control::set_override(false);
    for style in [
        Style::Plain,
        Style::Dimmed,
        Style::Blue,
        Style::BrightBlack,
        Style::BrightCyan,
        Style::BrightWhite,
        Style::BrightYellow,
        Style::ItalicBrightBlack,
        Style::BoldBrightBlue,
        Style::BoldBrightCyan,
        Style::BoldBrightGreen,
        Style::BoldBrightMagenta,
        Style::BoldBrightWhite,
    ] {
        assert_eq!(paint(style, "text"), "text");
    }
}

#[test]
fn pieces_are_put_together_in_order() {
    let pieces = vec![text("\u{1b}[96m█\u{1b}[0m"), text(""), text("┄"), text("1")];
    assert_eq!(text::concatenated(&pieces), "\u{1b}[96m█\u{1b}[0m┄1");
    assert_eq!(text::concatenated(&vec![]), "");
}

#[test]
fn reporter_is_silent_for_machines_and_on_request() {
    colored::control::set_override(false);
    for (json, quiet) in [(true, false), (false, true), (true, true)] {
        assert!(!Reporter::for_flags(json, quiet).enabled);
        assert_eq!(Reporter::for_flags(json, quiet).status("busy"), None);
    }
    assert_eq!(
        Reporter::for_flags(false, false).status("busy"),
        Some("nsysbench: busy".to_string())
    );
    assert_eq!(Reporter::new(false).status("busy"), None);
}

#[test]
fn colours_off_leaves_the_texts_of_a_line() {
    let mut line = Line::of(Style::BoldBrightGreen, "▶");
    line.push(Style::Plain, " ");
    line.push(Style::BrightYellow, "Score");
    assert_eq!(plain(&[line]), vec!["▶ Score"]);
    assert_eq!(plain(&[Line::new()]), vec![""]);
}

fn text(value: &str) -> String {
    value.to_string()
}

fn stage(id: &str, threads: usize, gops: &str) -> CpuStageResult<String> {
    CpuStageResult {
        id: text(id),
        threads,
        cpu_class: None,
        placement: text("pinned"),
        logical_cpus: (0..threads).collect(),
        workloads: vec![],
        primes_per_sec: text("812.50"),
        composite_gops: text(gops),
        score: text("100.00"),
        scaling_factor: text("1.00"),
        parallel_efficiency_percent: text("100.00"),
        stability_warning: None,
    }
}

fn cpu_result(gain: Option<&str>, ratio: Option<&str>) -> CpuResult<String> {
    CpuResult {
        score_version: 2,
        requested_threads: 0,
        topology: fallback_cpu_topology("test", 4),
        capabilities: CpuCapabilities {
            placement: text("pinned"),
            topology_detail: true,
            simd_path: text("avx2-fma"),
        },
        stages: vec![stage("single-thread", 1, "2.50"), stage("all-logical", 4, "9.75")],
        single_thread_score: text("250.00"),
        multi_thread_score: text("975.00"),
        smt_gain_percent: gain.map(text),
        performance_efficiency_ratio: ratio.map(text),
        score: text("600.25"),
    }
}

fn memory_result() -> MemoryResult<String> {
    MemoryResult {
        size_mb: 1,
        seq_write_mb_s: text("1.00"),
        seq_read_mb_s: text("2.00"),
        rand_write_mb_s: text("3.00"),
        rand_read_mb_s: text("4.00"),
        score: text("0.03"),
    }
}

fn io_result() -> IoResult<String> {
    IoResult {
        path: text("/tmp"),
        block_kb: 4,
        file_size_mb: 64,
        seq_write_mb_s: text("1.00"),
        seq_write_iops: text("5.00"),
        seq_read_mb_s: text("2.00"),
        seq_read_iops: text("6.00"),
        rand_write_mb_s: text("3.00"),
        rand_write_iops: text("7.00"),
        rand_read_mb_s: text("4.00"),
        rand_read_iops: text("8.00"),
        score: text("0.06"),
    }
}

fn network_result() -> NetworkResult<String> {
    NetworkResult {
        target: text("http://localhost/"),
        duration_secs: text("8.00"),
        requests: 3,
        bytes: 42,
        throughput_mb_s: text("11.00"),
        requests_per_sec: text("12.00"),
        avg_latency_ms: text("13.00"),
        score: text("0.79"),
    }
}

const CPU_SECTION: [&str; 4] = [
    "",
    "▶ CPU  Score 600.25",
    "  Single-thread score       250.00",
    "  All-logical score         975.00",
];

const MEMORY_SECTION: [&str; 6] = [
    "",
    "▶ MEMORY  Score 0.03",
    "  Seq Write MB/s              1.00",
    "  Seq Read MB/s               2.00",
    "  Rand Write MB/s             3.00",
    "  Rand Read MB/s              4.00",
];

const IO_SECTION: [&str; 10] = [
    "",
    "▶ IO  Score 0.06",
    "  Seq Write MB/s              1.00",
    "  Seq Read MB/s               2.00",
    "  Rand Write MB/s             3.00",
    "  Rand Read MB/s              4.00",
    "  Seq Write IOPS              5.00",
    "  Seq Read IOPS               6.00",
    "  Rand Write IOPS             7.00",
    "  Rand Read IOPS              8.00",
];

const NETWORK_SECTION: [&str; 5] = [
    "",
    "▶ NETWORK  Score 0.79",
    "  Throughput MB/s            11.00",
    "  Req/s                      12.00",
    "  Latency ms                 13.00",
];

const TITLE: [&str; 4] = [
    "",
    "╔══════════════════════════════════╗",
    "║ ⚡nsysbench performance report ⚡║",
    "╚══════════════════════════════════╝",
];

#[test]
fn separator_is_a_dotted_line() {
    assert_eq!(plain(&[separator()]), vec!["┄".repeat(62)]);
}

#[test]
fn suite_report_shows_every_category() {
    let suite = SuiteResult {
        cpu: Some(cpu_result(None, None)),
        memory: Some(memory_result()),
        io: Some(io_result()),
        network: Some(network_result()),
        total_score: text("601.13"),
    };
    let mut expected: Vec<&str> = vec![];
    expected.extend(TITLE);
    expected.extend(CPU_SECTION);
    expected.extend(MEMORY_SECTION);
    expected.extend(IO_SECTION);
    expected.extend(NETWORK_SECTION);
    expected.extend(["", "🏁 TOTAL SCORE: 601.13"]);
    assert_eq!(plain(&suite_report(&suite)), expected);
}

#[test]
fn suite_report_leaves_out_what_did_not_run() {
    let suite = SuiteResult {
        cpu: None,
        memory: Some(memory_result()),
        io: None,
        network: None,
        total_score: text("0.03"),
    };
    let mut expected: Vec<&str> = vec![];
    expected.extend(TITLE);
    expected.extend(MEMORY_SECTION);
    expected.extend(["", "🏁 TOTAL SCORE: 0.03"]);
    assert_eq!(plain(&suite_report(&suite)), expected);
}

#[test]
fn single_reports_have_a_title() {
    let mut expected = vec!["🧠 Memory benchmark  "];
    expected.extend(MEMORY_SECTION);
    assert_eq!(plain(&memory_report(&memory_result())), expected);
    let mut expected = vec!["💽 IO benchmark  "];
    expected.extend(IO_SECTION);
    assert_eq!(plain(&io_report(&io_result())), expected);
    let mut expected = vec!["🌐 Network benchmark  "];
    expected.extend(NETWORK_SECTION);
    assert_eq!(plain(&network_report(&network_result())), expected);
}

#[test]
fn cpu_report_lists_the_stages() {
    let mut expected = vec!["⚙️  CPU benchmark  "];
    expected.extend(CPU_SECTION);
    expected.extend([
        "  Logical CPUs: 4 | Physical cores: 4 | SMT: 1",
        "  Placement: pinned | SIMD: avx2-fma",
        "  single-thread            2.50 GOPS   1 threads      812.50 primes/s",
        "  all-logical              9.75 GOPS   4 threads      812.50 primes/s",
    ]);
    assert_eq!(plain(&cpu_report(&cpu_result(None, None))), expected);
    expected.extend(["  SMT gain: 12.5%", "  Performance/efficiency ratio: 1.75x"]);
    assert_eq!(
        plain(&cpu_report(&cpu_result(Some("12.5"), Some("1.75")))),
        expected
    );
}

#[test]
fn sequence_report_draws_the_chart() {
    let cpu = cpu_result(None, None);
    let sequence = CpuSequenceResult {
        score_version: 2,
        duration_secs_per_stage: 5,
        topology: cpu.topology,
        capabilities: cpu.capabilities,
        results: vec![stage("threads-1", 1, "2.00"), stage("threads-2", 2, "4.00")],
    };
    assert_eq!(
        plain(&cpu_sequence_report(&sequence, &heights(&[2.0, 4.0]))),
        vec![
            "⚙️  CPU scaling benchmark",
            "",
            "  2 test(s), 5s each",
            "   1 thread           2.00 GOPS",
            "   2 threads          4.00 GOPS",
            "",
            "  Composite GOPS",
            "  ┄┄┄┄█",
            "  ┄┄┄┄█",
            "  █┄┄┄█",
            "  █┄┄┄█",
            "  █┄┄┄█",
            "  1   2",
            "  threads",
        ]
    );
    let without_chart = plain(&cpu_sequence_report(&sequence, &vec![]));
    assert_eq!(without_chart.len(), 8);
}

#[test]
fn info_report_shows_what_is_known() {
    let topology = fallback_cpu_topology("test", 2);
    let cpu = cpu_info(&topology, None, TextMap::new());
    let output = "fs 2097152 0 1048576".to_string();
    let io = io_info("/tmp", &Some(output), &Some("ext4".to_string())).unwrap();
    let memory = MemoryInfo {
        total_bytes: Some(3 << 29),
    };
    assert_eq!(
        plain(&system_info_report(&system_info(cpu, memory, io))),
        vec![
            "ℹ️ System performance metadata  ",
            "",
            "CPU",
            "  Logical CPUs: 2 | Physical cores: 2",
            "  core classes: default: 2 logical / 2 physical",
            "  topology source: test",
            "",
            "Memory",
            "  Total: 1.50 GiB",
            "",
            "Storage",
            "  Path: /tmp",
            "  Filesystem: ext4",
            "  Capacity: 2.00 GiB | Available: 1.00 GiB",
        ]
    );
}

#[test]
fn info_report_says_what_is_unknown() {
    let topology = fallback_cpu_topology("test", 1);
    let mut cpu = cpu_info(&topology, None, TextMap::new());
    cpu.physical_cores = None;
    let io = io_info(".", &None, &None).unwrap();
    let lines = plain(&system_info_report(&system_info(
        cpu,
        MemoryInfo { total_bytes: None },
        io,
    )));
    assert_eq!(lines[3], "  Logical CPUs: 1 | Physical cores: unknown");
    assert!(lines.contains(&"  Total: unknown".to_string()));
    assert!(lines.contains(&"  Filesystem: unknown".to_string()));
    assert!(lines.contains(&"  Capacity: unknown | Available: unknown".to_string()));
}

#[test]
fn numbers_read_back_from_their_digits() {
    for n in [0, 7, 10, 4096, u64::MAX] {
        let digits = text::decimal_of(n);
        assert_eq!(digits, n.to_string());
        assert_eq!(text::parse_u64(&text::chars_of(&digits)), Some(n));
    }
    assert_eq!(text::parse_u64(&text::chars_of("18446744073709551616")), None);
    assert_eq!(text::parse_u64(&text::chars_of("+5")), Some(5));
    assert_eq!(text::parse_u64(&text::chars_of("+")), None);
    assert_eq!(text::parse_u64(&text::chars_of("")), None);
    assert_eq!(text::parse_u64(&text::chars_of("-5")), None);
}

#[test]
fn texts_split_as_the_standard_library_splits_them() {
    for sample in ["", "\n", "a\r\nb\n\nc", " x\u{a0}y\tz ", "a\n\n\nb\r", "\u{2003}w\u{85}"] {
        let chars = text::chars_of(sample);
        let strings = |parts: Vec<&[char]>| -> Vec<String> {
            parts.into_iter().map(text::string_of).collect()
        };
        assert_eq!(
            strings(text::lines_of(&chars)),
            sample.lines().collect::<Vec<_>>()
        );
        assert_eq!(
            strings(text::words_of(&chars)),
            sample.split_whitespace().collect::<Vec<_>>()
        );
        assert_eq!(
            strings(text::split_on(&chars, '\n')),
            sample.split('\n').collect::<Vec<_>>()
        );
        assert_eq!(
            strings(text::split_on_text(&chars, &['\n', '\n'])),
            sample.split("\n\n").collect::<Vec<_>>()
        );
        assert_eq!(text::string_of(text::trimmed(&chars)), sample.trim());
    }
}

#[test]
fn texts_are_padded_as_the_standard_library_pads_them() {
    for sample in ["", "ab", "⚡⚡⚡", "longer than eight"] {
        assert_eq!(text::padded_left(sample, 8), format!("{sample:>8}"));
        assert_eq!(text::padded_right(sample, 8), format!("{sample:<8}"));
    }
}
