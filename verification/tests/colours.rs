//! With colours on; every test of this file turns them on and none turns them off.

use nsysbench::chart::color_chart_line;
use nsysbench::paint::{paint, Style};
use nsysbench::report::memory_report;
use nsysbench::reporter::Reporter;
use nsysbench::results::MemoryResult;

#[test]
fn chart_lines_are_coloured_by_character() {
    colored::control::set_override(true);
    assert_eq!(
        color_chart_line("█┄1"),
        "\u{1b}[96m█\u{1b}[0m\u{1b}[90m┄\u{1b}[0m1"
    );
}

#[test]
fn every_style_has_its_attributes() {
    colored::control::set_override(true);
    let styles = [
        (Style::Dimmed, "2"),
        (Style::Blue, "34"),
        (Style::BrightBlack, "90"),
        (Style::BrightCyan, "96"),
        (Style::BrightWhite, "97"),
        (Style::BrightYellow, "93"),
        (Style::ItalicBrightBlack, "3;90"),
        (Style::BoldBrightBlue, "1;94"),
        (Style::BoldBrightCyan, "1;96"),
        (Style::BoldBrightGreen, "1;92"),
        (Style::BoldBrightMagenta, "1;95"),
        (Style::BoldBrightWhite, "1;97"),
    ];
    for (style, codes) in styles {
        assert_eq!(paint(style, "text"), format!("\u{1b}[{codes}mtext\u{1b}[0m"));
        assert_eq!(
            paint(style, "a\u{1b}[0mb\u{1b}[0m"),
            format!("\u{1b}[{codes}ma\u{1b}[0m\u{1b}[{codes}mb\u{1b}[0m\u{1b}[{codes}m\u{1b}[0m")
        );
    }
    assert_eq!(paint(Style::Plain, "text"), "text");
}

#[test]
fn progress_messages_are_italic() {
    colored::control::set_override(true);
    assert_eq!(
        Reporter::new(true).status("busy"),
        Some("\u{1b}[3;90mnsysbench: busy\u{1b}[0m".to_string())
    );
}

#[test]
fn section_lines_have_their_colours() {
    colored::control::set_override(true);
    let memory = MemoryResult {
        size_mb: 1,
        seq_write_mb_s: "1.00".to_string(),
        seq_read_mb_s: "2.00".to_string(),
        rand_write_mb_s: "3.00".to_string(),
        rand_read_mb_s: "4.00".to_string(),
        score: "0.03".to_string(),
    };
    let report = memory_report(&memory);
    assert_eq!(
        report[2].render(),
        "\u{1b}[1;92m▶\u{1b}[0m \u{1b}[1;92mMEMORY\u{1b}[0m  \u{1b}[93mScore\u{1b}[0m \
         \u{1b}[1;97m0.03\u{1b}[0m"
    );
    assert_eq!(
        report[3].render(),
        "  \u{1b}[34mSeq Write MB/s     \u{1b}[0m         1.00"
    );
}
