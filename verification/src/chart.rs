//! The chart of a scaling sequence: five rows of bars, and the thread counts below them.

use vstd::prelude::*;
use crate::paint::{Line, Style};
use crate::text::{chars_of, decimal_of, joined, padded_right};
#[allow(unused_imports)]
use crate::paint::{is_rendered, line_view};
#[allow(unused_imports)]
use crate::text::{
    at, decimal, decimal_is_digits, is_digit, is_line, join, lemma_join_grid, lines, lines_of_joined,
    pad_right, repeated, string_views,
};

verus! {

/// The rows of the chart.
pub const HEIGHT: usize = 5;

/// What stands in a column: a bar up to its height, and the grid above it.
pub open spec fn cell(height: usize, row: nat) -> char {
    if height >= row {
        '█'
    } else {
        '┄'
    }
}

/// The grid between two columns.
pub open spec fn column_gap() -> Seq<char> {
    repeated('┄', 3)
}

/// A row of the chart; the lowest is row 1.
pub open spec fn chart_row(heights: Seq<usize>, row: nat) -> Seq<char> {
    join(heights.map_values(|height: usize| seq![cell(height, row)]), column_gap())
}

/// The width of the thread counts from 1 to `count`.
pub open spec fn label_width(count: nat) -> nat {
    decimal(
        if count < 1 {
            1
        } else {
            count
        },
    ).len()
}

/// The spaces between two thread counts. They are fewer the wider the counts are, so that each
/// count stands below its column.
pub open spec fn label_gap(count: nat) -> Seq<char> {
    repeated(
        ' ',
        if label_width(count) > 4 {
            0
        } else {
            (4 - label_width(count)) as nat
        },
    )
}

/// The thread counts from 1 to `count`, all as wide as the widest.
pub open spec fn labels(count: nat) -> Seq<Seq<char>> {
    Seq::new(count, |i: int| pad_right(decimal((i + 1) as nat), label_width(count)))
}

/// The line below the chart.
pub open spec fn label_line(count: nat) -> Seq<char> {
    join(labels(count), label_gap(count))
}

/// The lines of the chart, from the top.
pub open spec fn chart_lines(heights: Seq<usize>) -> Seq<Seq<char>> {
    seq![
        chart_row(heights, 5),
        chart_row(heights, 4),
        chart_row(heights, 3),
        chart_row(heights, 2),
        chart_row(heights, 1),
        label_line(heights.len()),
    ]
}

fn row_text(heights: &Vec<usize>, row: usize) -> (r: String)
    ensures
        r@ == chart_row(heights@, row as nat),
{
    let mut parts: Vec<String> = Vec::new();
    for i in 0..heights.len()
        invariant
            parts@.len() == i,
            forall|k: int|
                0 <= k < i ==> (#[trigger] parts@[k])@ == seq![cell(heights@[k], row as nat)],
    {
        let mut part = String::new();
        part.push(
            if heights[i] >= row {
                '█'
            } else {
                '┄'
            },
        );
        assert(part@ =~= seq![cell(heights@[i as int], row as nat)]);
        parts.push(part);
    }
    proof {
        reveal_strlit("┄┄┄");
        assert("┄┄┄"@ =~= column_gap());
        assert(string_views(parts@) =~= heights@.map_values(
            |height: usize| seq![cell(height, row as nat)],
        ));
    }
    joined(&parts, "┄┄┄")
}

fn label_text(count: usize) -> (r: String)
    requires
        count > 0,
    ensures
        r@ == label_line(count as nat),
{
    let width: usize = chars_of(decimal_of(count as u64).as_str()).len();
    assert(width == label_width(count as nat));
    let mut parts: Vec<String> = Vec::new();
    for i in 0..count
        invariant
            width == label_width(count as nat),
            parts@.len() == i,
            forall|k: int|
                0 <= k < i ==> (#[trigger] parts@[k])@ == labels(count as nat)[k],
    {
        let label = decimal_of(i as u64 + 1);
        parts.push(padded_right(label.as_str(), width));
    }
    let gap = padded_right(
        "",
        if width > 4 {
            0
        } else {
            4 - width
        },
    );
    proof {
        reveal_strlit("");
        assert(gap@ =~= label_gap(count as nat));
        assert(string_views(parts@) =~= labels(count as nat));
    }
    joined(&parts, gap.as_str())
}

/// The chart of columns of these heights, with the thread counts from 1 on below them; nothing
/// where there is no column.
pub fn sparkline(heights: &Vec<usize>) -> (r: String)
    ensures
        r@ == if heights@.len() == 0 {
            Seq::empty()
        } else {
            join(chart_lines(heights@), seq!['\n'])
        },
{
    if heights.len() == 0 {
        return String::new();
    }
    let mut parts: Vec<String> = Vec::new();
    let mut row: usize = HEIGHT;
    while row > 0
        invariant
            row <= HEIGHT,
            parts@.len() == HEIGHT - row,
            forall|k: int|
                0 <= k < parts@.len() ==> (#[trigger] parts@[k])@ == chart_row(
                    heights@,
                    (HEIGHT - k) as nat,
                ),
        decreases row,
    {
        parts.push(row_text(heights, row));
        row = row - 1;
    }
    parts.push(label_text(heights.len()));
    proof {
        reveal_strlit("\n");
        assert("\n"@ =~= seq!['\n']);
        assert(string_views(parts@) =~= chart_lines(heights@));
    }
    joined(&parts, "\n")
}

/// The pieces of a line of the chart: each character by itself, bars bright and the grid dark.
pub open spec fn chart_spans(line: Seq<char>) -> Seq<(Style, Seq<char>)> {
    line.map_values(
        |c: char|
            (
                if c == '█' {
                    Style::BrightCyan
                } else if c == '┄' {
                    Style::BrightBlack
                } else {
                    Style::Plain
                },
                seq![c],
            ),
    )
}

/// Appends a line of the chart to a line of the report.
pub fn push_chart_line(line: &mut Line, chart_line: &[char])
    ensures
        line_view(*final(line)) == line_view(*old(line)) + chart_spans(chart_line@),
{
    let ghost spans = chart_spans(chart_line@);
    for i in 0..chart_line.len()
        invariant
            spans == chart_spans(chart_line@),
            line_view(*line) == line_view(*old(line)) + spans.take(i as int),
    {
        let c = chart_line[i];
        let style = if c == '█' {
            Style::BrightCyan
        } else if c == '┄' {
            Style::BrightBlack
        } else {
            Style::Plain
        };
        let mut text = String::new();
        text.push(c);
        assert(text@ =~= seq![c]);
        line.push(style, text.as_str());
        assert(spans.take(i + 1) =~= spans.take(i as int).push(spans[i as int]));
        assert((line_view(*old(line)) + spans.take(i as int)).push(spans[i as int]) =~= line_view(
            *old(line),
        ) + spans.take(i + 1));
    }
    assert(spans.take(chart_line@.len() as int) =~= spans);
    assert(line_view(*old(line)) + spans.take(0) =~= line_view(*old(line)));
}

/// A line of the chart with its colours: bars bright and the grid dark.
pub fn color_chart_line(line: &str) -> (r: String)
    ensures
        is_rendered(chart_spans(line@), r@),
{
    let mut out = Line::new();
    let chars = chars_of(line);
    push_chart_line(&mut out, chars.as_slice());
    assert(line_view(out) =~= chart_spans(line@));
    out.render()
}

/// A row has a cell for every column, four characters apart, and nothing but grid between them.
pub proof fn columns_stand_apart(heights: Seq<usize>, row: nat)
    requires
        heights.len() > 0,
    ensures
        chart_row(heights, row).len() == 4 * heights.len() - 3,
        forall|i: int|
            0 <= i < heights.len() ==> chart_row(heights, row)[4 * i] == cell(
                #[trigger] heights[i],
                row,
            ),
        forall|p: int|
            0 <= p < chart_row(heights, row).len() && p % 4 != 0 ==> #[trigger] chart_row(
                heights,
                row,
            )[p] == '┄',
{
    let parts = heights.map_values(|height: usize| seq![cell(height, row)]);
    let gap = column_gap();
    let width: nat = 1;
    let pitch = width + gap.len();
    lemma_join_grid(parts, gap, width);
    let text = chart_row(heights, row);
    assert(parts.len() * pitch == 4 * parts.len()) by (nonlinear_arith)
        requires
            pitch == 4,
    ;
    assert forall|i: int| 0 <= i < heights.len() implies text[4 * i] == cell(
        #[trigger] heights[i],
        row,
    ) by {
        assert(parts[i][0] == cell(heights[i], row));
        assert(i * pitch == 4 * i) by (nonlinear_arith)
            requires
                pitch == 4,
        ;
        assert(text[i * pitch + 0] == parts[i][0]);
    }
    assert forall|p: int| 0 <= p < text.len() && p % 4 != 0 implies #[trigger] text[p] == '┄' by {
        let i = p / 4;
        let j = p % 4 - 1;
        assert(p == 4 * i + 1 + j);
        assert(i * pitch == 4 * i) by (nonlinear_arith)
            requires
                pitch == 4,
        ;
        assert(i < parts.len() - 1);
        assert(at(text, i * pitch + width + j) == gap[j]);
    }
}

/// The rows hold nothing but bars and grid.
pub proof fn rows_hold_bars_and_grid(heights: Seq<usize>, row: nat)
    ensures
        forall|p: int|
            0 <= p < chart_row(heights, row).len() ==> {
                ||| #[trigger] chart_row(heights, row)[p] == '█'
                ||| chart_row(heights, row)[p] == '┄'
            },
{
    if heights.len() > 0 {
        columns_stand_apart(heights, row);
        let text = chart_row(heights, row);
        assert forall|p: int| 0 <= p < text.len() implies {
            ||| #[trigger] text[p] == '█'
            ||| text[p] == '┄'
        } by {
            if p % 4 == 0 {
                let i = p / 4;
                assert(text[4 * i] == cell(heights[i], row));
            }
        }
    }
}

/// A higher row has a bar only where the rows below it have one.
pub proof fn bars_stand_on_the_ground(heights: Seq<usize>, low: nat, high: nat, i: int)
    requires
        0 <= i < heights.len(),
        low <= high,
        chart_row(heights, high)[4 * i] == '█',
    ensures
        chart_row(heights, low)[4 * i] == '█',
{
    columns_stand_apart(heights, low);
    columns_stand_apart(heights, high);
    assert(chart_row(heights, low)[4 * i] == cell(heights[i], low));
    assert(chart_row(heights, high)[4 * i] == cell(heights[i], high));
}

/// The decimal digits of a number are no more than those of a greater one.
proof fn lemma_decimal_len(a: nat, b: nat)
    requires
        a <= b,
    ensures
        0 < decimal(a).len() <= decimal(b).len(),
        b < 10_000 ==> decimal(b).len() <= 4,
    decreases b,
{
    if a >= 10 {
        lemma_decimal_len(a / 10, b / 10);
    } else if b >= 10 {
        lemma_decimal_len(0, b / 10);
    }
    reveal_with_fuel(decimal, 5);
}

/// All labels are as wide as the widest.
proof fn lemma_labels(count: nat)
    ensures
        0 < label_width(count),
        count < 10_000 ==> label_width(count) <= 4,
        forall|i: int| 0 <= i < count ==> (#[trigger] labels(count)[i]).len() == label_width(count),
{
    lemma_decimal_len(
        1,
        if count < 1 {
            1
        } else {
            count
        },
    );
    assert forall|i: int| 0 <= i < count implies (#[trigger] labels(count)[i]).len() == label_width(
        count,
    ) by {
        lemma_decimal_len((i + 1) as nat, count);
    }
}

/// Up to 9999 threads every thread count begins below its column.
pub proof fn labels_stand_below_their_columns(count: nat, i: int, j: int)
    requires
        0 <= i < count < 10_000,
        0 <= j < decimal((i + 1) as nat).len(),
    ensures
        4 * i + j < label_line(count).len(),
        label_line(count)[4 * i + j] == decimal((i + 1) as nat)[j],
{
    let width = label_width(count);
    let gap = label_gap(count);
    lemma_labels(count);
    lemma_join_grid(labels(count), gap, width);
    lemma_decimal_len((i + 1) as nat, count);
    assert(width + gap.len() == 4);
    assert(labels(count)[i][j] == decimal((i + 1) as nat)[j]);
    assert(label_line(count)[i * (width + gap.len()) + j] == labels(count)[i][j]);
}

proof fn lemma_label_line_is_line(count: nat)
    requires
        count > 0,
    ensures
        is_line(label_line(count)),
{
    let width = label_width(count);
    let gap = label_gap(count);
    lemma_labels(count);
    lemma_join_grid(labels(count), gap, width);
    let parts = labels(count);
    assert forall|i: int, j: int| 0 <= i < parts.len() && 0 <= j < parts[i].len() implies {
        &&& #[trigger] parts[i][j] != '\n'
        &&& parts[i][j] != '\r'
    } by {
        let digits = decimal((i + 1) as nat);
        decimal_is_digits((i + 1) as nat);
        if j < digits.len() {
            assert(parts[i][j] == digits[j]);
            assert(is_digit(digits[j]));
        } else {
            assert(parts[i][j] == ' ');
        }
    }
    lemma_parts_hold(parts, gap);
}

/// A text joined from parts without line ends has none.
proof fn lemma_parts_hold(parts: Seq<Seq<char>>, sep: Seq<char>)
    requires
        forall|i: int, j: int|
            0 <= i < parts.len() && 0 <= j < parts[i].len() ==> {
                &&& #[trigger] parts[i][j] != '\n'
                &&& parts[i][j] != '\r'
            },
        forall|j: int| 0 <= j < sep.len() ==> #[trigger] sep[j] != '\n' && sep[j] != '\r',
    ensures
        forall|p: int|
            0 <= p < join(parts, sep).len() ==> {
                &&& #[trigger] join(parts, sep)[p] != '\n'
                &&& join(parts, sep)[p] != '\r'
            },
    decreases parts.len(),
{
    if parts.len() == 1 {
        let only = parts[0];
        assert forall|p: int| 0 <= p < join(parts, sep).len() implies {
            &&& #[trigger] join(parts, sep)[p] != '\n'
            &&& join(parts, sep)[p] != '\r'
        } by {
            assert(parts[0][p] == only[p]);
        }
    } else if parts.len() > 1 {
        let earlier = parts.drop_last();
        assert forall|i: int, j: int| 0 <= i < earlier.len() && 0 <= j < earlier[i].len() implies {
            &&& #[trigger] earlier[i][j] != '\n'
            &&& earlier[i][j] != '\r'
        } by {
            assert(parts[i][j] == earlier[i][j]);
        }
        lemma_parts_hold(earlier, sep);
        let head = join(earlier, sep);
        let last = parts.last();
        assert forall|p: int| 0 <= p < join(parts, sep).len() implies {
            &&& #[trigger] join(parts, sep)[p] != '\n'
            &&& join(parts, sep)[p] != '\r'
        } by {
            if p < head.len() {
                assert(join(parts, sep)[p] == head[p]);
            } else if p < head.len() + sep.len() {
                assert(join(parts, sep)[p] == sep[p - head.len()]);
            } else {
                let j = p - head.len() - sep.len();
                assert(parts[parts.len() - 1][j] == last[j]);
            }
        }
    }
}

/// The chart has six lines: five rows, from the top, and the thread counts.
pub proof fn chart_has_five_rows_and_labels(heights: Seq<usize>)
    requires
        heights.len() > 0,
    ensures
        lines(join(chart_lines(heights), seq!['\n'])) == chart_lines(heights),
        chart_lines(heights).len() == 6,
{
    let all = chart_lines(heights);
    assert forall|i: int| 0 <= i < all.len() implies is_line(#[trigger] all[i]) by {
        if i < 5 {
            columns_stand_apart(heights, (5 - i) as nat);
            rows_hold_bars_and_grid(heights, (5 - i) as nat);
            assert(all[i] == chart_row(heights, (5 - i) as nat));
        } else {
            lemma_label_line_is_line(heights.len());
        }
    }
    lines_of_joined(all);
}

/// A bar of the chart reaches as many rows up as its height, and the columns are four characters
/// apart, with grid between them: line 0 is the highest of the five rows.
pub proof fn bars_reach_their_heights(heights: Seq<usize>, line: int, column: int, p: int)
    requires
        0 <= line < 5,
        0 <= column < heights.len(),
    ensures
        chart_lines(heights)[line].len() == 4 * heights.len() - 3,
        chart_lines(heights)[line][4 * column] == if heights[column] + line >= 5 {
            '█'
        } else {
            '┄'
        },
        0 <= p < 4 * heights.len() - 3 && p % 4 != 0 ==> chart_lines(heights)[line][p] == '┄',
{
    let row = (5 - line) as nat;
    columns_stand_apart(heights, row);
    assert(chart_lines(heights)[line] == chart_row(heights, row));
    assert(chart_row(heights, row)[4 * column] == cell(heights[column], row));
}

/// Below the rows stand the thread counts from 1 on, each padded with spaces; they begin four
/// characters apart, or one right behind the other where the widest has more than four digits.
pub proof fn thread_counts_stand_on_a_grid(heights: Seq<usize>, i: int, j: int)
    requires
        0 <= i < heights.len(),
    ensures
        ({
            let line = chart_lines(heights)[5];
            let width = decimal(heights.len()).len();
            let pitch: int = if width < 4 {
                4
            } else {
                width as int
            };
            let digits = decimal((i + 1) as nat);
            &&& line.len() == (heights.len() - 1) * pitch + width
            &&& 0 <= j < pitch && i * pitch + j < line.len() ==> line[i * pitch + j] == if j
                < digits.len() {
                digits[j]
            } else {
                ' '
            }
        }),
{
    let count = heights.len();
    let width = label_width(count);
    let gap = label_gap(count);
    let parts = labels(count);
    let pitch = width + gap.len();
    let line = label_line(count);
    let digits = decimal((i + 1) as nat);
    lemma_labels(count);
    lemma_join_grid(parts, gap, width);
    lemma_decimal_len((i + 1) as nat, count);
    assert((count - 1) * pitch == count * pitch - pitch) by (nonlinear_arith);
    if 0 <= j < pitch && i * pitch + j < line.len() {
        if j < width {
            assert(parts[i][j] == if j < digits.len() {
                digits[j]
            } else {
                ' '
            });
            assert(line[i * pitch + j] == parts[i][j]);
        } else {
            if i == count - 1 {
                assert(i * pitch == (count - 1) * pitch);
            }
            assert(at(line, i * pitch + width + (j - width)) == gap[j - width]);
        }
    }
}

/// The characters of a line of the chart are written one by one, in order: bars bright, the grid
/// dark, and everything else plain.
pub proof fn bars_are_bright_and_the_grid_is_dark(line: Seq<char>, i: int)
    ensures
        chart_spans(line).len() == line.len(),
        0 <= i < line.len() ==> {
            &&& chart_spans(line)[i].1 == seq![line[i]]
            &&& chart_spans(line)[i].0 == Style::BrightCyan <==> line[i] == '█'
            &&& chart_spans(line)[i].0 == Style::BrightBlack <==> line[i] == '┄'
            &&& chart_spans(line)[i].0 == Style::Plain <==> line[i] != '█' && line[i] != '┄'
        },
{
}

} // verus!
