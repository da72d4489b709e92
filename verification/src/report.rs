//! The report that is shown to the user.

use vstd::prelude::*;

use crate::gather::{law_report_fits, Gather};
use crate::merge::{merge_plan, merged_all};
use crate::names::ORCHESTRATOR_LABEL;
use crate::numbers::{
    cost_text, decimal, decimal_digits, format_cost, format_tokens, tokens_text,
};
use crate::period::Period;
use crate::rank::{active, ranks};
use crate::stats::{ProjectStats, Totals};
use crate::table::{
    law_first_rows_covered, listed, sum_of, sum_with_row, sum_without_row, Rows,
};
use crate::text::{capitalize, capitalized, same_text};

verus! {

/// The colour in which an amount is shown.
#[derive(Clone, Copy, Debug, PartialEq, Eq, Structural)]
pub enum CostColor {
    Red,
    Yellow,
    Green,
}

/// The colour of an amount of microcents: red above a hundred dollars, yellow
/// above ten.
pub open spec fn color_of(microcents: nat) -> CostColor {
    if microcents > 100 * 100_000_000 {
        CostColor::Red
    } else if microcents > 10 * 100_000_000 {
        CostColor::Yellow
    } else {
        CostColor::Green
    }
}

/// The colour of an amount of microcents.
pub fn cost_color(cost: u128) -> (r: CostColor)
    ensures
        r == color_of(cost as nat),
{
    if cost > 100 * 100_000_000 {
        CostColor::Red
    } else if cost > 10 * 100_000_000 {
        CostColor::Yellow
    } else {
        CostColor::Green
    }
}

/// How a cell is shown.
#[derive(Clone, Copy, Debug, PartialEq, Eq, Structural)]
pub enum Style {
    Bold,
    Dim,
}

/// A cell of the report.
#[derive(Debug)]
pub struct TableCell {
    pub text: String,
    pub styles: Vec<Style>,
    pub color: Option<CostColor>,
}

/// What a cell shows, and how.
pub struct Shown {
    pub text: Seq<char>,
    pub styles: Seq<Style>,
    pub color: Option<CostColor>,
}

impl View for TableCell {
    type V = Shown;

    open spec fn view(&self) -> Shown {
        Shown { text: self.text@, styles: self.styles@, color: self.color }
    }
}

/// What a row shows.
pub open spec fn shown(cells: Seq<TableCell>) -> Seq<Shown> {
    Seq::new(cells.len(), |i: int| cells[i]@)
}

/// What a list of rows shows.
pub open spec fn shown_rows(rows: Seq<Vec<TableCell>>) -> Seq<Seq<Shown>> {
    Seq::new(rows.len(), |i: int| shown(rows[i]@))
}

/// The row of a project.
pub open spec fn row_of(
    rank: Seq<char>,
    name: Seq<char>,
    stats: Totals,
    bold_all: bool,
) -> Seq<Shown> {
    let styles = if bold_all {
        seq![Style::Bold]
    } else {
        Seq::empty()
    };
    seq![
        Shown { text: rank, styles, color: None },
        Shown { text: name, styles, color: None },
        Shown { text: decimal_digits(stats.sessions), styles, color: None },
        Shown { text: tokens_text(stats.input_tokens), styles, color: None },
        Shown { text: tokens_text(stats.output_tokens), styles, color: None },
        Shown {
            text: tokens_text(stats.total_tokens()),
            styles: seq![Style::Bold] + styles,
            color: None,
        },
        Shown { text: cost_text(stats.cost), styles, color: Some(color_of(stats.cost)) },
    ]
}

/// The row of a project that stands back.
pub open spec fn dimmed_row_of(rank: Seq<char>, name: Seq<char>, stats: Totals) -> Seq<Shown> {
    let styles = seq![Style::Dim];
    seq![
        Shown { text: rank, styles, color: None },
        Shown { text: name, styles, color: None },
        Shown { text: decimal_digits(stats.sessions), styles, color: None },
        Shown { text: tokens_text(stats.input_tokens), styles, color: None },
        Shown { text: tokens_text(stats.output_tokens), styles, color: None },
        Shown { text: tokens_text(stats.total_tokens()), styles, color: None },
        Shown { text: cost_text(stats.cost), styles, color: None },
    ]
}

fn plain_cell(text: String) -> (r: TableCell)
    ensures
        r@ == (Shown { text: text@, styles: Seq::empty(), color: None }),
{
    let r = TableCell { text, styles: Vec::new(), color: None };
    assert(r@.styles =~= Seq::empty());
    r
}

fn styled(cell: TableCell, style: Style) -> (r: TableCell)
    ensures
        r@ == (Shown { styles: cell@.styles.push(style), ..cell@ }),
{
    let mut cell = cell;
    cell.styles.push(style);
    cell
}

fn bold_if(cell: TableCell, bold: bool) -> (r: TableCell)
    ensures
        r@ == (Shown {
            styles: if bold {
                cell@.styles.push(Style::Bold)
            } else {
                cell@.styles
            },
            ..cell@
        }),
{
    if bold {
        styled(cell, Style::Bold)
    } else {
        cell
    }
}

/// The row of a project. Its total is bold, and all of it if `bold_all` says so.
pub fn stats_row(rank: &str, name: &str, stats: &ProjectStats, bold_all: bool) -> (r: Vec<TableCell>)
    requires
        stats@.total_tokens() <= u64::MAX,
    ensures
        shown(r@) == row_of(rank@, name@, stats@, bold_all),
{
    let mut cost = plain_cell(format_cost(stats.cost));
    cost.color = Some(cost_color(stats.cost));
    let mut r: Vec<TableCell> = Vec::new();
    r.push(bold_if(plain_cell(rank.to_string()), bold_all));
    r.push(bold_if(plain_cell(name.to_string()), bold_all));
    r.push(bold_if(plain_cell(decimal(stats.sessions)), bold_all));
    r.push(bold_if(plain_cell(format_tokens(stats.input_tokens)), bold_all));
    r.push(bold_if(plain_cell(format_tokens(stats.output_tokens)), bold_all));
    r.push(
        bold_if(styled(plain_cell(format_tokens(stats.total_tokens())), Style::Bold), bold_all),
    );
    r.push(bold_if(cost, bold_all));
    proof {
        let expected = row_of(rank@, name@, stats@, bold_all);
        assert forall|i: int| 0 <= i < 7 implies shown(r@)[i] == #[trigger] expected[i] by {
            assert(shown(r@)[i].styles =~= expected[i].styles);
        }
        assert(shown(r@) =~= expected);
    }
    r
}

/// The row of a project that stands back.
pub fn stats_row_dimmed(rank: &str, name: &str, stats: &ProjectStats) -> (r: Vec<TableCell>)
    requires
        stats@.total_tokens() <= u64::MAX,
    ensures
        shown(r@) == dimmed_row_of(rank@, name@, stats@),
{
    let mut r: Vec<TableCell> = Vec::new();
    r.push(styled(plain_cell(rank.to_string()), Style::Dim));
    r.push(styled(plain_cell(name.to_string()), Style::Dim));
    r.push(styled(plain_cell(decimal(stats.sessions)), Style::Dim));
    r.push(styled(plain_cell(format_tokens(stats.input_tokens)), Style::Dim));
    r.push(styled(plain_cell(format_tokens(stats.output_tokens)), Style::Dim));
    r.push(styled(plain_cell(format_tokens(stats.total_tokens())), Style::Dim));
    r.push(styled(plain_cell(format_cost(stats.cost)), Style::Dim));
    proof {
        let expected = dimmed_row_of(rank@, name@, stats@);
        assert forall|i: int| 0 <= i < 7 implies shown(r@)[i] == #[trigger] expected[i] by {
            assert(shown(r@)[i].styles =~= expected[i].styles);
        }
        assert(shown(r@) =~= expected);
    }
    r
}

/// The titles of the columns.
pub open spec fn column_titles() -> Seq<Seq<char>> {
    seq!["#"@, "Project"@, "Sessions"@, "Input"@, "Output"@, "Total"@, "Cost"@]
}

/// The row with the titles of the columns.
pub open spec fn header_row() -> Seq<Shown> {
    Seq::new(
        column_titles().len(),
        |i: int| Shown { text: column_titles()[i], styles: seq![Style::Bold], color: None },
    )
}

/// The report: a title, the titles of the columns, and the rows.
pub struct Leaderboard {
    pub title: String,
    pub header: Vec<TableCell>,
    pub rows: Vec<Vec<TableCell>>,
}

/// The title of the report.
pub open spec fn title_text(period: Period, agent: Seq<char>) -> Seq<char> {
    capitalized(agent) + " Code token usage ("@ + period.label_text() + ")"@
}

/// The row of the project at the index `i` of a report.
pub open spec fn ranked_row(rows: Rows, i: int) -> Seq<Shown> {
    let rank = decimal_digits((i + 1) as nat);
    if rows[i].0 == ORCHESTRATOR_LABEL@ {
        dimmed_row_of(rank, rows[i].0, rows[i].1)
    } else {
        row_of(rank, rows[i].0, rows[i].1, false)
    }
}

/// The rows of the report: the projects in their order, and what all of them
/// used.
pub open spec fn report_rows(rows: Rows) -> Seq<Seq<Shown>> {
    Seq::new(rows.len(), |i: int| ranked_row(rows, i)).push(
        row_of(""@, "TOTAL"@, sum_of(rows), true),
    )
}

fn header() -> (r: Vec<TableCell>)
    ensures
        shown(r@) == header_row(),
{
    let mut r: Vec<TableCell> = Vec::new();
    r.push(styled(plain_cell("#".to_string()), Style::Bold));
    r.push(styled(plain_cell("Project".to_string()), Style::Bold));
    r.push(styled(plain_cell("Sessions".to_string()), Style::Bold));
    r.push(styled(plain_cell("Input".to_string()), Style::Bold));
    r.push(styled(plain_cell("Output".to_string()), Style::Bold));
    r.push(styled(plain_cell("Total".to_string()), Style::Bold));
    r.push(styled(plain_cell("Cost".to_string()), Style::Bold));
    proof {
        assert forall|i: int| 0 <= i < 7 implies shown(r@)[i] == #[trigger] header_row()[i] by {
            assert(shown(r@)[i].styles =~= header_row()[i].styles);
        }
        assert(shown(r@) =~= header_row());
    }
    r
}

/// What a row shows is what each of its cells shows.
proof fn cells_shown(cells: Seq<TableCell>, row: Seq<Shown>)
    requires
        shown(cells) == row,
    ensures
        cells.len() == row.len(),
        forall|c: int| 0 <= c < row.len() ==> (#[trigger] cells[c])@ == row[c],
{
    assert forall|c: int| 0 <= c < row.len() implies (#[trigger] cells[c])@ == row[c] by {
        assert(shown(cells)[c] == cells[c]@);
    }
}

/// The report on the projects `sorted`.
pub fn leaderboard(
    sorted: &Vec<(String, ProjectStats)>,
    period: Period,
    agent: &str,
) -> (r: Leaderboard)
    requires
        sum_of(listed(sorted@)).fits(),
        sum_of(listed(sorted@)).total_tokens() <= u64::MAX,
    ensures
        r.title@ == title_text(period, agent@),
        shown(r.header@) == header_row(),
        shown_rows(r.rows@) == report_rows(listed(sorted@)),
        r.rows@.len() == sorted@.len() + 1,
        forall|i: int|
            0 <= i < sorted@.len() ==> {
                let cells = (#[trigger] r.rows@[i])@;
                let stats = sorted@[i].1;
                &&& cells.len() == 7
                &&& cells[0].text@ == decimal_digits((i + 1) as nat)
                &&& cells[1].text@ == sorted@[i].0@
                &&& cells[2].text@ == decimal_digits(stats.sessions as nat)
                &&& cells[3].text@ == tokens_text(stats.input_tokens as nat)
                &&& cells[4].text@ == tokens_text(stats.output_tokens as nat)
                &&& cells[5].text@ == tokens_text((stats.input_tokens + stats.output_tokens) as nat)
                &&& cells[6].text@ == cost_text(stats.cost as nat)
            },
{
    let ghost all = listed(sorted@);
    let mut rows: Vec<Vec<TableCell>> = Vec::new();
    let mut grand_total = ProjectStats::default();
    let mut i: usize = 0;
    assert(all.take(0) =~= Rows::empty());
    while i < sorted.len()
        invariant
            i <= sorted@.len(),
            all == listed(sorted@),
            sum_of(all).fits(),
            sum_of(all).total_tokens() <= u64::MAX,
            grand_total@ == sum_of(all.take(i as int)),
            rows@.len() == i,
            forall|k: int| 0 <= k < i ==> shown_rows(rows@)[k] == #[trigger] ranked_row(all, k),
        decreases sorted@.len() - i,
    {
        proof {
            sum_without_row(all, i as int);
            assert(all.take(i + 1) =~= all.take(i as int).push(all[i as int]));
            sum_with_row(all.take(i as int), all[i as int]);
            law_first_rows_covered(all, i + 1);
        }
        let name = sorted[i].0.as_str();
        let rank = decimal((i + 1) as u64);
        let row = if same_text(name, ORCHESTRATOR_LABEL) {
            stats_row_dimmed(rank.as_str(), name, &sorted[i].1)
        } else {
            stats_row(rank.as_str(), name, &sorted[i].1, false)
        };
        let ghost before = shown_rows(rows@);
        rows.push(row);
        grand_total.accumulate(&sorted[i].1);
        i += 1;
        assert forall|k: int| 0 <= k < i implies shown_rows(rows@)[k] == #[trigger] ranked_row(
            all,
            k,
        ) by {
            if k < i - 1 {
                assert(shown_rows(rows@)[k] == before[k]);
            }
        }
    }
    assert(all.take(i as int) =~= all);
    rows.push(stats_row("", "TOTAL", &grand_total, true));
    assert(shown_rows(rows@) =~= report_rows(all));
    assert forall|i: int| 0 <= i < sorted@.len() implies shown((#[trigger] rows@[i])@)
        == ranked_row(all, i) by {
        assert(shown_rows(rows@)[i] == shown(rows@[i]@));
        cells_shown(rows@[i]@, ranked_row(all, i));
    }
    proof {
        assert forall|i: int| 0 <= i < sorted@.len() implies {
            let cells = (#[trigger] rows@[i])@;
            let stats = sorted@[i].1;
            &&& cells.len() == 7
            &&& cells[0].text@ == decimal_digits((i + 1) as nat)
            &&& cells[1].text@ == sorted@[i].0@
            &&& cells[2].text@ == decimal_digits(stats.sessions as nat)
            &&& cells[3].text@ == tokens_text(stats.input_tokens as nat)
            &&& cells[4].text@ == tokens_text(stats.output_tokens as nat)
            &&& cells[5].text@ == tokens_text((stats.input_tokens + stats.output_tokens) as nat)
            &&& cells[6].text@ == cost_text(stats.cost as nat)
        } by {
            cells_shown(rows@[i]@, ranked_row(all, i));
        }
    }
    Leaderboard {
        title: capitalize(agent).concat(" Code token usage (").concat(period.label()).concat(")"),
        header: header(),
        rows,
    }
}

/// The report shows the projects of `rows` with subdirectories merged, those that
/// used most tokens first, and without those that had no session.
pub open spec fn reports(board: Leaderboard, rows: Rows, period: Period, agent: Seq<char>) -> bool {
    &&& board.title@ == title_text(period, agent)
    &&& shown(board.header@) == header_row()
    &&& exists|ranking: Rows|
        #![trigger report_rows(ranking)]
        ranks(ranking, active(merged_all(rows, merge_plan(rows, rows.len() as int))))
            && shown_rows(board.rows@) == report_rows(ranking)
}

/// The report on all that was gathered, if its sums fit.
pub fn report_on(gather: Gather, period: Period, agent: &str) -> (r: Option<Leaderboard>)
    requires
        gather@.sound(),
    ensures
        match r {
            Some(board) => reports(board, gather@.rows, period, agent@),
            None => !(sum_of(gather@.rows).fits() && sum_of(gather@.rows).total_tokens()
                <= u64::MAX),
        },
{
    let total = match gather.grand_total() {
        Some(total) => total,
        None => {
            return None;
        },
    };
    if total.input_tokens > u64::MAX - total.output_tokens {
        return None;
    }
    proof {
        law_report_fits(gather@.rows);
    }
    let sorted = gather.finish();
    Some(leaderboard(&sorted, period, agent))
}

/// An amount is red above a hundred dollars, yellow above ten, and green up to ten.
pub proof fn law_colors(microcents: nat)
    ensures
        microcents > 10_000_000_000 ==> color_of(microcents) == CostColor::Red,
        1_000_000_000 < microcents <= 10_000_000_000 ==> color_of(microcents) == CostColor::Yellow,
        microcents <= 1_000_000_000 ==> color_of(microcents) == CostColor::Green,
{
}

/// The title names the agent, with a capital letter, and the period.
pub proof fn law_titles(agent: Seq<char>)
    ensures
        title_text(Period::Total, agent) == capitalized(agent) + " Code token usage ("@
            + "all time"@ + ")"@,
        title_text(Period::Week, agent) == capitalized(agent) + " Code token usage ("@
            + "past 7 days"@ + ")"@,
        title_text(Period::Month, agent) == capitalized(agent) + " Code token usage ("@
            + "past 30 days"@ + ")"@,
{
}

/// The seven columns have these titles, in bold.
pub proof fn law_header()
    ensures
        header_row().len() == 7,
        header_row()[0].text == "#"@,
        header_row()[1].text == "Project"@,
        header_row()[2].text == "Sessions"@,
        header_row()[3].text == "Input"@,
        header_row()[4].text == "Output"@,
        header_row()[5].text == "Total"@,
        header_row()[6].text == "Cost"@,
        forall|c: int| 0 <= c < 7 ==> (#[trigger] header_row()[c]).styles == seq![Style::Bold],
{
}

/// A board has one row for each project with a session, in the order of the
/// ranking, and one for all of them. A row shows the rank, the name, the sessions,
/// the input, the output, both together and the cost.
pub proof fn law_board_rows(board: Leaderboard, rows: Rows, period: Period, agent: Seq<char>)
    requires
        reports(board, rows, period, agent),
    ensures
        exists|ranking: Rows|
            {
                &&& #[trigger] ranks(
                    ranking,
                    active(merged_all(rows, merge_plan(rows, rows.len() as int))),
                )
                &&& board.rows@.len() == ranking.len() + 1
                &&& forall|i: int|
                    0 <= i < ranking.len() ==> {
                        let cells = (#[trigger] board.rows@[i])@;
                        let stats = ranking[i].1;
                        &&& cells.len() == 7
                        &&& cells[0].text@ == decimal_digits((i + 1) as nat)
                        &&& cells[1].text@ == ranking[i].0
                        &&& cells[2].text@ == decimal_digits(stats.sessions)
                        &&& cells[3].text@ == tokens_text(stats.input_tokens)
                        &&& cells[4].text@ == tokens_text(stats.output_tokens)
                        &&& cells[5].text@ == tokens_text(stats.input_tokens + stats.output_tokens)
                        &&& cells[6].text@ == cost_text(stats.cost)
                    }
                &&& ({
                    let cells = board.rows@[ranking.len() as int]@;
                    let stats = sum_of(ranking);
                    &&& cells.len() == 7
                    &&& cells[0].text@ == ""@
                    &&& cells[1].text@ == "TOTAL"@
                    &&& cells[2].text@ == decimal_digits(stats.sessions)
                    &&& cells[3].text@ == tokens_text(stats.input_tokens)
                    &&& cells[4].text@ == tokens_text(stats.output_tokens)
                    &&& cells[5].text@ == tokens_text(stats.input_tokens + stats.output_tokens)
                    &&& cells[6].text@ == cost_text(stats.cost)
                })
            },
{
    let ranking = choose|ranking: Rows|
        #![trigger report_rows(ranking)]
        ranks(ranking, active(merged_all(rows, merge_plan(rows, rows.len() as int)))) && shown_rows(
            board.rows@,
        ) == report_rows(ranking);
    assert(ranks(ranking, active(merged_all(rows, merge_plan(rows, rows.len() as int)))));
    assert(shown_rows(board.rows@).len() == report_rows(ranking).len());
    assert forall|i: int| 0 <= i < ranking.len() implies {
        let cells = (#[trigger] board.rows@[i])@;
        let stats = ranking[i].1;
        &&& cells.len() == 7
        &&& cells[0].text@ == decimal_digits((i + 1) as nat)
        &&& cells[1].text@ == ranking[i].0
        &&& cells[2].text@ == decimal_digits(stats.sessions)
        &&& cells[3].text@ == tokens_text(stats.input_tokens)
        &&& cells[4].text@ == tokens_text(stats.output_tokens)
        &&& cells[5].text@ == tokens_text(stats.input_tokens + stats.output_tokens)
        &&& cells[6].text@ == cost_text(stats.cost)
    } by {
        assert(shown_rows(board.rows@)[i] == shown(board.rows@[i]@));
        cells_shown(board.rows@[i]@, ranked_row(ranking, i));
    }
    let last = ranking.len() as int;
    assert(shown_rows(board.rows@)[last] == shown(board.rows@[last]@));
    cells_shown(board.rows@[last]@, row_of(""@, "TOTAL"@, sum_of(ranking), true));
}

/// The row of the orchestrator stands back. In every other row the total is bold
/// and the cost has its colour; the last row is bold throughout.
pub proof fn law_row_styles(ranking: Rows, i: int, c: int)
    requires
        0 <= i < ranking.len(),
        0 <= c < 7,
    ensures
        ranking[i].0 == "[orchestrator]"@ ==> report_rows(ranking)[i][c].styles == seq![Style::Dim]
            && report_rows(ranking)[i][c].color is None,
        ranking[i].0 != "[orchestrator]"@ ==> {
            let cell = report_rows(ranking)[i][c];
            &&& cell.styles == if c == 5 {
                seq![Style::Bold]
            } else {
                Seq::empty()
            }
            &&& cell.color == if c == 6 {
                Some(color_of(ranking[i].1.cost))
            } else {
                None
            }
        },
        ({
            let cell = report_rows(ranking)[ranking.len() as int][c];
            &&& cell.styles.contains(Style::Bold)
            &&& !cell.styles.contains(Style::Dim)
            &&& cell.color == if c == 6 {
                Some(color_of(sum_of(ranking).cost))
            } else {
                None
            }
        }),
{
    assert(seq![Style::Bold] + Seq::<Style>::empty() =~= seq![Style::Bold]);
    let cell = report_rows(ranking)[ranking.len() as int][c];
    assert(cell.styles[0] == Style::Bold);
}

} // verus!
