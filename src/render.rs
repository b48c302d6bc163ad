//! Rendering the registry as lines of colored segments: a finished/total
//! summary, then one aligned group per listed status.
use crate::column::{
    cell_text, config_valid, fit_text, max_len, styled_view, Column, ColumnAlign, ColumnConfig, ColumnFit,
    ColumnView, StyledText, TextColor,
};
use crate::internal_state::InternalState;
use crate::task::{completion_of, saturated, Task};
use crate::text::{decimal, ellipsis, signed_decimal, i32_decimal, usize_decimal};
use crate::Status;
use vstd::prelude::*;
use vstd::string::StringExecFns;

verus! {

/// The length of a progress bar for `finished` out of `total` on `width`
/// characters: `finished / total * width`, rounded to the nearest integer
/// (halves round up).
pub open spec fn bar_len(finished: nat, total: nat, width: nat) -> nat
    recommends
        total > 0,
{
    let p = finished * width;
    if 2 * (p % total) >= total {
        p / total + 1
    } else {
        p / total
    }
}

/// A bar of `n` characters: `=` signs ending in a `>` head.
pub open spec fn bar(n: nat) -> Seq<char> {
    if n == 0 {
        Seq::empty()
    } else {
        Seq::new((n - 1) as nat, |i: int| '=').push('>')
    }
}

proof fn lemma_bar_len_bound(f: nat, t: nat, w: nat)
    requires
        0 < t,
        f <= t,
    ensures
        bar_len(f, t, w) <= w,
{
    let p = f * w;
    assert(p <= t * w) by (nonlinear_arith)
        requires
            f <= t,
            p == f * w,
    ;
    assert(p / t <= w) by (nonlinear_arith)
        requires
            p <= t * w,
            0 < t,
    ;
    if p / t == w {
        assert(p % t == 0) by (nonlinear_arith)
            requires
                p <= t * w,
                p / t == w,
                0 < t,
        ;
    }
}

/// A progress bar for `finished` out of `total` on `available_width`
/// characters; empty when that rounds to nothing.
pub fn progress_bar(finished: usize, total: usize, available_width: usize) -> (r: String)
    requires
        0 < total,
        finished <= total,
    ensures
        r@ == bar(bar_len(finished as nat, total as nat, available_width as nat)),
        r@.len() <= available_width,
{
    let f = finished as u128;
    let t = total as u128;
    let w = available_width as u128;
    assert(f * w <= 0xffff_ffff_ffff_ffff_ffff_ffff_ffff_ffffu128) by (nonlinear_arith)
        requires
            f <= 0xffff_ffff_ffff_ffffu128,
            w <= 0xffff_ffff_ffff_ffffu128,
    ;
    let p = f * w;
    let q = p / t;
    let rem = p % t;
    proof {
        lemma_bar_len_bound(finished as nat, total as nat, available_width as nat);
    }
    let n: u128 = if 2 * rem >= t {
        q + 1
    } else {
        q
    };
    assert(n == bar_len(finished as nat, total as nat, available_width as nat));
    let n = n as usize;
    let mut r = String::new();
    if n == 0 {
        assert(r@ =~= bar(0));
        return r;
    }
    let mut i: usize = 0;
    while i + 1 < n
        invariant
            1 <= n,
            i + 1 <= n,
            r@ == Seq::new(i as nat, |k: int| '='),
        decreases n - i,
    {
        proof {
            reveal_strlit("=");
        }
        r.append("=");
        i = i + 1;
        assert(r@ =~= Seq::new(i as nat, |k: int| '='));
    }
    proof {
        reveal_strlit(">");
    }
    r.append(">");
    assert(r@ =~= bar(n as nat));
    r
}

/// A task with `n` sub-tasks that count as units of work, `f` of them
/// finished, shows `f` out of `n`, or nothing when `n` is zero; its bar is
/// `f / n` of the available width, rounded to the nearest character.
pub proof fn lemma_aggregation_law(t: Task, width: nat)
    requires
        t.substate.active_total() <= usize::MAX,
    ensures
        t.substate.active_total() == 0 ==> completion_of(t) is None,
        t.substate.active_total() > 0 ==> completion_of(t) == Some(
            (t.substate.bucket(Status::Finished).len(), t.substate.active_total()),
        ),
        t.substate.active_total() > 0 ==> {
            let f = t.substate.bucket(Status::Finished).len();
            let n = t.substate.active_total();
            let b = bar_len(f, n, width);
            &&& bar(b).len() == b
            &&& 2 * (b * n - f * width) <= n
            &&& 2 * (f * width - b * n) <= n
        },
{
    if t.substate.active_total() > 0 {
        let f = t.substate.bucket(Status::Finished).len();
        let n = t.substate.active_total();
        let p = f * width;
        let q = p / n;
        let rem = p % n;
        assert(p == q * n + rem && 0 <= rem < n) by (nonlinear_arith)
            requires
                q == p / n,
                rem == p % n,
                n > 0,
        ;
        let b = bar_len(f, n, width);
        if 2 * rem >= n {
            assert(b * n == q * n + n) by (nonlinear_arith)
                requires
                    b == q + 1,
            ;
        } else {
            assert(b * n == q * n) by (nonlinear_arith)
                requires
                    b == q,
            ;
        }
    }
}

/// The name under which a task is listed: its display name, or its id.
pub open spec fn name_text(t: Task) -> Seq<char> {
    match t.display_name {
        Some(n) => n@,
        None => signed_decimal(t.key as int),
    }
}

pub fn name_of(t: &Task) -> (r: String)
    ensures
        r@ == name_text(*t),
{
    match &t.display_name {
        Some(n) => n.clone(),
        None => i32_decimal(t.key),
    }
}

/// The label of a status, as it heads its group.
pub open spec fn status_label(s: Status) -> Seq<char> {
    match s {
        Status::Queued => "Queued"@,
        Status::Started => "Started"@,
        Status::Finished => "Finished"@,
        Status::Error => "Error"@,
        Status::Info => "Info"@,
    }
}

pub fn label_of(s: Status) -> (r: String)
    ensures
        r@ == status_label(s),
{
    match s {
        Status::Queued => String::from_str("Queued"),
        Status::Started => String::from_str("Started"),
        Status::Finished => String::from_str("Finished"),
        Status::Error => String::from_str("Error"),
        Status::Info => String::from_str("Info"),
    }
}

/// The heading of a group: `Label (count):`.
pub open spec fn header_text(s: Status, count: nat) -> Seq<char> {
    status_label(s) + " ("@ + decimal(count) + "):"@
}

pub fn header_of(s: Status, count: usize) -> (r: String)
    ensures
        r@ == header_text(s, count as nat),
{
    let n = usize_decimal(count);
    label_of(s).concat(" (").concat(n.as_str()).concat("):")
}

/// The column that results from pushing `texts`, in order, into a new
/// column configured with `c`.
pub open spec fn column_of(c: ColumnConfig, texts: Seq<(Seq<char>, TextColor)>) -> ColumnView {
    let rows = texts.map_values(|t: (Seq<char>, TextColor)| (fit_text(c, t.0), t.1));
    ColumnView { config: c, originals: texts, rows, longest: max_len(rows) }
}

/// Row `r` of a column as a rendered cell and its color; an empty plain
/// cell past the last row.
pub open spec fn cell_of(v: ColumnView, r: int) -> (Seq<char>, TextColor) {
    if 0 <= r < v.rows.len() {
        (cell_text(v.config, v.rows[r].0, v.longest), v.rows[r].1)
    } else {
        (Seq::empty(), TextColor::Plain)
    }
}

/// The rendered width of a column's rows, saturating at `usize::MAX`.
pub open spec fn width_of(v: ColumnView) -> nat {
    saturated((v.longest + v.config.left_padding + v.config.right_padding) as nat)
}

pub open spec fn name_config(fit: ColumnFit) -> ColumnConfig {
    ColumnConfig { align: ColumnAlign::LEFT, fit, left_padding: 4, right_padding: 1 }
}

pub open spec fn finished_config() -> ColumnConfig {
    ColumnConfig { align: ColumnAlign::RIGHT, fit: ColumnFit::NORMAL, left_padding: 3, right_padding: 1 }
}

pub open spec fn total_config() -> ColumnConfig {
    ColumnConfig { align: ColumnAlign::RIGHT, fit: ColumnFit::NORMAL, left_padding: 0, right_padding: 1 }
}

/// The finished count of a task with sub-tasks, as `F /`.
pub open spec fn finished_text(t: Task) -> Seq<char> {
    match completion_of(t) {
        Some((f, n)) => decimal(f) + " /"@,
        None => Seq::empty(),
    }
}

/// The unit count of a task with sub-tasks.
pub open spec fn total_text(t: Task) -> Seq<char> {
    match completion_of(t) {
        Some((f, n)) => decimal(n),
        None => Seq::empty(),
    }
}

pub open spec fn name_texts(shown: Seq<Task>, color: TextColor) -> Seq<(Seq<char>, TextColor)> {
    shown.map_values(|t: Task| (name_text(t), color))
}

pub open spec fn finished_texts(shown: Seq<Task>) -> Seq<(Seq<char>, TextColor)> {
    shown.map_values(|t: Task| (finished_text(t), TextColor::Plain))
}

pub open spec fn total_texts(shown: Seq<Task>) -> Seq<(Seq<char>, TextColor)> {
    shown.map_values(|t: Task| (total_text(t), TextColor::Plain))
}

/// The tasks of a group that are listed: at most `max` of them.
pub open spec fn shown_tasks(jobs: Seq<Task>, max: nat) -> Seq<Task> {
    if jobs.len() > max {
        jobs.take(max as int)
    } else {
        jobs
    }
}

/// The name column of a group: the listed names, then an ellipsis row when
/// some tasks are not listed.
pub open spec fn name_column(jobs: Seq<Task>, color: TextColor, max: nat, fit: ColumnFit) -> ColumnView {
    column_of(
        name_config(fit),
        name_texts(shown_tasks(jobs, max), color) + if jobs.len() > max {
            seq![(ellipsis(), TextColor::Plain)]
        } else {
            Seq::empty()
        },
    )
}

/// Row `r` of a group: the name, the finished count and the unit count,
/// then a progress bar on what is left of the terminal's width for a task
/// with sub-tasks.
pub open spec fn row_spec(
    v0: ColumnView,
    v1: ColumnView,
    v2: ColumnView,
    shown: Seq<Task>,
    avail: nat,
    r: int,
) -> Seq<(Seq<char>, TextColor)> {
    let base = seq![cell_of(v0, r), cell_of(v1, r), cell_of(v2, r)];
    if 0 <= r < shown.len() {
        match completion_of(shown[r]) {
            Some((f, n)) => base.push((bar(bar_len(f, n, avail)), TextColor::Plain)),
            None => base,
        }
    } else {
        base
    }
}

/// What is left of `width` after `used`.
pub open spec fn left_over(width: nat, used: nat) -> nat {
    if width >= used {
        (width - used) as nat
    } else {
        0
    }
}

/// The lines of the group of `jobs`, listed under `status` in `color`:
/// nothing when there are no jobs; else an empty line, the heading, and one
/// row per listed task (plus the ellipsis row).
pub open spec fn group_spec(
    jobs: Seq<Task>,
    status: Status,
    color: TextColor,
    max: nat,
    terminal_width: nat,
    fit: ColumnFit,
) -> Seq<Seq<(Seq<char>, TextColor)>> {
    if jobs.len() == 0 {
        Seq::empty()
    } else {
        let shown = shown_tasks(jobs, max);
        let v0 = name_column(jobs, color, max, fit);
        let v1 = column_of(finished_config(), finished_texts(shown));
        let v2 = column_of(total_config(), total_texts(shown));
        let used = saturated((saturated((width_of(v0) + width_of(v1)) as nat) + width_of(v2)) as nat);
        let avail = left_over(terminal_width, used);
        seq![
            seq![(Seq::<char>::empty(), TextColor::Plain)],
            seq![(header_text(status, jobs.len()), TextColor::Plain)],
        ] + Seq::new(v0.rows.len(), |r: int| row_spec(v0, v1, v2, shown, avail, r))
    }
}

/// A line as segments.
pub open spec fn line_view(l: Vec<StyledText>) -> Seq<(Seq<char>, TextColor)> {
    l@.map_values(|t: StyledText| styled_view(t))
}

/// Lines as segments.
pub open spec fn lines_view(v: Vec<Vec<StyledText>>) -> Seq<Seq<(Seq<char>, TextColor)>> {
    v@.map_values(|l: Vec<StyledText>| line_view(l))
}

proof fn lemma_column_push(c: ColumnConfig, texts: Seq<(Seq<char>, TextColor)>, t: (Seq<char>, TextColor))
    ensures
        column_of(c, texts.push(t)).rows == column_of(c, texts).rows.push((fit_text(c, t.0), t.1)),
        column_of(c, texts.push(t)).originals == texts.push(t),
        column_of(c, texts.push(t)).longest == if fit_text(c, t.0).len() > column_of(c, texts).longest {
            fit_text(c, t.0).len()
        } else {
            column_of(c, texts).longest
        },
{
    let r0 = column_of(c, texts).rows;
    let r1 = column_of(c, texts.push(t)).rows;
    assert(r1 =~= r0.push((fit_text(c, t.0), t.1)));
    assert(r1.drop_last() =~= r0);
}

fn plain_text(text: String) -> (r: StyledText)
    ensures
        styled_view(r) == (text@, TextColor::Plain),
{
    StyledText { text, color: TextColor::Plain }
}

/// Renders the group of `jobs`, listed under `status` in `color`: at most
/// `max` tasks, on a terminal `terminal_width` characters wide, with names
/// fitted by `name_fit`.
#[verifier::rlimit(60)]
pub fn group_lines(
    jobs: &Vec<Task>,
    status: Status,
    color: TextColor,
    max: usize,
    terminal_width: usize,
    name_fit: ColumnFit,
) -> (r: Vec<Vec<StyledText>>)
    requires
        config_valid(name_config(name_fit)),
    ensures
        lines_view(r) == group_spec(jobs@, status, color, max as nat, terminal_width as nat, name_fit),
{
    let mut out: Vec<Vec<StyledText>> = Vec::new();
    if jobs.len() == 0 {
        assert(lines_view(out) =~= group_spec(jobs@, status, color, max as nat, terminal_width as nat, name_fit));
        return out;
    }
    let ghost shown = shown_tasks(jobs@, max as nat);
    let mut c0 = Column::new(
        ColumnConfig { align: ColumnAlign::LEFT, fit: name_fit, left_padding: 4, right_padding: 1 },
    );
    let mut c1 = Column::new(
        ColumnConfig {
            align: ColumnAlign::RIGHT,
            fit: ColumnFit::NORMAL,
            left_padding: 3,
            right_padding: 1,
        },
    );
    let mut c2 = Column::new(
        ColumnConfig {
            align: ColumnAlign::RIGHT,
            fit: ColumnFit::NORMAL,
            left_padding: 0,
            right_padding: 1,
        },
    );
    let mut progresses: Vec<Option<(usize, usize)>> = Vec::new();
    let n_shown = if jobs.len() > max {
        max
    } else {
        jobs.len()
    };
    assert(column_of(name_config(name_fit), name_texts(shown.take(0), color)) =~= c0@);
    assert(column_of(finished_config(), finished_texts(shown.take(0))) =~= c1@);
    assert(column_of(total_config(), total_texts(shown.take(0))) =~= c2@);
    let mut i: usize = 0;
    while i < n_shown
        invariant
            n_shown == shown.len(),
            shown == shown_tasks(jobs@, max as nat),
            i <= n_shown,
            config_valid(name_config(name_fit)),
            c0@ == column_of(name_config(name_fit), name_texts(shown.take(i as int), color)),
            c1@ == column_of(finished_config(), finished_texts(shown.take(i as int))),
            c2@ == column_of(total_config(), total_texts(shown.take(i as int))),
            progresses@.len() == i,
            forall|k: int|
                0 <= k < i ==> match #[trigger] progresses@[k] {
                    Some((f, n)) => completion_of(shown[k]) == Some((f as nat, n as nat)),
                    None => completion_of(shown[k]) is None,
                },
        decreases n_shown - i,
    {
        let job = &jobs[i];
        assert(shown[i as int] == jobs@[i as int]);
        let ghost t = shown[i as int];
        proof {
            assert(shown.take(i + 1) =~= shown.take(i as int).push(t));
            assert(name_texts(shown.take(i + 1), color) =~= name_texts(shown.take(i as int), color).push(
                (name_text(t), color),
            ));
            assert(finished_texts(shown.take(i + 1)) =~= finished_texts(shown.take(i as int)).push(
                (finished_text(t), TextColor::Plain),
            ));
            assert(total_texts(shown.take(i + 1)) =~= total_texts(shown.take(i as int)).push(
                (total_text(t), TextColor::Plain),
            ));
            lemma_column_push(name_config(name_fit), name_texts(shown.take(i as int), color), (name_text(t), color));
            lemma_column_push(finished_config(), finished_texts(shown.take(i as int)), (finished_text(t), TextColor::Plain));
            lemma_column_push(total_config(), total_texts(shown.take(i as int)), (total_text(t), TextColor::Plain));
        }
        c0.push(StyledText { text: name_of(job), color });
        match job.completion() {
            None => {
                c1.push(plain_text(String::new()));
                c2.push(plain_text(String::new()));
                progresses.push(None);
            },
            Some((f, n)) => {
                let ft = usize_decimal(f).concat(" /");
                c1.push(plain_text(ft));
                c2.push(plain_text(usize_decimal(n)));
                progresses.push(Some((f, n)));
            },
        }
        i = i + 1;
        proof {
            assert(c0@ =~= column_of(name_config(name_fit), name_texts(shown.take(i as int), color)));
            assert(c1@ =~= column_of(finished_config(), finished_texts(shown.take(i as int))));
            assert(c2@ =~= column_of(total_config(), total_texts(shown.take(i as int))));
        }
    }
    assert(shown.take(n_shown as int) =~= shown);
    if jobs.len() > max {
        let dots = String::from_str("...");
        let ghost before = c0@;
        assert(before == column_of(name_config(name_fit), name_texts(shown, color)));
        proof {
            reveal_strlit("...");
            assert(dots@ == ellipsis());
            lemma_column_push(name_config(name_fit), name_texts(shown, color), (ellipsis(), TextColor::Plain));
        }
        c0.push(plain_text(dots));
        assert(name_texts(shown, color) + seq![(ellipsis(), TextColor::Plain)] =~= name_texts(
            shown,
            color,
        ).push((ellipsis(), TextColor::Plain)));
        assert(c0@ =~= name_column(jobs@, color, max as nat, name_fit));
    } else {
        assert(name_texts(shown, color) + Seq::empty() =~= name_texts(shown, color));
        assert(c0@ =~= name_column(jobs@, color, max as nat, name_fit));
    }
    let ghost v0 = c0@;
    let ghost v1 = c1@;
    let ghost v2 = c2@;
    let used = c0.line_len().saturating_add(c1.line_len()).saturating_add(c2.line_len());
    let avail = terminal_width.saturating_sub(used);
    assert(avail == left_over(terminal_width as nat, saturated((saturated((width_of(v0) + width_of(v1)) as nat) + width_of(v2)) as nat)));
    assert(v1.rows.len() == shown.len());
    assert(v2.rows.len() == shown.len());
    out.push(vec![plain_text(String::new())]);
    out.push(vec![plain_text(header_of(status, jobs.len()))]);
    let num_rows = c0.len();
    let mut row: usize = 0;
    while row < num_rows
        invariant
            num_rows == v0.rows.len(),
            v0 == name_column(jobs@, color, max as nat, name_fit),
            v1 == column_of(finished_config(), finished_texts(shown)),
            v2 == column_of(total_config(), total_texts(shown)),
            c0@ == v0,
            c1@ == v1,
            c2@ == v2,
            row <= num_rows,
            v1.rows.len() == shown.len(),
            v2.rows.len() == shown.len(),
            progresses@.len() == shown.len(),
            forall|k: int|
                0 <= k < shown.len() ==> match #[trigger] progresses@[k] {
                    Some((f, n)) => completion_of(shown[k]) == Some((f as nat, n as nat)),
                    None => completion_of(shown[k]) is None,
                },
            out@.len() == 2 + row,
            line_view(out@[0]) == seq![(Seq::<char>::empty(), TextColor::Plain)],
            line_view(out@[1]) == seq![(header_text(status, jobs@.len()), TextColor::Plain)],
            forall|k: int| 0 <= k < row ==> #[trigger] line_view(out@[2 + k]) == row_spec(v0, v1, v2, shown, avail as nat, k),
        decreases num_rows - row,
    {
        let mut line: Vec<StyledText> = Vec::new();
        let s0 = c0.to_string(row);
        let s1 = c1.to_string(row);
        let s2 = c2.to_string(row);
        assert(s0@ =~= cell_of(v0, row as int).0);
        assert(s1@ =~= cell_of(v1, row as int).0);
        assert(s2@ =~= cell_of(v2, row as int).0);
        assert(cell_of(v1, row as int).1 == TextColor::Plain);
        assert(cell_of(v2, row as int).1 == TextColor::Plain);
        let k0 = c0.color(row);
        assert(k0 == cell_of(v0, row as int).1);
        line.push(StyledText { text: s0, color: k0 });
        line.push(plain_text(s1));
        line.push(plain_text(s2));
        if row < progresses.len() {
            match progresses[row] {
                Some((f, n)) => {
                    assert(completion_of(shown[row as int]) == Some((f as nat, n as nat)));
                    line.push(plain_text(progress_bar(f, n, avail)));
                },
                None => {},
            }
        }
        assert(line_view(line)[0] == row_spec(v0, v1, v2, shown, avail as nat, row as int)[0]);
        assert(line_view(line)[1] == row_spec(v0, v1, v2, shown, avail as nat, row as int)[1]);
        assert(line_view(line)[2] == row_spec(v0, v1, v2, shown, avail as nat, row as int)[2]);
        assert(line_view(line).len() == row_spec(v0, v1, v2, shown, avail as nat, row as int).len());
        assert(line_view(line) =~= row_spec(v0, v1, v2, shown, avail as nat, row as int));
        out.push(line);
        row = row + 1;
    }
    let ghost g = group_spec(jobs@, status, color, max as nat, terminal_width as nat, name_fit);
    assert(g.len() == out@.len());
    assert forall|i: int| 0 <= i < out@.len() implies #[trigger] lines_view(out)[i] == g[i] by {
        if i >= 2 {
            assert(line_view(out@[2 + (i - 2)]) == row_spec(v0, v1, v2, shown, avail as nat, i - 2));
        }
    }
    assert(lines_view(out) =~= g);
    out
}

/// How many tasks a group lists at most.
pub const GROUP_LIMIT: usize = 10;

/// `fit` with its width raised to at least `least`.
pub open spec fn widened(fit: ColumnFit, least: usize) -> ColumnFit {
    match fit {
        ColumnFit::NORMAL => ColumnFit::NORMAL,
        ColumnFit::MIN(n) => ColumnFit::MIN(if n < least { least } else { n }),
        ColumnFit::MAX(n) => ColumnFit::MAX(if n < least { least } else { n }),
        ColumnFit::EXACT(n) => ColumnFit::EXACT(if n < least { least } else { n }),
    }
}

fn widen(fit: ColumnFit, least: usize) -> (r: ColumnFit)
    ensures
        r == widened(fit, least),
{
    match fit {
        ColumnFit::NORMAL => ColumnFit::NORMAL,
        ColumnFit::MIN(n) => ColumnFit::MIN(if n < least { least } else { n }),
        ColumnFit::MAX(n) => ColumnFit::MAX(if n < least { least } else { n }),
        ColumnFit::EXACT(n) => ColumnFit::EXACT(if n < least { least } else { n }),
    }
}

/// The first line: how many tasks are finished out of all units of work.
pub open spec fn summary_spec(st: InternalState) -> Seq<(Seq<char>, TextColor)> {
    seq![
        ("Finished tasks: "@, TextColor::Plain),
        (decimal(st.bucket(Status::Finished).len()), TextColor::Green),
        (" / "@ + decimal(saturated(st.active_total())), TextColor::Plain),
    ]
}

/// The whole board: the summary, then the Started, Queued, Error and Info
/// groups. Task names take the width `name_fit` allows (at least the
/// names' paddings); info messages take the terminal's width.
pub open spec fn board_spec(st: InternalState, terminal_width: nat, name_fit: ColumnFit) -> Seq<
    Seq<(Seq<char>, TextColor)>,
> {
    let fit = widened(name_fit, 5);
    let info_fit = widened(ColumnFit::EXACT(terminal_width as usize), 5);
    seq![summary_spec(st)] + group_spec(
        st.bucket(Status::Started),
        Status::Started,
        TextColor::Green,
        GROUP_LIMIT as nat,
        terminal_width,
        fit,
    ) + group_spec(
        st.bucket(Status::Queued),
        Status::Queued,
        TextColor::Yellow,
        GROUP_LIMIT as nat,
        terminal_width,
        fit,
    ) + group_spec(
        st.bucket(Status::Error),
        Status::Error,
        TextColor::Red,
        GROUP_LIMIT as nat,
        terminal_width,
        fit,
    ) + group_spec(
        st.bucket(Status::Info),
        Status::Info,
        TextColor::Plain,
        GROUP_LIMIT as nat,
        terminal_width,
        info_fit,
    )
}

/// The one column of a simple group: names cut to the terminal's width (at
/// least the paddings' width).
pub open spec fn simple_config(terminal_width: usize) -> ColumnConfig {
    ColumnConfig {
        align: ColumnAlign::LEFT,
        fit: widened(ColumnFit::MAX(terminal_width), 5),
        left_padding: 4,
        right_padding: 1,
    }
}

/// The lines of a simple group: nothing when there are no jobs; else an
/// empty line, the heading, and the names of at most `max` tasks.
pub open spec fn simple_group_spec(
    jobs: Seq<Task>,
    status: Status,
    color: TextColor,
    max: nat,
    terminal_width: usize,
) -> Seq<Seq<(Seq<char>, TextColor)>> {
    if jobs.len() == 0 {
        Seq::empty()
    } else {
        let v = column_of(simple_config(terminal_width), name_texts(shown_tasks(jobs, max), color));
        seq![
            seq![(Seq::<char>::empty(), TextColor::Plain)],
            seq![(header_text(status, jobs.len()), TextColor::Plain)],
        ] + Seq::new(v.rows.len(), |r: int| seq![cell_of(v, r)])
    }
}

/// Renders the group of `jobs` as a single column of names: at most `max`
/// tasks, each cut to the terminal's width.
pub fn simple_group_lines(
    jobs: &Vec<Task>,
    status: Status,
    color: TextColor,
    max: usize,
    terminal_width: usize,
) -> (r: Vec<Vec<StyledText>>)
    ensures
        lines_view(r) == simple_group_spec(jobs@, status, color, max as nat, terminal_width),
{
    let mut out: Vec<Vec<StyledText>> = Vec::new();
    if jobs.len() == 0 {
        assert(lines_view(out) =~= simple_group_spec(jobs@, status, color, max as nat, terminal_width));
        return out;
    }
    let ghost shown = shown_tasks(jobs@, max as nat);
    let ghost cfg = simple_config(terminal_width);
    let mut data = Column::new(
        ColumnConfig {
            align: ColumnAlign::LEFT,
            fit: widen(ColumnFit::MAX(terminal_width), 5),
            left_padding: 4,
            right_padding: 1,
        },
    );
    let n_shown = if jobs.len() > max {
        max
    } else {
        jobs.len()
    };
    assert(column_of(cfg, name_texts(shown.take(0), color)) =~= data@);
    let mut i: usize = 0;
    while i < n_shown
        invariant
            n_shown == shown.len(),
            shown == shown_tasks(jobs@, max as nat),
            cfg == simple_config(terminal_width),
            i <= n_shown,
            data@ == column_of(cfg, name_texts(shown.take(i as int), color)),
        decreases n_shown - i,
    {
        let ghost t = shown[i as int];
        assert(t == jobs@[i as int]);
        proof {
            assert(shown.take(i + 1) =~= shown.take(i as int).push(t));
            assert(name_texts(shown.take(i + 1), color) =~= name_texts(shown.take(i as int), color).push(
                (name_text(t), color),
            ));
            lemma_column_push(cfg, name_texts(shown.take(i as int), color), (name_text(t), color));
        }
        data.push(StyledText { text: name_of(&jobs[i]), color });
        i = i + 1;
        assert(data@ =~= column_of(cfg, name_texts(shown.take(i as int), color)));
    }
    assert(shown.take(n_shown as int) =~= shown);
    let ghost v = data@;
    out.push(vec![plain_text(String::new())]);
    out.push(vec![plain_text(header_of(status, jobs.len()))]);
    let num_rows = data.len();
    let mut row: usize = 0;
    while row < num_rows
        invariant
            num_rows == v.rows.len(),
            v == column_of(cfg, name_texts(shown, color)),
            data@ == v,
            row <= num_rows,
            out@.len() == 2 + row,
            line_view(out@[0]) == seq![(Seq::<char>::empty(), TextColor::Plain)],
            line_view(out@[1]) == seq![(header_text(status, jobs@.len()), TextColor::Plain)],
            forall|k: int| 0 <= k < row ==> #[trigger] line_view(out@[2 + k]) == seq![cell_of(v, k)],
        decreases num_rows - row,
    {
        let text = data.to_string(row);
        let color = data.color(row);
        let mut line: Vec<StyledText> = Vec::new();
        line.push(StyledText { text, color });
        assert(line_view(line) =~= seq![cell_of(v, row as int)]);
        out.push(line);
        row = row + 1;
    }
    let ghost g = simple_group_spec(jobs@, status, color, max as nat, terminal_width);
    assert(g.len() == out@.len());
    assert forall|i: int| 0 <= i < out@.len() implies #[trigger] lines_view(out)[i] == g[i] by {
        if i >= 2 {
            assert(line_view(out@[2 + (i - 2)]) == seq![cell_of(v, i - 2)]);
        }
    }
    assert(lines_view(out) =~= g);
    out
}

impl InternalState {
    fn group_of(&self, s: Status, color: TextColor, terminal_width: usize, fit: ColumnFit) -> (r: Vec<
        Vec<StyledText>,
    >)
        requires
            config_valid(name_config(fit)),
        ensures
            lines_view(r) == group_spec(self.bucket(s), s, color, GROUP_LIMIT as nat, terminal_width as nat, fit),
    {
        match self.tasks_in(s) {
            Some(jobs) => group_lines(jobs, s, color, GROUP_LIMIT, terminal_width, fit),
            None => {
                let r: Vec<Vec<StyledText>> = Vec::new();
                assert(lines_view(r) =~= group_spec(self.bucket(s), s, color, GROUP_LIMIT as nat, terminal_width as nat, fit));
                r
            },
        }
    }

    /// Renders the board on a terminal `terminal_width` characters wide,
    /// with task names fitted by `name_fit`.
    pub fn render_lines(&self, terminal_width: usize, name_fit: ColumnFit) -> (r: Vec<Vec<StyledText>>)
        ensures
            lines_view(r) == board_spec(*self, terminal_width as nat, name_fit),
    {
        let fit = widen(name_fit, 5);
        let info_fit = widen(ColumnFit::EXACT(terminal_width), 5);
        let finished = usize_decimal(self.count(Status::Finished));
        let total = usize_decimal(self.get_total());
        let mut summary: Vec<StyledText> = Vec::new();
        summary.push(plain_text(String::from_str("Finished tasks: ")));
        summary.push(StyledText { text: finished, color: TextColor::Green });
        summary.push(plain_text(String::from_str(" / ").concat(total.as_str())));
        assert(line_view(summary) =~= summary_spec(*self));
        let mut out: Vec<Vec<StyledText>> = Vec::new();
        out.push(summary);
        let ghost head = lines_view(out);
        assert(head =~= seq![summary_spec(*self)]);
        let mut g = self.group_of(Status::Started, TextColor::Green, terminal_width, fit);
        out.append(&mut g);
        let mut g = self.group_of(Status::Queued, TextColor::Yellow, terminal_width, fit);
        out.append(&mut g);
        let mut g = self.group_of(Status::Error, TextColor::Red, terminal_width, fit);
        out.append(&mut g);
        let mut g = self.group_of(Status::Info, TextColor::Plain, terminal_width, info_fit);
        out.append(&mut g);
        assert(lines_view(out) =~= board_spec(*self, terminal_width as nat, name_fit));
        out
    }
}

} // verus!
