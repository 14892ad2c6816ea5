use vstd::prelude::*;
use crate::text::{chars_of, string_from};
use ratatui::layout::{Constraint, Direction, Layout, Rect};

verus! {

/// How a file path is shown in the hot-file table: a path of more than 45
/// characters shows as "…" and its last 42 characters.
pub open spec fn shown_path(path: Seq<char>) -> Seq<char> {
    if path.len() > 45 {
        seq!['…'] + path.subrange(path.len() - 42, path.len() as int)
    } else {
        path
    }
}

/// The path as the hot-file table shows it; see `shown_path`.
pub fn short_path(path: &str) -> (s: String)
    ensures
        s@ == shown_path(path@),
{
    let cs = chars_of(path);
    if cs.len() > 45 {
        let mut v: Vec<char> = Vec::new();
        v.push('…');
        let mut i = cs.len() - 42;
        while i < cs.len()
            invariant
                cs@ == path@,
                cs@.len() > 45,
                cs@.len() - 42 <= i <= cs@.len(),
                v@ == seq!['…'] + cs@.subrange(cs@.len() - 42, i as int),
            decreases cs@.len() - i,
        {
            v.push(cs[i]);
            assert(cs@.subrange(cs@.len() - 42, i + 1) =~= cs@.subrange(cs@.len() - 42, i as int).push(cs@[i as int]));
            assert(v@ =~= seq!['…'] + cs@.subrange(cs@.len() - 42, i + 1));
            i = i + 1;
        }
        string_from(&v)
    } else {
        string_from(&cs)
    }
}

/// The columns of the grid of per-core charts: 1 for up to 4 cores, 2 for
/// up to 8, else 4.
pub open spec fn grid_columns(cores: nat) -> nat {
    if cores <= 4 {
        1
    } else if cores <= 8 {
        2
    } else {
        4
    }
}

/// The columns and rows of the grid of per-core charts: enough rows of
/// `grid_columns` charts for every core.
pub fn cpu_grid(cores: usize) -> (grid: (usize, usize))
    ensures
        grid.0 == grid_columns(cores as nat),
        grid.1 == (cores + grid.0 - 1) / (grid.0 as int),
{
    let cols: usize = if cores <= 4 {
        1
    } else if cores <= 8 {
        2
    } else {
        4
    };
    let rows = cores / cols + if cores % cols > 0 { 1 } else { 0 };
    assert(rows == (cores + cols - 1) / (cols as int)) by (nonlinear_arith)
        requires
            cols >= 1,
            rows == cores / cols + if cores % cols > 0 { 1int } else { 0int },
    ;
    (cols, rows)
}

/// What ratatui's `Layout::split` gives for the area (x, y, width, height)
/// split along one axis (vertically where `vertical`, else horizontally)
/// by three percentage constraints `parts`.
pub uninterp spec fn percent_split(vertical: bool, parts: (u16, u16, u16), area: (u16, u16, u16, u16)) -> Seq<
    (u16, u16, u16, u16),
>;

/// ratatui's `Layout::split` with three `Constraint::Percentage` parts. Its
/// result is named by `percent_split`, a function of the arguments alone;
/// it holds one rectangle per constraint. Where the solver places them is
/// not stated here.
#[verifier::external_body]
fn split_percent(vertical: bool, parts: (u16, u16, u16), area: (u16, u16, u16, u16)) -> (rects: Vec<
    (u16, u16, u16, u16),
>)
    ensures
        rects@ == percent_split(vertical, parts, area),
        rects@.len() == 3,
{
    let direction = if vertical { Direction::Vertical } else { Direction::Horizontal };
    let rect = Rect { x: area.0, y: area.1, width: area.2, height: area.3 };
    let constraints = [Constraint::Percentage(parts.0), Constraint::Percentage(parts.1), Constraint::Percentage(parts.2)];
    let rects = Layout::default().direction(direction).constraints(constraints).split(rect);
    rects.iter().map(|r| (r.x, r.y, r.width, r.height)).collect()
}

/// The rectangle of `px` by `py` percent at the centre of `area`: the middle
/// part of a three-way horizontal split of the middle part of a three-way
/// vertical split, the outer parts sharing the rest evenly.
pub open spec fn centered_in(px: u16, py: u16, area: (u16, u16, u16, u16)) -> (u16, u16, u16, u16) {
    let dy = ((100 - py) / 2) as u16;
    let dx = ((100 - px) / 2) as u16;
    percent_split(false, (dx, px, dx), percent_split(true, (dy, py, dy), area)[1])[1]
}

/// The area of a popup of `percent_x` by `percent_y` percent of `area`,
/// centred; see `centered_in`.
pub fn centered_rect(percent_x: u16, percent_y: u16, area: (u16, u16, u16, u16)) -> (r: (u16, u16, u16, u16))
    requires
        percent_x <= 100,
        percent_y <= 100,
    ensures
        r == centered_in(percent_x, percent_y, area),
{
    let dy = (100 - percent_y) / 2;
    let rows = split_percent(true, (dy, percent_y, dy), area);
    let dx = (100 - percent_x) / 2;
    let cols = split_percent(false, (dx, percent_x, dx), rows[1]);
    cols[1]
}

} // verus!
