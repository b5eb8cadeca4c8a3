use vstd::prelude::*;

verus! {

/// The cell that marks the goal of the maze.
pub const GOAL_CELL: char = 'g';

/// The cell that a player may walk through.
pub const OPEN_CELL: char = ' ';

/// Whether the maze has a cell at (row, col). Rows may differ in length.
pub open spec fn has_cell(maze: Seq<Vec<char>>, row: int, col: int) -> bool {
    0 <= row < maze.len() && 0 <= col < maze[row]@.len()
}

/// The cell at (row, col).
pub open spec fn cell(maze: Seq<Vec<char>>, row: int, col: int) -> char {
    maze[row]@[col]
}

/// Whether a row of cells holds the goal.
pub open spec fn row_has_goal(row: Seq<char>) -> bool {
    exists|c: int| 0 <= c < row.len() && #[trigger] row[c] == GOAL_CELL
}

/// The goal is the cell 'g' and the open cell is ' '; a row holds the goal
/// exactly when one of its cells is 'g'.
pub proof fn lemma_maze_cells(row: Seq<char>)
    ensures
        GOAL_CELL == 'g',
        OPEN_CELL == ' ',
        row_has_goal(row) <==> exists|c: int| 0 <= c < row.len() && #[trigger] row[c] == 'g',
{
}

/// Whether the player may stand in cell (row, col): the cell lies within the
/// maze's row count and within the length of its first row, and it is open.
pub open spec fn is_walkable(maze: Seq<Vec<char>>, row: int, col: int) -> bool {
    &&& 0 <= row < maze.len()
    &&& 0 <= col < maze[0]@.len()
    &&& cell(maze, row, col) == OPEN_CELL
}

/// Only an open cell (' ') inside the maze is walkable: inside the maze the
/// answer is true exactly for ' ', so every wall ('+', '-', '|') and the goal
/// ('g') are refused; outside the maze it is always false.
pub proof fn lemma_only_open_cells_are_walkable(maze: Seq<Vec<char>>, row: int, col: int)
    ensures
        has_cell(maze, row, col) && col < maze[0]@.len() ==> (is_walkable(maze, row, col)
            <==> maze[row]@[col] == ' '),
        has_cell(maze, row, col) && (maze[row]@[col] == '+' || maze[row]@[col] == '-'
            || maze[row]@[col] == '|' || maze[row]@[col] == 'g') ==> !is_walkable(maze, row, col),
        !(0 <= row < maze.len()) ==> !is_walkable(maze, row, col),
        maze.len() > 0 && !(0 <= col < maze[0]@.len()) ==> !is_walkable(maze, row, col),
{
}

/// Whether the player may move into cell (row, col) of the maze. A cell
/// outside the maze is never walkable.
pub fn can_move_to_cell(maze: &[Vec<char>], row: usize, col: usize) -> (ok: bool)
    requires
        row < maze@.len() && col < maze@[0]@.len() ==> col < maze@[row as int]@.len(),
    ensures
        ok == is_walkable(maze@, row as int, col as int),
        ok == (row < maze@.len() && col < maze@[0]@.len() && maze@[row as int]@[col as int] == ' '),
{
    if row < maze.len() && col < maze[0].len() {
        let c = maze[row][col];
        return c == OPEN_CELL;
    }
    false
}

/// The first column of `row` that holds the goal, if any.
pub fn first_goal_column(row: &Vec<char>) -> (found: Option<usize>)
    ensures
        found is None <==> !row_has_goal(row@),
        found matches Some(c) ==> {
            &&& c < row@.len()
            &&& row@[c as int] == GOAL_CELL
            &&& forall|k: int| 0 <= k < c ==> row@[k] != GOAL_CELL
        },
{
    let n = row.len();
    let mut c: usize = 0;
    while c < n
        invariant
            c <= n,
            n == row@.len(),
            forall|k: int| 0 <= k < c ==> row@[k] != GOAL_CELL,
        decreases n - c,
    {
        if row[c] == GOAL_CELL {
            return Some(c);
        }
        c = c + 1;
    }
    None
}

/// Where the goal of the maze is, as (row, column): the goal of the last row
/// that holds one, and of that row its first goal cell; `None` when no row
/// holds a goal.
pub fn find_goal_cell(maze: &[Vec<char>]) -> (goal: Option<(usize, usize)>)
    ensures
        goal is None <==> forall|r: int| 0 <= r < maze@.len() ==> !row_has_goal(#[trigger] maze@[r]@),
        goal matches Some((r, c)) ==> {
            &&& has_cell(maze@, r as int, c as int)
            &&& cell(maze@, r as int, c as int) == GOAL_CELL
            &&& forall|k: int| 0 <= k < c ==> cell(maze@, r as int, k) != GOAL_CELL
            &&& forall|r2: int| r < r2 < maze@.len() ==> !row_has_goal(#[trigger] maze@[r2]@)
        },
{
    let rows = maze.len();
    let mut goal: Option<(usize, usize)> = None;
    let mut r: usize = 0;
    while r < rows
        invariant
            r <= rows,
            rows == maze@.len(),
            goal is None ==> forall|r2: int| 0 <= r2 < r ==> !row_has_goal(#[trigger] maze@[r2]@),
            goal matches Some((gr, gc)) ==> {
                &&& gr < r
                &&& has_cell(maze@, gr as int, gc as int)
                &&& cell(maze@, gr as int, gc as int) == GOAL_CELL
                &&& forall|k: int| 0 <= k < gc ==> cell(maze@, gr as int, k) != GOAL_CELL
                &&& forall|r2: int| gr < r2 < r ==> !row_has_goal(#[trigger] maze@[r2]@)
            },
        decreases rows - r,
    {
        match first_goal_column(&maze[r]) {
            Some(c) => {
                goal = Some((r, c));
            },
            None => {},
        }
        r = r + 1;
    }
    proof {
        if let Some((gr, gc)) = goal {
            assert(row_has_goal(maze@[gr as int]@));
        }
    }
    goal
}

/// Which view the game draws: the top-down map or the first-person view.
#[derive(Clone, Copy, Debug, PartialEq, Eq, Structural)]
pub enum RenderMode {
    TwoD,
    ThreeD,
}

/// The other view.
pub open spec fn other_mode(mode: RenderMode) -> RenderMode {
    match mode {
        RenderMode::TwoD => RenderMode::ThreeD,
        RenderMode::ThreeD => RenderMode::TwoD,
    }
}

impl RenderMode {
    /// The view that switching away from this one gives.
    pub fn toggled(self) -> (m: RenderMode)
        ensures
            m == other_mode(self),
    {
        match self {
            RenderMode::TwoD => RenderMode::ThreeD,
            RenderMode::ThreeD => RenderMode::TwoD,
        }
    }
}

/// Switching the view twice gives back the view one started from, and a
/// switch always changes the view.
pub proof fn lemma_toggle_twice(mode: RenderMode)
    ensures
        other_mode(other_mode(mode)) == mode,
        other_mode(mode) != mode,
{
}

} // verus!
