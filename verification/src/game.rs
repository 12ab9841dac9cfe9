//! The grid and the game: the executable state and its moves.
use crate::board::{
    before, fault_at, faultless_before, first_fault_at, is_board, is_stop,
    lemma_board_not_refused, lemma_piece_once, lemma_refused, process_char, refused_with,
    seen_before,
};
use crate::command::Command;
use crate::error::BoardError;
use crate::model::{
    has_cell, holds, is_tile, lemma_minotaur_step_wf, lemma_theseus_step_wf, tile_at, GameView,
    GridView, EMPTY, GOAL, MINOTAUR, THESEUS, WALL,
};
use crate::text::{lines_of, render_rows, rendered, rows_of, split_lines};
use vstd::prelude::*;

verus! {

/// Whether a game goes on or how it has ended.
#[derive(Clone, Copy, Debug, PartialEq, Eq, Structural)]
pub enum GameStatus {
    /// Theseus has reached the goal.
    Win,
    /// Theseus and the Minotaur have met.
    Lose,
    /// Neither has happened yet.
    Continue,
}

/// The board and the places of the two pieces.
pub struct Grid {
    vec: Vec<Vec<char>>,
    t_pos: (usize, usize),
    m_pos: (usize, usize),
    row_bound: usize,
    col_bound: usize,
}

impl View for Grid {
    type V = GridView;

    closed spec fn view(&self) -> GridView {
        GridView {
            cells: rows_of(self.vec),
            theseus: (self.t_pos.0 as int, self.t_pos.1 as int),
            minotaur: (self.m_pos.0 as int, self.m_pos.1 as int),
            row_bound: self.row_bound as int,
            col_bound: self.col_bound as int,
        }
    }
}

/// A game: a grid and its status.
pub struct Game {
    grid: Grid,
    status: GameStatus,
}

impl View for Game {
    type V = GameView;

    closed spec fn view(&self) -> GameView {
        GameView { grid: self.grid@, status: self.status }
    }
}

/// Whether `at` is the record of the piece `ch` when the scan stands at
/// `upto`: the place of a cell before `upto` that holds the piece, or nothing
/// if no cell before `upto` holds it.
spec fn is_record(
    rows: Seq<Seq<char>>,
    upto: (int, int),
    ch: char,
    at: Option<(usize, usize)>,
) -> bool {
    match at {
        Some(p) => holds(rows, (p.0 as int, p.1 as int), ch) && before(
            (p.0 as int, p.1 as int),
            upto,
        ),
        None => !seen_before(rows, ch, upto),
    }
}

/// What holds when the scan stands at `upto`: no stop before it has a fault,
/// and the three records are those of the cells before it.
spec fn scanned(
    rows: Seq<Seq<char>>,
    upto: (int, int),
    goal: Option<(usize, usize)>,
    theseus: Option<(usize, usize)>,
    minotaur: Option<(usize, usize)>,
) -> bool {
    &&& faultless_before(rows, upto)
    &&& is_record(rows, upto, GOAL, goal)
    &&& is_record(rows, upto, THESEUS, theseus)
    &&& is_record(rows, upto, MINOTAUR, minotaur)
}

impl Grid {
    /// Takes in string and constructs a Grid struct
    ///
    /// The rows are the lines of the text. See [`Grid::from_rows`].
    pub fn from_board(board: &str) -> (out: Result<Grid, BoardError>)
        ensures
            out is Ok <==> is_board(lines_of(board@)),
            forall|error: BoardError| #[trigger]
                refused_with(lines_of(board@), error) <==> out.err() == Some(error),
            out matches Ok(grid) ==> {
                &&& grid@.cells == lines_of(board@)
                &&& grid@.wf()
                &&& grid@.in_play()
            },
    {
        Grid::from_rows(split_lines(board))
    }

    /// Makes a grid of rows of characters.
    ///
    /// The rows are scanned top to bottom, each row left to right, and the
    /// first fault ends the scan: a character that is no tile symbol, the
    /// second meeting of the goal, of Theseus or of the Minotaur, or the end
    /// of a row without cells. Where the scan finds no fault, the rows are
    /// refused if there is no row, or else no goal, or else no Theseus, or
    /// else no Minotaur. Otherwise the grid holds the rows as they are, with
    /// the two pieces recorded where they stand.
    pub fn from_rows(rows: Vec<Vec<char>>) -> (out: Result<Grid, BoardError>)
        ensures
            out is Ok <==> is_board(rows_of(rows)),
            forall|error: BoardError| #[trigger]
                refused_with(rows_of(rows), error) <==> out.err() == Some(error),
            out matches Ok(grid) ==> {
                &&& grid@.cells == rows_of(rows)
                &&& grid@.wf()
                &&& grid@.in_play()
            },
    {
        let ghost cells = rows_of(rows);
        let mut g_pos: Option<(usize, usize)> = None;
        let mut t_pos: Option<(usize, usize)> = None;
        let mut m_pos: Option<(usize, usize)> = None;
        let mut col_bound: usize = 0;
        let mut r: usize = 0;
        while r < rows.len()
            invariant
                cells == rows_of(rows),
                r <= rows.len(),
                scanned(cells, (r as int, 0), g_pos, t_pos, m_pos),
                forall|i: int| 0 <= i < r ==> 1 <= #[trigger] cells[i].len() <= col_bound + 1,
                r == 0 ==> col_bound == 0,
                r > 0 ==> exists|i: int| 0 <= i < r && #[trigger] cells[i].len() == col_bound + 1,
            decreases rows.len() - r,
        {
            let row = &rows[r];
            let mut c: usize = 0;
            while c < row.len()
                invariant
                    cells == rows_of(rows),
                    r < rows.len(),
                    row@ == cells[r as int],
                    c <= row.len(),
                    scanned(cells, (r as int, c as int), g_pos, t_pos, m_pos),
                decreases row.len() - c,
            {
                let ghost here = (r as int, c as int);
                let ghost next = (r as int, c + 1);
                proof {
                    assert(is_stop(cells, here));
                    assert(holds(cells, here, row@[c as int]));
                }
                match process_char(row[c], (r, c), &mut g_pos, &mut t_pos, &mut m_pos) {
                    Ok(_) => {},
                    Err(error) => {
                        proof {
                            assert(first_fault_at(cells, here));
                            lemma_refused(cells, error);
                        }
                        return Err(error);
                    },
                }
                proof {
                    assert(fault_at(cells, here) is None);
                    assert forall|p: (int, int)|
                        is_stop(cells, p) && before(p, next) implies #[trigger] fault_at(cells, p)
                        is None by {
                        if !before(p, here) {
                            assert(p == here);
                        }
                    }
                    assert forall|ch: char, p: (int, int)|
                        before(p, next) && #[trigger] holds(cells, p, ch) implies before(p, here)
                        || (p == here && ch == row@[c as int]) by {
                        if !before(p, here) {
                            assert(p == here);
                        }
                    }
                }
                c += 1;
            }
            if row.len() == 0 {
                proof {
                    assert(first_fault_at(cells, (r as int, 0)));
                    lemma_refused(cells, BoardError::InvalidSize);
                }
                return Err(BoardError::InvalidSize);
            }
            if row.len() - 1 > col_bound {
                col_bound = row.len() - 1;
            }
            proof {
                let end = (r as int, row@.len() as int);
                let next = (r + 1, 0int);
                assert(is_stop(cells, end));
                assert(fault_at(cells, end) is None);
                assert forall|p: (int, int)|
                    is_stop(cells, p) && before(p, next) implies #[trigger] fault_at(cells, p)
                    is None by {
                    if !before(p, end) {
                        assert(p == end);
                    }
                }
                assert forall|ch: char, p: (int, int)|
                    before(p, next) && #[trigger] holds(cells, p, ch) implies before(p, end) by {
                }
                assert(cells[r as int].len() <= col_bound + 1);
                if cells[r as int].len() != col_bound + 1 {
                    let i = choose|i: int|
                        0 <= i < r && #[trigger] cells[i].len() == col_bound + 1;
                    assert(cells[i].len() == col_bound + 1);
                }
            }
            r += 1;
        }
        proof {
            assert forall|p: (int, int)| is_stop(cells, p) implies #[trigger] fault_at(cells, p)
                is None by {
                assert(before(p, (r as int, 0int)));
            }
        }
        if rows.len() == 0 {
            proof {
                lemma_refused(cells, BoardError::InvalidSize);
            }
            return Err(BoardError::InvalidSize);
        }
        let row_bound = rows.len() - 1;
        match g_pos {
            None => {
                proof {
                    lemma_refused(cells, BoardError::NoGoal);
                }
                Err(BoardError::NoGoal)
            },
            Some(goal) => match t_pos {
                None => {
                    proof {
                        assert(holds(cells, (goal.0 as int, goal.1 as int), GOAL));
                        lemma_refused(cells, BoardError::NoTheseus);
                    }
                    Err(BoardError::NoTheseus)
                },
                Some(theseus) => match m_pos {
                    None => {
                        proof {
                            assert(holds(cells, (goal.0 as int, goal.1 as int), GOAL));
                            assert(holds(cells, (theseus.0 as int, theseus.1 as int), THESEUS));
                            lemma_refused(cells, BoardError::NoMinotaur);
                        }
                        Err(BoardError::NoMinotaur)
                    },
                    Some(minotaur) => {
                        let grid = Grid {
                            vec: rows,
                            t_pos: theseus,
                            m_pos: minotaur,
                            row_bound,
                            col_bound,
                        };
                        proof {
                            let at_goal = (goal.0 as int, goal.1 as int);
                            let at_theseus = (theseus.0 as int, theseus.1 as int);
                            let at_minotaur = (minotaur.0 as int, minotaur.1 as int);
                            assert(holds(cells, at_goal, GOAL));
                            assert(holds(cells, at_theseus, THESEUS));
                            assert(holds(cells, at_minotaur, MINOTAUR));
                            assert forall|pos: (int, int)| #[trigger]
                                has_cell(cells, pos) implies is_tile(tile_at(cells, pos)) by {
                                assert(is_stop(cells, pos));
                                assert(fault_at(cells, pos) is None);
                            }
                            assert forall|pos: (int, int)| #[trigger]
                                holds(cells, pos, THESEUS) implies pos == at_theseus by {
                                lemma_piece_once(cells, THESEUS, pos, at_theseus);
                            }
                            assert forall|pos: (int, int)| #[trigger]
                                holds(cells, pos, MINOTAUR) implies pos == at_minotaur by {
                                lemma_piece_once(cells, MINOTAUR, pos, at_minotaur);
                            }
                            assert forall|p: (int, int), q: (int, int)|
                                #[trigger] holds(cells, p, GOAL) && #[trigger] holds(
                                    cells,
                                    q,
                                    GOAL,
                                ) implies p == q by {
                                lemma_piece_once(cells, GOAL, p, q);
                            }
                            lemma_board_not_refused(cells);
                        }
                        Ok(grid)
                    },
                },
            },
        }
    }

    /// Whether `pos` (row, column) lies within the rectangle spanned by the
    /// highest row index and the highest column index of the grid. Where the
    /// rows differ in length, such a place need not have a cell: see
    /// [`Game::has_cell`].
    pub fn in_bounds(&self, pos: (usize, usize)) -> (inside: bool)
        ensures
            inside == self@.in_bounds((pos.0 as int, pos.1 as int)),
    {
        pos.0 <= self.row_bound && pos.1 <= self.col_bound
    }

    /// In a well-formed grid both recorded places index the rows.
    proof fn lemma_pieces_at_cells(&self)
        requires
            self@.wf(),
        ensures
            self.t_pos.0 < self.vec.len(),
            self.t_pos.1 < self.vec[self.t_pos.0 as int].len(),
            self.m_pos.0 < self.vec.len(),
            self.m_pos.1 < self.vec[self.m_pos.0 as int].len(),
    {
        assert(self@.has_cell(self@.theseus));
        assert(self@.has_cell(self@.minotaur));
    }
}

impl Game {
    /// Starts a game on the board that the text describes: the grid is that
    /// of [`Grid::from_board`], and the game goes on.
    pub fn from_board(board: &str) -> (out: Result<Game, BoardError>)
        ensures
            out is Ok <==> is_board(lines_of(board@)),
            forall|error: BoardError| #[trigger]
                refused_with(lines_of(board@), error) <==> out.err() == Some(error),
            out matches Ok(game) ==> {
                &&& game@.grid.cells == lines_of(board@)
                &&& game@.status == GameStatus::Continue
                &&& game@.wf()
            },
    {
        let grid: Grid;
        match Grid::from_board(board) {
            Ok(g) => grid = g,
            Err(err) => return Err(err),
        }
        return Ok(Game { grid: grid, status: GameStatus::Continue })
    }

    /// The grid as text, one row a line, for a display to print.
    pub fn render(&self) -> (text: String)
        ensures
            text@ == rendered(self@.grid.cells),
    {
        render_rows(&self.grid.vec)
    }

    /// Moves the Minotaur by one step of his chase, if he has one.
    ///
    /// He closes the distance in columns before that in rows, never steps on
    /// a wall or on the goal, and never where there is no cell. If his step
    /// would lead onto Theseus, the game is lost and he stays.
    pub fn minotaur_move(&mut self)
        requires
            old(self)@.wf(),
        ensures
            final(self)@ == old(self)@.minotaur_step(),
            final(self)@.wf(),
    {
        let t = self.grid.t_pos;
        let m = self.grid.m_pos;
        let new_pos: (usize, usize);
        proof {
            self.grid.lemma_pieces_at_cells();
        }
        if t.1 < m.1 && self.open_to_minotaur(m.0, m.1 - 1) {
            new_pos = (m.0, m.1 - 1);
        } else if t.1 > m.1 && self.open_to_minotaur(m.0, m.1 + 1) {
            new_pos = (m.0, m.1 + 1);
        } else if t.0 < m.0 && self.open_to_minotaur(m.0 - 1, m.1) {
            new_pos = (m.0 - 1, m.1);
        } else if t.0 < m.0 && self.open_to_minotaur(m.0 + 1, m.1) {
            new_pos = (m.0 + 1, m.1);
        } else {
            return ;
        }
        proof {
            lemma_minotaur_step_wf(old(self)@);
        }
        if self.is_theseus(new_pos.0, new_pos.1) {
            self.status = GameStatus::Lose;
            return ;
        }
        self.grid.vec[m.0][m.1] = EMPTY;
        self.grid.vec[new_pos.0][new_pos.1] = MINOTAUR;
        self.grid.m_pos = new_pos;
        assert(self@.grid.cells =~~= old(self)@.minotaur_step().grid.cells);
    }

    /// Moves Theseus by one step as `command` says, if the rules allow it.
    ///
    /// A step off the grid, onto a wall, or to a place without a cell is
    /// ignored. A step onto the Minotaur loses the game and a step onto the
    /// goal wins it; Theseus is then recorded at that cell and the cells stay
    /// as they are. A step onto an empty cell moves him there.
    pub fn theseus_move(&mut self, command: Command)
        requires
            old(self)@.wf(),
        ensures
            final(self)@ == old(self)@.theseus_step(command),
            final(self)@.wf(),
    {
        let old_pos = self.grid.t_pos;
        let mut new_pos: (usize, usize) = old_pos;
        proof {
            self.grid.lemma_pieces_at_cells();
        }
        match command {
            Command::Up => {
                if new_pos.0 == 0 {
                    return ;
                }
                new_pos.0 -= 1;
            },
            Command::Down => new_pos.0 += 1,
            Command::Left => {
                if new_pos.1 == 0 {
                    return ;
                }
                new_pos.1 -= 1;
            },
            Command::Right => new_pos.1 += 1,
            Command::Skip => {},
        }
        proof {
            lemma_theseus_step_wf(old(self)@, command);
        }
        if !self.grid.in_bounds(new_pos) || !self.has_cell(new_pos.0, new_pos.1) {
        } else if self.is_minotaur(new_pos.0, new_pos.1) {
            self.grid.t_pos = new_pos;
            self.status = GameStatus::Lose;
        } else if self.is_goal(new_pos.0, new_pos.1) {
            self.grid.t_pos = new_pos;
            self.status = GameStatus::Win;
        } else if self.is_empty(new_pos.0, new_pos.1) {
            self.grid.vec[old_pos.0][old_pos.1] = EMPTY;
            self.grid.vec[new_pos.0][new_pos.1] = THESEUS;
            self.grid.t_pos = new_pos;
            assert(self@.grid.cells =~~= old(self)@.theseus_step(command).grid.cells);
        }
    }

    /// Whether the game goes on, is won or is lost.
    pub fn status(&self) -> (status: GameStatus)
        ensures
            status == self@.status,
    {
        self.status
    }

    /// The place (row, column) that is recorded for Theseus.
    pub fn theseus_pos(&self) -> (pos: (usize, usize))
        ensures
            (pos.0 as int, pos.1 as int) == self@.grid.theseus,
    {
        self.grid.t_pos
    }

    /// The place (row, column) that is recorded for the Minotaur.
    pub fn minotaur_pos(&self) -> (pos: (usize, usize))
        ensures
            (pos.0 as int, pos.1 as int) == self@.grid.minotaur,
    {
        self.grid.m_pos
    }

    /// Whether the grid has a cell at this row and column. The cell
    /// predicates may be asked only of such a place.
    pub fn has_cell(&self, row: usize, col: usize) -> (present: bool)
        ensures
            present == self@.grid.has_cell((row as int, col as int)),
    {
        row < self.grid.vec.len() && col < self.grid.vec[row].len()
    }

    /// Whether the Minotaur may step to this row and column.
    fn open_to_minotaur(&self, row: usize, col: usize) -> (open: bool)
        ensures
            open == self@.grid.open_to_minotaur((row as int, col as int)),
    {
        self.has_cell(row, col) && !self.is_wall(row, col) && !self.is_goal(row, col)
    }

    /// Returns true if the given position is Theseus
    pub fn is_theseus(&self, row: usize, col: usize) -> (found: bool)
        requires
            self@.grid.has_cell((row as int, col as int)),
        ensures
            found == self@.grid.holds((row as int, col as int), THESEUS),
    {
        self.grid.vec[row][col] == THESEUS
    }

    /// Returns true if the given position is Minotaur
    pub fn is_minotaur(&self, row: usize, col: usize) -> (found: bool)
        requires
            self@.grid.has_cell((row as int, col as int)),
        ensures
            found == self@.grid.holds((row as int, col as int), MINOTAUR),
    {
        self.grid.vec[row][col] == MINOTAUR
    }

    /// Returns true if the given position is a wall
    pub fn is_wall(&self, row: usize, col: usize) -> (found: bool)
        requires
            self@.grid.has_cell((row as int, col as int)),
        ensures
            found == self@.grid.holds((row as int, col as int), WALL),
    {
        self.grid.vec[row][col] == WALL
    }

    /// Returns true if the given position is the goal
    pub fn is_goal(&self, row: usize, col: usize) -> (found: bool)
        requires
            self@.grid.has_cell((row as int, col as int)),
        ensures
            found == self@.grid.holds((row as int, col as int), GOAL),
    {
        self.grid.vec[row][col] == GOAL
    }

    /// Returns true if the given position is empty
    pub fn is_empty(&self, row: usize, col: usize) -> (found: bool)
        requires
            self@.grid.has_cell((row as int, col as int)),
        ensures
            found == self@.grid.holds((row as int, col as int), EMPTY),
    {
        self.grid.vec[row][col] == EMPTY
    }
}

/// A copy of a row.
fn copy_row(row: &Vec<char>) -> (out: Vec<char>)
    ensures
        out@ == row@,
{
    let mut out: Vec<char> = Vec::new();
    let mut c: usize = 0;
    while c < row.len()
        invariant
            c <= row.len(),
            out@ == row@.take(c as int),
        decreases row.len() - c,
    {
        out.push(row[c]);
        c += 1;
        assert(out@ =~= row@.take(c as int));
    }
    assert(row@.take(row.len() as int) =~= row@);
    out
}

impl Clone for Grid {
    fn clone(&self) -> (out: Self)
        ensures
            out@ == self@,
    {
        let mut vec: Vec<Vec<char>> = Vec::new();
        let mut r: usize = 0;
        while r < self.vec.len()
            invariant
                r <= self.vec.len(),
                vec.len() == r,
                forall|i: int| 0 <= i < r ==> #[trigger] vec@[i]@ == self.vec@[i]@,
            decreases self.vec.len() - r,
        {
            vec.push(copy_row(&self.vec[r]));
            r += 1;
        }
        assert(rows_of(vec) =~= rows_of(self.vec));
        Grid {
            vec,
            t_pos: self.t_pos,
            m_pos: self.m_pos,
            row_bound: self.row_bound,
            col_bound: self.col_bound,
        }
    }
}

impl Clone for Game {
    fn clone(&self) -> (out: Self)
        ensures
            out@ == self@,
    {
        Game { grid: self.grid.clone(), status: self.status }
    }
}

} // verus!
