//! The mathematical model of a grid and of a game, and the rules of a turn.
//!
//! A grid is a sequence of rows of tile symbols together with the places of
//! Theseus and of the Minotaur. A turn is a function from one game to the
//! next. The executable types in [`crate::game`] are specified by the
//! functions of this module, and the general facts about the rules are proved
//! here as lemmas.
use crate::command::Command;
use crate::game::GameStatus;
use vstd::prelude::*;

verus! {

/// The symbol of an empty tile.
pub const EMPTY: char = ' ';

/// The symbol of a wall.
pub const WALL: char = 'X';

/// The symbol of the goal.
pub const GOAL: char = 'G';

/// The symbol of Theseus.
pub const THESEUS: char = 'T';

/// The symbol of the Minotaur.
pub const MINOTAUR: char = 'M';

/// Whether a character is one of the five tile symbols.
pub open spec fn is_tile(ch: char) -> bool {
    ch == EMPTY || ch == WALL || ch == GOAL || ch == THESEUS || ch == MINOTAUR
}

/// The place one step from `pos` in the direction of `command`. A step up
/// from row 0, or left from column 0, leads to a negative index, which is the
/// place of no cell.
pub open spec fn step_from(pos: (int, int), command: Command) -> (int, int) {
    match command {
        Command::Up => (pos.0 - 1, pos.1),
        Command::Down => (pos.0 + 1, pos.1),
        Command::Left => (pos.0, pos.1 - 1),
        Command::Right => (pos.0, pos.1 + 1),
        Command::Skip => pos,
    }
}

/// Whether `pos` (row, column) is the place of a cell in `cells`: the row
/// exists and is long enough.
pub open spec fn has_cell(cells: Seq<Seq<char>>, pos: (int, int)) -> bool {
    0 <= pos.0 < cells.len() && 0 <= pos.1 < cells[pos.0].len()
}

/// The symbol at `pos`.
pub open spec fn tile_at(cells: Seq<Seq<char>>, pos: (int, int)) -> char
    recommends
        has_cell(cells, pos),
{
    cells[pos.0][pos.1]
}

/// Whether `pos` is the place of a cell that holds `ch`.
pub open spec fn holds(cells: Seq<Seq<char>>, pos: (int, int), ch: char) -> bool {
    has_cell(cells, pos) && tile_at(cells, pos) == ch
}

/// The rows with `ch` written at `pos`.
pub open spec fn put(cells: Seq<Seq<char>>, pos: (int, int), ch: char) -> Seq<Seq<char>>
    recommends
        has_cell(cells, pos),
{
    cells.update(pos.0, cells[pos.0].update(pos.1, ch))
}

/// A grid: rows of tile symbols, which may differ in length, and the places
/// (row, column) that are recorded for Theseus and for the Minotaur.
pub struct GridView {
    /// The rows, top to bottom; each row holds its tiles left to right.
    pub cells: Seq<Seq<char>>,
    /// The recorded place of Theseus.
    pub theseus: (int, int),
    /// The recorded place of the Minotaur.
    pub minotaur: (int, int),
    /// The highest row index.
    pub row_bound: int,
    /// The highest column index of the longest row.
    pub col_bound: int,
}

impl GridView {
    /// Whether `pos` is the place of a cell: its row exists and is long
    /// enough.
    pub open spec fn has_cell(self, pos: (int, int)) -> bool {
        has_cell(self.cells, pos)
    }

    /// The symbol at `pos`.
    pub open spec fn tile(self, pos: (int, int)) -> char
        recommends
            self.has_cell(pos),
    {
        tile_at(self.cells, pos)
    }

    /// Whether `pos` is the place of a cell that holds `ch`.
    pub open spec fn holds(self, pos: (int, int), ch: char) -> bool {
        holds(self.cells, pos, ch)
    }

    /// Whether `pos` lies within the rectangle that the two bounds span. In a
    /// grid with rows of different lengths such a place need not have a cell.
    pub open spec fn in_bounds(self, pos: (int, int)) -> bool {
        0 <= pos.0 <= self.row_bound && 0 <= pos.1 <= self.col_bound
    }

    /// The grid with `ch` written at `pos`.
    pub open spec fn put(self, pos: (int, int), ch: char) -> GridView
        recommends
            self.has_cell(pos),
    {
        GridView { cells: put(self.cells, pos, ch), ..self }
    }

    /// What holds of every grid, at every moment of a game: there is at least
    /// one row and no row is empty, the bounds are those of the rows, every
    /// cell holds a tile symbol, Theseus and the Minotaur are recorded at
    /// cells, and the Minotaur is not recorded at a goal.
    pub open spec fn wf(self) -> bool {
        &&& self.cells.len() >= 1
        &&& self.row_bound == self.cells.len() - 1
        &&& forall|r: int|
            0 <= r < self.cells.len() ==> 1 <= #[trigger] self.cells[r].len() <= self.col_bound + 1
        &&& exists|r: int|
            0 <= r < self.cells.len() && #[trigger] self.cells[r].len() == self.col_bound + 1
        &&& forall|pos: (int, int)| #[trigger]
            has_cell(self.cells, pos) ==> is_tile(tile_at(self.cells, pos))
        &&& self.has_cell(self.theseus)
        &&& self.has_cell(self.minotaur)
        &&& self.tile(self.minotaur) != GOAL
    }

    /// What holds of a grid while the game goes on: Theseus and the Minotaur
    /// stand where they are recorded and nowhere else, and there is exactly
    /// one goal.
    pub open spec fn in_play(self) -> bool {
        &&& self.holds(self.theseus, THESEUS)
        &&& self.holds(self.minotaur, MINOTAUR)
        &&& forall|pos: (int, int)| #[trigger]
            holds(self.cells, pos, THESEUS) ==> pos == self.theseus
        &&& forall|pos: (int, int)| #[trigger]
            holds(self.cells, pos, MINOTAUR) ==> pos == self.minotaur
        &&& exists|pos: (int, int)| #[trigger] holds(self.cells, pos, GOAL)
        &&& forall|p: (int, int), q: (int, int)|
            #[trigger] holds(self.cells, p, GOAL) && #[trigger] holds(self.cells, q, GOAL) ==> p
                == q
    }

    /// The grid after Theseus has walked to the cell `to`: his old cell is
    /// cleared, the new one is marked, and the new place is recorded.
    pub open spec fn with_theseus_at(self, to: (int, int)) -> GridView {
        GridView { theseus: to, ..self.put(self.theseus, EMPTY).put(to, THESEUS) }
    }

    /// The grid after the Minotaur has walked to the cell `to`.
    pub open spec fn with_minotaur_at(self, to: (int, int)) -> GridView {
        GridView { minotaur: to, ..self.put(self.minotaur, EMPTY).put(to, MINOTAUR) }
    }

    /// Whether the Minotaur may enter `pos`: it is the place of a cell that is
    /// neither a wall nor the goal.
    pub open spec fn open_to_minotaur(self, pos: (int, int)) -> bool {
        self.has_cell(pos) && self.tile(pos) != WALL && self.tile(pos) != GOAL
    }

    /// The cell that the Minotaur heads for, if any. The first of these that
    /// applies decides: Theseus is in a column further left and the cell to
    /// the left is open; he is in a column further right and the cell to the
    /// right is open; he is in a row further up and the cell above is open; he
    /// is in a row further up and the cell below is open. So the Minotaur steps
    /// down only when Theseus is above him and the way up is barred.
    pub open spec fn minotaur_target(self) -> Option<(int, int)> {
        let t = self.theseus;
        let m = self.minotaur;
        if t.1 < m.1 && self.open_to_minotaur((m.0, m.1 - 1)) {
            Some((m.0, m.1 - 1))
        } else if t.1 > m.1 && self.open_to_minotaur((m.0, m.1 + 1)) {
            Some((m.0, m.1 + 1))
        } else if t.0 < m.0 && self.open_to_minotaur((m.0 - 1, m.1)) {
            Some((m.0 - 1, m.1))
        } else if t.0 < m.0 && self.open_to_minotaur((m.0 + 1, m.1)) {
            Some((m.0 + 1, m.1))
        } else {
            None
        }
    }
}

/// A game: a grid and a status.
pub struct GameView {
    /// The grid.
    pub grid: GridView,
    /// Whether the game goes on, is won or is lost.
    pub status: GameStatus,
}

impl GameView {
    /// What holds of every game: the grid is well formed, and while the game
    /// goes on the pieces stand where they are recorded.
    pub open spec fn wf(self) -> bool {
        &&& self.grid.wf()
        &&& self.status == GameStatus::Continue ==> self.grid.in_play()
    }

    /// The game after Theseus has obeyed `command`.
    ///
    /// The place one step away is looked at. If it has no cell (it lies off
    /// the grid, or beyond the end of a short row), nothing changes. If its
    /// cell holds the Minotaur, Theseus is recorded there and the game is
    /// lost; if it holds the goal, he is recorded there and the game is won. In
    /// both cases the cells stay as they are. If it is empty, Theseus walks
    /// there. Otherwise (a wall, or his own cell on a skip) nothing changes.
    pub open spec fn theseus_step(self, command: Command) -> GameView {
        let to = step_from(self.grid.theseus, command);
        if !self.grid.has_cell(to) {
            self
        } else if self.grid.tile(to) == MINOTAUR {
            GameView { grid: GridView { theseus: to, ..self.grid }, status: GameStatus::Lose }
        } else if self.grid.tile(to) == GOAL {
            GameView { grid: GridView { theseus: to, ..self.grid }, status: GameStatus::Win }
        } else if self.grid.tile(to) == EMPTY {
            GameView { grid: self.grid.with_theseus_at(to), ..self }
        } else {
            self
        }
    }

    /// The game after the Minotaur's move.
    ///
    /// If he heads for no cell, nothing changes. If the cell he heads for
    /// holds Theseus, the game is lost and the Minotaur stays where he is.
    /// Otherwise he walks there.
    pub open spec fn minotaur_step(self) -> GameView {
        match self.grid.minotaur_target() {
            None => self,
            Some(to) => if self.grid.tile(to) == THESEUS {
                GameView { status: GameStatus::Lose, ..self }
            } else {
                GameView { grid: self.grid.with_minotaur_at(to), ..self }
            },
        }
    }
}

/// A cell of a well-formed grid lies within the bounds.
pub proof fn lemma_cell_in_bounds(grid: GridView, pos: (int, int))
    requires
        grid.wf(),
        grid.has_cell(pos),
    ensures
        grid.in_bounds(pos),
{
}

/// Writing a symbol into a cell keeps the shape of the rows, and changes that
/// one cell and no other.
pub proof fn lemma_put(cells: Seq<Seq<char>>, at: (int, int), ch: char)
    requires
        has_cell(cells, at),
    ensures
        put(cells, at, ch).len() == cells.len(),
        forall|r: int|
            0 <= r < cells.len() ==> #[trigger] put(cells, at, ch)[r].len() == cells[r].len(),
        forall|pos: (int, int)| #[trigger]
            has_cell(put(cells, at, ch), pos) == has_cell(cells, pos),
        forall|pos: (int, int)|
            has_cell(cells, pos) ==> #[trigger] tile_at(put(cells, at, ch), pos) == (if pos == at {
                ch
            } else {
                tile_at(cells, pos)
            }),
{
    let after = put(cells, at, ch);
    assert forall|pos: (int, int)| has_cell(cells, pos) implies #[trigger] tile_at(after, pos)
        == (if pos == at {
        ch
    } else {
        tile_at(cells, pos)
    }) by {
        if pos.0 == at.0 && pos.1 == at.1 {
            assert(pos == at);
        }
    }
}

/// A piece's walk from the cell `from` to the cell `to` keeps the shape of the
/// rows; afterwards `to` holds the piece, `from` is empty unless it is `to`,
/// and every other cell is as before.
pub proof fn lemma_walk(cells: Seq<Seq<char>>, from: (int, int), to: (int, int), piece: char)
    requires
        has_cell(cells, from),
        has_cell(cells, to),
    ensures
        put(put(cells, from, EMPTY), to, piece).len() == cells.len(),
        forall|r: int|
            0 <= r < cells.len() ==> #[trigger] put(put(cells, from, EMPTY), to, piece)[r].len()
                == cells[r].len(),
        forall|pos: (int, int)| #[trigger]
            has_cell(put(put(cells, from, EMPTY), to, piece), pos) == has_cell(cells, pos),
        forall|pos: (int, int)|
            has_cell(cells, pos) ==> #[trigger] tile_at(
                put(put(cells, from, EMPTY), to, piece),
                pos,
            ) == (if pos == to {
                piece
            } else if pos == from {
                EMPTY
            } else {
                tile_at(cells, pos)
            }),
{
    let cleared = put(cells, from, EMPTY);
    lemma_put(cells, from, EMPTY);
    lemma_put(cleared, to, piece);
    assert forall|pos: (int, int)| has_cell(cells, pos) implies #[trigger] tile_at(
        put(cleared, to, piece),
        pos,
    ) == (if pos == to {
        piece
    } else if pos == from {
        EMPTY
    } else {
        tile_at(cells, pos)
    }) by {
        assert(has_cell(cleared, pos));
    }
}

/// Theseus' move keeps a game well formed.
pub proof fn lemma_theseus_step_wf(game: GameView, command: Command)
    requires
        game.wf(),
    ensures
        game.theseus_step(command).wf(),
{
    let grid = game.grid;
    let to = step_from(grid.theseus, command);
    let next = game.theseus_step(command).grid;
    if grid.has_cell(to) && grid.tile(to) == EMPTY {
        lemma_walk(grid.cells, grid.theseus, to, THESEUS);
        let r = choose|r: int|
            0 <= r < grid.cells.len() && #[trigger] grid.cells[r].len() == grid.col_bound + 1;
        assert(next.cells[r].len() == next.col_bound + 1);
        assert forall|pos: (int, int)| #[trigger] has_cell(next.cells, pos) implies is_tile(
            tile_at(next.cells, pos),
        ) by {
            assert(has_cell(grid.cells, pos));
        }
        if game.status == GameStatus::Continue {
            let goal = choose|pos: (int, int)| #[trigger] holds(grid.cells, pos, GOAL);
            assert(holds(next.cells, goal, GOAL));
            assert forall|p: (int, int), q: (int, int)|
                #[trigger] holds(next.cells, p, GOAL) && #[trigger] holds(
                    next.cells,
                    q,
                    GOAL,
                ) implies p == q by {
                assert(holds(grid.cells, p, GOAL) && holds(grid.cells, q, GOAL));
            }
            assert forall|pos: (int, int)| #[trigger]
                holds(next.cells, pos, THESEUS) implies pos == to by {
                if pos != to {
                    assert(holds(grid.cells, pos, THESEUS));
                }
            }
            assert forall|pos: (int, int)| #[trigger]
                holds(next.cells, pos, MINOTAUR) implies pos == grid.minotaur by {
                assert(holds(grid.cells, pos, MINOTAUR));
            }
        }
    }
}

/// The Minotaur's move keeps a game well formed.
pub proof fn lemma_minotaur_step_wf(game: GameView)
    requires
        game.wf(),
    ensures
        game.minotaur_step().wf(),
{
    let grid = game.grid;
    let next = game.minotaur_step().grid;
    match grid.minotaur_target() {
        None => {},
        Some(to) => {
            if grid.tile(to) != THESEUS {
                lemma_walk(grid.cells, grid.minotaur, to, MINOTAUR);
                let r = choose|r: int|
                    0 <= r < grid.cells.len() && #[trigger] grid.cells[r].len() == grid.col_bound
                        + 1;
                assert(next.cells[r].len() == next.col_bound + 1);
                assert forall|pos: (int, int)| #[trigger]
                    has_cell(next.cells, pos) implies is_tile(tile_at(next.cells, pos)) by {
                    assert(has_cell(grid.cells, pos));
                }
                if game.status == GameStatus::Continue {
                    let goal = choose|pos: (int, int)| #[trigger] holds(grid.cells, pos, GOAL);
                    assert(holds(next.cells, goal, GOAL));
                    assert forall|p: (int, int), q: (int, int)|
                        #[trigger] holds(next.cells, p, GOAL) && #[trigger] holds(
                            next.cells,
                            q,
                            GOAL,
                        ) implies p == q by {
                        assert(holds(grid.cells, p, GOAL) && holds(grid.cells, q, GOAL));
                    }
                    assert forall|pos: (int, int)| #[trigger]
                        holds(next.cells, pos, MINOTAUR) implies pos == to by {
                        if pos != to {
                            assert(holds(grid.cells, pos, MINOTAUR));
                        }
                    }
                    assert forall|pos: (int, int)| #[trigger]
                        holds(next.cells, pos, THESEUS) implies pos == grid.theseus by {
                        assert(holds(grid.cells, pos, THESEUS));
                    }
                }
            }
        },
    }
}

/// A step of Theseus into a wall, or to a place without a cell, changes
/// neither the grid nor the status. A step up from row 0 or left from column 0
/// leads to such a place.
pub proof fn lemma_barred_step(game: GameView, command: Command)
    requires
        ({
            let to = step_from(game.grid.theseus, command);
            !game.grid.has_cell(to) || game.grid.holds(to, WALL)
        }),
    ensures
        game.theseus_step(command) == game,
{
}

/// Theseus' move changes the cells or the status, or neither, and never both;
/// he is then recorded where he was or one step away.
pub proof fn lemma_theseus_step_changes(game: GameView, command: Command)
    ensures
        game.theseus_step(command).grid.cells == game.grid.cells || game.theseus_step(
            command,
        ).status == game.status,
        game.theseus_step(command).grid.theseus == game.grid.theseus || game.theseus_step(
            command,
        ).grid.theseus == step_from(game.grid.theseus, command),
        game.theseus_step(command).grid.minotaur == game.grid.minotaur,
{
}

/// The Minotaur's move either leaves the grid as it is, or moves him by one
/// cell along his row or along his column and leaves the status as it is.
pub proof fn lemma_minotaur_step_changes(game: GameView)
    ensures
        game.minotaur_step().grid == game.grid || game.minotaur_step().status == game.status,
        game.minotaur_step().grid.theseus == game.grid.theseus,
        ({
            let from = game.grid.minotaur;
            let to = game.minotaur_step().grid.minotaur;
            ||| to == from
            ||| to == (from.0, from.1 - 1)
            ||| to == (from.0, from.1 + 1)
            ||| to == (from.0 - 1, from.1)
            ||| to == (from.0 + 1, from.1)
        }),
{
}

/// A game that is won or lost does not go on again, whatever moves follow.
pub proof fn lemma_finished_stays_finished(game: GameView, command: Command)
    requires
        game.status != GameStatus::Continue,
    ensures
        game.theseus_step(command).status != GameStatus::Continue,
        game.minotaur_step().status != GameStatus::Continue,
{
}

/// While the game goes on, a step of Theseus onto the Minotaur's place loses
/// the game, and Theseus is then recorded where the Minotaur is. The cells
/// stay as they are.
pub proof fn lemma_step_onto_minotaur(game: GameView, command: Command)
    requires
        game.wf(),
        game.status == GameStatus::Continue,
        step_from(game.grid.theseus, command) == game.grid.minotaur,
    ensures
        game.theseus_step(command).status == GameStatus::Lose,
        game.theseus_step(command).grid.theseus == game.grid.minotaur,
        game.theseus_step(command).grid.minotaur == game.grid.minotaur,
        game.theseus_step(command).grid.cells == game.grid.cells,
{
}

/// A step of Theseus onto a goal wins the game, and he is recorded there.
pub proof fn lemma_step_onto_goal(game: GameView, command: Command)
    requires
        game.grid.holds(step_from(game.grid.theseus, command), GOAL),
    ensures
        game.theseus_step(command).status == GameStatus::Win,
        game.theseus_step(command).grid.theseus == step_from(game.grid.theseus, command),
        game.theseus_step(command).grid.cells == game.grid.cells,
{
}

/// The Minotaur closes in by columns first: when Theseus is in a column
/// further left and in a row further up, and the cells to the left of the
/// Minotaur and above him are both open, he heads left. While the game goes
/// on he then stands one column further left, in his row.
pub proof fn lemma_minotaur_prefers_columns(game: GameView)
    requires
        game.grid.theseus.1 < game.grid.minotaur.1,
        game.grid.theseus.0 < game.grid.minotaur.0,
        game.grid.open_to_minotaur((game.grid.minotaur.0, game.grid.minotaur.1 - 1)),
        game.grid.open_to_minotaur((game.grid.minotaur.0 - 1, game.grid.minotaur.1)),
    ensures
        game.grid.minotaur_target() == Some((game.grid.minotaur.0, game.grid.minotaur.1 - 1)),
        game.wf() && game.status == GameStatus::Continue ==> {
            &&& game.minotaur_step().grid.minotaur == (
                game.grid.minotaur.0,
                game.grid.minotaur.1 - 1,
            )
            &&& game.minotaur_step().status == GameStatus::Continue
        },
{
    let left = (game.grid.minotaur.0, game.grid.minotaur.1 - 1);
    if game.wf() && game.status == GameStatus::Continue {
        if game.grid.tile(left) == THESEUS {
            assert(holds(game.grid.cells, left, THESEUS));
        }
    }
}

/// The Minotaur keeps off the goal: he never heads for a goal, he is not
/// recorded at one after his move, and his move leaves every goal in its
/// cell.
pub proof fn lemma_minotaur_keeps_off_goal(game: GameView)
    requires
        game.wf(),
    ensures
        game.grid.minotaur_target() matches Some(to) ==> !game.grid.holds(to, GOAL),
        !game.minotaur_step().grid.holds(game.minotaur_step().grid.minotaur, GOAL),
        forall|pos: (int, int)| #[trigger]
            game.grid.holds(pos, GOAL) ==> game.minotaur_step().grid.holds(pos, GOAL),
{
    lemma_minotaur_step_wf(game);
    let next = game.minotaur_step().grid;
    match game.grid.minotaur_target() {
        None => {},
        Some(to) => {
            if game.grid.tile(to) != THESEUS {
                lemma_walk(game.grid.cells, game.grid.minotaur, to, MINOTAUR);
                assert forall|pos: (int, int)| #[trigger]
                    game.grid.holds(pos, GOAL) implies next.holds(pos, GOAL) by {
                    assert(has_cell(next.cells, pos));
                }
            }
        },
    }
}

} // verus!
