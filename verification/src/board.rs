//! What makes rows of characters a board: the scan that reads them, the
//! faults it can find, and the reasons for which rows are refused.
use crate::error::BoardError;
use crate::model::{has_cell, holds, tile_at, EMPTY, GOAL, MINOTAUR, THESEUS, WALL};
use crate::text::{lemma_rendered_lines, lines_of, marked, rendered};
use vstd::prelude::*;

verus! {

/// Whether the place `a` comes before the place `b` when the rows are read
/// top to bottom and each row left to right.
pub open spec fn before(a: (int, int), b: (int, int)) -> bool {
    a.0 < b.0 || (a.0 == b.0 && a.1 < b.1)
}

/// Whether a cell before `pos` holds `ch`.
pub open spec fn seen_before(rows: Seq<Seq<char>>, ch: char, pos: (int, int)) -> bool {
    exists|p: (int, int)| before(p, pos) && #[trigger] holds(rows, p, ch)
}

/// Whether some cell holds `ch`.
pub open spec fn occurs(rows: Seq<Seq<char>>, ch: char) -> bool {
    exists|p: (int, int)| #[trigger] holds(rows, p, ch)
}

/// Whether `pos` is a stop of the scan: a cell, or the end of a row (the
/// column that is the row's length).
pub open spec fn is_stop(rows: Seq<Seq<char>>, pos: (int, int)) -> bool {
    0 <= pos.0 < rows.len() && 0 <= pos.1 <= rows[pos.0].len()
}

/// The fault of a character, given which of the three pieces the scan has met
/// before it: a character that is no tile symbol, or a piece met again.
pub open spec fn tile_fault(
    ch: char,
    seen_goal: bool,
    seen_theseus: bool,
    seen_minotaur: bool,
) -> Option<BoardError> {
    if ch == EMPTY || ch == WALL {
        None
    } else if ch == GOAL {
        if seen_goal {
            Some(BoardError::MultipleGoal)
        } else {
            None
        }
    } else if ch == THESEUS {
        if seen_theseus {
            Some(BoardError::MultipleTheseus)
        } else {
            None
        }
    } else if ch == MINOTAUR {
        if seen_minotaur {
            Some(BoardError::MultipleMinotaur)
        } else {
            None
        }
    } else {
        Some(BoardError::InvalidCharacter(ch))
    }
}

/// The fault that the scan finds at a stop, if any: at a cell the fault of
/// its character, at the end of a row the fault of a row without cells.
pub open spec fn fault_at(rows: Seq<Seq<char>>, pos: (int, int)) -> Option<BoardError>
    recommends
        is_stop(rows, pos),
{
    if pos.1 == rows[pos.0].len() {
        if pos.1 == 0 {
            Some(BoardError::InvalidSize)
        } else {
            None
        }
    } else {
        tile_fault(
            tile_at(rows, pos),
            seen_before(rows, GOAL, pos),
            seen_before(rows, THESEUS, pos),
            seen_before(rows, MINOTAUR, pos),
        )
    }
}

/// Whether no stop before `pos` has a fault.
pub open spec fn faultless_before(rows: Seq<Seq<char>>, pos: (int, int)) -> bool {
    forall|p: (int, int)|
        is_stop(rows, p) && before(p, pos) ==> #[trigger] fault_at(rows, p) is None
}

/// Whether `pos` is the first stop with a fault.
pub open spec fn first_fault_at(rows: Seq<Seq<char>>, pos: (int, int)) -> bool {
    is_stop(rows, pos) && fault_at(rows, pos) is Some && faultless_before(rows, pos)
}

/// Whether no stop has a fault.
pub open spec fn faultless(rows: Seq<Seq<char>>) -> bool {
    forall|p: (int, int)| is_stop(rows, p) ==> #[trigger] fault_at(rows, p) is None
}

/// What rows without a fault still miss to be a board, if anything: a row, or
/// else the goal, or else Theseus, or else the Minotaur.
pub open spec fn missing(rows: Seq<Seq<char>>) -> Option<BoardError> {
    if rows.len() == 0 {
        Some(BoardError::InvalidSize)
    } else if !occurs(rows, GOAL) {
        Some(BoardError::NoGoal)
    } else if !occurs(rows, THESEUS) {
        Some(BoardError::NoTheseus)
    } else if !occurs(rows, MINOTAUR) {
        Some(BoardError::NoMinotaur)
    } else {
        None
    }
}

/// Whether the rows are refused with `error`: it is the first fault of the
/// scan or, where the scan finds no fault, what the rows miss.
pub open spec fn refused_with(rows: Seq<Seq<char>>, error: BoardError) -> bool {
    ||| exists|pos: (int, int)| #[trigger]
        first_fault_at(rows, pos) && fault_at(rows, pos) == Some(error)
    ||| faultless(rows) && missing(rows) == Some(error)
}

/// Whether the rows are a board: the scan finds no fault and nothing misses.
pub open spec fn is_board(rows: Seq<Seq<char>>) -> bool {
    faultless(rows) && missing(rows) is None
}

/// The place recorded for a piece after one more character: the place of its
/// first meeting.
pub open spec fn recorded(
    so_far: Option<(usize, usize)>,
    met: bool,
    pos: (usize, usize),
) -> Option<(usize, usize)> {
    if met && so_far is None {
        Some(pos)
    } else {
        so_far
    }
}

/// In rows without a fault a piece stands in one cell at most.
pub proof fn lemma_piece_once(rows: Seq<Seq<char>>, piece: char, p: (int, int), q: (int, int))
    requires
        faultless(rows),
        piece == GOAL || piece == THESEUS || piece == MINOTAUR,
        holds(rows, p, piece),
        holds(rows, q, piece),
    ensures
        p == q,
{
    if before(p, q) {
        assert(is_stop(rows, q));
        assert(fault_at(rows, q) is None);
    } else if before(q, p) {
        assert(is_stop(rows, p));
        assert(fault_at(rows, p) is None);
    }
}

/// Rows are refused for one reason only, and rows that are refused are no
/// board.
pub proof fn lemma_refusal_unique(rows: Seq<Seq<char>>, first: BoardError, second: BoardError)
    requires
        refused_with(rows, first),
    ensures
        !is_board(rows),
        refused_with(rows, second) ==> first == second,
{
    if exists|pos: (int, int)| #[trigger]
        first_fault_at(rows, pos) && fault_at(rows, pos) == Some(first) {
        let p = choose|pos: (int, int)| #[trigger]
            first_fault_at(rows, pos) && fault_at(rows, pos) == Some(first);
        assert(fault_at(rows, p) is Some);
        if exists|pos: (int, int)| #[trigger]
            first_fault_at(rows, pos) && fault_at(rows, pos) == Some(second) {
            let q = choose|pos: (int, int)| #[trigger]
                first_fault_at(rows, pos) && fault_at(rows, pos) == Some(second);
            if before(p, q) {
                assert(fault_at(rows, p) is None);
            } else if before(q, p) {
                assert(fault_at(rows, q) is None);
            } else {
                assert(p == q);
            }
        }
    } else {
        if exists|pos: (int, int)| #[trigger]
            first_fault_at(rows, pos) && fault_at(rows, pos) == Some(second) {
            let q = choose|pos: (int, int)| #[trigger]
                first_fault_at(rows, pos) && fault_at(rows, pos) == Some(second);
            assert(fault_at(rows, q) is None);
        }
    }
}

/// Rows that are refused for one reason are refused for that reason alone,
/// and are no board.
pub proof fn lemma_refused(rows: Seq<Seq<char>>, error: BoardError)
    requires
        refused_with(rows, error),
    ensures
        !is_board(rows),
        forall|other: BoardError| #[trigger] refused_with(rows, other) <==> other == error,
{
    assert forall|other: BoardError| #[trigger] refused_with(rows, other) implies other
        == error by {
        lemma_refusal_unique(rows, error, other);
    }
    lemma_refusal_unique(rows, error, error);
}

/// Rows that are a board are refused for no reason.
pub proof fn lemma_board_not_refused(rows: Seq<Seq<char>>)
    requires
        is_board(rows),
    ensures
        forall|error: BoardError| !#[trigger] refused_with(rows, error),
{
    assert forall|error: BoardError| !#[trigger] refused_with(rows, error) by {
        if refused_with(rows, error) {
            lemma_refusal_unique(rows, error, error);
        }
    }
}

/// Rows in which the scan finds no fault, and which miss the goal, Theseus or
/// the Minotaur, are refused for the first of the three that misses, in this
/// order, and for no other reason.
pub proof fn lemma_missing_piece(rows: Seq<Seq<char>>, error: BoardError)
    requires
        faultless(rows),
        rows.len() > 0,
    ensures
        !occurs(rows, GOAL) ==> (refused_with(rows, error) <==> error == BoardError::NoGoal),
        occurs(rows, GOAL) && !occurs(rows, THESEUS) ==> (refused_with(rows, error) <==> error
            == BoardError::NoTheseus),
        occurs(rows, GOAL) && occurs(rows, THESEUS) && !occurs(rows, MINOTAUR) ==> (refused_with(
            rows,
            error,
        ) <==> error == BoardError::NoMinotaur),
{
    if exists|pos: (int, int)| #[trigger]
        first_fault_at(rows, pos) && fault_at(rows, pos) == Some(error) {
        let p = choose|pos: (int, int)| #[trigger]
            first_fault_at(rows, pos) && fault_at(rows, pos) == Some(error);
        assert(fault_at(rows, p) is None);
    }
}

/// Where the scan meets Theseus for the second time, and no stop before that
/// has a fault, the scan ends there: the rows are refused because Theseus
/// occurs twice, and for no other reason, whatever stands in the cells after
/// it.
pub proof fn lemma_second_theseus(rows: Seq<Seq<char>>, pos: (int, int), error: BoardError)
    requires
        holds(rows, pos, THESEUS),
        seen_before(rows, THESEUS, pos),
        faultless_before(rows, pos),
    ensures
        first_fault_at(rows, pos),
        refused_with(rows, error) <==> error == BoardError::MultipleTheseus,
{
    assert(first_fault_at(rows, pos) && fault_at(rows, pos) == Some(
        BoardError::MultipleTheseus,
    ));
    assert(refused_with(rows, BoardError::MultipleTheseus));
    lemma_refusal_unique(rows, BoardError::MultipleTheseus, error);
}

/// A board that is read from a text and rendered at once comes out row by
/// row as it went in: the rendered text has the lines of the board text, each
/// followed by the marking space. So each row keeps its characters, their
/// number and their order.
pub proof fn lemma_board_round_trip(text: Seq<char>)
    requires
        is_board(lines_of(text)),
    ensures
        lines_of(rendered(lines_of(text))) == marked(lines_of(text)),
{
    let rows = lines_of(text);
    assert forall|pos: (int, int)| #[trigger] has_cell(rows, pos) implies tile_at(rows, pos)
        != '\n' by {
        assert(is_stop(rows, pos));
        assert(fault_at(rows, pos) is None);
    }
    lemma_rendered_lines(rows);
}

/// Takes in one character of a board at the place `curr_pos`.
///
/// `g_pos`, `t_pos` and `m_pos` hold the places where the goal, Theseus and
/// the Minotaur were first met, if they were. The character is handed back
/// unless it is at fault; a piece that is met for the first time is recorded
/// at `curr_pos`. Nothing is recorded when the character is at fault.
pub fn process_char(
    chr: char,
    curr_pos: (usize, usize),
    g_pos: &mut Option<(usize, usize)>,
    t_pos: &mut Option<(usize, usize)>,
    m_pos: &mut Option<(usize, usize)>,
) -> (out: Result<char, BoardError>)
    ensures
        out == (match tile_fault(
            chr,
            (*old(g_pos)) is Some,
            (*old(t_pos)) is Some,
            (*old(m_pos)) is Some,
        ) {
            Some(error) => Err(error),
            None => Ok(chr),
        }),
        *final(g_pos) == recorded(*old(g_pos), chr == GOAL, curr_pos),
        *final(t_pos) == recorded(*old(t_pos), chr == THESEUS, curr_pos),
        *final(m_pos) == recorded(*old(m_pos), chr == MINOTAUR, curr_pos),
{
    if chr == EMPTY || chr == WALL {
        return Ok(chr);
    } else if chr == GOAL {
        match *g_pos {
            Some(_) => return Err(BoardError::MultipleGoal),
            None => {
                *g_pos = Some(curr_pos);
                return Ok(chr);
            },
        }
    } else if chr == THESEUS {
        match *t_pos {
            Some(_) => return Err(BoardError::MultipleTheseus),
            None => {
                *t_pos = Some(curr_pos);
                return Ok(chr);
            },
        }
    } else if chr == MINOTAUR {
        match *m_pos {
            Some(_) => return Err(BoardError::MultipleMinotaur),
            None => {
                *m_pos = Some(curr_pos);
                return Ok(chr);
            },
        }
    }
    return Err(BoardError::InvalidCharacter(chr));
}

} // verus!
