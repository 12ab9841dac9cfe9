//! Movement commands, and how a line of input is decoded into one.
use vstd::prelude::*;

verus! {

/// What the player asks Theseus to do in one turn.
#[derive(Debug, Clone, Copy, PartialEq, Eq, Structural)]
pub enum Command {
    /// Move one tile up
    Up,
    /// Move one tile down
    Down,
    /// Move one tile left
    Left,
    /// Move one tile right
    Right,
    /// Don't move at all
    Skip,
}

/// The command that a key stands for: `w`, `a`, `s`, `d` in either case
/// are up, left, down and right; any other key, and no key at all, is a skip.
pub open spec fn command_for(key: Option<char>) -> Command {
    match key {
        Some(c) => if c == 'w' || c == 'W' {
            Command::Up
        } else if c == 'a' || c == 'A' {
            Command::Left
        } else if c == 's' || c == 'S' {
            Command::Down
        } else if c == 'd' || c == 'D' {
            Command::Right
        } else {
            Command::Skip
        },
        None => Command::Skip,
    }
}

/// The first character of a line, if it has one.
pub open spec fn first_key(line: Seq<char>) -> Option<char> {
    if line.len() == 0 {
        None
    } else {
        Some(line[0])
    }
}

/// Decodes the first character of a line of input.
pub fn decode(key: Option<char>) -> (cmd: Command)
    ensures
        cmd == command_for(key),
{
    match key {
        Some(c) => {
            if c == 'w' || c == 'W' {
                Command::Up
            } else if c == 'a' || c == 'A' {
                Command::Left
            } else if c == 's' || c == 'S' {
                Command::Down
            } else if c == 'd' || c == 'D' {
                Command::Right
            } else {
                Command::Skip
            }
        },
        None => Command::Skip,
    }
}

/// Decodes one line of input. Only its first character is looked at; an
/// empty line is a skip. The result is never `None`.
pub fn input(line: &str) -> (cmd: Option<Command>)
    ensures
        cmd == Some(command_for(first_key(line@))),
{
    let mut keys = line.chars();
    Some(decode(keys.next()))
}

} // verus!
