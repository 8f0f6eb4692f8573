//! What a match between two engines does next: the decisions, without the
//! engines and without the clock.
use vstd::prelude::*;
use vstd::string::StringExecFns;
use crate::fen::views;
use crate::text::{chars_of, string_of};
use crate::uci::{lines_of, split_lines};

verus! {

/// What to do with the engine whose turn it is.
#[derive(Clone, Copy, Debug, PartialEq, Eq, Structural)]
pub enum EngineAction {
    /// Nothing: the game is over or the match is paused.
    Idle,
    /// Send the position and start a search.
    StartSearch,
    /// Let the search go on.
    Wait,
    /// Ask for the move that the search has found.
    Collect,
}

/// What to do with the engine whose turn it is. Nothing, unless the game
/// is going on and the match is running; then a search is started if none
/// is under way, waited for while its time is not over, and its move is
/// collected once it is.
pub open spec fn action_of(ongoing: bool, playing: bool, searching: bool, time_over: bool) -> EngineAction {
    if !ongoing || !playing {
        EngineAction::Idle
    } else if !searching {
        EngineAction::StartSearch
    } else if !time_over {
        EngineAction::Wait
    } else {
        EngineAction::Collect
    }
}

/// What to do with the engine whose turn it is.
pub fn engine_action(ongoing: bool, playing: bool, searching: bool, time_over: bool) -> (r:
    EngineAction)
    ensures
        r == action_of(ongoing, playing, searching, time_over),
{
    if !ongoing || !playing {
        EngineAction::Idle
    } else if !searching {
        EngineAction::StartSearch
    } else if !time_over {
        EngineAction::Wait
    } else {
        EngineAction::Collect
    }
}

/// Line `n` of a text, counted from 0. A text that ends with a line feed
/// has no empty line after it.
pub open spec fn nth_line(text: Seq<char>, n: int) -> Option<Seq<char>> {
    let lines = lines_of(text);
    if 0 <= n < lines.len() && !(n == lines.len() - 1 && lines[n].len() == 0) {
        Some(lines[n])
    } else {
        None
    }
}

/// The position from which the next game of a match starts. Every position
/// of the list `fens` is played twice, with the sides changed: after an even
/// number of games the next line of the list is taken, after an odd number
/// the position of the last game again. None when the list is used up.
pub open spec fn next_start(fens: Seq<char>, games_played: int, last_start: Seq<char>) -> Option<
    Seq<char>,
> {
    if games_played % 2 == 0 {
        nth_line(fens, games_played)
    } else {
        Some(last_start)
    }
}

/// The position from which the next game of a match starts, if the list
/// holds one more.
pub fn next_start_fen(fens: &str, games_played: usize, last_start: &str) -> (r: Option<String>)
    ensures
        match next_start(fens@, games_played as int, last_start@) {
            Some(text) => r matches Some(s) && s@ == text,
            None => r is None,
        },
{
    if games_played % 2 != 0 {
        return Some(String::from_str(last_start));
    }
    let text = chars_of(fens);
    let lines = split_lines(&text);
    let n: usize = lines.len();
    proof {
        assert(views(lines@).len() == n);
        if games_played < n {
            assert(views(lines@)[games_played as int] == lines@[games_played as int]@);
        }
    }
    if games_played < n && !(games_played == n - 1 && lines[games_played].len() == 0) {
        Some(string_of(&lines[games_played]))
    } else {
        None
    }
}

} // verus!
