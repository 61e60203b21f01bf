use vstd::prelude::*;
use crate::board::{Board, BoardView, ShotError, ShotResult};
use crate::ship::{pos_of, PlacementError, Ship};

verus! {

/// Where a game stands: both players place ships, then take turns firing,
/// until one fleet is sunk.
#[derive(Clone, Copy, PartialEq, Eq, Debug, Structural)]
pub enum Phase {
    Setup,
    InProgress,
    Finished,
}

/// Why the engine refused a step. Every one leaves the game as it was,
/// so the same step can be retried.
#[derive(Clone, Copy, PartialEq, Eq, Debug, Structural)]
pub enum GameError {
    /// The player number is neither 0 nor 1.
    NoSuchPlayer,
    /// The step does not belong to the current phase.
    WrongPhase,
    /// Play cannot start while a board has no ship.
    NoShips,
    Placement(PlacementError),
    Shot(ShotError),
}

/// The player whose turn follows `turn`'s, in a strict round robin of two.
pub fn alternate_turn(turn: u8) -> (r: u8)
    ensures
        r == (turn + 1) % 2,
{
    (turn % 2 + 1) % 2
}

/// The game as two boards (player `p` owns `boards[p]`), the player to move,
/// the phase and, once finished, the winner.
pub ghost struct GameView {
    pub boards: Seq<BoardView>,
    pub current: int,
    pub phase: Phase,
    pub winner: Option<int>,
}

impl GameView {
    pub open spec fn opponent(self) -> int {
        1 - self.current
    }

    pub open spec fn wf(self) -> bool {
        &&& self.boards.len() == 2
        &&& self.boards[0].wf()
        &&& self.boards[1].wf()
        &&& self.current == 0 || self.current == 1
        &&& self.phase != Phase::Setup ==> self.boards[0].ships.len() > 0 && self.boards[1].ships.len() > 0
        &&& (self.phase == Phase::Finished <==> self.winner is Some)
        &&& self.winner matches Some(w) ==> w == self.current && self.boards[1 - w].all_sunk()
    }
}

/// A shot error as the board reported it, from the engine's result.
pub open spec fn board_result(r: Result<ShotResult, GameError>) -> Result<ShotResult, ShotError> {
    match r {
        Ok(s) => Ok(s),
        Err(GameError::Shot(e)) => Err(e),
        Err(_) => Err(ShotError::OutOfBounds),
    }
}

/// A two-player game of one human and one scripted opponent.
pub struct Game {
    first: Board,
    second: Board,
    current: u8,
    phase: Phase,
    winner: Option<u8>,
}

impl View for Game {
    type V = GameView;

    closed spec fn view(&self) -> GameView {
        GameView {
            boards: seq![self.first@, self.second@],
            current: self.current as int,
            phase: self.phase,
            winner: match self.winner {
                Some(w) => Some(w as int),
                None => None,
            },
        }
    }
}

impl Game {
    pub open spec fn wf(&self) -> bool {
        self@.wf()
    }

    /// A game in setup with two empty boards; player 0 moves first.
    pub fn new() -> (r: Game)
        ensures
            r.wf(),
            r@.phase == Phase::Setup,
            r@.current == 0,
            r@.boards[0].ships.len() == 0,
            r@.boards[1].ships.len() == 0,
    {
        Game { first: Board::new(), second: Board::new(), current: 0, phase: Phase::Setup, winner: None }
    }

    /// Places `ship` on `player`'s board during setup.
    pub fn place_ship(&mut self, player: u8, ship: Ship) -> (r: Result<(), GameError>)
        requires
            old(self).wf(),
            ship@.hp == ship@.cells.len(),
        ensures
            final(self).wf(),
            r == Err::<(), GameError>(GameError::NoSuchPlayer) <==> player > 1,
            r == Err::<(), GameError>(GameError::WrongPhase) <==> player <= 1 && old(self)@.phase != Phase::Setup,
            r is Err ==> final(self)@ == old(self)@,
            player <= 1 && old(self)@.phase == Phase::Setup ==> {
                &&& final(self)@.current == old(self)@.current
                &&& final(self)@.phase == Phase::Setup
                &&& final(self)@.boards[1 - player] == old(self)@.boards[1 - player]
                &&& old(self)@.boards[player as int].place_effect(
                    ship@,
                    match r {
                        Ok(()) => Ok(()),
                        Err(GameError::Placement(e)) => Err(e),
                        Err(_) => Err(PlacementError::OutOfBounds),
                    },
                    final(self)@.boards[player as int],
                )
                &&& r is Err ==> (r matches Err(GameError::Placement(_)))
            },
    {
        if player > 1 {
            return Err(GameError::NoSuchPlayer);
        }
        if self.phase != Phase::Setup {
            return Err(GameError::WrongPhase);
        }
        let placed = if player == 0 {
            self.first.place_ship(ship)
        } else {
            self.second.place_ship(ship)
        };
        match placed {
            Ok(()) => Ok(()),
            Err(e) => Err(GameError::Placement(e)),
        }
    }

    /// Ends setup: play begins once both boards hold a ship.
    pub fn start(&mut self) -> (r: Result<(), GameError>)
        requires
            old(self).wf(),
        ensures
            final(self).wf(),
            r == Err::<(), GameError>(GameError::WrongPhase) <==> old(self)@.phase != Phase::Setup,
            r == Err::<(), GameError>(GameError::NoShips) <==> old(self)@.phase == Phase::Setup && (
                old(self)@.boards[0].ships.len() == 0 || old(self)@.boards[1].ships.len() == 0),
            r is Err ==> final(self)@ == old(self)@,
            r is Ok ==> final(self)@ == (GameView { phase: Phase::InProgress, ..old(self)@ }),
    {
        if self.phase != Phase::Setup {
            return Err(GameError::WrongPhase);
        }
        if self.first.ship_count() == 0 || self.second.ship_count() == 0 {
            return Err(GameError::NoShips);
        }
        self.phase = Phase::InProgress;
        Ok(())
    }

    /// The current player fires at `target` on the opponent's board.
    /// A refused shot leaves everything as it was and the turn with the same
    /// player. An applied one ends the game with the shooter as winner when it
    /// sinks the opponent's last ship, and otherwise passes the turn.
    pub fn fire(&mut self, target: [usize; 2]) -> (r: Result<ShotResult, GameError>)
        requires
            old(self).wf(),
        ensures
            final(self).wf(),
            r == Err::<ShotResult, GameError>(GameError::WrongPhase) <==> old(self)@.phase != Phase::InProgress,
            r is Err ==> final(self)@ == old(self)@,
            old(self)@.phase == Phase::InProgress ==> {
                let opp = old(self)@.opponent();
                let after = final(self)@.boards[opp];
                &&& r is Err ==> (r matches Err(GameError::Shot(_)))
                &&& old(self)@.boards[opp].shot_effect(pos_of(target), board_result(r), after)
                &&& final(self)@.boards[old(self)@.current] == old(self)@.boards[old(self)@.current]
                &&& r is Ok ==> {
                    &&& after.all_sunk() ==> final(self)@.phase == Phase::Finished
                        && final(self)@.winner == Some(old(self)@.current)
                        && final(self)@.current == old(self)@.current
                    &&& !after.all_sunk() ==> final(self)@.phase == Phase::InProgress
                        && final(self)@.current == (old(self)@.current + 1) % 2
                }
            },
    {
        if self.phase != Phase::InProgress {
            return Err(GameError::WrongPhase);
        }
        let shot = if self.current == 0 {
            self.second.shoot(target)
        } else {
            self.first.shoot(target)
        };
        match shot {
            Err(e) => Err(GameError::Shot(e)),
            Ok(res) => {
                let done = if self.current == 0 {
                    self.second.check_win()
                } else {
                    self.first.check_win()
                };
                if done {
                    self.phase = Phase::Finished;
                    self.winner = Some(self.current);
                } else {
                    self.current = alternate_turn(self.current);
                }
                Ok(res)
            },
        }
    }

    pub fn phase(&self) -> (r: Phase)
        ensures
            r == self@.phase,
    {
        self.phase
    }

    /// The player to move.
    pub fn current_player(&self) -> (r: u8)
        ensures
            r == self@.current,
    {
        self.current
    }

    pub fn winner(&self) -> (r: Option<u8>)
        ensures
            r is Some <==> self@.winner is Some,
            r matches Some(w) ==> self@.winner == Some(w as int),
    {
        self.winner
    }

    /// The board that `player` owns.
    pub fn board(&self, player: u8) -> (r: &Board)
        requires
            player <= 1,
        ensures
            r@ == self@.boards[player as int],
    {
        if player == 0 {
            &self.first
        } else {
            &self.second
        }
    }
}

} // verus!
