//! A game between a human and the engine: who may move when, and when the
//! engine moves.
//!
//! The game holds no clock. Its caller keeps the timer that delays the
//! engine's move, tells the game how long the timer has run, and does to the
//! timer what the game answers.

use vstd::prelude::*;

use crate::board::Board;
use crate::evaluation::EvalResult;
use crate::player::Player;
use crate::position::{lemma_play, Position};
use crate::search::{best_move, cache_ok, MoveResult};
use crate::solver::Solver;

verus! {

/// The engine waits this many milliseconds before it moves.
pub const AI_MOVE_DELAY_MS: u64 = 300;

/// The depth to which the engine searches each candidate move.
pub const AI_SEARCH_DEPTH: u8 = 9;

/// Whether the sides are still to be chosen or a game is being played.
#[derive(Debug, Clone, Copy, PartialEq, Eq, Structural)]
pub enum GameMode {
    Setup,
    Playing,
}

/// What the caller is to do with its timer.
#[derive(Debug, Clone, Copy, PartialEq, Eq, Structural)]
pub enum TimerAction {
    /// Leave the timer as it is.
    Keep,
    /// Start the timer now.
    Start,
    /// Stop the timer and forget it.
    Clear,
}

/// The outcome of one step of the engine's turn.
#[derive(Debug, Clone, Copy)]
pub struct AiStep {
    /// What to do with the timer.
    pub timer: TimerAction,
    /// The move that the engine made in this step, if it made one.
    pub played: Option<MoveResult>,
}

/// What the status line says.
#[derive(Debug, Clone, Copy, PartialEq, Eq, Structural)]
pub enum TurnStatus {
    /// The game is over and this player has won.
    Won(Player),
    /// The game is over without a winner.
    Draw,
    /// It is the engine's turn; the engine plays this side.
    AiTurn(Player),
    /// It is the human's turn; the human plays this side.
    HumanTurn(Player),
    /// It is this player's turn, and the engine has no side.
    Unassigned(Player),
}

/// What is said of the outcome that the engine announced with its last move.
#[derive(Debug, Clone, Copy, PartialEq, Eq, Structural)]
pub enum OutcomeNote {
    /// Nothing: the game is over, the engine has no side, or it announced
    /// no outcome.
    Silent,
    /// The engine is to move and has announced an outcome in this many
    /// plies.
    AiToMove(u8),
    /// The human is to move and the engine has announced an outcome in this
    /// many plies.
    HumanToMove(u8),
}

/// A game between a human and the engine.
pub struct ConnectFourApp {
    board: Board,
    solver: Solver,
    ai_player: Option<Player>,
    thinking: bool,
    game_mode: GameMode,
    ai_moves_to_win: Option<u8>,
}

/// The abstract state of a game between a human and the engine.
pub struct AppView {
    /// The position on the board.
    pub position: Position,
    /// The entries of the engine's cache.
    pub cache: Map<u128, EvalResult>,
    /// The side that the engine plays, once the sides are chosen.
    pub ai_player: Option<Player>,
    /// Whether the engine is searching.
    pub thinking: bool,
    /// Whether the sides are still to be chosen.
    pub game_mode: GameMode,
    /// The plies to the end of the game that the engine announced with its
    /// last move, if it announced any.
    pub ai_moves_to_win: Option<u8>,
}

impl AppView {
    /// It is the engine's turn: the engine has a side, that side is to move,
    /// the game is not over and no search is running.
    pub open spec fn ai_to_move(self) -> bool {
        &&& self.ai_player == Some(self.position.to_move)
        &&& !self.position.over
        &&& !self.thinking
    }

    /// The human may play `col`: the engine has a side and it is not that
    /// side's turn, the game is not over, the engine neither searches nor
    /// waits to move, and the column is legal.
    pub open spec fn human_may_play(self, col: int, timer_running: bool) -> bool {
        &&& self.ai_player is Some
        &&& self.ai_player != Some(self.position.to_move)
        &&& !self.position.over
        &&& !self.thinking
        &&& !timer_running
        &&& self.position.is_legal(col)
    }

    /// The engine moves in this step: it is its turn and its timer has run
    /// for the whole delay. A timer that is not running is started in this
    /// step and has run for no time.
    pub open spec fn ai_moves_now(self, timer_elapsed_ms: Option<u64>) -> bool {
        &&& self.ai_to_move()
        &&& timer_elapsed_ms matches Some(elapsed)
        &&& elapsed >= AI_MOVE_DELAY_MS
    }

    /// What the status line says.
    pub open spec fn status(self) -> TurnStatus {
        if self.position.over {
            match self.position.winner {
                Some(winner) => TurnStatus::Won(winner),
                None => TurnStatus::Draw,
            }
        } else {
            match self.ai_player {
                Some(ai_player) => if self.position.to_move == ai_player {
                    TurnStatus::AiTurn(self.position.to_move)
                } else {
                    TurnStatus::HumanTurn(self.position.to_move)
                },
                None => TurnStatus::Unassigned(self.position.to_move),
            }
        }
    }

    /// The engine is shown as thinking while the game runs, it is the
    /// engine's turn and the engine searches or waits to move.
    pub open spec fn shows_thinking(self, timer_running: bool) -> bool {
        &&& !self.position.over
        &&& self.ai_player == Some(self.position.to_move)
        &&& (self.thinking || timer_running)
    }

    /// What is said of the outcome that the engine announced.
    pub open spec fn outcome_note(self) -> OutcomeNote {
        if self.position.over {
            OutcomeNote::Silent
        } else {
            match (self.ai_player, self.ai_moves_to_win) {
                (Some(ai_player), Some(moves)) => if self.position.to_move == ai_player {
                    OutcomeNote::AiToMove(moves)
                } else {
                    OutcomeNote::HumanToMove(moves)
                },
                _ => OutcomeNote::Silent,
            }
        }
    }

    /// The window is drawn again without waiting for input while the engine
    /// searches or waits to move, and when the game is over.
    pub open spec fn wants_repaint(self, timer_running: bool) -> bool {
        self.thinking || timer_running || self.position.over
    }

    /// What the caller is to do with its timer after a step of the engine's
    /// turn: nothing while the engine has no side; to clear it when it is not
    /// the engine's turn or the engine has moved; to start it when it is the
    /// engine's turn and no timer runs; else to let it run.
    pub open spec fn timer_action(self, timer_elapsed_ms: Option<u64>) -> TimerAction {
        if self.ai_player is None {
            TimerAction::Keep
        } else if !self.ai_to_move() || self.ai_moves_now(timer_elapsed_ms) {
            TimerAction::Clear
        } else if timer_elapsed_ms is None {
            TimerAction::Start
        } else {
            TimerAction::Keep
        }
    }
}

impl View for ConnectFourApp {
    type V = AppView;

    closed spec fn view(&self) -> AppView {
        AppView {
            position: self.board@,
            cache: self.solver@,
            ai_player: self.ai_player,
            thinking: self.thinking,
            game_mode: self.game_mode,
            ai_moves_to_win: self.ai_moves_to_win,
        }
    }
}

impl ConnectFourApp {
    /// The board and the engine of the game are in order, and no search is
    /// running.
    pub closed spec fn wf(&self) -> bool {
        &&& self.board.wf()
        &&& self.solver.wf()
        &&& !self.thinking
    }

    /// What `wf` says, over the view.
    pub proof fn lemma_wf(&self)
        requires
            self.wf(),
        ensures
            self@.position.wf(),
            cache_ok(self@.cache),
            !self@.thinking,
    {
    }

    /// Creates a game with an empty board and no sides chosen.
    pub fn new() -> (app: ConnectFourApp)
        ensures
            app.wf(),
            app@.position == Position::empty(),
            app@.cache == Map::<u128, EvalResult>::empty(),
            app@.ai_player is None,
            !app@.thinking,
            app@.game_mode == GameMode::Setup,
            app@.ai_moves_to_win is None,
    {
        ConnectFourApp {
            board: Board::new(),
            solver: Solver::new(),
            ai_player: None,
            thinking: false,
            game_mode: GameMode::Setup,
            ai_moves_to_win: None,
        }
    }

    /// The board of the game.
    pub fn board(&self) -> (board: &Board)
        ensures
            board@ == self@.position,
            self.wf() ==> board.wf(),
    {
        &self.board
    }

    /// The side that the engine plays, once the sides are chosen.
    pub fn ai_player(&self) -> (player: Option<Player>)
        ensures
            player == self@.ai_player,
    {
        self.ai_player
    }

    /// Whether the engine is searching.
    pub fn thinking(&self) -> (thinking: bool)
        ensures
            thinking == self@.thinking,
    {
        self.thinking
    }

    /// Whether the sides are still to be chosen.
    pub fn game_mode(&self) -> (mode: GameMode)
        ensures
            mode == self@.game_mode,
    {
        self.game_mode
    }

    /// The plies to the end of the game that the engine announced with its
    /// last move.
    pub fn ai_moves_to_win(&self) -> (moves: Option<u8>)
        ensures
            moves == self@.ai_moves_to_win,
    {
        self.ai_moves_to_win
    }

    /// Says what the status line is to show.
    pub fn status(&self) -> (status: TurnStatus)
        ensures
            status == self@.status(),
    {
        if self.board.is_game_over() {
            match self.board.winner() {
                Some(winner) => TurnStatus::Won(winner),
                None => TurnStatus::Draw,
            }
        } else {
            let current_player = self.board.current_player();
            match self.ai_player {
                Some(ai_player) => {
                    if current_player == ai_player {
                        TurnStatus::AiTurn(current_player)
                    } else {
                        TurnStatus::HumanTurn(current_player)
                    }
                },
                None => TurnStatus::Unassigned(current_player),
            }
        }
    }

    /// Says whether the engine is to be shown as thinking. `timer_running`
    /// says whether the caller's timer runs.
    pub fn shows_thinking(&self, timer_running: bool) -> (shown: bool)
        ensures
            shown == self@.shows_thinking(timer_running),
    {
        if self.board.is_game_over() {
            return false;
        }
        match self.ai_player {
            Some(ai_player) => self.board.current_player() == ai_player && (self.thinking
                || timer_running),
            None => false,
        }
    }

    /// Says what is to be shown of the outcome that the engine announced.
    pub fn outcome_note(&self) -> (note: OutcomeNote)
        ensures
            note == self@.outcome_note(),
    {
        if self.board.is_game_over() {
            return OutcomeNote::Silent;
        }
        match self.ai_player {
            Some(ai_player) => {
                match self.ai_moves_to_win {
                    Some(moves) => {
                        if self.board.current_player() == ai_player {
                            OutcomeNote::AiToMove(moves)
                        } else {
                            OutcomeNote::HumanToMove(moves)
                        }
                    },
                    None => OutcomeNote::Silent,
                }
            },
            None => OutcomeNote::Silent,
        }
    }

    /// Says whether the window is to be drawn again without waiting for
    /// input.
    pub fn wants_repaint(&self, timer_running: bool) -> (again: bool)
        ensures
            again == self@.wants_repaint(timer_running),
    {
        self.thinking || timer_running || self.board.is_game_over()
    }

    /// Starts a game on an empty board. The human plays `Red` and moves
    /// first if `human_first`; otherwise the engine plays `Red`, and the
    /// caller starts its timer. Returns what to do with the timer.
    pub fn start_game(&mut self, human_first: bool) -> (timer: TimerAction)
        requires
            old(self).wf(),
        ensures
            final(self).wf(),
            final(self)@ == (AppView {
                position: Position::empty(),
                ai_player: Some(
                    if human_first {
                        Player::Yellow
                    } else {
                        Player::Red
                    },
                ),
                game_mode: GameMode::Playing,
                ai_moves_to_win: None,
                ..old(self)@
            }),
            timer == if human_first {
                TimerAction::Clear
            } else {
                TimerAction::Start
            },
    {
        self.ai_player = Some(
            if human_first {
                Player::Yellow
            } else {
                Player::Red
            },
        );
        self.game_mode = GameMode::Playing;
        self.board.reset();
        self.ai_moves_to_win = None;
        if human_first {
            TimerAction::Clear
        } else {
            TimerAction::Start
        }
    }

    /// Ends the game and goes back to the choice of sides, on an empty
    /// board. The caller clears its timer.
    pub fn new_game(&mut self)
        requires
            old(self).wf(),
        ensures
            final(self).wf(),
            final(self)@ == (AppView {
                position: Position::empty(),
                ai_player: None,
                game_mode: GameMode::Setup,
                ai_moves_to_win: None,
                ..old(self)@
            }),
    {
        self.game_mode = GameMode::Setup;
        self.board.reset();
        self.ai_player = None;
        self.ai_moves_to_win = None;
    }

    /// Empties the board and keeps the sides. The caller clears its timer.
    pub fn reset_board(&mut self)
        requires
            old(self).wf(),
        ensures
            final(self).wf(),
            final(self)@ == (AppView {
                position: Position::empty(),
                ai_moves_to_win: None,
                ..old(self)@
            }),
    {
        self.board.reset();
        self.ai_moves_to_win = None;
    }

    /// Plays `col` for the human if the human may play it. `timer_running`
    /// says whether the caller's timer runs. Returns whether the move was
    /// made; the caller then starts its timer.
    pub fn human_move(&mut self, col: usize, timer_running: bool) -> (moved: bool)
        requires
            old(self).wf(),
        ensures
            final(self).wf(),
            moved == old(self)@.human_may_play(col as int, timer_running),
            moved ==> final(self)@ == (AppView {
                position: old(self)@.position.play(col as int),
                ai_moves_to_win: None,
                ..old(self)@
            }),
            !moved ==> final(self)@ == old(self)@,
    {
        match self.ai_player {
            Some(ai_player) => {
                if self.board.current_player() != ai_player && !self.board.is_game_over()
                    && !self.thinking && !timer_running && self.board.is_valid_move(col) {
                    self.board.make_move(col);
                    self.ai_moves_to_win = None;
                    true
                } else {
                    false
                }
            },
            None => false,
        }
    }

    /// One step of the engine's turn. `timer_elapsed_ms` is the time for
    /// which the caller's timer has run, `None` if it does not run. When it
    /// is the engine's turn and the timer has run for the delay, the engine
    /// searches, plays its move and announces the plies to the end of the
    /// game.
    pub fn process_ai_move_with_delay(&mut self, timer_elapsed_ms: Option<u64>) -> (step: AiStep)
        requires
            old(self).wf(),
        ensures
            final(self).wf(),
            step.timer == old(self)@.timer_action(timer_elapsed_ms),
            !old(self)@.ai_moves_now(timer_elapsed_ms) ==> step.played is None && final(self)@
                == old(self)@,
            old(self)@.ai_moves_now(timer_elapsed_ms) ==> {
                let searched = best_move(
                    old(self)@.cache,
                    old(self)@.position,
                    AI_SEARCH_DEPTH as nat,
                );
                &&& step.played == searched.0
                &&& step.played matches Some(chosen)
                &&& old(self)@.position.is_legal(chosen.column as int)
                &&& final(self)@ == (AppView {
                    position: old(self)@.position.play(chosen.column as int),
                    cache: searched.1,
                    ai_moves_to_win: chosen.moves_to_win,
                    ..old(self)@
                })
            },
    {
        match self.ai_player {
            Some(ai_player) => {
                if self.board.current_player() == ai_player && !self.board.is_game_over()
                    && !self.thinking {
                    match timer_elapsed_ms {
                        None => AiStep { timer: TimerAction::Start, played: None },
                        Some(elapsed) => {
                            if elapsed >= AI_MOVE_DELAY_MS {
                                self.thinking = true;
                                let played = self.solver.find_best_move(&self.board, AI_SEARCH_DEPTH);
                                match played {
                                    Some(move_result) => {
                                        proof {
                                            lemma_play(self.board@, move_result.column as int);
                                        }
                                        self.board.make_move(move_result.column);
                                        self.ai_moves_to_win = move_result.moves_to_win;
                                    },
                                    None => {},
                                }
                                self.thinking = false;
                                AiStep { timer: TimerAction::Clear, played }
                            } else {
                                AiStep { timer: TimerAction::Keep, played: None }
                            }
                        },
                    }
                } else {
                    AiStep { timer: TimerAction::Clear, played: None }
                }
            },
            None => AiStep { timer: TimerAction::Keep, played: None },
        }
    }
}

impl Default for ConnectFourApp {
    /// A game with an empty board and no sides chosen.
    fn default() -> (app: ConnectFourApp)
        ensures
            app.wf(),
            app@.position == Position::empty(),
            app@.ai_player is None,
            app@.game_mode == GameMode::Setup,
    {
        ConnectFourApp::new()
    }
}

} // verus!
