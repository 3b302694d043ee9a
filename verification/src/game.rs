//! One match and its transitions.
//!
//! A match is opened by one participant, who fixes the stake with their
//! deposit. It becomes active when a second participant joins with at least
//! that stake, and it ends when a move wins it, when the ninth move leaves no
//! winner, when the waiting participant claims it after the move deadline, or
//! when its creator withdraws before anyone joined.
//!
//! Each transition is given twice: as a function on [`GameView`], which says
//! what the transition is, and as a method of [`Game`], which carries it out.
use crate::board::{
    count_filled, empty_board, filled, has_win, is_board, is_grid, lemma_empty_board_has_no_win,
    lemma_filled_update, lemma_unfilled_has_no_win, winning, CELLS, EMPTY, MARK_FIRST,
    MARK_SECOND,
};
use crate::error::{Error, InputFault};
use crate::escrow::{
    draw_refund, overpay_refund, spec_draw_refund, spec_overpay_refund, spec_winner_payout, views,
    winner_payout, Balance, Transfer, TransferView,
};
use vstd::prelude::*;

verus! {

/// The identity of a participant, as the host names it.
pub type AccountId = String;

/// The number of moves after which the grid is full.
pub const MAX_ROUNDS: u8 = 9;

/// The number of ticks of the host clock in a second: it counts nanoseconds.
pub const ONE_SECOND: u64 = 1_000_000_000;

/// The move deadline, one minute: who lets more than this pass since the
/// last move can be claimed against.
pub const MOVE_DEADLINE: u64 = 60 * ONE_SECOND;

/// Where a match stands.
#[derive(Clone, Copy, Debug, PartialEq, Eq, Structural)]
pub enum GameState {
    /// Opened and waiting for a second participant.
    GameCreated,
    /// Joined and in play.
    GameInitialized,
    /// Over. Nothing changes a match that has ended.
    GameEnded,
}

/// One match.
#[derive(Debug, PartialEq, Eq)]
pub struct Game {
    /// The participant who opened the match. They move first.
    pub player1: AccountId,
    /// The stake that each participant commits.
    pub deposit: Balance,
    /// The participant who joined, once one has.
    pub player2: Option<AccountId>,
    /// The grid, row by row.
    pub field: [u8; 9],
    /// The number of moves made.
    pub round: u8,
    /// Whose move is next: `false` for `player1`, `true` for `player2`.
    pub whose_move: bool,
    /// When the last move was made, once one has been.
    pub last_move_time: Option<u64>,
    /// Where the match stands.
    pub game_state: GameState,
    /// The participant who won, if one did.
    pub winner: Option<AccountId>,
}

/// A match as a mathematical value: identities are sequences of characters,
/// the grid is a sequence of cells.
#[verifier::ext_equal]
pub struct GameView {
    pub player1: Seq<char>,
    pub deposit: Balance,
    pub player2: Option<Seq<char>>,
    pub field: Seq<u8>,
    pub round: nat,
    pub whose_move: bool,
    pub last_move_time: Option<u64>,
    pub game_state: GameState,
    pub winner: Option<Seq<char>>,
}

/// The view of an identity that may be absent.
pub open spec fn view_of(id: Option<AccountId>) -> Option<Seq<char>> {
    match id {
        Some(name) => Some(name@),
        None => None,
    }
}

impl View for Game {
    type V = GameView;

    open spec fn view(&self) -> GameView {
        GameView {
            player1: self.player1@,
            deposit: self.deposit,
            player2: view_of(self.player2),
            field: self.field@,
            round: self.round as nat,
            whose_move: self.whose_move,
            last_move_time: self.last_move_time,
            game_state: self.game_state,
            winner: view_of(self.winner),
        }
    }
}

/// What a transition leaves: the match after it, and the transfers that it
/// orders, in the order in which they are to be made.
#[verifier::ext_equal]
pub struct Step {
    pub game: GameView,
    pub transfers: Seq<TransferView>,
}

impl GameView {
    /// The match that `creator` opens with the deposit `stake`.
    pub open spec fn opened(creator: Seq<char>, stake: Balance) -> GameView {
        GameView {
            player1: creator,
            deposit: stake,
            player2: None,
            field: empty_board(),
            round: 0,
            whose_move: false,
            last_move_time: None,
            game_state: GameState::GameCreated,
            winner: None,
        }
    }

    /// The participant whose move is next, if the match has them.
    pub open spec fn due(self) -> Option<Seq<char>> {
        if self.whose_move {
            self.player2
        } else {
            Some(self.player1)
        }
    }

    /// The participant who waits for the other to move, if the match has them.
    pub open spec fn waiting(self) -> Option<Seq<char>> {
        if self.whose_move {
            Some(self.player1)
        } else {
            self.player2
        }
    }

    /// The mark that the next move writes.
    pub open spec fn due_mark(self) -> u8 {
        if self.whose_move {
            MARK_SECOND
        } else {
            MARK_FIRST
        }
    }

    /// Whether the match was withdrawn by its creator before anyone joined.
    pub open spec fn cancelled(self) -> bool {
        self.game_state == GameState::GameEnded && self.player2.is_none()
    }

    /// Whether the match ended with the ninth move and no winner.
    pub open spec fn drawn(self) -> bool {
        self.round == MAX_ROUNDS && !has_win(self.field)
    }

    /// What holds of every match that the transitions can reach.
    ///
    /// The move count is the number of filled cells, and the turn goes by its
    /// parity. An open match has one participant and no move. An active
    /// match has two participants, no won line and an empty cell. A match
    /// that has ended was withdrawn while open, or it has two participants
    /// and at least one move, and it has a winner unless it was drawn: the
    /// participant who moved last.
    pub open spec fn wf(self) -> bool {
        &&& is_board(self.field)
        &&& self.round == filled(self.field)
        &&& self.whose_move == (self.round % 2 == 1)
        &&& self.last_move_time.is_some() == (self.round >= 1)
        &&& match self.game_state {
            GameState::GameCreated => {
                &&& self.player2.is_none()
                &&& self.round == 0
                &&& self.winner.is_none()
            },
            GameState::GameInitialized => {
                &&& self.player2.is_some()
                &&& self.round < MAX_ROUNDS
                &&& !has_win(self.field)
                &&& self.winner.is_none()
            },
            GameState::GameEnded => if self.player2.is_none() {
                &&& self.round == 0
                &&& self.winner.is_none()
            } else {
                &&& self.round >= 1
                &&& self.winner.is_none() == self.drawn()
                &&& self.winner.is_some() ==> self.winner == self.waiting()
            },
        }
    }

    /// A second participant joins an open match.
    ///
    /// Refused unless the match is open and `paid` covers the stake. What was
    /// paid over the stake goes back to the joiner.
    pub open spec fn join(self, joiner: Seq<char>, paid: Balance) -> Result<Step, Error> {
        if self.game_state != GameState::GameCreated {
            Err(Error::InvalidPhase)
        } else if paid < self.deposit {
            Err(Error::InvalidInput { fault: InputFault::DepositBelowStake { stake: self.deposit } })
        } else {
            Ok(
                Step {
                    game: GameView {
                        player2: Some(joiner),
                        game_state: GameState::GameInitialized,
                        ..self
                    },
                    transfers: match spec_overpay_refund(self.deposit as nat, paid as nat) {
                        Some(amount) => seq![TransferView { to: joiner, amount }],
                        None => seq![],
                    },
                },
            )
        }
    }

    /// The match after the participant who is due wrote their mark into
    /// `cell` at the time `now`, before it is asked whether that ends it.
    pub open spec fn moved(self, cell: usize, now: u64) -> GameView {
        GameView {
            field: self.field.update(cell as int, self.due_mark()),
            round: self.round + 1,
            whose_move: !self.whose_move,
            last_move_time: Some(now),
            ..self
        }
    }

    /// Why the move of `caller` into `cell` is not accepted, if it is not.
    ///
    /// The match must be active, `caller` the participant who is due, and
    /// `cell` an empty cell of the grid.
    pub open spec fn move_fault(self, caller: Seq<char>, cell: usize) -> Option<Error> {
        if self.game_state != GameState::GameInitialized {
            Some(Error::InvalidPhase)
        } else if self.due() != Some(caller) {
            Some(Error::Unauthorized)
        } else if cell >= CELLS {
            Some(Error::InvalidInput { fault: InputFault::CellOutOfRange { cell } })
        } else if self.field[cell as int] != EMPTY {
            Some(Error::InvalidInput { fault: InputFault::CellOccupied { cell } })
        } else {
            None
        }
    }

    /// The participant who is due makes a move.
    ///
    /// An accepted move writes the caller's mark, counts the move, records
    /// its time and passes the turn. If a line is won then, the match ends
    /// and the caller is paid the winner's payout; if not and the grid is
    /// full, the match ends and each participant is refunded, the creator
    /// first; else the match goes on.
    pub open spec fn apply_move(self, caller: Seq<char>, cell: usize, now: u64) -> Result<
        Step,
        Error,
    > {
        let moved = self.moved(cell, now);
        if let Some(fault) = self.move_fault(caller, cell) {
            Err(fault)
        } else if has_win(moved.field) {
            if spec_winner_payout(self.deposit as nat) > Balance::MAX {
                Err(Error::ArithmeticOverflow)
            } else {
                Ok(
                    Step {
                        game: GameView {
                            game_state: GameState::GameEnded,
                            winner: Some(caller),
                            ..moved
                        },
                        transfers: seq![
                            TransferView {
                                to: caller,
                                amount: spec_winner_payout(self.deposit as nat),
                            },
                        ],
                    },
                )
            }
        } else if moved.round == MAX_ROUNDS {
            Ok(
                Step {
                    game: GameView { game_state: GameState::GameEnded, ..moved },
                    transfers: seq![
                        TransferView {
                            to: self.player1,
                            amount: spec_draw_refund(self.deposit as nat),
                        },
                        TransferView {
                            to: self.player2.unwrap(),
                            amount: spec_draw_refund(self.deposit as nat),
                        },
                    ],
                },
            )
        } else {
            Ok(Step { game: moved, transfers: seq![] })
        }
    }

    /// The waiting participant claims the match because the other let the
    /// move deadline pass.
    ///
    /// Refused unless the match is active and a move has been made, `caller`
    /// is the participant who is not due, and more than [`MOVE_DEADLINE`] has
    /// passed since the last move. The caller then wins and is paid the
    /// winner's payout.
    pub open spec fn claim_timeout(self, caller: Seq<char>, now: u64) -> Result<Step, Error> {
        if self.game_state != GameState::GameInitialized || self.round == 0 {
            Err(Error::InvalidPhase)
        } else if self.waiting() != Some(caller) {
            Err(Error::Unauthorized)
        } else if now < self.last_move_time.unwrap() {
            Err(Error::ArithmeticOverflow)
        } else if now - self.last_move_time.unwrap() <= MOVE_DEADLINE {
            Err(
                Error::DeadlineNotElapsed {
                    elapsed: (now - self.last_move_time.unwrap()) as u64,
                },
            )
        } else if spec_winner_payout(self.deposit as nat) > Balance::MAX {
            Err(Error::ArithmeticOverflow)
        } else {
            Ok(
                Step {
                    game: GameView {
                        game_state: GameState::GameEnded,
                        winner: Some(caller),
                        ..self
                    },
                    transfers: seq![
                        TransferView {
                            to: caller,
                            amount: spec_winner_payout(self.deposit as nat),
                        },
                    ],
                },
            )
        }
    }

    /// A participant withdraws before the first move.
    ///
    /// The creator may withdraw an open match, which ends it. The
    /// participant who joined may withdraw while no move has been made, which
    /// opens the match again. Either gets the whole stake back.
    pub open spec fn cancel(self, caller: Seq<char>) -> Result<Step, Error> {
        let refund = seq![TransferView { to: caller, amount: self.deposit as nat }];
        match self.game_state {
            GameState::GameCreated => if caller != self.player1 {
                Err(Error::Unauthorized)
            } else {
                Ok(
                    Step {
                        game: GameView { game_state: GameState::GameEnded, ..self },
                        transfers: refund,
                    },
                )
            },
            GameState::GameInitialized => if self.round != 0 {
                Err(Error::InvalidPhase)
            } else if self.player2 != Some(caller) {
                Err(Error::Unauthorized)
            } else {
                Ok(
                    Step {
                        game: GameView {
                            player2: None,
                            game_state: GameState::GameCreated,
                            ..self
                        },
                        transfers: refund,
                    },
                )
            },
            GameState::GameEnded => Err(Error::InvalidPhase),
        }
    }
}

impl Clone for Game {
    fn clone(&self) -> (copy: Game)
        ensures
            copy == *self,
    {
        Game {
            player1: self.player1.clone(),
            deposit: self.deposit,
            player2: clone_id(&self.player2),
            field: self.field,
            round: self.round,
            whose_move: self.whose_move,
            last_move_time: self.last_move_time,
            game_state: self.game_state,
            winner: clone_id(&self.winner),
        }
    }
}

fn clone_id(id: &Option<AccountId>) -> (copy: Option<AccountId>)
    ensures
        copy == *id,
{
    match id {
        Some(name) => Some(name.clone()),
        None => None,
    }
}

impl Game {
    /// Opens a match for `creator` with the deposit `stake`.
    pub fn new(creator: AccountId, stake: Balance) -> (game: Game)
        ensures
            game@ == GameView::opened(creator@, stake),
            game@.wf(),
    {
        let game = Game {
            player1: creator,
            deposit: stake,
            player2: None,
            field: [EMPTY; 9],
            round: 0,
            whose_move: false,
            last_move_time: None,
            game_state: GameState::GameCreated,
            winner: None,
        };
        proof {
            lemma_empty_board_has_no_win();
            assert(game.field@ =~= empty_board());
        }
        game
    }

    /// Whether some line of the grid holds three equal marks.
    pub fn win(&self) -> (won: bool)
        ensures
            won == has_win(self@.field),
    {
        winning(&self.field)
    }

    /// Whether the grid is full and no line is won.
    pub fn draw(&self) -> (drawn: bool)
        ensures
            drawn == self@.drawn(),
    {
        self.round == MAX_ROUNDS && !self.win()
    }

    /// Whether the match is one that the transitions can reach: what a
    /// record that was stored and read back has to pass before it is played
    /// on.
    pub fn is_valid(&self) -> (valid: bool)
        ensures
            valid == self@.wf(),
    {
        if !is_grid(&self.field) || self.round != count_filled(&self.field) {
            return false;
        }
        if self.whose_move != (self.round % 2 == 1) {
            return false;
        }
        if self.last_move_time.is_some() != (self.round >= 1) {
            return false;
        }
        match self.game_state {
            GameState::GameCreated => self.player2.is_none() && self.round == 0
                && self.winner.is_none(),
            GameState::GameInitialized => self.player2.is_some() && self.round < MAX_ROUNDS
                && !self.win() && self.winner.is_none(),
            GameState::GameEnded => if self.player2.is_none() {
                self.round == 0 && self.winner.is_none()
            } else {
                self.round >= 1 && self.winner.is_none() == self.draw() && match &self.winner {
                    Some(winner) => self.is_waiting(winner),
                    None => true,
                }
            },
        }
    }

    /// Whether `caller` is the participant whose move is next.
    pub fn is_due(&self, caller: &AccountId) -> (due: bool)
        ensures
            due == (self@.due() == Some(caller@)),
    {
        if self.whose_move {
            is_id(&self.player2, caller)
        } else {
            self.player1 == *caller
        }
    }

    /// Whether `caller` is the participant who waits for the other to move.
    pub fn is_waiting(&self, caller: &AccountId) -> (waiting: bool)
        ensures
            waiting == (self@.waiting() == Some(caller@)),
    {
        if self.whose_move {
            self.player1 == *caller
        } else {
            is_id(&self.player2, caller)
        }
    }

    /// Lets `joiner`, who attached `paid`, join the match.
    ///
    /// On success the result orders the refund of what was paid over the
    /// stake, if anything was.
    pub fn join(&mut self, joiner: AccountId, paid: Balance) -> (res: Result<Vec<Transfer>, Error>)
        requires
            old(self)@.wf(),
        ensures
            final(self)@.wf(),
            match (res, old(self)@.join(joiner@, paid)) {
                (Ok(transfers), Ok(step)) => final(self)@ == step.game && views(transfers@)
                    == step.transfers,
                (Err(e), Err(expected)) => e == expected && *final(self) == *old(self),
                _ => false,
            },
    {
        if self.game_state != GameState::GameCreated {
            return Err(Error::InvalidPhase);
        }
        if paid < self.deposit {
            return Err(
                Error::InvalidInput { fault: InputFault::DepositBelowStake { stake: self.deposit } },
            );
        }
        let mut transfers: Vec<Transfer> = Vec::new();
        match overpay_refund(self.deposit, paid) {
            Some(amount) => transfers.push(Transfer { to: joiner.clone(), amount }),
            None => {},
        }
        self.player2 = Some(joiner);
        self.game_state = GameState::GameInitialized;
        proof {
            lemma_unfilled_has_no_win(self@.field);
            assert(views(transfers@) =~= old(self)@.join(joiner@, paid).unwrap().transfers);
        }
        Ok(transfers)
    }

    /// Makes the move of `caller` into `cell` at the time `now`.
    ///
    /// On success the result orders the winner's payout if the move won the
    /// match, the two refunds if it drew it, and nothing if the match goes
    /// on.
    pub fn apply_move(&mut self, caller: &AccountId, cell: usize, now: u64) -> (res: Result<
        Vec<Transfer>,
        Error,
    >)
        requires
            old(self)@.wf(),
        ensures
            final(self)@.wf(),
            match (res, old(self)@.apply_move(caller@, cell, now)) {
                (Ok(transfers), Ok(step)) => final(self)@ == step.game && views(transfers@)
                    == step.transfers,
                (Err(e), Err(expected)) => e == expected && *final(self) == *old(self),
                _ => false,
            },
    {
        if self.game_state != GameState::GameInitialized {
            return Err(Error::InvalidPhase);
        }
        if !self.is_due(caller) {
            return Err(Error::Unauthorized);
        }
        if cell >= CELLS {
            return Err(Error::InvalidInput { fault: InputFault::CellOutOfRange { cell } });
        }
        if self.field[cell] != EMPTY {
            return Err(Error::InvalidInput { fault: InputFault::CellOccupied { cell } });
        }
        let mut board: [u8; 9] = self.field;
        board[cell] = if self.whose_move {
            MARK_SECOND
        } else {
            MARK_FIRST
        };
        proof {
            assert(board@ =~= old(self)@.moved(cell, now).field);
            lemma_move_keeps_wf(old(self)@, caller@, cell, now);
        }
        let mut transfers: Vec<Transfer> = Vec::new();
        if winning(&board) {
            let prize: Balance = match winner_payout(self.deposit) {
                Ok(amount) => amount,
                Err(e) => {
                    return Err(e);
                },
            };
            transfers.push(Transfer { to: caller.clone(), amount: prize });
            self.winner = Some(caller.clone());
            self.game_state = GameState::GameEnded;
        } else if self.round + 1 == MAX_ROUNDS {
            let refund: Balance = draw_refund(self.deposit);
            transfers.push(Transfer { to: self.player1.clone(), amount: refund });
            match &self.player2 {
                Some(opponent) => transfers.push(Transfer { to: opponent.clone(), amount: refund }),
                None => {},
            }
            self.game_state = GameState::GameEnded;
        }
        self.field = board;
        self.round = self.round + 1;
        self.last_move_time = Some(now);
        self.whose_move = !self.whose_move;
        proof {
            let step = old(self)@.apply_move(caller@, cell, now).unwrap();
            assert(views(transfers@) =~= step.transfers);
            assert(self@ =~= step.game);
        }
        Ok(transfers)
    }

    /// Ends the match in favour of `caller`, who waited past the deadline.
    ///
    /// On success the result orders the winner's payout to the caller.
    pub fn claim_timeout(&mut self, caller: &AccountId, now: u64) -> (res: Result<
        Vec<Transfer>,
        Error,
    >)
        requires
            old(self)@.wf(),
        ensures
            final(self)@.wf(),
            match (res, old(self)@.claim_timeout(caller@, now)) {
                (Ok(transfers), Ok(step)) => final(self)@ == step.game && views(transfers@)
                    == step.transfers,
                (Err(e), Err(expected)) => e == expected && *final(self) == *old(self),
                _ => false,
            },
    {
        if self.game_state != GameState::GameInitialized {
            return Err(Error::InvalidPhase);
        }
        let last: u64 = match self.last_move_time {
            Some(time) => time,
            None => {
                return Err(Error::InvalidPhase);
            },
        };
        if !self.is_waiting(caller) {
            return Err(Error::Unauthorized);
        }
        if now < last {
            return Err(Error::ArithmeticOverflow);
        }
        let elapsed: u64 = now - last;
        if elapsed <= MOVE_DEADLINE {
            return Err(Error::DeadlineNotElapsed { elapsed });
        }
        let prize: Balance = match winner_payout(self.deposit) {
            Ok(amount) => amount,
            Err(e) => {
                return Err(e);
            },
        };
        let mut transfers: Vec<Transfer> = Vec::new();
        transfers.push(Transfer { to: caller.clone(), amount: prize });
        self.winner = Some(caller.clone());
        self.game_state = GameState::GameEnded;
        proof {
            assert(views(transfers@) =~= old(self)@.claim_timeout(caller@, now).unwrap().transfers);
        }
        Ok(transfers)
    }

    /// Withdraws `caller` from the match before the first move.
    ///
    /// On success the result orders the refund of the whole stake to the
    /// caller. A match that its creator withdrew has ended.
    pub fn cancel(&mut self, caller: &AccountId) -> (res: Result<Vec<Transfer>, Error>)
        requires
            old(self)@.wf(),
        ensures
            final(self)@.wf(),
            match (res, old(self)@.cancel(caller@)) {
                (Ok(transfers), Ok(step)) => final(self)@ == step.game && views(transfers@)
                    == step.transfers,
                (Err(e), Err(expected)) => e == expected && *final(self) == *old(self),
                _ => false,
            },
    {
        match self.game_state {
            GameState::GameCreated => {
                if self.player1 != *caller {
                    return Err(Error::Unauthorized);
                }
                self.game_state = GameState::GameEnded;
            },
            GameState::GameInitialized => {
                if self.round != 0 {
                    return Err(Error::InvalidPhase);
                }
                if !is_id(&self.player2, caller) {
                    return Err(Error::Unauthorized);
                }
                self.player2 = None;
                self.game_state = GameState::GameCreated;
            },
            GameState::GameEnded => {
                return Err(Error::InvalidPhase);
            },
        }
        let mut transfers: Vec<Transfer> = Vec::new();
        transfers.push(Transfer { to: caller.clone(), amount: self.deposit });
        proof {
            assert(views(transfers@) =~= old(self)@.cancel(caller@).unwrap().transfers);
        }
        Ok(transfers)
    }
}

fn is_id(id: &Option<AccountId>, caller: &AccountId) -> (same: bool)
    ensures
        same == (view_of(*id) == Some(caller@)),
{
    match id {
        Some(name) => *name == *caller,
        None => false,
    }
}

/// An accepted move leaves a match that is well formed: one cell more is
/// filled, and a line that is won now holds the mover's mark.
pub proof fn lemma_move_keeps_wf(game: GameView, caller: Seq<char>, cell: usize, now: u64)
    requires
        game.wf(),
        game.move_fault(caller, cell).is_none(),
    ensures
        is_board(game.moved(cell, now).field),
        filled(game.moved(cell, now).field) == game.round + 1,
        game.apply_move(caller, cell, now).is_ok() ==> game.apply_move(
            caller,
            cell,
            now,
        ).unwrap().game.wf(),
{
    lemma_filled_update(game.field, cell as int, game.due_mark());
}

} // verus!
