//! Properties of the engine that hold for every input.
//!
//! Each is stated over the functions on [`GameView`] and [`ContractView`]
//! that the contracts of the operations are stated over, so what is proved
//! here holds of every call of those operations.
use crate::board::{
    filled, has_win, is_mark, lemma_empty_cell_blocks_line, lemma_filled_all,
    lemma_filled_update, lemma_new_win_is_movers, lemma_unfilled_has_no_win, line, line_holds, line_won, CELLS, EMPTY,
    LINES, MARK_FIRST, MARK_SECOND,
};
use crate::contract::{ContractView, GameId};
use crate::error::Error;
use crate::escrow::{
    spec_draw_refund, spec_fee, spec_winner_payout, Balance, TransferView,
};
use crate::game::{lemma_move_keeps_wf, GameState, GameView};
use vstd::prelude::*;

verus! {

/// On a draw nothing is lost but the fee: the fee on a stake and the refund
/// of it make up the stake.
pub proof fn law_draw_conserves_funds(stake: nat)
    ensures
        spec_fee(stake) + spec_draw_refund(stake) == stake,
{
}

/// On a win nothing is lost but the fees: the winner's payout and the fees
/// on both stakes make up the two stakes.
pub proof fn law_win_conserves_funds(stake: nat)
    ensures
        spec_winner_payout(stake) + 2 * spec_fee(stake) == 2 * stake,
{
}

/// Every transition of a match keeps what holds of every match.
pub proof fn law_transitions_keep_wf(
    game: GameView,
    caller: Seq<char>,
    paid: Balance,
    cell: usize,
    now: u64,
)
    requires
        game.wf(),
    ensures
        game.join(caller, paid).is_ok() ==> game.join(caller, paid).unwrap().game.wf(),
        game.apply_move(caller, cell, now).is_ok() ==> game.apply_move(
            caller,
            cell,
            now,
        ).unwrap().game.wf(),
        game.claim_timeout(caller, now).is_ok() ==> game.claim_timeout(
            caller,
            now,
        ).unwrap().game.wf(),
        game.cancel(caller).is_ok() ==> game.cancel(caller).unwrap().game.wf(),
{
    if game.join(caller, paid).is_ok() {
        lemma_unfilled_has_no_win(game.field);
    }
    if game.apply_move(caller, cell, now).is_ok() {
        lemma_move_keeps_wf(game, caller, cell, now);
    }
}

/// Nothing changes a match that has ended: every transition is refused.
pub proof fn law_ended_is_final(
    game: GameView,
    caller: Seq<char>,
    paid: Balance,
    cell: usize,
    now: u64,
)
    requires
        game.game_state == GameState::GameEnded,
    ensures
        game.join(caller, paid) == Err::<crate::game::Step, Error>(Error::InvalidPhase),
        game.apply_move(caller, cell, now) == Err::<crate::game::Step, Error>(
            Error::InvalidPhase,
        ),
        game.claim_timeout(caller, now) == Err::<crate::game::Step, Error>(Error::InvalidPhase),
        game.cancel(caller) == Err::<crate::game::Step, Error>(Error::InvalidPhase),
{
}

/// An accepted move counts one move more and fills exactly one cell: the
/// cell it names was empty and now holds a mark, and every other cell is as
/// it was.
pub proof fn law_move_fills_one_cell(game: GameView, caller: Seq<char>, cell: usize, now: u64)
    requires
        game.wf(),
        game.apply_move(caller, cell, now).is_ok(),
    ensures
        ({
            let after = game.apply_move(caller, cell, now).unwrap().game;
            &&& after.round == game.round + 1
            &&& filled(after.field) == filled(game.field) + 1
            &&& cell < CELLS
            &&& game.field[cell as int] == EMPTY
            &&& is_mark(after.field[cell as int])
            &&& after.field.len() == game.field.len()
            &&& forall|i: int|
                0 <= i < CELLS && i != cell ==> after.field[i] == #[trigger] game.field[i]
        }),
{
    lemma_filled_update(game.field, cell as int, game.due_mark());
}

/// Between two participants the turns alternate: two accepted moves in a
/// row in one match are not made by the same identity.
///
/// This is said of a match whose creator did not join it themselves; in one
/// that they did join, every move is theirs.
pub proof fn law_turns_alternate(
    game: GameView,
    first: Seq<char>,
    first_cell: usize,
    first_time: u64,
    second: Seq<char>,
    second_cell: usize,
    second_time: u64,
)
    requires
        game.wf(),
        game.player2 != Some(game.player1),
        game.apply_move(first, first_cell, first_time).is_ok(),
        game.apply_move(first, first_cell, first_time).unwrap().game.apply_move(
            second,
            second_cell,
            second_time,
        ).is_ok(),
    ensures
        first != second,
{
}

/// Win detection is sound: a move that completes any of the eight lines
/// ends the match, and the winner is the owner of the mark in that line, who
/// is the mover. They are paid the winner's payout.
///
/// This is said of a stake whose payout fits in a [`Balance`]; with a larger
/// one the move is refused.
pub proof fn law_completed_line_wins(
    game: GameView,
    caller: Seq<char>,
    cell: usize,
    now: u64,
    l: int,
    mark: u8,
)
    requires
        game.wf(),
        game.move_fault(caller, cell).is_none(),
        spec_winner_payout(game.deposit as nat) <= Balance::MAX,
        0 <= l < LINES,
        is_mark(mark),
        line_holds(game.moved(cell, now).field, l, mark),
    ensures
        ({
            let done = game.apply_move(caller, cell, now);
            &&& done.is_ok()
            &&& done.unwrap().game.game_state == GameState::GameEnded
            &&& done.unwrap().game.winner == Some(caller)
            &&& mark == MARK_FIRST ==> caller == game.player1
            &&& mark == MARK_SECOND ==> Some(caller) == game.player2
            &&& done.unwrap().transfers == seq![
                TransferView { to: caller, amount: spec_winner_payout(game.deposit as nat) },
            ]
        }),
{
    let after = game.moved(cell, now).field;
    assert(line_won(after, l));
    lemma_new_win_is_movers(game.field, cell as int, game.due_mark(), l);
}

/// Win detection is complete: a move ends the match with a winner only if
/// it completes a line with the mover's mark, and the winner is the mover.
pub proof fn law_winner_completed_a_line(game: GameView, caller: Seq<char>, cell: usize, now: u64)
    requires
        game.wf(),
        game.apply_move(caller, cell, now).is_ok(),
        game.apply_move(caller, cell, now).unwrap().game.winner.is_some(),
    ensures
        ({
            let after = game.apply_move(caller, cell, now).unwrap().game;
            &&& after.winner == Some(caller)
            &&& after.game_state == GameState::GameEnded
            &&& exists|l: int|
                0 <= l < LINES && #[trigger] line_holds(after.field, l, game.due_mark()) && (
                line(l).0 == cell || line(l).1 == cell || line(l).2 == cell)
        }),
{
    let after = game.apply_move(caller, cell, now).unwrap().game;
    assert(has_win(after.field));
    let l = choose|l: int| 0 <= l < LINES && #[trigger] line_won(after.field, l);
    lemma_new_win_is_movers(game.field, cell as int, game.due_mark(), l);
}

/// Empty cells never make a win: a line with an empty cell is not won,
/// whatever the rest of the grid holds.
pub proof fn law_empty_cells_never_win(board: Seq<u8>, l: int)
    requires
        0 <= l < LINES,
        board[line(l).0] == EMPTY || board[line(l).1] == EMPTY || board[line(l).2] == EMPTY,
    ensures
        !line_won(board, l),
{
    lemma_empty_cell_blocks_line(board, l);
}

/// A move draws the match if and only if it is the ninth and leaves no line
/// won. The grid is full then, and each participant is refunded their stake
/// less the fee, the creator first.
pub proof fn law_draw_is_full_grid_without_win(
    game: GameView,
    caller: Seq<char>,
    cell: usize,
    now: u64,
)
    requires
        game.wf(),
        game.apply_move(caller, cell, now).is_ok(),
    ensures
        ({
            let done = game.apply_move(caller, cell, now).unwrap();
            let drawn = done.game.round == 9 && !has_win(done.game.field);
            &&& drawn == (done.game.game_state == GameState::GameEnded
                && done.game.winner.is_none())
            &&& drawn ==> forall|i: int| 0 <= i < CELLS ==> #[trigger] done.game.field[i] != EMPTY
            &&& drawn ==> done.transfers == seq![
                TransferView {
                    to: game.player1,
                    amount: spec_draw_refund(game.deposit as nat),
                },
                TransferView {
                    to: game.player2.unwrap(),
                    amount: spec_draw_refund(game.deposit as nat),
                },
            ]
        }),
{
    let done = game.apply_move(caller, cell, now).unwrap();
    lemma_move_keeps_wf(game, caller, cell, now);
    if done.game.round == 9 {
        lemma_filled_all(done.game.field);
    }
}

/// An open match is joined once: a join with a deposit that covers the
/// stake succeeds, and whoever tries to join after it is refused, because the
/// match is no longer open.
pub proof fn law_second_join_is_refused(
    contract: ContractView,
    game_id: GameId,
    first: Seq<char>,
    paid: Balance,
    second: Seq<char>,
    paid_again: Balance,
)
    requires
        contract.is_open(game_id),
        paid >= contract.games[game_id].deposit,
    ensures
        contract.join_game(game_id, first, paid).is_ok(),
        contract.join_game(game_id, first, paid).unwrap().contract.join_game(
            game_id,
            second,
            paid_again,
        ) == Err::<crate::contract::Outcome, Error>(Error::InvalidPhase),
{
}

/// A match that its creator withdrew is gone: every later operation on its
/// identifier finds nothing.
pub proof fn law_withdrawn_match_is_gone(
    contract: ContractView,
    game_id: GameId,
    caller: Seq<char>,
    paid: Balance,
    cell: usize,
    now: u64,
)
    requires
        contract.wf(),
        contract.is_open(game_id),
        caller == contract.games[game_id].player1,
    ensures
        ({
            let done = contract.cancel_game(game_id, caller);
            let gone = Err::<crate::contract::Outcome, Error>(Error::NotFound { game_id });
            &&& done.is_ok()
            &&& done.unwrap().transfers == seq![
                TransferView { to: caller, amount: contract.games[game_id].deposit as nat },
            ]
            &&& !done.unwrap().contract.has(game_id)
            &&& done.unwrap().contract.cancel_game(game_id, caller) == gone
            &&& done.unwrap().contract.join_game(game_id, caller, paid) == gone
            &&& done.unwrap().contract.make_move(game_id, caller, cell, now) == gone
            &&& done.unwrap().contract.get_prize(game_id, caller, now) == gone
        }),
{
}

/// An operation on one match leaves every other match as it was, and the
/// next identifier too.
pub proof fn law_operations_touch_one_match(
    contract: ContractView,
    game_id: GameId,
    other: GameId,
    caller: Seq<char>,
    paid: Balance,
    cell: usize,
    now: u64,
)
    requires
        other != game_id,
    ensures
        ({
            let joined = contract.join_game(game_id, caller, paid);
            let moved = contract.make_move(game_id, caller, cell, now);
            let claimed = contract.get_prize(game_id, caller, now);
            let withdrawn = contract.cancel_game(game_id, caller);
            &&& joined.is_ok() ==> kept(contract, joined.unwrap().contract, other)
            &&& moved.is_ok() ==> kept(contract, moved.unwrap().contract, other)
            &&& claimed.is_ok() ==> kept(contract, claimed.unwrap().contract, other)
            &&& withdrawn.is_ok() ==> kept(contract, withdrawn.unwrap().contract, other)
        }),
{
}

/// Whether `after` holds under `game_id` what `before` holds there, and
/// hands out the same identifier next.
pub open spec fn kept(before: ContractView, after: ContractView, game_id: GameId) -> bool {
    &&& after.next_game_id == before.next_game_id
    &&& after.has(game_id) == before.has(game_id)
    &&& before.has(game_id) ==> after.games[game_id] == before.games[game_id]
}

} // verus!
