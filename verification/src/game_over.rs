//! When a match ends, and who has won it.

use crate::events::GameOver;
use crate::state::{GameModel, GameState};
use vstd::prelude::*;

verus! {

/// The balance that ends the match.
pub const WINNING_BALANCE: i32 = 50000;

/// The turn in which the match ends at the latest.
pub const LAST_TURN: usize = 20;

/// Whether a player has nothing left.
pub open spec fn someone_broke(bank: Seq<i32>) -> bool {
    exists|i: int| 0 <= i < bank.len() && #[trigger] bank[i] <= 0
}

/// Whether a player has reached the winning balance.
pub open spec fn someone_rich(bank: Seq<i32>) -> bool {
    exists|i: int| 0 <= i < bank.len() && #[trigger] bank[i] >= WINNING_BALANCE
}

/// A match is over when one of two players has nothing left, when a player
/// has reached the winning balance, or when the last turn has come.
pub open spec fn is_over(m: GameModel) -> bool {
    ||| m.num_players == 2 && someone_broke(m.bank)
    ||| someone_rich(m.bank)
    ||| m.turn_number >= LAST_TURN
}

/// Whether `player` leads: nobody has more, and nobody before `player` has
/// as much.
pub open spec fn leads(bank: Seq<i32>, player: int) -> bool {
    &&& 1 <= player <= bank.len()
    &&& forall|i: int| 0 <= i < bank.len() ==> #[trigger] bank[i] <= bank[player - 1]
    &&& forall|i: int| 0 <= i < player - 1 ==> #[trigger] bank[i] < bank[player - 1]
}

/// Only one player leads.
pub proof fn lemma_one_leader(bank: Seq<i32>, a: int, b: int)
    requires
        leads(bank, a),
        leads(bank, b),
    ensures
        a == b,
{
    if a < b {
        assert(bank[a - 1] < bank[b - 1]);
    }
    if b < a {
        assert(bank[b - 1] < bank[a - 1]);
    }
}

/// After a phase advance was asked for (`advance_requests` times in this
/// tick), tells whether the match is over and who has won: the player who
/// leads.
pub fn check_game_over_conditions(advance_requests: usize, game_state: &GameState) -> (over:
    Option<GameOver>)
    requires
        game_state.wf(),
    ensures
        over.is_some() == (advance_requests > 0 && is_over(game_state@)),
        over.is_some() ==> leads(game_state.bank@, over.unwrap().player_won as int),
{
    if advance_requests == 0 {
        return None;
    }
    let mut lowest: i32 = game_state.bank[0];
    let mut highest: i32 = game_state.bank[0];
    let mut leader: usize = 0;
    let mut i: usize = 1;
    while i < game_state.bank.len()
        invariant
            1 <= i <= game_state.bank@.len(),
            leader < i,
            highest == game_state.bank@[leader as int],
            forall|k: int| 0 <= k < i ==> #[trigger] game_state.bank@[k] <= highest,
            forall|k: int| 0 <= k < leader ==> #[trigger] game_state.bank@[k] < highest,
            forall|k: int| 0 <= k < i ==> lowest <= #[trigger] game_state.bank@[k],
            exists|k: int| 0 <= k < i && #[trigger] game_state.bank@[k] == lowest,
        decreases game_state.bank@.len() - i,
    {
        let balance = game_state.bank[i];
        if balance < lowest {
            lowest = balance;
        }
        if balance > highest {
            highest = balance;
            leader = i;
        }
        i += 1;
    }
    let total_players = game_state.num_players;
    let over = (total_players == 2 && lowest <= 0) || highest >= WINNING_BALANCE
        || game_state.turn_number >= LAST_TURN;
    proof {
        let bank = game_state.bank@;
        assert(leads(bank, leader + 1));
        let k = choose|k: int| 0 <= k < bank.len() && #[trigger] bank[k] == lowest;
        assert(lowest <= 0 ==> someone_broke(bank)) by {
            if lowest <= 0 {
                assert(bank[k] <= 0);
            }
        }
        assert(highest >= WINNING_BALANCE ==> someone_rich(bank)) by {
            if highest >= WINNING_BALANCE {
                assert(bank[leader as int] >= WINNING_BALANCE);
            }
        }
    }
    if over {
        Some(GameOver { player_won: leader + 1 })
    } else {
        None
    }
}

} // verus!
