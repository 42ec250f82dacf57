//! What the rules take from the table and what they ask of it: the pieces
//! as the rules see them, and the commands a step hands back.

use crate::cards::{CardType, ChipType};
use vstd::prelude::*;

verus! {

/// The area of a player in which produced tokens are put.
pub const PRODUCTION_AREA: usize = 1;

/// The area of a player from which tokens are sold.
pub const SALES_AREA: usize = 2;

/// The deck that played cards go back to.
pub const PLAY_DECK: usize = 1;

/// The deck that event cards are drawn from.
pub const EVENT_DECK: usize = 2;

/// The place on the table where a player's event card lies.
pub const EVENT_PLACE: usize = 6;

/// A token in an area of the table. `depth` is its place in the stack of
/// its area; the two stamps are the turns in which it was produced and in
/// which it was moved to the sales area (0: never moved).
#[derive(Clone, Copy, Debug, PartialEq, Eq, Structural)]
pub struct Token {
    pub entity: u64,
    pub depth: i64,
    pub chip_type: ChipType,
    pub marker: usize,
    pub player: usize,
    pub turn_activation_1: usize,
    pub turn_activation_2: usize,
}

/// A card that a player has put on the table.
#[derive(Clone, Copy, Debug, PartialEq, Eq, Structural)]
pub struct TableCard {
    pub entity: u64,
    pub card_type: CardType,
    pub player: usize,
}

/// A card that lies in the deck `marker`, `depth` deep.
#[derive(Clone, Copy, Debug, PartialEq, Eq, Structural)]
pub struct DeckCard {
    pub entity: u64,
    pub depth: i64,
    pub marker: usize,
}

/// An event card that is in force for `player`.
#[derive(Clone, Copy, Debug, PartialEq, Eq, Structural)]
pub struct ActiveEventCard {
    pub entity: u64,
    pub card_type: CardType,
    pub player: usize,
}

/// The request to move on to the next phase.
#[derive(Clone, Copy, Debug, PartialEq, Eq, Structural)]
pub struct AdvancePhase;

/// The acting player has changed to `player`.
#[derive(Clone, Copy, Debug, PartialEq, Eq, Structural)]
pub struct SwitchPlayer {
    pub player: usize,
}

/// A new token of kind `chip_type` is to be dropped into `area` of `player`.
#[derive(Clone, Copy, Debug, PartialEq, Eq, Structural)]
pub struct DropChip {
    pub chip_type: ChipType,
    pub area: usize,
    pub player: usize,
}

/// The token `entity` is to be moved into `area` of `player`.
#[derive(Clone, Copy, Debug, PartialEq, Eq, Structural)]
pub struct MoveChip {
    pub entity: u64,
    pub area: usize,
    pub player: usize,
}

/// The token `entity` is sold and leaves the table.
#[derive(Clone, Copy, Debug, PartialEq, Eq, Structural)]
pub struct DiscardChip {
    pub entity: u64,
}

/// The match has ended and `player_won` has won it.
#[derive(Clone, Copy, Debug, PartialEq, Eq, Structural)]
pub struct GameOver {
    pub player_won: usize,
}

/// What a step of the rules asks of the table, in the order in which it
/// asks.
#[derive(Clone, Copy, Debug, PartialEq, Eq, Structural)]
pub enum Command {
    /// Put the card back into the deck `deck_marker`.
    PlaceCardOffTable { card_entity: u64, deck_marker: usize },
    /// Put the card on the table of `player`, at place `marker`.
    PlaceCardOnTable { card_entity: u64, marker: usize, player: usize },
    /// Take the card out of its deck and put it in force for `player`.
    ActivateEventCard { card_entity: u64, player: usize },
    /// The card is in force no longer.
    DeactivateEventCard { card_entity: u64 },
    DropChip(DropChip),
    MoveChip(MoveChip),
    DiscardChip(DiscardChip),
    AdvancePhase(AdvancePhase),
    SwitchPlayer(SwitchPlayer),
    /// Straighten the hand of `player`.
    AlignCardsInHand { player: usize },
    /// Straighten the tokens of kind `chip_type` in area `marker` of `player`.
    AlignChipsOnTable { marker: usize, player: usize, chip_type: ChipType },
}

} // verus!
