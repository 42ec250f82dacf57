//! The card catalog and the two decks that are built from it.

use vstd::prelude::*;

verus! {

/// The kinds of card.
#[derive(Clone, Copy, Debug, PartialEq, Eq, Structural)]
pub enum CardType {
    Attack,
    BigDeal,
    Cocaine,
    Cannabis,
    Drought,
    Export,
    LocalMarket,
    Train,
    Truck,
}

impl Default for CardType {
    fn default() -> (card_type: CardType)
        ensures
            card_type == CardType::Attack,
    {
        CardType::Attack
    }
}

/// The commodity a token stands for.
#[derive(Clone, Copy, Debug, PartialEq, Eq, Structural)]
pub enum ChipType {
    Cocaine,
    Cannabis,
}

impl Default for ChipType {
    fn default() -> (chip_type: ChipType)
        ensures
            chip_type == ChipType::Cocaine,
    {
        ChipType::Cocaine
    }
}

/// A card of the catalog: its kind, its price and the name of its artwork.
#[derive(Clone, Debug)]
pub struct Kard {
    pub card_type: CardType,
    pub price: i32,
    pub filename: String,
}

impl Default for Kard {
    fn default() -> (card: Kard)
        ensures
            card.card_type == CardType::Attack,
            card.price == 0,
            card.filename@.len() == 0,
    {
        Kard { card_type: CardType::Attack, price: 0, filename: String::new() }
    }
}

/// What a card of each kind costs.
pub open spec fn catalog_price(card_type: CardType) -> i32 {
    match card_type {
        CardType::Attack => 300,
        CardType::BigDeal => 0,
        CardType::Cocaine => 1000,
        CardType::Cannabis => 500,
        CardType::Drought => 0,
        CardType::Export => 0,
        CardType::LocalMarket => 0,
        CardType::Train => 600,
        CardType::Truck => 300,
    }
}

/// Where the artwork of each kind of card is kept.
pub open spec fn catalog_art(card_type: CardType) -> Seq<char> {
    match card_type {
        CardType::Attack => "tarjetas/attack.png"@,
        CardType::BigDeal => "tarjetas/big-deal.png"@,
        CardType::Cocaine => "tarjetas/cocaine.png"@,
        CardType::Cannabis => "tarjetas/marijuana.png"@,
        CardType::Drought => "tarjetas/drought.png"@,
        CardType::Export => "tarjetas/export.png"@,
        CardType::LocalMarket => "tarjetas/local-market.png"@,
        CardType::Train => "tarjetas/train.png"@,
        CardType::Truck => "tarjetas/truck.png"@,
    }
}

/// The cards one player adds to the play deck, in deck order.
pub open spec fn play_hand() -> Seq<CardType> {
    seq![
        CardType::Cocaine,
        CardType::Cocaine,
        CardType::Cannabis,
        CardType::Cannabis,
        CardType::Truck,
        CardType::Truck,
        CardType::Train,
        CardType::LocalMarket,
        CardType::LocalMarket,
        CardType::Export,
        CardType::Attack,
    ]
}

/// The cards one player adds to the event deck, in deck order.
pub open spec fn event_hand() -> Seq<CardType> {
    seq![CardType::Drought, CardType::BigDeal]
}

/// Whether `deck` is `hand` dealt `num_players` times over: each card is
/// the catalog's card of the kind that `hand` has at its place within the
/// player's share.
pub open spec fn deck_repeats(deck: Seq<Kard>, hand: Seq<CardType>, num_players: nat) -> bool {
    &&& deck.len() == hand.len() * num_players
    &&& forall|i: int|
        0 <= i < deck.len() ==> (#[trigger] deck[i]).is_catalog_card(hand[i % (hand.len() as int)])
}

impl Kard {
    /// Whether the card is the catalog's card of kind `card_type`.
    pub open spec fn is_catalog_card(self, card_type: CardType) -> bool {
        &&& self.card_type == card_type
        &&& self.price == catalog_price(card_type)
        &&& self.filename@ == catalog_art(card_type)
    }

    /// The catalog's card of kind `card_type`.
    pub fn of_kind(card_type: CardType) -> (card: Kard)
        ensures
            card.is_catalog_card(card_type),
    {
        match card_type {
            CardType::Attack => Kard {
                card_type,
                price: 300,
                filename: "tarjetas/attack.png".to_string(),
            },
            CardType::BigDeal => Kard {
                card_type,
                price: 0,
                filename: "tarjetas/big-deal.png".to_string(),
            },
            CardType::Cocaine => Kard {
                card_type,
                price: 1000,
                filename: "tarjetas/cocaine.png".to_string(),
            },
            CardType::Cannabis => Kard {
                card_type,
                price: 500,
                filename: "tarjetas/marijuana.png".to_string(),
            },
            CardType::Drought => Kard {
                card_type,
                price: 0,
                filename: "tarjetas/drought.png".to_string(),
            },
            CardType::Export => Kard {
                card_type,
                price: 0,
                filename: "tarjetas/export.png".to_string(),
            },
            CardType::LocalMarket => Kard {
                card_type,
                price: 0,
                filename: "tarjetas/local-market.png".to_string(),
            },
            CardType::Train => Kard {
                card_type,
                price: 600,
                filename: "tarjetas/train.png".to_string(),
            },
            CardType::Truck => Kard {
                card_type,
                price: 300,
                filename: "tarjetas/truck.png".to_string(),
            },
        }
    }

    /// The name of the card's artwork.
    pub fn filename(&self) -> (name: String)
        ensures
            name@ == self.filename@,
    {
        self.filename.clone()
    }
}

/// The play deck for `num_players` players: per player two Cocaine, two
/// Cannabis, two Truck, one Train, two LocalMarket, one Export and one
/// Attack card, in that order. Shuffling is left to the caller.
pub fn load_playing_deck(num_players: usize) -> (deck: Vec<Kard>)
    ensures
        deck@.len() == 11 * num_players,
        deck_repeats(deck@, play_hand(), num_players as nat),
{
    let mut deck: Vec<Kard> = Vec::new();
    let mut p: usize = 0;
    while p < num_players
        invariant
            p <= num_players,
            deck_repeats(deck@, play_hand(), p as nat),
        decreases num_players - p,
    {
        let ghost before = deck@;
        deck.push(Kard::of_kind(CardType::Cocaine));
        deck.push(Kard::of_kind(CardType::Cocaine));
        deck.push(Kard::of_kind(CardType::Cannabis));
        deck.push(Kard::of_kind(CardType::Cannabis));
        deck.push(Kard::of_kind(CardType::Truck));
        deck.push(Kard::of_kind(CardType::Truck));
        deck.push(Kard::of_kind(CardType::Train));
        deck.push(Kard::of_kind(CardType::LocalMarket));
        deck.push(Kard::of_kind(CardType::LocalMarket));
        deck.push(Kard::of_kind(CardType::Export));
        deck.push(Kard::of_kind(CardType::Attack));
        p += 1;
        proof {
            assert(play_hand().len() == 11);
            assert forall|i: int| 0 <= i < deck@.len() implies (#[trigger] deck@[i]).is_catalog_card(
                play_hand()[i % 11],
            ) by {
                if i < before.len() {
                    assert(deck@[i] == before[i]);
                } else {
                    let k = i - before.len();
                    assert(i == 11 * (p - 1) + k);
                    assert(i % 11 == k);
                }
            }
        }
    }
    deck
}

/// The event deck for `num_players` players: per player one Drought and
/// one BigDeal card, in that order.
pub fn load_event_deck(num_players: usize) -> (deck: Vec<Kard>)
    ensures
        deck@.len() == 2 * num_players,
        deck_repeats(deck@, event_hand(), num_players as nat),
{
    let mut deck: Vec<Kard> = Vec::new();
    let mut p: usize = 0;
    while p < num_players
        invariant
            p <= num_players,
            deck_repeats(deck@, event_hand(), p as nat),
        decreases num_players - p,
    {
        let ghost before = deck@;
        deck.push(Kard::of_kind(CardType::Drought));
        deck.push(Kard::of_kind(CardType::BigDeal));
        p += 1;
        proof {
            assert(event_hand().len() == 2);
            assert forall|i: int| 0 <= i < deck@.len() implies (#[trigger] deck@[i]).is_catalog_card(
                event_hand()[i % 2],
            ) by {
                if i < before.len() {
                    assert(deck@[i] == before[i]);
                } else {
                    let k = i - before.len();
                    assert(i == 2 * (p - 1) + k);
                    assert(i % 2 == k);
                }
            }
        }
    }
    deck
}

} // verus!
