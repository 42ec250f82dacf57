//! The card resolver: what one tick makes of the acting player's cards, of
//! the event cards and of the tokens on the table.

use crate::cards::{CardType, ChipType};
use crate::events::{
    ActiveEventCard, AdvancePhase, Command, DeckCard, DiscardChip, DropChip, MoveChip, TableCard,
    Token, EVENT_DECK, EVENT_PLACE, PLAY_DECK, PRODUCTION_AREA, SALES_AREA,
};
use crate::queue::{handled, handling_order, handling_queue};
use crate::state::{
    distinct_effects, lemma_refresh_replaces, on_player, Effect, EffectType, GameModel, GameState,
    TurnPhase,
};
use vstd::prelude::*;

verus! {

/// The tokens a production card yields when nothing holds the player back.
pub const PRODUCTION_POWER: usize = 5;

/// The turns an attack lasts.
pub const ATTACK_DURATION: usize = 2;

/// The turns a drought lasts.
pub const DROUGHT_DURATION: usize = 3;

/// The tokens a production card yields for a player with that many
/// effects: one less for each, and never less than none.
pub open spec fn production_output(effects_on_player: nat) -> nat {
    if effects_on_player >= PRODUCTION_POWER {
        0
    } else {
        (PRODUCTION_POWER - effects_on_player) as nat
    }
}

/// The player an attack of `player` falls on: the other of two players,
/// and the first player for every attacker beyond the second.
pub open spec fn opponent_of(player: usize) -> usize {
    if player == 1 {
        2
    } else {
        1
    }
}

/// The phase in which a card of kind `card_type` on the table is resolved,
/// if there is one.
pub open spec fn resolved_in(card_type: CardType) -> Option<TurnPhase> {
    match card_type {
        CardType::Cocaine | CardType::Cannabis => Some(TurnPhase::ApplyProductionCards),
        CardType::Truck | CardType::Train => Some(TurnPhase::ApplyTransportationCards),
        CardType::Export | CardType::LocalMarket => Some(TurnPhase::ApplySalesCards),
        CardType::Attack => Some(TurnPhase::ApplyActionCards),
        CardType::BigDeal | CardType::Drought => None,
    }
}

/// What a transport or sales card is worth; each token it handles takes 2.
pub open spec fn card_value(card_type: CardType) -> nat {
    match card_type {
        CardType::Truck | CardType::LocalMarket => 20,
        CardType::Train | CardType::Export => 50,
        _ => 0,
    }
}

/// What the sale of one token pays, by its commodity.
pub open spec fn sale_credit(chip_type: ChipType) -> int {
    match chip_type {
        ChipType::Cocaine => 800,
        ChipType::Cannabis => 400,
    }
}

/// What the sale of all of `tokens` pays.
pub open spec fn proceeds(tokens: Seq<Token>) -> int
    decreases tokens.len(),
{
    if tokens.len() == 0 {
        0
    } else {
        proceeds(tokens.drop_last()) + sale_credit(tokens.last().chip_type)
    }
}

/// The commodity that a production card yields.
pub open spec fn commodity(card_type: CardType) -> ChipType {
    match card_type {
        CardType::Cannabis => ChipType::Cannabis,
        _ => ChipType::Cocaine,
    }
}

/// `n` commands to drop a token of kind `chip_type` into the production
/// area of `player`.
pub open spec fn drops(n: nat, chip_type: ChipType, player: usize) -> Seq<Command> {
    Seq::new(
        n,
        |i: int| Command::DropChip(DropChip { chip_type, area: PRODUCTION_AREA, player }),
    )
}

/// For each token of `tokens`, in order, the command to move it into the
/// sales area of `player`.
pub open spec fn moves(tokens: Seq<Token>, player: usize) -> Seq<Command> {
    Seq::new(
        tokens.len(),
        |i: int| Command::MoveChip(MoveChip { entity: tokens[i].entity, area: SALES_AREA, player }),
    )
}

/// For each token of `tokens`, in order, the command to discard it.
pub open spec fn discards(tokens: Seq<Token>) -> Seq<Command> {
    Seq::new(tokens.len(), |i: int| Command::DiscardChip(DiscardChip { entity: tokens[i].entity }))
}

/// The tokens that a card worth `value` handles out of `queue`: as many
/// from its front as the worth pays for.
pub open spec fn served(value: nat, queue: Seq<Token>) -> Seq<Token> {
    queue.take(handled(value, queue.len()) as int)
}

/// The command that takes a resolved card from the table.
pub open spec fn put_back(card: TableCard) -> Command {
    Command::PlaceCardOffTable { card_entity: card.entity, deck_marker: PLAY_DECK }
}

/// What the resolution of one card on the table asks for. Only a card of
/// the acting player whose kind belongs to the current phase is resolved;
/// it leaves the table whatever it achieved.
pub open spec fn card_commands(card: TableCard, m: GameModel, chips: Seq<Token>) -> Seq<Command> {
    let player = m.player as usize;
    let turn = m.turn_number as usize;
    if card.player != player || resolved_in(card.card_type) != Some(m.phase) {
        Seq::empty()
    } else {
        match m.phase {
            TurnPhase::ApplyProductionCards => drops(
                production_output(m.effects.filter(on_player(player)).len()),
                commodity(card.card_type),
                player,
            ).push(put_back(card)),
            TurnPhase::ApplyTransportationCards => {
                let queue = handling_queue(chips, false, player, turn);
                moves(served(card_value(card.card_type), queue), player).push(put_back(card))
            },
            TurnPhase::ApplySalesCards => {
                discards(sold(card, m, chips)).push(put_back(card))
            },
            _ => seq![put_back(card)],
        }
    }
}

/// Whether `card` is an Attack card that the acting player resolves now.
pub open spec fn attacks(card: TableCard, m: GameModel) -> bool {
    m.phase == TurnPhase::ApplyActionCards && card.player == m.player && card.card_type
        == CardType::Attack
}

/// Whether `card` is a sales card that the acting player resolves now.
pub open spec fn sells(card: TableCard, m: GameModel) -> bool {
    m.phase == TurnPhase::ApplySalesCards && card.player == m.player && resolved_in(card.card_type)
        == Some(TurnPhase::ApplySalesCards)
}

/// The tokens that the sales card `card` sells, in the order of their sale.
pub open spec fn sold(card: TableCard, m: GameModel, chips: Seq<Token>) -> Seq<Token> {
    served(
        card_value(card.card_type),
        handling_queue(chips, true, m.player as usize, m.turn_number as usize),
    )
}

/// The state after one card on the table was resolved: an Attack card puts
/// an attack on the opponent, and a sales card credits the acting player
/// with what each token it sells pays. No other card changes the state.
pub open spec fn card_state(m: GameModel, card: TableCard, chips: Seq<Token>) -> GameModel {
    if attacks(card, m) {
        m.with_effect(EffectType::Attack, ATTACK_DURATION, opponent_of(m.player as usize))
    } else if sells(card, m) {
        m.credited(m.player as usize, proceeds(sold(card, m, chips)))
    } else {
        m
    }
}

/// What the sales cards of `cards` pay the acting player together.
pub open spec fn table_proceeds(m: GameModel, cards: Seq<TableCard>, chips: Seq<Token>) -> int
    decreases cards.len(),
{
    if cards.len() == 0 {
        0
    } else {
        table_proceeds(m, cards.drop_last(), chips) + if sells(cards.last(), m) {
            proceeds(sold(cards.last(), m, chips))
        } else {
            0
        }
    }
}

/// The balance of the acting player bears what the sales cards pay.
pub open spec fn sales_fit(m: GameModel, cards: Seq<TableCard>, chips: Seq<Token>) -> bool {
    m.phase == TurnPhase::ApplySalesCards ==> m.bank[m.player - 1] + table_proceeds(
        m,
        cards,
        chips,
    ) <= i32::MAX
}

/// Each token pays 400 at least and 800 at most.
pub proof fn lemma_proceeds_bounds(tokens: Seq<Token>)
    ensures
        400 * tokens.len() <= proceeds(tokens) <= 800 * tokens.len(),
    decreases tokens.len(),
{
    if tokens.len() > 0 {
        lemma_proceeds_bounds(tokens.drop_last());
    }
}

/// The first cards of the table pay no more than all of them, and never
/// less than nothing.
pub proof fn lemma_table_proceeds_prefix(
    m: GameModel,
    cards: Seq<TableCard>,
    chips: Seq<Token>,
    i: int,
)
    requires
        0 <= i <= cards.len(),
    ensures
        0 <= table_proceeds(m, cards.take(i), chips) <= table_proceeds(m, cards, chips),
    decreases cards.len(),
{
    if i == cards.len() {
        assert(cards.take(i) =~= cards);
        if cards.len() > 0 {
            lemma_table_proceeds_prefix(m, cards.drop_last(), chips, i - 1);
            assert(cards.drop_last().take(i - 1) =~= cards.drop_last());
            lemma_proceeds_bounds(sold(cards.last(), m, chips));
        }
    } else {
        lemma_table_proceeds_prefix(m, cards.drop_last(), chips, i);
        assert(cards.drop_last().take(i) =~= cards.take(i));
        lemma_proceeds_bounds(sold(cards.last(), m, chips));
    }
}

/// Whether the acting player resolves an Attack card of `cards`.
pub open spec fn plays_attack(m: GameModel, cards: Seq<TableCard>) -> bool {
    exists|i: int| 0 <= i < cards.len() && attacks(#[trigger] cards[i], m)
}

/// The state after the cards on the table were resolved: however many
/// Attack cards the acting player has played, the opponent has one attack,
/// from the current turn; in the sales phase the acting player is credited
/// with what the sales cards pay together; else the state is as it was.
pub open spec fn table_state(m: GameModel, cards: Seq<TableCard>, chips: Seq<Token>) -> GameModel {
    if plays_attack(m, cards) {
        m.with_effect(EffectType::Attack, ATTACK_DURATION, opponent_of(m.player as usize))
    } else if m.phase == TurnPhase::ApplySalesCards {
        m.credited(m.player as usize, table_proceeds(m, cards, chips))
    } else {
        m
    }
}

/// What the resolution of the cards on the table asks for, card by card.
/// Each card is judged by the state in which the tick began: no card reads
/// what another card of its phase changes.
pub open spec fn table_commands(m: GameModel, cards: Seq<TableCard>, chips: Seq<Token>) -> Seq<
    Command,
>
    decreases cards.len(),
{
    if cards.len() == 0 {
        Seq::empty()
    } else {
        table_commands(m, cards.drop_last(), chips) + card_commands(cards.last(), m, chips)
    }
}

/// Whether an event card is in force for `player`.
pub open spec fn holds_event(events: Seq<ActiveEventCard>, player: usize) -> bool {
    exists|i: int| 0 <= i < events.len() && (#[trigger] events[i]).player == player
}

/// Whether a card is left in the event deck.
pub open spec fn event_deck_left(deck: Seq<DeckCard>) -> bool {
    exists|i: int| 0 <= i < deck.len() && (#[trigger] deck[i]).marker == EVENT_DECK
}

/// Whether `deck[i]` is the card to draw from the event deck: the deepest
/// one, and of several equally deep ones the first.
pub open spec fn is_top_of_event_deck(deck: Seq<DeckCard>, i: int) -> bool {
    &&& 0 <= i < deck.len()
    &&& deck[i].marker == EVENT_DECK
    &&& forall|j: int|
        0 <= j < deck.len() && (#[trigger] deck[j]).marker == EVENT_DECK ==> deck[j].depth
            < deck[i].depth || (deck[j].depth == deck[i].depth && i <= j)
}

/// Only one card is the one to draw.
pub proof fn lemma_one_top_of_event_deck(deck: Seq<DeckCard>, i: int, j: int)
    requires
        is_top_of_event_deck(deck, i),
        is_top_of_event_deck(deck, j),
    ensures
        i == j,
{
    assert(deck[i].marker == EVENT_DECK && deck[j].marker == EVENT_DECK);
}

/// The place in `deck` of the card to draw from the event deck.
pub open spec fn top_of_event_deck(deck: Seq<DeckCard>) -> int {
    choose|i: int| is_top_of_event_deck(deck, i)
}

/// For each event card, in order, the commands that end it and put it back
/// into the event deck.
pub open spec fn returned(events: Seq<ActiveEventCard>) -> Seq<Command>
    decreases events.len(),
{
    if events.len() == 0 {
        Seq::empty()
    } else {
        returned(events.drop_last()).push(
            Command::DeactivateEventCard { card_entity: events.last().entity },
        ).push(
            Command::PlaceCardOffTable {
                card_entity: events.last().entity,
                deck_marker: EVENT_DECK,
            },
        )
    }
}

/// Whether `event` is a Drought card in force for the acting player.
pub open spec fn dries(event: ActiveEventCard, m: GameModel) -> bool {
    event.player == m.player && event.card_type == CardType::Drought
}

/// Whether a Drought card of `events` is in force for the acting player.
pub open spec fn suffers_drought(m: GameModel, events: Seq<ActiveEventCard>) -> bool {
    exists|i: int| 0 <= i < events.len() && dries(#[trigger] events[i], m)
}

/// The state after the event cards were applied: however many Drought
/// cards are in force for the acting player, the player has one drought,
/// from the current turn; without such a card the state is as it was.
pub open spec fn event_state(m: GameModel, events: Seq<ActiveEventCard>) -> GameModel {
    if suffers_drought(m, events) {
        m.with_effect(EffectType::Drought, DROUGHT_DURATION, m.player as usize)
    } else {
        m
    }
}

/// What the phase itself asks for, apart from the cards on the table: in
/// `DrawEventCard` a player without an event card draws the top of the
/// event deck; at the `End` of the last player every event card goes back.
pub open spec fn phase_commands(
    m: GameModel,
    events: Seq<ActiveEventCard>,
    deck: Seq<DeckCard>,
) -> Seq<Command> {
    let player = m.player as usize;
    match m.phase {
        TurnPhase::DrawEventCard => if holds_event(events, player) {
            Seq::empty()
        } else {
            let entity = deck[top_of_event_deck(deck)].entity;
            seq![
                Command::ActivateEventCard { card_entity: entity, player },
                Command::PlaceCardOnTable { card_entity: entity, marker: EVENT_PLACE, player },
            ]
        },
        TurnPhase::End => if m.last_player_acts() {
            returned(events)
        } else {
            Seq::empty()
        },
        _ => Seq::empty(),
    }
}

/// The state after the phase's own work: `ApplyEventCard` applies the
/// event cards and then advances by itself.
pub open spec fn phase_state(m: GameModel, events: Seq<ActiveEventCard>) -> GameModel {
    if m.phase == TurnPhase::ApplyEventCard {
        event_state(m, events).advance()
    } else {
        m
    }
}

/// The phases whose work is done within the tick, so that the next phase
/// is asked for. `Prepare` and `PlaceCardsOnTable` wait for the players.
pub open spec fn asks_to_advance(phase: TurnPhase) -> bool {
    phase != TurnPhase::Prepare && phase != TurnPhase::PlaceCardsOnTable
}

/// The state after one tick.
pub open spec fn tick_state(
    m: GameModel,
    cards: Seq<TableCard>,
    chips: Seq<Token>,
    events: Seq<ActiveEventCard>,
) -> GameModel {
    phase_state(table_state(m, cards, chips), events)
}

/// What one tick asks for: the cards on the table, then the phase's own
/// work, then the request for the next phase unless the phase waits for
/// the players.
pub open spec fn tick_commands(
    m: GameModel,
    cards: Seq<TableCard>,
    deck: Seq<DeckCard>,
    chips: Seq<Token>,
    events: Seq<ActiveEventCard>,
) -> Seq<Command> {
    let work = table_commands(m, cards, chips) + phase_commands(m, events, deck);
    if asks_to_advance(m.phase) {
        work.push(Command::AdvancePhase(AdvancePhase))
    } else {
        work
    }
}

/// A player who has to draw an event card finds one in the event deck.
pub open spec fn can_draw(m: GameModel, deck: Seq<DeckCard>, events: Seq<ActiveEventCard>) -> bool {
    m.phase == TurnPhase::DrawEventCard && !holds_event(events, m.player as usize)
        ==> event_deck_left(deck)
}

/// The tokens a production card yields for a player under
/// `effects_on_player` effects.
pub fn production_yield(effects_on_player: usize) -> (tokens: usize)
    ensures
        tokens == production_output(effects_on_player as nat),
{
    if effects_on_player >= PRODUCTION_POWER {
        0
    } else {
        PRODUCTION_POWER - effects_on_player
    }
}

/// The player an attack of `player` falls on.
pub fn opponent(player: usize) -> (target: usize)
    ensures
        target == opponent_of(player),
{
    if player == 1 {
        2
    } else {
        1
    }
}

/// What the sale of one token pays, by its commodity.
pub fn credit_per_sale(chip_type: ChipType) -> (credit: i32)
    ensures
        credit == sale_credit(chip_type),
{
    match chip_type {
        ChipType::Cocaine => 800,
        ChipType::Cannabis => 400,
    }
}

/// What a transport or sales card is worth.
pub fn worth_of(card_type: CardType) -> (worth: i32)
    ensures
        worth == card_value(card_type),
{
    match card_type {
        CardType::Truck | CardType::LocalMarket => 20,
        CardType::Train | CardType::Export => 50,
        _ => 0,
    }
}

/// Sells from the front of `order` what a card worth `worth` pays for:
/// appends a discard for each token sold and tells what the sale pays.
pub fn sell_tokens(order: &Vec<Token>, worth: i32, commands: &mut Vec<Command>) -> (total: i32)
    requires
        0 <= worth <= 50,
    ensures
        final(commands)@ == old(commands)@ + discards(served(worth as nat, order@)),
        total == proceeds(served(worth as nat, order@)),
        0 <= total <= 20000,
{
    let ghost asked = commands@;
    let mut left: i32 = worth;
    let mut total: i32 = 0;
    let mut i: usize = 0;
    assert(commands@ =~= asked + discards(order@.take(0)));
    while i < order.len() && left > 0
        invariant
            i <= order@.len(),
            0 <= worth <= 50,
            left == worth - 2 * i,
            i <= (worth + 1) / 2,
            total == proceeds(order@.take(i as int)),
            0 <= total <= 800 * i,
            commands@ == asked + discards(order@.take(i as int)),
        decreases order@.len() - i,
    {
        let token = order[i];
        proof {
            assert(order@.take(i + 1).drop_last() =~= order@.take(i as int));
        }
        commands.push(Command::DiscardChip(DiscardChip { entity: token.entity }));
        left -= 2;
        total += credit_per_sale(token.chip_type);
        i += 1;
        assert(commands@ =~= asked + discards(order@.take(i as int)));
    }
    assert(i == handled(worth as nat, order@.len()));
    total
}

/// Whether the balance of the acting player bears what the sales cards on
/// the table pay.
pub fn sales_fit_bank(state: &GameState, cards: &Vec<TableCard>, chips: &Vec<Token>) -> (fits: bool)
    requires
        state.wf(),
    ensures
        fits == sales_fit(state@, cards@, chips@),
{
    let ghost m = state@;
    match state.phase {
        TurnPhase::ApplySalesCards => {},
        _ => {
            return true;
        },
    }
    let player = state.player;
    let order = handling_order(chips, true, player, state.turn_number);
    let mut room: i64 = i32::MAX as i64 - state.get_balance(player) as i64;
    let mut i: usize = 0;
    while i < cards.len()
        invariant
            i <= cards@.len(),
            m == state@,
            m.phase == TurnPhase::ApplySalesCards,
            player == m.player,
            order@ == handling_queue(chips@, true, player, state.turn_number),
            room == i32::MAX - m.bank[player - 1] - table_proceeds(m, cards@.take(i as int), chips@),
            0 <= room <= 2 * i32::MAX + 1,
        decreases cards@.len() - i,
    {
        let card = cards[i];
        proof {
            assert(cards@.take(i + 1).drop_last() =~= cards@.take(i as int));
            lemma_table_proceeds_prefix(m, cards@, chips@, i + 1);
            lemma_table_proceeds_prefix(m, cards@, chips@, i as int);
        }
        if card.player == player {
            match card.card_type {
                CardType::Export | CardType::LocalMarket => {
                    let mut unused: Vec<Command> = Vec::new();
                    let total = sell_tokens(&order, worth_of(card.card_type), &mut unused);
                    if total as i64 > room {
                        return false;
                    }
                    room -= total as i64;
                },
                _ => {},
            }
        }
        i += 1;
    }
    assert(cards@.take(i as int) =~= cards@);
    true
}

/// Whether an event card is in force for `player`.
pub fn has_event_card(events: &Vec<ActiveEventCard>, player: usize) -> (found: bool)
    ensures
        found == holds_event(events@, player),
{
    let mut i: usize = 0;
    while i < events.len()
        invariant
            i <= events@.len(),
            forall|k: int| 0 <= k < i ==> (#[trigger] events@[k]).player != player,
        decreases events@.len() - i,
    {
        if events[i].player == player {
            return true;
        }
        i += 1;
    }
    false
}

/// The place of the card to draw from the event deck: the deepest card of
/// that deck, the first of several equally deep ones; `None` exactly if the
/// event deck is empty.
pub fn top_event_card(deck: &Vec<DeckCard>) -> (top: Option<usize>)
    ensures
        top.is_some() == event_deck_left(deck@),
        top.is_some() ==> is_top_of_event_deck(deck@, top.unwrap() as int) && top.unwrap()
            == top_of_event_deck(deck@),
{
    let mut top: Option<usize> = None;
    let mut i: usize = 0;
    while i < deck.len()
        invariant
            i <= deck@.len(),
            top.is_none() ==> forall|j: int| 0 <= j < i ==> (#[trigger] deck@[j]).marker != EVENT_DECK,
            top.is_some() ==> top.unwrap() < i && deck@[top.unwrap() as int].marker == EVENT_DECK,
            top.is_some() ==> forall|j: int|
                0 <= j < i && (#[trigger] deck@[j]).marker == EVENT_DECK ==> deck@[j].depth
                    < deck@[top.unwrap() as int].depth || (deck@[j].depth
                    == deck@[top.unwrap() as int].depth && top.unwrap() <= j),
        decreases deck@.len() - i,
    {
        if deck[i].marker == EVENT_DECK {
            let deeper = match top {
                Some(b) => deck[i].depth > deck[b].depth,
                None => true,
            };
            if deeper {
                top = Some(i);
            }
        }
        i += 1;
    }
    proof {
        if top.is_some() {
            let b = top.unwrap() as int;
            assert(is_top_of_event_deck(deck@, b));
            let c = top_of_event_deck(deck@);
            assert(is_top_of_event_deck(deck@, c));
            assert(deck@[c].marker == EVENT_DECK && deck@[b].marker == EVENT_DECK);
        }
    }
    top
}

/// Resolves one card on the table: appends what it asks for to `commands`
/// and applies what it does to the state.
pub fn resolve_card(
    state: &mut GameState,
    card: &TableCard,
    chips: &Vec<Token>,
    commands: &mut Vec<Command>,
)
    requires
        old(state).wf(),
        sells(*card, old(state)@) ==> old(state).bank@[old(state).player - 1] + proceeds(
            sold(*card, old(state)@, chips@),
        ) <= i32::MAX,
    ensures
        final(commands)@ == old(commands)@ + card_commands(*card, old(state)@, chips@),
        final(state)@ == card_state(old(state)@, *card, chips@),
        final(state).wf(),
        distinct_effects(old(state).effects@) ==> distinct_effects(final(state).effects@),
{
    let ghost asked = commands@;
    let ghost m = state@;
    let player = state.player;
    let back = Command::PlaceCardOffTable { card_entity: card.entity, deck_marker: PLAY_DECK };
    if card.player != player {
        assert(commands@ + Seq::<Command>::empty() =~= commands@);
        return ;
    }
    match state.phase {
        TurnPhase::ApplyProductionCards => match card.card_type {
            CardType::Cocaine | CardType::Cannabis => {
                let effects = state.get_effects(player);
                let tokens = production_yield(effects.len());
                let chip_type = match card.card_type {
                    CardType::Cannabis => ChipType::Cannabis,
                    _ => ChipType::Cocaine,
                };
                let mut i: usize = 0;
                while i < tokens
                    invariant
                        i <= tokens,
                        commands@ == asked + drops(i as nat, chip_type, player),
                    decreases tokens - i,
                {
                    commands.push(
                        Command::DropChip(DropChip { chip_type, area: PRODUCTION_AREA, player }),
                    );
                    i += 1;
                    assert(commands@ =~= asked + drops(i as nat, chip_type, player));
                }
                commands.push(back);
                assert(commands@ =~= asked + card_commands(*card, m, chips@));
            },
            _ => {
                assert(commands@ + Seq::<Command>::empty() =~= commands@);
            },
        },
        TurnPhase::ApplyTransportationCards => match card.card_type {
            CardType::Truck | CardType::Train => {
                let order = handling_order(chips, false, player, state.turn_number);
                let worth: i32 = match card.card_type {
                    CardType::Truck => 20,
                    _ => 50,
                };
                let mut left: i32 = worth;
                let mut i: usize = 0;
                while i < order.len() && left > 0
                    invariant
                        i <= order@.len(),
                        worth == 20 || worth == 50,
                        left == worth - 2 * i,
                        i <= (worth + 1) / 2,
                        commands@ == asked + moves(order@.take(i as int), player),
                    decreases order@.len() - i,
                {
                    commands.push(
                        Command::MoveChip(MoveChip { entity: order[i].entity, area: SALES_AREA, player }),
                    );
                    left -= 2;
                    i += 1;
                    assert(commands@ =~= asked + moves(order@.take(i as int), player));
                }
                assert(i == handled(card_value(card.card_type), order@.len()));
                commands.push(back);
                assert(commands@ =~= asked + card_commands(*card, m, chips@));
            },
            _ => {
                assert(commands@ + Seq::<Command>::empty() =~= commands@);
            },
        },
        TurnPhase::ApplySalesCards => match card.card_type {
            CardType::Export | CardType::LocalMarket => {
                let order = handling_order(chips, true, player, state.turn_number);
                let total = sell_tokens(&order, worth_of(card.card_type), commands);
                state.change_balance(player, total);
                commands.push(back);
                assert(commands@ =~= asked + card_commands(*card, m, chips@));
            },
            _ => {
                assert(commands@ + Seq::<Command>::empty() =~= commands@);
            },
        },
        TurnPhase::ApplyActionCards => match card.card_type {
            CardType::Attack => {
                state.add_effect(EffectType::Attack, ATTACK_DURATION, opponent(player));
                commands.push(back);
                assert(commands@ =~= asked + card_commands(*card, m, chips@));
            },
            _ => {
                assert(commands@ + Seq::<Command>::empty() =~= commands@);
            },
        },
        _ => {
            assert(commands@ + Seq::<Command>::empty() =~= commands@);
        },
    }
}

/// Does the phase's own work: appends what it asks for to `commands` and
/// applies what it does to the state.
pub fn resolve_phase(
    state: &mut GameState,
    cards_in_deck: &Vec<DeckCard>,
    event_cards_on_table: &Vec<ActiveEventCard>,
    commands: &mut Vec<Command>,
)
    requires
        old(state).wf(),
        can_draw(old(state)@, cards_in_deck@, event_cards_on_table@),
    ensures
        final(commands)@ == old(commands)@ + phase_commands(
            old(state)@,
            event_cards_on_table@,
            cards_in_deck@,
        ),
        final(state)@ == phase_state(old(state)@, event_cards_on_table@),
        final(state).wf(),
        distinct_effects(old(state).effects@) ==> distinct_effects(final(state).effects@),
{
    let ghost asked = commands@;
    let ghost m = state@;
    let ghost events = event_cards_on_table@;
    let player = state.player;
    match state.phase {
        TurnPhase::DrawEventCard => {
            if !has_event_card(event_cards_on_table, player) {
                match top_event_card(cards_in_deck) {
                    Some(top) => {
                        let entity = cards_in_deck[top].entity;
                        commands.push(Command::ActivateEventCard { card_entity: entity, player });
                        commands.push(
                            Command::PlaceCardOnTable {
                                card_entity: entity,
                                marker: EVENT_PLACE,
                                player,
                            },
                        );
                    },
                    None => {},
                }
            }
            assert(commands@ =~= asked + phase_commands(m, events, cards_in_deck@));
        },
        TurnPhase::End => {
            if state.player == state.num_players {
                let mut i: usize = 0;
                while i < event_cards_on_table.len()
                    invariant
                        i <= event_cards_on_table@.len(),
                        commands@ == asked + returned(event_cards_on_table@.take(i as int)),
                    decreases event_cards_on_table@.len() - i,
                {
                    let entity = event_cards_on_table[i].entity;
                    proof {
                        assert(event_cards_on_table@.take(i + 1).drop_last()
                            =~= event_cards_on_table@.take(i as int));
                    }
                    commands.push(Command::DeactivateEventCard { card_entity: entity });
                    commands.push(
                        Command::PlaceCardOffTable { card_entity: entity, deck_marker: EVENT_DECK },
                    );
                    i += 1;
                    assert(commands@ =~= asked + returned(event_cards_on_table@.take(i as int)));
                }
                assert(event_cards_on_table@.take(i as int) =~= events);
            } else {
                assert(commands@ + Seq::<Command>::empty() =~= commands@);
            }
        },
        TurnPhase::ApplyEventCard => {
            let mut i: usize = 0;
            while i < event_cards_on_table.len()
                invariant
                    i <= event_cards_on_table@.len(),
                    player == m.player,
                    state@ == event_state(m, event_cards_on_table@.take(i as int)),
                    state@.phase == m.phase,
                    distinct_effects(m.effects) ==> distinct_effects(state.effects@),
                decreases event_cards_on_table@.len() - i,
            {
                let event = event_cards_on_table[i];
                proof {
                    lemma_next_event(m, event_cards_on_table@, i as int);
                }
                if event.player == player {
                    match event.card_type {
                        CardType::Drought => {
                            state.add_effect(EffectType::Drought, DROUGHT_DURATION, player);
                        },
                        _ => {},
                    }
                }
                i += 1;
            }
            assert(event_cards_on_table@.take(i as int) =~= events);
            state.advance();
            assert(commands@ + Seq::<Command>::empty() =~= commands@);
        },
        _ => {
            assert(commands@ + Seq::<Command>::empty() =~= commands@);
        },
    }
}

/// One tick of the rules. Resolves the cards that the acting player has on
/// the table, in order, then does the phase's own work, and asks for the
/// next phase unless the phase waits for the players. The commands come
/// back in the order in which they were issued.
pub fn apply_card_effects(
    state: &mut GameState,
    cards_on_table: &Vec<TableCard>,
    cards_in_deck: &Vec<DeckCard>,
    chips_on_table: &Vec<Token>,
    event_cards_on_table: &Vec<ActiveEventCard>,
) -> (commands: Vec<Command>)
    requires
        old(state).wf(),
        can_draw(old(state)@, cards_in_deck@, event_cards_on_table@),
        sales_fit(old(state)@, cards_on_table@, chips_on_table@),
    ensures
        commands@ == tick_commands(
            old(state)@,
            cards_on_table@,
            cards_in_deck@,
            chips_on_table@,
            event_cards_on_table@,
        ),
        final(state)@ == tick_state(
            old(state)@,
            cards_on_table@,
            chips_on_table@,
            event_cards_on_table@,
        ),
        final(state).wf(),
        distinct_effects(old(state).effects@) ==> distinct_effects(final(state).effects@),
{
    let ghost m = state@;
    let mut commands: Vec<Command> = Vec::new();
    let mut i: usize = 0;
    proof {
        assert(m.credited(m.player as usize, 0).bank =~= m.bank);
    }
    while i < cards_on_table.len()
        invariant
            i <= cards_on_table@.len(),
            state.wf(),
            m.wf(),
            sales_fit(m, cards_on_table@, chips_on_table@),
            distinct_effects(m.effects) ==> distinct_effects(state.effects@),
            state@ == table_state(m, cards_on_table@.take(i as int), chips_on_table@),
            commands@ == table_commands(m, cards_on_table@.take(i as int), chips_on_table@),
        decreases cards_on_table@.len() - i,
    {
        proof {
            lemma_next_card(m, cards_on_table@, chips_on_table@, i as int);
        }
        resolve_card(state, &cards_on_table[i], chips_on_table, &mut commands);
        i += 1;
    }
    assert(cards_on_table@.take(i as int) =~= cards_on_table@);
    resolve_phase(state, cards_in_deck, event_cards_on_table, &mut commands);
    match state.phase {
        TurnPhase::Prepare | TurnPhase::PlaceCardsOnTable => {},
        _ => {
            commands.push(Command::AdvancePhase(AdvancePhase));
        },
    }
    commands
}

/// Resolving one more card leads from the state after the cards before it
/// to the state after the cards up to it, the card asks for what it would
/// have asked for in the state in which the tick began, and the balance
/// bears what it pays.
pub proof fn lemma_next_card(m: GameModel, cards: Seq<TableCard>, chips: Seq<Token>, i: int)
    requires
        0 <= i < cards.len(),
        m.wf(),
        sales_fit(m, cards, chips),
    ensures
        card_state(table_state(m, cards.take(i), chips), cards[i], chips) == table_state(
            m,
            cards.take(i + 1),
            chips,
        ),
        card_commands(cards[i], table_state(m, cards.take(i), chips), chips) == card_commands(
            cards[i],
            m,
            chips,
        ),
        table_commands(m, cards.take(i), chips) + card_commands(cards[i], m, chips)
            == table_commands(m, cards.take(i + 1), chips),
        sells(cards[i], m) ==> table_state(m, cards.take(i), chips).bank[m.player - 1] + proceeds(
            sold(cards[i], m, chips),
        ) <= i32::MAX,
        sells(cards[i], table_state(m, cards.take(i), chips)) == sells(cards[i], m),
        sold(cards[i], table_state(m, cards.take(i), chips), chips) == sold(cards[i], m, chips),
{
    let front = cards.take(i);
    let upto = cards.take(i + 1);
    assert(upto.drop_last() =~= front);
    assert(upto.last() == cards[i]);
    if plays_attack(m, front) {
        let k = choose|k: int| 0 <= k < front.len() && attacks(#[trigger] front[k], m);
        assert(upto[k] == front[k]);
    }
    if plays_attack(m, upto) && !attacks(cards[i], m) {
        let k = choose|k: int| 0 <= k < upto.len() && attacks(#[trigger] upto[k], m);
        assert(upto[k] == front[k]);
    }
    if m.phase == TurnPhase::ApplySalesCards {
        lemma_table_proceeds_prefix(m, cards, chips, i);
        lemma_table_proceeds_prefix(m, cards, chips, i + 1);
        lemma_proceeds_bounds(sold(cards[i], m, chips));
        let before = table_state(m, front, chips);
        let after = table_state(m, upto, chips);
        assert(card_state(before, cards[i], chips).bank =~= after.bank);
    }
    if attacks(cards[i], m) {
        assert(attacks(upto[i], m));
        let e = Effect {
            effect_type: EffectType::Attack,
            player: opponent_of(m.player as usize),
            turn_number: m.turn_number as usize,
            duration: ATTACK_DURATION,
        };
        lemma_refresh_replaces(m.effects, e, e);
    }
}

/// Applying one more event card leads from the state after the event cards
/// before it to the state after the event cards up to it.
pub proof fn lemma_next_event(m: GameModel, events: Seq<ActiveEventCard>, i: int)
    requires
        0 <= i < events.len(),
    ensures
        event_state(m, events.take(i + 1)) == if dries(events[i], m) {
            event_state(m, events.take(i)).with_effect(
                EffectType::Drought,
                DROUGHT_DURATION,
                m.player as usize,
            )
        } else {
            event_state(m, events.take(i))
        },
{
    let front = events.take(i);
    let upto = events.take(i + 1);
    if suffers_drought(m, front) {
        let k = choose|k: int| 0 <= k < front.len() && dries(#[trigger] front[k], m);
        assert(upto[k] == front[k]);
    }
    if suffers_drought(m, upto) && !dries(events[i], m) {
        let k = choose|k: int| 0 <= k < upto.len() && dries(#[trigger] upto[k], m);
        assert(upto[k] == front[k]);
    }
    if dries(events[i], m) {
        assert(dries(upto[i], m));
        let e = Effect {
            effect_type: EffectType::Drought,
            player: m.player as usize,
            turn_number: m.turn_number as usize,
            duration: DROUGHT_DURATION,
        };
        lemma_refresh_replaces(m.effects, e, e);
    }
}

/// A tick changes neither the players nor the turn, and only
/// `ApplyEventCard` moves on by itself, to `ApplyProductionCards`. The bank
/// changes in the sales phase only: there the acting player has what the
/// sales cards pay on top, and every other balance is as it was.
pub proof fn lemma_tick_outline(
    m: GameModel,
    cards: Seq<TableCard>,
    chips: Seq<Token>,
    events: Seq<ActiveEventCard>,
)
    requires
        m.wf(),
        m.player <= usize::MAX,
        sales_fit(m, cards, chips),
    ensures
        tick_state(m, cards, chips, events).num_players == m.num_players,
        tick_state(m, cards, chips, events).player == m.player,
        tick_state(m, cards, chips, events).turn_number == m.turn_number,
        tick_state(m, cards, chips, events).phase == if m.phase == TurnPhase::ApplyEventCard {
            TurnPhase::ApplyProductionCards
        } else {
            m.phase
        },
        m.phase != TurnPhase::ApplySalesCards ==> tick_state(m, cards, chips, events).bank
            == m.bank,
        tick_state(m, cards, chips, events).bank.len() == m.bank.len(),
        forall|q: int|
            0 <= q < m.bank.len() && q != m.player - 1 ==> tick_state(
                m,
                cards,
                chips,
                events,
            ).bank[q] == m.bank[q],
        m.phase == TurnPhase::ApplySalesCards ==> tick_state(m, cards, chips, events).bank[m.player
            - 1] == m.bank[m.player - 1] + table_proceeds(m, cards, chips),
{
    lemma_table_proceeds_prefix(m, cards, chips, cards.len() as int);
}

/// A sales card that sells a token pays: the balance of the acting player
/// rises by 400 at least for each token sold.
pub proof fn lemma_sale_pays(m: GameModel, card: TableCard, chips: Seq<Token>)
    requires
        m.wf(),
        m.player <= usize::MAX,
        sells(card, m),
        m.bank[m.player - 1] + proceeds(sold(card, m, chips)) <= i32::MAX,
    ensures
        card_state(m, card, chips).bank[m.player - 1] >= m.bank[m.player - 1] + 400 * sold(
            card,
            m,
            chips,
        ).len(),
        card_state(m, card, chips).bank[m.player - 1] == m.bank[m.player - 1] + proceeds(
            sold(card, m, chips),
        ),
{
    lemma_proceeds_bounds(sold(card, m, chips));
}

/// All sales cards together pay no less than any one of them.
pub proof fn lemma_table_proceeds_covers(
    m: GameModel,
    cards: Seq<TableCard>,
    chips: Seq<Token>,
    i: int,
)
    requires
        0 <= i < cards.len(),
        sells(cards[i], m),
    ensures
        table_proceeds(m, cards, chips) >= proceeds(sold(cards[i], m, chips)),
    decreases cards.len(),
{
    let front = cards.drop_last();
    if i == cards.len() - 1 {
        lemma_table_proceeds_prefix(m, front, chips, 0);
    } else {
        assert(front[i] == cards[i]);
        lemma_table_proceeds_covers(m, front, chips, i);
        lemma_proceeds_bounds(sold(cards.last(), m, chips));
    }
}

/// A sales tick pays: where the acting player has a sales card on the
/// table and a token ready for sale, the player's balance is higher after
/// the tick than before, by 400 at least.
pub proof fn lemma_sales_tick_pays(
    m: GameModel,
    cards: Seq<TableCard>,
    chips: Seq<Token>,
    events: Seq<ActiveEventCard>,
    i: int,
)
    requires
        m.wf(),
        m.player <= usize::MAX,
        sales_fit(m, cards, chips),
        0 <= i < cards.len(),
        sells(cards[i], m),
        handling_queue(chips, true, m.player as usize, m.turn_number as usize).len() >= 1,
    ensures
        tick_state(m, cards, chips, events).bank[m.player - 1] >= m.bank[m.player - 1] + 400,
{
    lemma_tick_outline(m, cards, chips, events);
    lemma_table_proceeds_covers(m, cards, chips, i);
    lemma_proceeds_bounds(sold(cards[i], m, chips));
}

} // verus!
