use cartel_engine::cards::{CardType, ChipType};
use cartel_engine::events::{
    ActiveEventCard, AdvancePhase, Command, DeckCard, DiscardChip, DropChip, MoveChip, TableCard,
    Token,
};
use cartel_engine::resolver::{
    apply_card_effects, credit_per_sale, has_event_card, opponent, production_yield,
    sales_fit_bank, sell_tokens, top_event_card, worth_of,
};
use cartel_engine::state::{Effect, EffectType, GameState, TurnPhase};

fn state_in(phase: TurnPhase, num_players: usize, player: usize, turn_number: usize) -> GameState {
    let mut state = GameState::new(num_players);
    state.phase = phase;
    state.player = player;
    state.turn_number = turn_number;
    state
}

fn card(entity: u64, card_type: CardType, player: usize) -> TableCard {
    TableCard { entity, card_type, player }
}

fn token(entity: u64, chip_type: ChipType, marker: usize, player: usize, depth: i64) -> Token {
    Token {
        entity,
        depth,
        chip_type,
        marker,
        player,
        turn_activation_1: 1,
        turn_activation_2: if marker == 2 { 1 } else { 0 },
    }
}

fn off_table(entity: u64) -> Command {
    Command::PlaceCardOffTable { card_entity: entity, deck_marker: 1 }
}

fn advance_request() -> Command {
    Command::AdvancePhase(AdvancePhase)
}

fn drop_of(chip_type: ChipType, player: usize) -> Command {
    Command::DropChip(DropChip { chip_type, area: 1, player })
}

fn move_of(entity: u64, player: usize) -> Command {
    Command::MoveChip(MoveChip { entity, area: 2, player })
}

fn discard_of(entity: u64) -> Command {
    Command::DiscardChip(DiscardChip { entity })
}

fn effect(effect_type: EffectType, player: usize) -> Effect {
    Effect { effect_type, player, turn_number: 1, duration: 9 }
}

#[test]
fn production_without_effects_drops_five() {
    let mut state = state_in(TurnPhase::ApplyProductionCards, 2, 1, 1);
    let cards = vec![card(7, CardType::Cocaine, 1)];
    let commands = apply_card_effects(&mut state, &cards, &vec![], &vec![], &vec![]);
    let mut expected = vec![drop_of(ChipType::Cocaine, 1); 5];
    expected.push(off_table(7));
    expected.push(advance_request());
    assert_eq!(commands, expected);
    assert_eq!(state.phase, TurnPhase::ApplyProductionCards);
}

#[test]
fn production_under_attack_and_drought_drops_three() {
    let mut state = state_in(TurnPhase::ApplyProductionCards, 2, 1, 1);
    state.effects = vec![
        effect(EffectType::Attack, 1),
        effect(EffectType::Drought, 1),
        effect(EffectType::Attack, 2),
    ];
    let cards = vec![card(7, CardType::Cocaine, 1)];
    let commands = apply_card_effects(&mut state, &cards, &vec![], &vec![], &vec![]);
    let mut expected = vec![drop_of(ChipType::Cocaine, 1); 3];
    expected.push(off_table(7));
    expected.push(advance_request());
    assert_eq!(commands, expected);
}

#[test]
fn production_under_six_effects_drops_none() {
    let mut state = state_in(TurnPhase::ApplyProductionCards, 2, 1, 1);
    state.effects = vec![effect(EffectType::Attack, 1); 6];
    let cards = vec![card(7, CardType::Cocaine, 1)];
    let commands = apply_card_effects(&mut state, &cards, &vec![], &vec![], &vec![]);
    assert_eq!(commands, vec![off_table(7), advance_request()]);
}

#[test]
fn production_yield_by_number_of_effects() {
    assert_eq!(production_yield(0), 5);
    assert_eq!(production_yield(2), 3);
    assert_eq!(production_yield(5), 0);
    assert_eq!(production_yield(6), 0);
    assert_eq!(production_yield(usize::MAX), 0);
}

#[test]
fn production_of_cannabis_and_of_other_players_cards() {
    let mut state = state_in(TurnPhase::ApplyProductionCards, 2, 2, 1);
    let cards = vec![
        card(1, CardType::Cocaine, 1),
        card(2, CardType::Cannabis, 2),
        card(3, CardType::Truck, 2),
    ];
    let commands = apply_card_effects(&mut state, &cards, &vec![], &vec![], &vec![]);
    let mut expected = vec![drop_of(ChipType::Cannabis, 2); 5];
    expected.push(off_table(2));
    expected.push(advance_request());
    assert_eq!(commands, expected);
}

#[test]
fn transportation_interleaves_cannabis_and_cocaine() {
    let mut state = state_in(TurnPhase::ApplyTransportationCards, 2, 1, 2);
    let chips = vec![
        token(10, ChipType::Cannabis, 1, 1, 0),
        token(20, ChipType::Cocaine, 1, 1, 0),
        token(11, ChipType::Cannabis, 1, 1, 1),
        token(12, ChipType::Cannabis, 1, 1, 2),
    ];
    let cards = vec![card(5, CardType::Truck, 1)];
    let commands = apply_card_effects(&mut state, &cards, &vec![], &chips, &vec![]);
    assert_eq!(
        commands,
        vec![
            move_of(10, 1),
            move_of(20, 1),
            move_of(11, 1),
            move_of(12, 1),
            off_table(5),
            advance_request(),
        ]
    );
}

#[test]
fn transportation_takes_the_bottom_of_the_stack_first() {
    let mut state = state_in(TurnPhase::ApplyTransportationCards, 2, 1, 2);
    let chips = vec![
        token(12, ChipType::Cannabis, 1, 1, 30),
        token(21, ChipType::Cocaine, 1, 1, 8),
        token(10, ChipType::Cannabis, 1, 1, 10),
        token(20, ChipType::Cocaine, 1, 1, 4),
        token(11, ChipType::Cannabis, 1, 1, 10),
    ];
    let cards = vec![card(5, CardType::Train, 1)];
    let commands = apply_card_effects(&mut state, &cards, &vec![], &chips, &vec![]);
    assert_eq!(
        commands,
        vec![
            move_of(10, 1),
            move_of(20, 1),
            move_of(11, 1),
            move_of(21, 1),
            move_of(12, 1),
            off_table(5),
            advance_request(),
        ]
    );
}

#[test]
fn transportation_leaves_tokens_of_this_turn_and_of_others() {
    let mut state = state_in(TurnPhase::ApplyTransportationCards, 2, 1, 2);
    let mut fresh = token(1, ChipType::Cannabis, 1, 1, 0);
    fresh.turn_activation_1 = 2;
    let chips = vec![
        fresh,
        token(2, ChipType::Cannabis, 1, 2, 0),
        token(3, ChipType::Cannabis, 2, 1, 0),
        token(4, ChipType::Cocaine, 1, 1, 0),
    ];
    let cards = vec![card(5, CardType::Truck, 1)];
    let commands = apply_card_effects(&mut state, &cards, &vec![], &chips, &vec![]);
    assert_eq!(commands, vec![move_of(4, 1), off_table(5), advance_request()]);
}

fn many_tokens(n: u64, chip_type: ChipType, marker: usize) -> Vec<Token> {
    (0..n).map(|i| token(i, chip_type, marker, 1, i as i64)).collect()
}

#[test]
fn truck_moves_at_most_ten_tokens() {
    let mut state = state_in(TurnPhase::ApplyTransportationCards, 2, 1, 2);
    let chips = many_tokens(12, ChipType::Cocaine, 1);
    let cards = vec![card(99, CardType::Truck, 1)];
    let commands = apply_card_effects(&mut state, &cards, &vec![], &chips, &vec![]);
    let mut expected: Vec<Command> = (0..10).map(|i| move_of(i, 1)).collect();
    expected.push(off_table(99));
    expected.push(advance_request());
    assert_eq!(commands, expected);
}

#[test]
fn train_moves_at_most_twenty_five_tokens() {
    let mut state = state_in(TurnPhase::ApplyTransportationCards, 2, 1, 2);
    let chips = many_tokens(30, ChipType::Cannabis, 1);
    let cards = vec![card(99, CardType::Train, 1)];
    let commands = apply_card_effects(&mut state, &cards, &vec![], &chips, &vec![]);
    let mut expected: Vec<Command> = (0..25).map(|i| move_of(i, 1)).collect();
    expected.push(off_table(99));
    expected.push(advance_request());
    assert_eq!(commands, expected);
}

#[test]
fn transport_card_leaves_the_table_with_nothing_to_move() {
    let mut state = state_in(TurnPhase::ApplyTransportationCards, 2, 1, 2);
    let cards = vec![card(5, CardType::Truck, 1), card(6, CardType::Export, 1)];
    let commands = apply_card_effects(&mut state, &cards, &vec![], &vec![], &vec![]);
    assert_eq!(commands, vec![off_table(5), advance_request()]);
}

#[test]
fn sales_take_the_top_of_the_stack_first() {
    let mut state = state_in(TurnPhase::ApplySalesCards, 2, 1, 3);
    let chips = vec![
        token(10, ChipType::Cannabis, 2, 1, 1),
        token(11, ChipType::Cannabis, 2, 1, 5),
        token(20, ChipType::Cocaine, 2, 1, 2),
        token(12, ChipType::Cannabis, 2, 1, 3),
    ];
    let cards = vec![card(5, CardType::LocalMarket, 1)];
    let commands = apply_card_effects(&mut state, &cards, &vec![], &chips, &vec![]);
    assert_eq!(
        commands,
        vec![
            discard_of(11),
            discard_of(20),
            discard_of(12),
            discard_of(10),
            off_table(5),
            advance_request(),
        ]
    );
    assert_eq!(state.bank, vec![5000 + 3 * 400 + 800, 5000]);
}

#[test]
fn sales_leave_tokens_never_moved_or_moved_this_turn() {
    let mut state = state_in(TurnPhase::ApplySalesCards, 2, 1, 3);
    let mut never = token(1, ChipType::Cocaine, 2, 1, 0);
    never.turn_activation_2 = 0;
    let mut fresh = token(2, ChipType::Cocaine, 2, 1, 1);
    fresh.turn_activation_2 = 3;
    let mut ready = token(3, ChipType::Cocaine, 2, 1, 2);
    ready.turn_activation_2 = 2;
    let chips = vec![never, fresh, ready, token(4, ChipType::Cocaine, 1, 1, 3)];
    let cards = vec![card(5, CardType::Export, 1)];
    let commands = apply_card_effects(&mut state, &cards, &vec![], &chips, &vec![]);
    assert_eq!(commands, vec![discard_of(3), off_table(5), advance_request()]);
    assert_eq!(state.bank, vec![5800, 5000]);
}

#[test]
fn local_market_sells_at_most_ten_and_export_twenty_five() {
    let chips = many_tokens(40, ChipType::Cocaine, 2);
    let mut state = state_in(TurnPhase::ApplySalesCards, 2, 1, 3);
    let cards = vec![card(99, CardType::LocalMarket, 1)];
    let commands = apply_card_effects(&mut state, &cards, &vec![], &chips, &vec![]);
    let mut expected: Vec<Command> = (0..10).map(|i| discard_of(39 - i)).collect();
    expected.push(off_table(99));
    expected.push(advance_request());
    assert_eq!(commands, expected);
    assert_eq!(state.bank, vec![5000 + 10 * 800, 5000]);

    let cards = vec![card(98, CardType::Export, 1)];
    let commands = apply_card_effects(&mut state, &cards, &vec![], &chips, &vec![]);
    let mut expected: Vec<Command> = (0..25).map(|i| discard_of(39 - i)).collect();
    expected.push(off_table(98));
    expected.push(advance_request());
    assert_eq!(commands, expected);
    assert_eq!(state.bank, vec![5000 + 10 * 800 + 25 * 800, 5000]);
}

#[test]
fn sale_credit_is_by_the_commodity_of_the_token() {
    assert_eq!(credit_per_sale(ChipType::Cocaine), 800);
    assert_eq!(credit_per_sale(ChipType::Cannabis), 400);
}

#[test]
fn attack_falls_on_the_other_player() {
    let mut state = state_in(TurnPhase::ApplyActionCards, 2, 1, 4);
    let cards = vec![card(5, CardType::Attack, 1), card(6, CardType::Attack, 2)];
    let commands = apply_card_effects(&mut state, &cards, &vec![], &vec![], &vec![]);
    assert_eq!(commands, vec![off_table(5), advance_request()]);
    assert_eq!(
        state.effects,
        vec![Effect { effect_type: EffectType::Attack, player: 2, turn_number: 4, duration: 2 }]
    );
}

#[test]
fn two_attacks_leave_one_effect() {
    let mut state = state_in(TurnPhase::ApplyActionCards, 2, 2, 4);
    let cards = vec![card(5, CardType::Attack, 2), card(6, CardType::Attack, 2)];
    let commands = apply_card_effects(&mut state, &cards, &vec![], &vec![], &vec![]);
    assert_eq!(commands, vec![off_table(5), off_table(6), advance_request()]);
    assert_eq!(
        state.effects,
        vec![Effect { effect_type: EffectType::Attack, player: 1, turn_number: 4, duration: 2 }]
    );
}

#[test]
fn attackers_beyond_the_second_hit_the_first_player() {
    assert_eq!(opponent(1), 2);
    assert_eq!(opponent(2), 1);
    assert_eq!(opponent(3), 1);
    assert_eq!(opponent(4), 1);
    let mut state = state_in(TurnPhase::ApplyActionCards, 3, 3, 1);
    let cards = vec![card(5, CardType::Attack, 3)];
    apply_card_effects(&mut state, &cards, &vec![], &vec![], &vec![]);
    assert_eq!(state.effects[0].player, 1);
}

#[test]
fn draw_event_card_takes_the_deepest_of_the_event_deck() {
    let mut state = state_in(TurnPhase::DrawEventCard, 2, 2, 1);
    let deck = vec![
        DeckCard { entity: 1, depth: 90, marker: 1 },
        DeckCard { entity: 2, depth: 3, marker: 2 },
        DeckCard { entity: 3, depth: 7, marker: 2 },
        DeckCard { entity: 4, depth: 7, marker: 2 },
        DeckCard { entity: 5, depth: 5, marker: 2 },
    ];
    let events = vec![ActiveEventCard { entity: 50, card_type: CardType::BigDeal, player: 1 }];
    let commands = apply_card_effects(&mut state, &vec![], &deck, &vec![], &events);
    assert_eq!(
        commands,
        vec![
            Command::ActivateEventCard { card_entity: 3, player: 2 },
            Command::PlaceCardOnTable { card_entity: 3, marker: 6, player: 2 },
            advance_request(),
        ]
    );
    assert_eq!(top_event_card(&deck), Some(2));
    assert_eq!(top_event_card(&vec![DeckCard { entity: 1, depth: 90, marker: 1 }]), None);
}

#[test]
fn draw_event_card_is_skipped_with_an_event_card_in_force() {
    let mut state = state_in(TurnPhase::DrawEventCard, 2, 1, 1);
    let events = vec![ActiveEventCard { entity: 50, card_type: CardType::BigDeal, player: 1 }];
    assert!(has_event_card(&events, 1));
    assert!(!has_event_card(&events, 2));
    let commands = apply_card_effects(&mut state, &vec![], &vec![], &vec![], &events);
    assert_eq!(commands, vec![advance_request()]);
}

#[test]
fn end_of_the_round_returns_the_event_cards() {
    let events = vec![
        ActiveEventCard { entity: 50, card_type: CardType::BigDeal, player: 1 },
        ActiveEventCard { entity: 51, card_type: CardType::Drought, player: 2 },
    ];
    let mut state = state_in(TurnPhase::End, 2, 2, 1);
    let commands = apply_card_effects(&mut state, &vec![], &vec![], &vec![], &events);
    assert_eq!(
        commands,
        vec![
            Command::DeactivateEventCard { card_entity: 50 },
            Command::PlaceCardOffTable { card_entity: 50, deck_marker: 2 },
            Command::DeactivateEventCard { card_entity: 51 },
            Command::PlaceCardOffTable { card_entity: 51, deck_marker: 2 },
            advance_request(),
        ]
    );
    let mut state = state_in(TurnPhase::End, 2, 1, 1);
    let commands = apply_card_effects(&mut state, &vec![], &vec![], &vec![], &events);
    assert_eq!(commands, vec![advance_request()]);
    assert_eq!(state.phase, TurnPhase::End);
}

#[test]
fn drought_card_dries_its_player_and_the_phase_advances_by_itself() {
    let events = vec![
        ActiveEventCard { entity: 50, card_type: CardType::Drought, player: 1 },
        ActiveEventCard { entity: 51, card_type: CardType::Drought, player: 2 },
    ];
    let mut state = state_in(TurnPhase::ApplyEventCard, 2, 2, 3);
    let commands = apply_card_effects(&mut state, &vec![], &vec![], &vec![], &events);
    assert_eq!(commands, vec![advance_request()]);
    assert_eq!(state.phase, TurnPhase::ApplyProductionCards);
    assert_eq!(
        state.effects,
        vec![Effect { effect_type: EffectType::Drought, player: 2, turn_number: 3, duration: 3 }]
    );
}

#[test]
fn big_deal_changes_nothing_but_the_phase() {
    let events = vec![ActiveEventCard { entity: 50, card_type: CardType::BigDeal, player: 1 }];
    let mut state = state_in(TurnPhase::ApplyEventCard, 2, 1, 3);
    let commands = apply_card_effects(&mut state, &vec![], &vec![], &vec![], &events);
    assert_eq!(commands, vec![advance_request()]);
    assert_eq!(state.phase, TurnPhase::ApplyProductionCards);
    assert!(state.effects.is_empty());
}

#[test]
fn waiting_phases_ask_for_nothing() {
    let cards = vec![card(5, CardType::Attack, 1), card(6, CardType::Cocaine, 1)];
    for phase in [TurnPhase::Prepare, TurnPhase::PlaceCardsOnTable] {
        let mut state = state_in(phase, 2, 1, 1);
        let commands = apply_card_effects(&mut state, &cards, &vec![], &vec![], &vec![]);
        assert!(commands.is_empty());
        assert_eq!(state.phase, phase);
    }
}

#[test]
fn each_sold_token_credits_the_seller_only() {
    let mut state = state_in(TurnPhase::ApplySalesCards, 3, 2, 3);
    state.bank = vec![10, -50, 30];
    let chips = vec![
        token(1, ChipType::Cannabis, 2, 2, 0),
        token(2, ChipType::Cocaine, 2, 2, 0),
        token(3, ChipType::Cocaine, 2, 1, 0),
    ];
    let cards = vec![card(5, CardType::Export, 2), card(6, CardType::LocalMarket, 1)];
    let commands = apply_card_effects(&mut state, &cards, &vec![], &chips, &vec![]);
    assert_eq!(commands, vec![discard_of(1), discard_of(2), off_table(5), advance_request()]);
    assert_eq!(state.bank, vec![10, -50 + 400 + 800, 30]);
}

#[test]
fn two_sales_cards_sell_the_same_tokens_twice() {
    let mut state = state_in(TurnPhase::ApplySalesCards, 2, 1, 3);
    let chips = vec![token(1, ChipType::Cannabis, 2, 1, 0)];
    let cards = vec![card(5, CardType::Export, 1), card(6, CardType::LocalMarket, 1)];
    let commands = apply_card_effects(&mut state, &cards, &vec![], &chips, &vec![]);
    assert_eq!(
        commands,
        vec![discard_of(1), off_table(5), discard_of(1), off_table(6), advance_request()]
    );
    assert_eq!(state.bank, vec![5800, 5000]);
}

#[test]
fn a_sale_without_tokens_pays_nothing() {
    let mut state = state_in(TurnPhase::ApplySalesCards, 2, 1, 3);
    let cards = vec![card(5, CardType::Export, 1)];
    let commands = apply_card_effects(&mut state, &cards, &vec![], &vec![], &vec![]);
    assert_eq!(commands, vec![off_table(5), advance_request()]);
    assert_eq!(state.bank, vec![5000, 5000]);
}

#[test]
fn sell_tokens_sells_what_the_worth_pays_for() {
    let order = vec![
        token(1, ChipType::Cannabis, 2, 1, 0),
        token(2, ChipType::Cocaine, 2, 1, 0),
        token(3, ChipType::Cocaine, 2, 1, 0),
    ];
    let mut commands = vec![off_table(9)];
    assert_eq!(sell_tokens(&order, 3, &mut commands), 1200);
    assert_eq!(commands, vec![off_table(9), discard_of(1), discard_of(2)]);
    let mut commands = vec![];
    assert_eq!(sell_tokens(&order, 0, &mut commands), 0);
    assert!(commands.is_empty());
    assert_eq!(sell_tokens(&order, 50, &mut commands), 2000);
    assert_eq!(commands.len(), 3);
}

#[test]
fn worth_of_each_kind_of_card() {
    assert_eq!(worth_of(CardType::Truck), 20);
    assert_eq!(worth_of(CardType::Train), 50);
    assert_eq!(worth_of(CardType::LocalMarket), 20);
    assert_eq!(worth_of(CardType::Export), 50);
    assert_eq!(worth_of(CardType::Attack), 0);
}

#[test]
fn the_bank_has_to_bear_the_sales() {
    let mut state = state_in(TurnPhase::ApplySalesCards, 2, 1, 3);
    let chips = vec![token(1, ChipType::Cocaine, 2, 1, 0)];
    let cards = vec![card(5, CardType::Export, 1), card(6, CardType::Export, 2)];
    state.bank = vec![i32::MAX - 800, 0];
    assert!(sales_fit_bank(&state, &cards, &chips));
    apply_card_effects(&mut state, &cards, &vec![], &chips, &vec![]);
    assert_eq!(state.bank, vec![i32::MAX, 0]);
    assert!(!sales_fit_bank(&state, &cards, &chips));
    state.bank = vec![i32::MAX - 799, 0];
    assert!(!sales_fit_bank(&state, &cards, &chips));
    assert!(sales_fit_bank(&state, &vec![], &chips));
    state.phase = TurnPhase::ApplyTransportationCards;
    assert!(sales_fit_bank(&state, &cards, &chips));
}
