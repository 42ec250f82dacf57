//! The game state: bank, effect ledger and the phase state machine.

use vstd::prelude::*;

verus! {

/// Balance every player starts a match with.
pub const STARTING_BALANCE: i32 = 5000;

/// The stages of one player's turn, in the order in which they are played.
#[derive(Clone, Copy, Debug, PartialEq, Eq, Structural)]
pub enum TurnPhase {
    Prepare,
    PlaceCardsOnTable,
    DrawEventCard,
    ApplyEventCard,
    ApplyProductionCards,
    ApplyTransportationCards,
    ApplySalesCards,
    ApplyActionCards,
    End,
}

impl TurnPhase {
    /// The phase that follows `self` in the cycle.
    pub open spec fn successor(self) -> TurnPhase {
        match self {
            TurnPhase::Prepare => TurnPhase::PlaceCardsOnTable,
            TurnPhase::PlaceCardsOnTable => TurnPhase::DrawEventCard,
            TurnPhase::DrawEventCard => TurnPhase::ApplyEventCard,
            TurnPhase::ApplyEventCard => TurnPhase::ApplyProductionCards,
            TurnPhase::ApplyProductionCards => TurnPhase::ApplyTransportationCards,
            TurnPhase::ApplyTransportationCards => TurnPhase::ApplySalesCards,
            TurnPhase::ApplySalesCards => TurnPhase::ApplyActionCards,
            TurnPhase::ApplyActionCards => TurnPhase::End,
            TurnPhase::End => TurnPhase::Prepare,
        }
    }
}

impl Default for TurnPhase {
    fn default() -> (phase: TurnPhase)
        ensures
            phase == TurnPhase::Prepare,
    {
        TurnPhase::Prepare
    }
}

/// The kinds of timed status effect. Both lower a player's production.
#[derive(Clone, Copy, Debug, PartialEq, Eq, Structural)]
pub enum EffectType {
    Drought,
    Attack,
}

/// A status effect on `player`, added in turn `turn_number`, lasting
/// `duration` turns.
#[derive(Clone, Copy, Debug, PartialEq, Eq, Structural)]
pub struct Effect {
    pub effect_type: EffectType,
    pub player: usize,
    pub turn_number: usize,
    pub duration: usize,
}

impl Effect {
    /// An effect has run out once its first turn plus its duration is reached.
    pub open spec fn expired_at(self, turn: nat) -> bool {
        self.turn_number + self.duration <= turn
    }

    /// Whether the effect is the one of kind `effect_type` on `player`.
    pub open spec fn is_for(self, effect_type: EffectType, player: usize) -> bool {
        self.effect_type == effect_type && self.player == player
    }
}

/// The effects that are still running in turn `turn`.
pub open spec fn running_in(turn: nat) -> spec_fn(Effect) -> bool {
    |e: Effect| !e.expired_at(turn)
}

/// The effects other than the one of kind `effect_type` on `player`.
pub open spec fn not_for(effect_type: EffectType, player: usize) -> spec_fn(Effect) -> bool {
    |e: Effect| !e.is_for(effect_type, player)
}

/// The effects on `player`.
pub open spec fn on_player(player: usize) -> spec_fn(Effect) -> bool {
    |e: Effect| e.player == player
}

/// No two records share kind and player.
pub open spec fn distinct_effects(effects: Seq<Effect>) -> bool {
    forall|i: int, j: int|
        0 <= i < j < effects.len() ==> !(#[trigger] effects[i]).is_for(
            (#[trigger] effects[j]).effect_type,
            effects[j].player,
        )
}

/// The ledger after `effect` was added: any record of the same kind on the
/// same player is dropped, and `effect` is appended.
pub open spec fn refreshed(effects: Seq<Effect>, effect: Effect) -> Seq<Effect> {
    effects.filter(not_for(effect.effect_type, effect.player)).push(effect)
}

/// The ledger in turn `turn`, without the effects that have run out.
pub open spec fn pruned(effects: Seq<Effect>, turn: nat) -> Seq<Effect> {
    effects.filter(running_in(turn))
}

/// The mathematical value of a [`GameState`].
pub ghost struct GameModel {
    pub turn_number: nat,
    pub phase: TurnPhase,
    pub player: nat,
    pub bank: Seq<i32>,
    pub effects: Seq<Effect>,
    pub num_players: nat,
}

impl GameModel {
    /// The acting player is one of the players, and each player has a balance.
    pub open spec fn wf(self) -> bool {
        &&& 1 <= self.player <= self.num_players
        &&& self.bank.len() == self.num_players
    }

    /// Whether the acting player is the last of the round.
    pub open spec fn last_player_acts(self) -> bool {
        self.player == self.num_players
    }

    /// The state after one phase advance: the next phase; on leaving `End`
    /// the next player, and the next turn after the last player; then the
    /// ledger without what has run out by that turn.
    pub open spec fn advance(self) -> GameModel {
        let leaving_end = self.phase == TurnPhase::End;
        let turn_number = if leaving_end && self.last_player_acts() {
            self.turn_number + 1
        } else {
            self.turn_number
        };
        let player = if !leaving_end {
            self.player
        } else if self.last_player_acts() {
            1
        } else {
            self.player + 1
        };
        GameModel {
            turn_number,
            phase: self.phase.successor(),
            player,
            effects: pruned(self.effects, turn_number),
            ..self
        }
    }

    /// The state after `n` phase advances.
    pub open spec fn advance_by(self, n: nat) -> GameModel
        decreases n,
    {
        if n == 0 {
            self
        } else {
            self.advance().advance_by((n - 1) as nat)
        }
    }

    /// The state after a reset: a fresh match for the same players, but
    /// with every balance zero.
    pub open spec fn reset(self) -> GameModel {
        GameModel {
            turn_number: 1,
            phase: TurnPhase::Prepare,
            player: 1,
            bank: Seq::new(self.num_players, |i: int| 0i32),
            effects: Seq::empty(),
            num_players: self.num_players,
        }
    }

    /// The state with `amount` added to the balance of `player`.
    pub open spec fn credited(self, player: usize, amount: int) -> GameModel {
        GameModel {
            bank: self.bank.update(player - 1, (self.bank[player - 1] + amount) as i32),
            ..self
        }
    }

    /// The state after an effect of kind `effect_type` lasting `duration`
    /// turns was put on `player` in the current turn.
    pub open spec fn with_effect(
        self,
        effect_type: EffectType,
        duration: usize,
        player: usize,
    ) -> GameModel {
        GameModel {
            effects: refreshed(
                self.effects,
                Effect { effect_type, player, turn_number: self.turn_number as usize, duration },
            ),
            ..self
        }
    }
}

/// Filtering twice by one predicate is filtering once.
pub proof fn lemma_filter_twice(effects: Seq<Effect>, keep: spec_fn(Effect) -> bool)
    ensures
        effects.filter(keep).filter(keep) == effects.filter(keep),
    decreases effects.len(),
{
    if effects.len() == 0 {
        reveal(Seq::filter);
    } else {
        let front = effects.drop_last();
        let e = effects.last();
        assert(effects =~= front.push(e));
        lemma_filter_twice(front, keep);
        front.lemma_filter_push(e, keep);
        if keep(e) {
            front.filter(keep).lemma_filter_push(e, keep);
        }
    }
}

/// Nothing that a filter lets through breaks its predicate.
pub proof fn lemma_filter_keeps(effects: Seq<Effect>, keep: spec_fn(Effect) -> bool)
    ensures
        forall|i: int| 0 <= i < effects.filter(keep).len() ==> keep(#[trigger] effects.filter(keep)[i]),
        forall|i: int|
            0 <= i < effects.filter(keep).len() ==> effects.contains(
                #[trigger] effects.filter(keep)[i],
            ),
{
    let kept = effects.filter(keep);
    assert forall|i: int| 0 <= i < kept.len() implies keep(#[trigger] kept[i]) && effects.contains(
        kept[i],
    ) by {
        effects.lemma_filter_pred(keep, i);
        assert(kept.contains(kept[i]));
        effects.lemma_filter_contains_rev(keep, kept[i]);
    }
}

/// A filter keeps a ledger free of doubles.
pub proof fn lemma_filter_distinct(effects: Seq<Effect>, keep: spec_fn(Effect) -> bool)
    requires
        distinct_effects(effects),
    ensures
        distinct_effects(effects.filter(keep)),
    decreases effects.len(),
{
    if effects.len() == 0 {
        reveal(Seq::filter);
    } else {
        let front = effects.drop_last();
        let e = effects.last();
        assert(effects =~= front.push(e));
        assert(distinct_effects(front)) by {
            assert forall|i: int, j: int| 0 <= i < j < front.len() implies !(#[trigger] front[i]).is_for(
                (#[trigger] front[j]).effect_type,
                front[j].player,
            ) by {
                assert(front[i] == effects[i] && front[j] == effects[j]);
            }
        }
        lemma_filter_distinct(front, keep);
        front.lemma_filter_push(e, keep);
        lemma_filter_keeps(front, keep);
        let kept = front.filter(keep);
        if keep(e) {
            let all = kept.push(e);
            assert forall|i: int, j: int| 0 <= i < j < all.len() implies !(#[trigger] all[i]).is_for(
                (#[trigger] all[j]).effect_type,
                all[j].player,
            ) by {
                if j == kept.len() {
                    assert(front.contains(kept[i]));
                    let k = choose|k: int| 0 <= k < front.len() && front[k] == kept[i];
                    assert(effects[k] == kept[i]);
                    assert(effects[effects.len() - 1] == e);
                } else {
                    assert(all[i] == kept[i] && all[j] == kept[j]);
                }
            }
        }
    }
}

/// Adding an effect a second time replaces the first record: the ledger is
/// the one that the second addition alone would have left, whatever the two
/// durations and first turns are.
pub proof fn lemma_refresh_replaces(effects: Seq<Effect>, first: Effect, second: Effect)
    requires
        first.is_for(second.effect_type, second.player),
    ensures
        refreshed(refreshed(effects, first), second) == refreshed(effects, second),
{
    let keep = not_for(second.effect_type, second.player);
    assert(not_for(first.effect_type, first.player) == keep);
    let kept = effects.filter(keep);
    kept.lemma_filter_push(first, keep);
    lemma_filter_twice(effects, keep);
}

/// After an addition the ledger holds exactly one record of that kind on
/// that player, the one just added, and it stands last.
pub proof fn lemma_refresh_single(effects: Seq<Effect>, effect: Effect)
    ensures
        refreshed(effects, effect).last() == effect,
        forall|i: int|
            0 <= i < refreshed(effects, effect).len() - 1 ==> !(#[trigger] refreshed(
                effects,
                effect,
            )[i]).is_for(effect.effect_type, effect.player),
{
    let keep = not_for(effect.effect_type, effect.player);
    lemma_filter_keeps(effects, keep);
    let kept = effects.filter(keep);
    assert forall|i: int| 0 <= i < refreshed(effects, effect).len() - 1 implies !(
    #[trigger] refreshed(effects, effect)[i]).is_for(effect.effect_type, effect.player) by {
        assert(refreshed(effects, effect)[i] == kept[i]);
        assert(keep(kept[i]));
    }
}

/// An addition keeps a ledger free of doubles.
pub proof fn lemma_refresh_distinct(effects: Seq<Effect>, effect: Effect)
    requires
        distinct_effects(effects),
    ensures
        distinct_effects(refreshed(effects, effect)),
{
    let keep = not_for(effect.effect_type, effect.player);
    lemma_filter_distinct(effects, keep);
    lemma_refresh_single(effects, effect);
    let kept = effects.filter(keep);
    let all = refreshed(effects, effect);
    assert forall|i: int, j: int| 0 <= i < j < all.len() implies !(#[trigger] all[i]).is_for(
        (#[trigger] all[j]).effect_type,
        all[j].player,
    ) by {
        if j < kept.len() {
            assert(all[i] == kept[i] && all[j] == kept[j]);
        }
    }
}

/// A record is dropped by pruning exactly if its first turn plus its
/// duration is not beyond the current turn; what stays keeps its order.
pub proof fn lemma_pruned_iff_expired(effects: Seq<Effect>, turn: nat, e: Effect)
    ensures
        pruned(effects, turn).contains(e) <==> effects.contains(e) && e.turn_number + e.duration
            > turn,
{
    let kept = pruned(effects, turn);
    if kept.contains(e) {
        let i = choose|i: int| 0 <= i < kept.len() && kept[i] == e;
        effects.lemma_filter_pred(running_in(turn), i);
        effects.lemma_filter_contains_rev(running_in(turn), e);
    }
    if effects.contains(e) && e.turn_number + e.duration > turn {
        let i = choose|i: int| 0 <= i < effects.len() && effects[i] == e;
        effects.lemma_filter_contains(running_in(turn), i);
    }
}

/// One player's turn is nine advances: from `Prepare` they lead back to
/// `Prepare`, the next player acts (the first after the last), and the turn
/// number has grown by one exactly if the last player's turn has ended.
pub proof fn lemma_turn_is_nine_advances(m: GameModel)
    requires
        m.phase == TurnPhase::Prepare,
    ensures
        m.advance_by(9).phase == TurnPhase::Prepare,
        m.advance_by(9).player == if m.last_player_acts() { 1 } else { m.player + 1 },
        m.advance_by(9).turn_number == if m.last_player_acts() {
            m.turn_number + 1
        } else {
            m.turn_number
        },
        m.advance_by(9).num_players == m.num_players,
        m.advance_by(9).bank == m.bank,
        m.wf() ==> m.advance_by(9).wf(),
{
    reveal_with_fuel(GameModel::advance_by, 10);
}

/// Advancing `a + b` times is advancing `a` times and then `b` times.
pub proof fn lemma_advance_by_sum(m: GameModel, a: nat, b: nat)
    ensures
        m.advance_by(a + b) == m.advance_by(a).advance_by(b),
    decreases a,
{
    if a > 0 {
        lemma_advance_by_sum(m.advance(), (a - 1) as nat, b);
    }
}

/// A round is one turn of each player: from the `Prepare` phase of player
/// `m.player`, the turns of that player and of all later ones lead to the
/// first player's `Prepare` phase, one turn number later.
pub proof fn lemma_round_ends_the_turn(m: GameModel)
    requires
        m.phase == TurnPhase::Prepare,
        m.wf(),
    ensures
        m.advance_by(9 * ((m.num_players - m.player + 1) as nat)).phase == TurnPhase::Prepare,
        m.advance_by(9 * ((m.num_players - m.player + 1) as nat)).player == 1,
        m.advance_by(9 * ((m.num_players - m.player + 1) as nat)).turn_number == m.turn_number + 1,
    decreases m.num_players - m.player,
{
    lemma_turn_is_nine_advances(m);
    let rest = (m.num_players - m.player) as nat;
    lemma_advance_by_sum(m, 9, 9 * rest);
    assert(9 * ((m.num_players - m.player + 1) as nat) == 9 + 9 * rest);
    if m.player < m.num_players {
        lemma_round_ends_the_turn(m.advance_by(9));
    } else {
        assert(m.advance_by(9).advance_by(0) == m.advance_by(9));
    }
}

/// The state of one match.
pub struct GameState {
    pub turn_number: usize,
    pub effects: Vec<Effect>,
    pub phase: TurnPhase,
    pub player: usize,
    pub bank: Vec<i32>,
    /// Set when the match is made; no operation of the state changes it.
    pub num_players: usize,
}

impl View for GameState {
    type V = GameModel;

    open spec fn view(&self) -> GameModel {
        GameModel {
            turn_number: self.turn_number as nat,
            phase: self.phase,
            player: self.player as nat,
            bank: self.bank@,
            effects: self.effects@,
            num_players: self.num_players as nat,
        }
    }
}

impl GameState {
    /// The acting player is one of the players, and each player has a balance.
    pub open spec fn wf(&self) -> bool {
        self@.wf()
    }

    /// Whether one more phase advance stays within the machine's integers.
    pub open spec fn can_advance(&self) -> bool {
        self.phase == TurnPhase::End ==> if self.player == self.num_players {
            self.turn_number < usize::MAX
        } else {
            self.player < usize::MAX
        }
    }

    /// A fresh match for `num_players` players.
    pub fn new(num_players: usize) -> (state: GameState)
        ensures
            state@ == (GameModel {
                turn_number: 1,
                phase: TurnPhase::Prepare,
                player: 1,
                bank: Seq::new(num_players as nat, |i: int| STARTING_BALANCE),
                effects: Seq::empty(),
                num_players: num_players as nat,
            }),
            num_players >= 1 ==> state.wf(),
            distinct_effects(state.effects@),
    {
        let bank = filled(STARTING_BALANCE, num_players);
        let state = GameState {
            turn_number: 1,
            phase: TurnPhase::Prepare,
            player: 1,
            bank,
            num_players,
            effects: Vec::new(),
        };
        assert(state@.bank =~= Seq::new(num_players as nat, |i: int| STARTING_BALANCE));
        state
    }

    /// The number of players the match was made for.
    pub fn num_players(&self) -> (n: usize)
        ensures
            n == self.num_players,
    {
        self.num_players
    }

    /// Moves to the next phase, passes the turn on when `End` is left, and
    /// prunes the ledger.
    pub fn advance(&mut self)
        requires
            old(self).can_advance(),
        ensures
            final(self)@ == old(self)@.advance(),
            distinct_effects(old(self).effects@) ==> distinct_effects(final(self).effects@),
            old(self).wf() ==> final(self).wf(),
    {
        self.phase = match self.phase {
            TurnPhase::Prepare => TurnPhase::PlaceCardsOnTable,
            TurnPhase::PlaceCardsOnTable => TurnPhase::DrawEventCard,
            TurnPhase::DrawEventCard => TurnPhase::ApplyEventCard,
            TurnPhase::ApplyEventCard => TurnPhase::ApplyProductionCards,
            TurnPhase::ApplyProductionCards => TurnPhase::ApplyTransportationCards,
            TurnPhase::ApplyTransportationCards => TurnPhase::ApplySalesCards,
            TurnPhase::ApplySalesCards => TurnPhase::ApplyActionCards,
            TurnPhase::ApplyActionCards => TurnPhase::End,
            TurnPhase::End => {
                if self.player == self.num_players {
                    self.turn_number += 1;
                    self.player = 1;
                } else {
                    self.player += 1;
                }
                TurnPhase::Prepare
            },
        };
        self.remove_expired_effects();
    }

    /// Back to a fresh match: first turn, phase and player and an empty
    /// ledger, but with every balance zero.
    pub fn reset(&mut self)
        ensures
            final(self)@ == old(self)@.reset(),
            forall|i: int| 0 <= i < final(self).bank@.len() ==> final(self).bank@[i] == 0,
            final(self).effects@.len() == 0,
            distinct_effects(final(self).effects@),
            old(self).num_players >= 1 ==> final(self).wf(),
    {
        self.turn_number = 1;
        self.phase = TurnPhase::Prepare;
        self.player = 1;
        self.bank = filled(0, self.num_players);
        self.effects = Vec::new();
        assert(self@.bank =~= Seq::new(self.num_players as nat, |i: int| 0i32));
    }

    /// Adds `amount`, which may be negative, to the balance of `player`.
    pub fn change_balance(&mut self, player: usize, amount: i32)
        requires
            1 <= player <= old(self).bank@.len(),
            i32::MIN <= old(self).bank@[player - 1] + amount <= i32::MAX,
        ensures
            final(self)@ == old(self)@.credited(player, amount as int),
            final(self).bank@[player - 1] == old(self).bank@[player - 1] + amount,
    {
        let balance = self.bank[player - 1];
        self.bank.set(player - 1, balance + amount);
    }

    /// Takes `amount` from the balance of `player`.
    pub fn draw_bank(&mut self, player: usize, amount: i32)
        requires
            1 <= player <= old(self).bank@.len(),
            i32::MIN <= old(self).bank@[player - 1] - amount <= i32::MAX,
        ensures
            final(self)@ == old(self)@.credited(player, -(amount as int)),
            final(self).bank@[player - 1] == old(self).bank@[player - 1] - amount,
    {
        let balance = self.bank[player - 1];
        self.bank.set(player - 1, balance - amount);
    }

    /// The balance of `player`.
    pub fn get_balance(&self, player: usize) -> (balance: i32)
        requires
            1 <= player <= self.bank@.len(),
        ensures
            balance == self.bank@[player - 1],
    {
        self.bank[player - 1]
    }

    /// Puts an effect on `player`, starting in the current turn. An effect of
    /// the same kind that the player already has is replaced, not stacked.
    pub fn add_effect(&mut self, effect_type: EffectType, duration: usize, player: usize)
        ensures
            final(self)@ == old(self)@.with_effect(effect_type, duration, player),
            distinct_effects(old(self).effects@) ==> distinct_effects(final(self).effects@),
    {
        proof {
            if distinct_effects(self.effects@) {
                lemma_refresh_distinct(
                    self.effects@,
                    Effect { effect_type, player, turn_number: self.turn_number, duration },
                );
            }
        }
        let mut kept: Vec<Effect> = Vec::new();
        let mut i: usize = 0;
        while i < self.effects.len()
            invariant
                i <= self.effects@.len(),
                *self == *old(self),
                kept@ == self.effects@.take(i as int).filter(not_for(effect_type, player)),
            decreases self.effects@.len() - i,
        {
            let e = self.effects[i];
            proof {
                let prefix = self.effects@.take(i as int);
                assert(self.effects@.take(i + 1) =~= prefix.push(e));
                prefix.lemma_filter_push(e, not_for(effect_type, player));
            }
            if !(e.effect_type == effect_type && e.player == player) {
                kept.push(e);
            }
            i += 1;
        }
        assert(self.effects@.take(i as int) =~= self.effects@);
        kept.push(Effect { effect_type, player, turn_number: self.turn_number, duration });
        self.effects = kept;
    }

    /// Every record of the ledger that is on `player`, in ledger order,
    /// whether or not it has run out.
    pub fn get_effects(&self, player: usize) -> (found: Vec<Effect>)
        ensures
            found@ == self.effects@.filter(on_player(player)),
    {
        let mut found: Vec<Effect> = Vec::new();
        let mut i: usize = 0;
        while i < self.effects.len()
            invariant
                i <= self.effects@.len(),
                found@ == self.effects@.take(i as int).filter(on_player(player)),
            decreases self.effects@.len() - i,
        {
            let e = self.effects[i];
            proof {
                let prefix = self.effects@.take(i as int);
                assert(self.effects@.take(i + 1) =~= prefix.push(e));
                prefix.lemma_filter_push(e, on_player(player));
            }
            if e.player == player {
                found.push(e);
            }
            i += 1;
        }
        assert(self.effects@.take(i as int) =~= self.effects@);
        found
    }

    /// Drops the effects that have run out by the current turn: a record
    /// stays exactly if its first turn plus its duration is beyond it.
    pub fn remove_expired_effects(&mut self)
        ensures
            final(self)@ == (GameModel {
                effects: pruned(old(self)@.effects, old(self)@.turn_number),
                ..old(self)@
            }),
            distinct_effects(old(self).effects@) ==> distinct_effects(final(self).effects@),
    {
        proof {
            if distinct_effects(self.effects@) {
                lemma_filter_distinct(self.effects@, running_in(self.turn_number as nat));
            }
        }
        let mut kept: Vec<Effect> = Vec::new();
        let mut i: usize = 0;
        while i < self.effects.len()
            invariant
                i <= self.effects@.len(),
                *self == *old(self),
                kept@ == self.effects@.take(i as int).filter(
                    running_in(self.turn_number as nat),
                ),
            decreases self.effects@.len() - i,
        {
            let e = self.effects[i];
            proof {
                let prefix = self.effects@.take(i as int);
                assert(self.effects@.take(i + 1) =~= prefix.push(e));
                prefix.lemma_filter_push(e, running_in(self.turn_number as nat));
            }
            if e.turn_number > self.turn_number || e.duration > self.turn_number - e.turn_number {
                kept.push(e);
            }
            i += 1;
        }
        assert(self.effects@.take(i as int) =~= self.effects@);
        self.effects = kept;
    }
}

/// A vector of `n` copies of `value`.
fn filled(value: i32, n: usize) -> (v: Vec<i32>)
    ensures
        v@.len() == n,
        forall|i: int| 0 <= i < n ==> v@[i] == value,
{
    let mut v: Vec<i32> = Vec::new();
    let mut i: usize = 0;
    while i < n
        invariant
            i <= n,
            v@.len() == i,
            forall|k: int| 0 <= k < i ==> v@[k] == value,
        decreases n - i,
    {
        v.push(value);
        i += 1;
    }
    v
}

} // verus!
