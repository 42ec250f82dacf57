//! The driving of the state machine: honouring requests for the next
//! phase behind a cooldown, switching the acting player, stamping moved
//! tokens.

use crate::cards::ChipType;
use crate::events::{Command, MoveChip, SwitchPlayer, Token, PRODUCTION_AREA, SALES_AREA};
use crate::state::{GameModel, GameState, TurnPhase};
use bevy::time::{Timer, TimerMode};
use std::time::Duration;
use vstd::prelude::*;

verus! {

/// The cooldown between two honoured requests, in microseconds.
pub const COOLDOWN_MICROS: u64 = 300_000;

/// The cooldown that paces the phase advances: for how many microseconds
/// it has run, and whether it is over.
#[derive(Clone, Copy, Debug, PartialEq, Eq, Structural)]
pub struct PhaseTimer {
    pub elapsed_micros: u64,
    pub finished: bool,
}

/// A timer of `duration` microseconds that runs once, having run for
/// `elapsed`, after `delta` more: it is over once it has run for its
/// duration, and then shows its duration as the time it has run.
pub open spec fn run_once(duration: u64, elapsed: u64, delta: u64) -> PhaseTimer {
    if elapsed + delta >= duration {
        PhaseTimer { elapsed_micros: duration, finished: true }
    } else {
        PhaseTimer { elapsed_micros: (elapsed + delta) as u64, finished: false }
    }
}

/// Lets `bevy::time::Timer` run: a timer made by `Timer::new` in the mode
/// that runs once, set to `elapsed_micros` by `Timer::set_elapsed`, is
/// handed `delta_micros` by `Timer::tick`; what `Timer::elapsed` and
/// `Timer::finished` then say comes back. The contract claims what `tick`
/// does to such a timer: it adds the delta to the time run, the timer is
/// over exactly if that sum reaches the duration, and a timer that is over
/// shows its duration as the time it has run. Two spans of whole
/// microseconds add up within what a `Duration` holds.
#[verifier::external_body]
fn timer_run_once(duration_micros: u64, elapsed_micros: u64, delta_micros: u64) -> (timer:
    PhaseTimer)
    ensures
        timer == run_once(duration_micros, elapsed_micros, delta_micros),
{
    let mut timer = Timer::new(Duration::from_micros(duration_micros), TimerMode::Once);
    timer.set_elapsed(Duration::from_micros(elapsed_micros));
    timer.tick(Duration::from_micros(delta_micros));
    PhaseTimer { elapsed_micros: timer.elapsed().as_micros() as u64, finished: timer.finished() }
}

impl PhaseTimer {
    /// A cooldown that has not begun to run.
    pub open spec fn fresh() -> PhaseTimer {
        PhaseTimer { elapsed_micros: 0, finished: false }
    }

    /// The cooldown after `delta_micros` more microseconds: one that is
    /// over stays as it is, one that still runs runs on.
    pub open spec fn ticked(self, delta_micros: u64) -> PhaseTimer {
        if self.finished {
            self
        } else {
            run_once(COOLDOWN_MICROS, self.elapsed_micros, delta_micros)
        }
    }

    /// A cooldown that has not begun to run.
    pub fn new() -> (timer: PhaseTimer)
        ensures
            timer == PhaseTimer::fresh(),
    {
        PhaseTimer { elapsed_micros: 0, finished: false }
    }

    /// Whether the cooldown is over.
    pub fn finished(&self) -> (finished: bool)
        ensures
            finished == self.finished,
    {
        self.finished
    }

    /// Lets the cooldown run for `delta_micros` microseconds, if it is not
    /// over yet.
    pub fn tick(&mut self, delta_micros: u64)
        ensures
            *final(self) == old(self).ticked(delta_micros),
    {
        if !self.finished {
            *self = timer_run_once(COOLDOWN_MICROS, self.elapsed_micros, delta_micros);
        }
    }

    /// Starts the cooldown anew.
    pub fn reset(&mut self)
        ensures
            *final(self) == PhaseTimer::fresh(),
    {
        self.elapsed_micros = 0;
        self.finished = false;
    }
}

/// A cooldown that has just begun is over exactly when the time handed to
/// it, in one span or in two, adds up to `COOLDOWN_MICROS`; and one that is
/// over stays over until it is started anew.
pub proof fn lemma_cooldown(first: u64, second: u64, timer: PhaseTimer)
    ensures
        PhaseTimer::fresh().ticked(first).finished == (first >= COOLDOWN_MICROS),
        PhaseTimer::fresh().ticked(first).ticked(second).finished == (first + second
            >= COOLDOWN_MICROS),
        timer.finished ==> timer.ticked(first) == timer,
{
}

/// The command to straighten the tokens of one kind in one area.
pub open spec fn align(marker: usize, player: usize, chip_type: ChipType) -> Command {
    Command::AlignChipsOnTable { marker, player, chip_type }
}

/// What leaving a phase asks of the table: the hand is straightened when
/// the cards have been placed, and at the end of a turn the tokens of the
/// first two players are, area by area.
pub open spec fn leaving_commands(m: GameModel) -> Seq<Command> {
    match m.phase {
        TurnPhase::PlaceCardsOnTable => seq![
            Command::AlignCardsInHand { player: m.player as usize },
        ],
        TurnPhase::End => seq![
            align(PRODUCTION_AREA, 1, ChipType::Cocaine),
            align(PRODUCTION_AREA, 1, ChipType::Cannabis),
            align(SALES_AREA, 1, ChipType::Cocaine),
            align(SALES_AREA, 1, ChipType::Cannabis),
            align(PRODUCTION_AREA, 2, ChipType::Cocaine),
            align(PRODUCTION_AREA, 2, ChipType::Cannabis),
            align(SALES_AREA, 2, ChipType::Cocaine),
            align(SALES_AREA, 2, ChipType::Cannabis),
        ],
        _ => Seq::empty(),
    }
}

/// What an honoured request asks of the table: what leaving the phase
/// asks, and the switch to the next player where the advance changes the
/// acting player.
pub open spec fn advance_commands(m: GameModel) -> Seq<Command> {
    if m.advance().player != m.player {
        leaving_commands(m).push(
            Command::SwitchPlayer(SwitchPlayer { player: m.advance().player as usize }),
        )
    } else {
        leaving_commands(m)
    }
}

/// Honours one request for the next phase: advances the state and tells
/// what the table has to do.
pub fn honor_advance(game_state: &mut GameState) -> (commands: Vec<Command>)
    requires
        old(game_state).can_advance(),
    ensures
        final(game_state)@ == old(game_state)@.advance(),
        commands@ == advance_commands(old(game_state)@),
        old(game_state).wf() ==> final(game_state).wf(),
{
    let mut commands: Vec<Command> = Vec::new();
    match game_state.phase {
        TurnPhase::PlaceCardsOnTable => {
            commands.push(Command::AlignCardsInHand { player: game_state.player });
        },
        TurnPhase::End => {
            commands.push(
                Command::AlignChipsOnTable {
                    marker: PRODUCTION_AREA,
                    player: 1,
                    chip_type: ChipType::Cocaine,
                },
            );
            commands.push(
                Command::AlignChipsOnTable {
                    marker: PRODUCTION_AREA,
                    player: 1,
                    chip_type: ChipType::Cannabis,
                },
            );
            commands.push(
                Command::AlignChipsOnTable {
                    marker: SALES_AREA,
                    player: 1,
                    chip_type: ChipType::Cocaine,
                },
            );
            commands.push(
                Command::AlignChipsOnTable {
                    marker: SALES_AREA,
                    player: 1,
                    chip_type: ChipType::Cannabis,
                },
            );
            commands.push(
                Command::AlignChipsOnTable {
                    marker: PRODUCTION_AREA,
                    player: 2,
                    chip_type: ChipType::Cocaine,
                },
            );
            commands.push(
                Command::AlignChipsOnTable {
                    marker: PRODUCTION_AREA,
                    player: 2,
                    chip_type: ChipType::Cannabis,
                },
            );
            commands.push(
                Command::AlignChipsOnTable {
                    marker: SALES_AREA,
                    player: 2,
                    chip_type: ChipType::Cocaine,
                },
            );
            commands.push(
                Command::AlignChipsOnTable {
                    marker: SALES_AREA,
                    player: 2,
                    chip_type: ChipType::Cannabis,
                },
            );
        },
        _ => {},
    }
    assert(commands@ =~= leaving_commands(game_state@));
    let previous_player = game_state.player;
    game_state.advance();
    let next_player = game_state.player;
    if previous_player != next_player {
        commands.push(Command::SwitchPlayer(SwitchPlayer { player: next_player }));
    }
    commands
}

/// What a tick makes of the requests for the next phase, given whether one
/// is asked for and whether the cooldown is over: with both, one request
/// is honoured; else nothing happens.
pub fn next_phase(asked: bool, cooldown_over: bool, game_state: &mut GameState) -> (commands: Vec<
    Command,
>)
    requires
        asked && cooldown_over ==> old(game_state).can_advance(),
    ensures
        asked && cooldown_over ==> final(game_state)@ == old(game_state)@.advance() && commands@
            == advance_commands(old(game_state)@),
        !(asked && cooldown_over) ==> final(game_state)@ == old(game_state)@ && commands@.len()
            == 0,
        old(game_state).wf() ==> final(game_state).wf(),
{
    if asked && cooldown_over {
        honor_advance(game_state)
    } else {
        Vec::new()
    }
}

/// Whether a tick honours a request: one waits from an earlier tick or
/// comes in this one, and the cooldown is over once the time that has
/// passed is handed to it.
pub open spec fn honours(requests: usize, waiting: bool, timer: PhaseTimer, delta_micros: u64) -> bool {
    (waiting || requests > 0) && timer.ticked(delta_micros).finished
}

/// One tick of the driver. The `delta_micros` microseconds that have
/// passed are handed to a cooldown that still runs. A request that comes
/// while the cooldown runs waits. In the first tick in which the cooldown
/// is over and a request waits or comes, one advance is made for all of
/// them, nothing waits any longer, and the cooldown starts anew.
pub fn handle_next_phase(
    requests: usize,
    waiting: &mut bool,
    game_state: &mut GameState,
    phase_timer: &mut PhaseTimer,
    delta_micros: u64,
) -> (commands: Vec<Command>)
    requires
        honours(requests, *old(waiting), *old(phase_timer), delta_micros) ==> old(
            game_state,
        ).can_advance(),
    ensures
        honours(requests, *old(waiting), *old(phase_timer), delta_micros) ==> {
            &&& final(game_state)@ == old(game_state)@.advance()
            &&& commands@ == advance_commands(old(game_state)@)
            &&& *final(phase_timer) == PhaseTimer::fresh()
            &&& !*final(waiting)
        },
        !honours(requests, *old(waiting), *old(phase_timer), delta_micros) ==> {
            &&& final(game_state)@ == old(game_state)@
            &&& commands@.len() == 0
            &&& *final(phase_timer) == old(phase_timer).ticked(delta_micros)
            &&& *final(waiting) == (*old(waiting) || requests > 0)
        },
        old(game_state).wf() ==> final(game_state).wf(),
{
    if !phase_timer.finished() {
        phase_timer.tick(delta_micros);
    }
    let asked = *waiting || requests > 0;
    let cooldown_over = phase_timer.finished();
    let commands = next_phase(asked, cooldown_over, game_state);
    if asked && cooldown_over {
        phase_timer.reset();
        *waiting = false;
    } else {
        *waiting = asked;
    }
    commands
}

/// A request that comes while the cooldown runs is not lost: it waits, and
/// the first later tick in which the cooldown is over honours it, with or
/// without a new request.
pub proof fn lemma_waiting_request_is_honoured(timer: PhaseTimer, first: u64, second: u64)
    requires
        !timer.ticked(first).finished,
        timer.ticked(first).ticked(second).finished,
    ensures
        !honours(1, false, timer, first),
        honours(0, true, timer.ticked(first), second),
{
}

/// Makes `event.player` the acting player.
pub fn handle_switch_player(event: &SwitchPlayer, game_state: &mut GameState)
    ensures
        final(game_state)@ == (GameModel { player: event.player as nat, ..old(game_state)@ }),
{
    game_state.player = event.player;
}

/// Whether a token of `chips` is the entity `entity`.
pub open spec fn on_table(chips: Seq<Token>, entity: u64) -> bool {
    exists|i: int| 0 <= i < chips.len() && (#[trigger] chips[i]).entity == entity
}

/// The place in `chips` of the first token that is the entity `entity`.
pub open spec fn place_of(chips: Seq<Token>, entity: u64) -> int {
    choose|i: int|
        0 <= i < chips.len() && (#[trigger] chips[i]).entity == entity && forall|j: int|
            0 <= j < i ==> (#[trigger] chips[j]).entity != entity
}

/// `token`, moved to the sales area in turn `turn`.
pub open spec fn stamped(token: Token, turn: usize) -> Token {
    Token { turn_activation_2: turn, ..token }
}

/// Stamps the token that is moved with the current turn, as the turn in
/// which it reached the sales area. The token has to be on the table.
pub fn handle_move_chip(move_chip: &MoveChip, chips: &mut Vec<Token>, state: &GameState)
    requires
        on_table(old(chips)@, move_chip.entity),
    ensures
        final(chips)@ == old(chips)@.update(
            place_of(old(chips)@, move_chip.entity),
            stamped(old(chips)@[place_of(old(chips)@, move_chip.entity)], state.turn_number),
        ),
{
    let mut i: usize = 0;
    while i < chips.len() && chips[i].entity != move_chip.entity
        invariant
            i <= chips@.len(),
            *chips == *old(chips),
            forall|j: int| 0 <= j < i ==> (#[trigger] chips@[j]).entity != move_chip.entity,
        decreases chips@.len() - i,
    {
        i += 1;
    }
    proof {
        let p = place_of(chips@, move_chip.entity);
        assert(i < chips@.len());
        assert(chips@[i as int].entity == move_chip.entity);
        assert(p == i);
    }
    let token = chips[i];
    chips.set(i, Token { turn_activation_2: state.turn_number, ..token });
}

} // verus!
