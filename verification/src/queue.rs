//! Which tokens a transport or sales card handles, and in which order.

use crate::cards::ChipType;
use crate::events::{Token, PRODUCTION_AREA, SALES_AREA};
use vstd::prelude::*;

verus! {

/// The tokens of kind `chip_type` that `player` may handle in turn `turn`.
/// For transport (`selling` false) these lie in the production area and
/// were produced before this turn; for sale they lie in the sales area and
/// were moved there before this turn.
pub open spec fn ready(selling: bool, chip_type: ChipType, player: usize, turn: usize) -> spec_fn(
    Token,
) -> bool {
    |t: Token|
        t.chip_type == chip_type && t.player == player && if selling {
            t.marker == SALES_AREA && t.turn_activation_2 < turn && t.turn_activation_2 != 0
        } else {
            t.marker == PRODUCTION_AREA && t.turn_activation_1 < turn
        }
}

/// Whether `a` is handled strictly before `b`: the shallower token first,
/// or the deeper one first where `descending` is set.
pub open spec fn goes_before(a: Token, b: Token, descending: bool) -> bool {
    if descending {
        a.depth > b.depth
    } else {
        a.depth < b.depth
    }
}

/// `tokens`, which are in order, with `t` put behind the last token that
/// does not have to come after it.
pub open spec fn placed(tokens: Seq<Token>, t: Token, descending: bool) -> Seq<Token>
    decreases tokens.len(),
{
    if tokens.len() > 0 && goes_before(t, tokens.last(), descending) {
        placed(tokens.drop_last(), t, descending).push(tokens.last())
    } else {
        tokens.push(t)
    }
}

/// `tokens` in order of depth; tokens of one depth keep the order in which
/// they stand in `tokens`.
pub open spec fn ordered_by_depth(tokens: Seq<Token>, descending: bool) -> Seq<Token>
    decreases tokens.len(),
{
    if tokens.len() == 0 {
        tokens
    } else {
        placed(ordered_by_depth(tokens.drop_last(), descending), tokens.last(), descending)
    }
}

/// No token of `tokens` has to come before one that stands in front of it.
pub open spec fn in_order(tokens: Seq<Token>, descending: bool) -> bool {
    forall|i: int, j: int|
        0 <= i < j < tokens.len() ==> !goes_before(
            #[trigger] tokens[j],
            #[trigger] tokens[i],
            descending,
        )
}

/// The tokens of `first` and `second` in turn, one of each as long as both
/// last, then what is left of the longer.
pub open spec fn interleaved(first: Seq<Token>, second: Seq<Token>) -> Seq<Token> {
    let common = if first.len() <= second.len() {
        first.len()
    } else {
        second.len()
    };
    Seq::new(
        first.len() + second.len(),
        |i: int|
            if i < 2 * common {
                if i % 2 == 0 {
                    first[i / 2]
                } else {
                    second[i / 2]
                }
            } else if first.len() > common {
                first[i - common]
            } else {
                second[i - common]
            },
    )
}

/// The order in which a card of `player` handles the tokens in turn
/// `turn`: Cannabis and Cocaine tokens in turn, each kind by depth, from
/// the bottom of the stack for transport and from its top for sale.
pub open spec fn handling_queue(chips: Seq<Token>, selling: bool, player: usize, turn: usize) -> Seq<
    Token,
> {
    interleaved(
        ordered_by_depth(chips.filter(ready(selling, ChipType::Cannabis, player, turn)), selling),
        ordered_by_depth(chips.filter(ready(selling, ChipType::Cocaine, player, turn)), selling),
    )
}

/// How many tokens a card of worth `value` handles out of `waiting`: each
/// token takes 2 of the worth, and the last may take what is left.
pub open spec fn handled(value: nat, waiting: nat) -> nat {
    if waiting <= (value + 1) / 2 {
        waiting
    } else {
        (value + 1) / 2
    }
}

/// Putting a token in at place `k` is what `placed` does, where `k` is behind
/// every token that need not follow `t` and before all that must.
proof fn lemma_placed_at(tokens: Seq<Token>, t: Token, descending: bool, k: int)
    requires
        0 <= k <= tokens.len(),
        forall|j: int| k <= j < tokens.len() ==> goes_before(t, #[trigger] tokens[j], descending),
        k > 0 ==> !goes_before(t, tokens[k - 1], descending),
    ensures
        placed(tokens, t, descending) == tokens.insert(k, t),
    decreases tokens.len(),
{
    if k < tokens.len() {
        let front = tokens.drop_last();
        assert(goes_before(t, tokens[tokens.len() - 1], descending));
        assert forall|j: int| k <= j < front.len() implies goes_before(
            t,
            #[trigger] front[j],
            descending,
        ) by {
            assert(front[j] == tokens[j]);
        }
        lemma_placed_at(front, t, descending, k);
        assert(front.insert(k, t).push(tokens.last()) =~= tokens.insert(k, t));
    } else {
        assert(tokens.push(t) =~= tokens.insert(k, t));
    }
}

/// Putting a token into an ordered sequence leaves it ordered.
proof fn lemma_placed_in_order(tokens: Seq<Token>, t: Token, descending: bool)
    requires
        in_order(tokens, descending),
    ensures
        in_order(placed(tokens, t, descending), descending),
        placed(tokens, t, descending).to_multiset() == tokens.to_multiset().insert(t),
        placed(tokens, t, descending).len() == tokens.len() + 1,
        forall|i: int|
            0 <= i < tokens.len() + 1 ==> (#[trigger] placed(tokens, t, descending)[i]) == t
                || tokens.contains(placed(tokens, t, descending)[i]),
    decreases tokens.len(),
{
    broadcast use vstd::seq_lib::group_to_multiset_ensures;

    if tokens.len() > 0 && goes_before(t, tokens.last(), descending) {
        let front = tokens.drop_last();
        let last = tokens.last();
        assert(tokens =~= front.push(last));
        assert(in_order(front, descending)) by {
            assert forall|i: int, j: int| 0 <= i < j < front.len() implies !goes_before(
                #[trigger] front[j],
                #[trigger] front[i],
                descending,
            ) by {
                assert(front[i] == tokens[i] && front[j] == tokens[j]);
            }
        }
        lemma_placed_in_order(front, t, descending);
        let inner = placed(front, t, descending);
        let all = inner.push(last);
        assert forall|i: int, j: int| 0 <= i < j < all.len() implies !goes_before(
            #[trigger] all[j],
            #[trigger] all[i],
            descending,
        ) by {
            if j == inner.len() {
                if inner[i] != t {
                    assert(front.contains(inner[i]));
                    let k = choose|k: int| 0 <= k < front.len() && front[k] == inner[i];
                    assert(tokens[k] == inner[i] && tokens[tokens.len() - 1] == last);
                }
            } else {
                assert(all[i] == inner[i] && all[j] == inner[j]);
            }
        }
        assert(all.to_multiset() =~= tokens.to_multiset().insert(t));
        assert forall|i: int| 0 <= i < tokens.len() + 1 implies (#[trigger] all[i]) == t
            || tokens.contains(all[i]) by {
            if i < inner.len() {
                if inner[i] != t {
                    assert(front.contains(inner[i]));
                    let k = choose|k: int| 0 <= k < front.len() && front[k] == inner[i];
                    assert(tokens[k] == inner[i]);
                }
            } else {
                assert(tokens[tokens.len() - 1] == last);
            }
        }
    } else {
        let all = tokens.push(t);
        assert forall|i: int, j: int| 0 <= i < j < all.len() implies !goes_before(
            #[trigger] all[j],
            #[trigger] all[i],
            descending,
        ) by {
            if j == tokens.len() {
                if tokens.len() > 0 {
                    assert(!goes_before(t, tokens[tokens.len() - 1], descending));
                    assert(i < tokens.len() - 1 ==> !goes_before(
                        tokens[tokens.len() - 1],
                        tokens[i],
                        descending,
                    ));
                }
            } else {
                assert(all[i] == tokens[i] && all[j] == tokens[j]);
            }
        }
        assert forall|i: int| 0 <= i < tokens.len() + 1 implies (#[trigger] all[i]) == t
            || tokens.contains(all[i]) by {
            if i < tokens.len() {
                assert(tokens[i] == all[i]);
            }
        }
    }
}

/// Ordering by depth rearranges the tokens and loses none: what comes out
/// holds each token as often as what went in, and no token stands behind
/// one that has to come after it.
pub proof fn lemma_ordered_by_depth(tokens: Seq<Token>, descending: bool)
    ensures
        in_order(ordered_by_depth(tokens, descending), descending),
        ordered_by_depth(tokens, descending).to_multiset() == tokens.to_multiset(),
        ordered_by_depth(tokens, descending).len() == tokens.len(),
    decreases tokens.len(),
{
    broadcast use vstd::seq_lib::group_to_multiset_ensures;

    if tokens.len() > 0 {
        let front = tokens.drop_last();
        lemma_ordered_by_depth(front, descending);
        lemma_placed_in_order(ordered_by_depth(front, descending), tokens.last(), descending);
        assert(tokens =~= front.push(tokens.last()));
    }
}

/// The queue holds every ready token of the two kinds once, and no card
/// handles more tokens than wait or than its worth pays for.
pub proof fn lemma_queue_len(chips: Seq<Token>, selling: bool, player: usize, turn: usize, value: nat)
    ensures
        handling_queue(chips, selling, player, turn).len() == chips.filter(
            ready(selling, ChipType::Cannabis, player, turn),
        ).len() + chips.filter(ready(selling, ChipType::Cocaine, player, turn)).len(),
        handled(value, handling_queue(chips, selling, player, turn).len()) <= handling_queue(
            chips,
            selling,
            player,
            turn,
        ).len(),
        2 * handled(value, handling_queue(chips, selling, player, turn).len()) <= value + 1,
{
    lemma_ordered_by_depth(chips.filter(ready(selling, ChipType::Cannabis, player, turn)), selling);
    lemma_ordered_by_depth(chips.filter(ready(selling, ChipType::Cocaine, player, turn)), selling);
}

/// The tokens of kind `chip_type` that lie in an area `marker`, of
/// whichever player.
pub open spec fn stacked(marker: usize, chip_type: ChipType) -> spec_fn(Token) -> bool {
    |t: Token| t.marker == marker && t.chip_type == chip_type
}

/// How many tokens of kind `chip_type` lie in the areas `marker`: the
/// height at which the next token of that kind comes to lie there.
pub fn count_stacked(chips: &Vec<Token>, marker: usize, chip_type: ChipType) -> (count: usize)
    ensures
        count == chips@.filter(stacked(marker, chip_type)).len(),
{
    let mut count: usize = 0;
    let mut i: usize = 0;
    while i < chips.len()
        invariant
            i <= chips@.len(),
            count <= i,
            count == chips@.take(i as int).filter(stacked(marker, chip_type)).len(),
        decreases chips@.len() - i,
    {
        let t = chips[i];
        proof {
            let prefix = chips@.take(i as int);
            assert(chips@.take(i + 1) =~= prefix.push(t));
            prefix.lemma_filter_push(t, stacked(marker, chip_type));
        }
        if t.marker == marker && t.chip_type == chip_type {
            count += 1;
        }
        i += 1;
    }
    assert(chips@.take(i as int) =~= chips@);
    count
}

/// Whether `a` is handled strictly before `b`.
pub fn handled_before(a: &Token, b: &Token, descending: bool) -> (before: bool)
    ensures
        before == goes_before(*a, *b, descending),
{
    if descending {
        a.depth > b.depth
    } else {
        a.depth < b.depth
    }
}

/// The tokens of `chips` that are ready, in the order of `chips`.
pub fn select_ready(
    chips: &Vec<Token>,
    selling: bool,
    chip_type: ChipType,
    player: usize,
    turn: usize,
) -> (found: Vec<Token>)
    ensures
        found@ == chips@.filter(ready(selling, chip_type, player, turn)),
{
    let mut found: Vec<Token> = Vec::new();
    let mut i: usize = 0;
    while i < chips.len()
        invariant
            i <= chips@.len(),
            found@ == chips@.take(i as int).filter(ready(selling, chip_type, player, turn)),
        decreases chips@.len() - i,
    {
        let t = chips[i];
        proof {
            let prefix = chips@.take(i as int);
            assert(chips@.take(i + 1) =~= prefix.push(t));
            prefix.lemma_filter_push(t, ready(selling, chip_type, player, turn));
        }
        let in_place = if selling {
            t.marker == SALES_AREA && t.turn_activation_2 < turn && t.turn_activation_2 != 0
        } else {
            t.marker == PRODUCTION_AREA && t.turn_activation_1 < turn
        };
        if t.chip_type == chip_type && t.player == player && in_place {
            found.push(t);
        }
        i += 1;
    }
    assert(chips@.take(i as int) =~= chips@);
    found
}

/// Orders tokens by depth, ascending or descending; tokens of one depth
/// stay in the order in which they came.
pub fn sort_by_depth(tokens: &Vec<Token>, descending: bool) -> (sorted: Vec<Token>)
    ensures
        sorted@ == ordered_by_depth(tokens@, descending),
{
    let mut sorted: Vec<Token> = Vec::new();
    let mut i: usize = 0;
    while i < tokens.len()
        invariant
            i <= tokens@.len(),
            sorted@ == ordered_by_depth(tokens@.take(i as int), descending),
            sorted@.len() == i,
        decreases tokens@.len() - i,
    {
        let t = tokens[i];
        let mut k: usize = sorted.len();
        while k > 0 && handled_before(&t, &sorted[k - 1], descending)
            invariant
                k <= sorted@.len(),
                forall|j: int| k <= j < sorted@.len() ==> goes_before(t, #[trigger] sorted@[j], descending),
            decreases k,
        {
            k -= 1;
        }
        proof {
            lemma_placed_at(sorted@, t, descending, k as int);
            assert(tokens@.take(i + 1).drop_last() =~= tokens@.take(i as int));
        }
        sorted.insert(k, t);
        i += 1;
    }
    assert(tokens@.take(i as int) =~= tokens@);
    sorted
}

/// Two rows of tokens in turn, then what is left of the longer row.
pub fn interleave(first: &Vec<Token>, second: &Vec<Token>) -> (order: Vec<Token>)
    ensures
        order@ == interleaved(first@, second@),
{
    let common = if first.len() <= second.len() {
        first.len()
    } else {
        second.len()
    };
    let ghost goal = interleaved(first@, second@);
    let mut order: Vec<Token> = Vec::new();
    let mut i: usize = 0;
    while i < common
        invariant
            i <= common,
            common <= first@.len(),
            common <= second@.len(),
            goal == interleaved(first@, second@),
            order@.len() == 2 * i,
            forall|j: int| 0 <= j < order@.len() ==> order@[j] == goal[j],
        decreases common - i,
    {
        order.push(first[i]);
        order.push(second[i]);
        i += 1;
    }
    let mut a: usize = common;
    while a < first.len()
        invariant
            common <= a <= first@.len(),
            common == second@.len() || common == first@.len(),
            common <= second@.len(),
            goal == interleaved(first@, second@),
            order@.len() == common + a,
            forall|j: int| 0 <= j < order@.len() ==> order@[j] == goal[j],
        decreases first@.len() - a,
    {
        order.push(first[a]);
        a += 1;
    }
    let mut b: usize = common;
    while b < second.len()
        invariant
            common <= b <= second@.len(),
            common == second@.len() || common == first@.len(),
            common <= first@.len(),
            a == first@.len(),
            goal == interleaved(first@, second@),
            order@.len() == a + b,
            forall|j: int| 0 <= j < order@.len() ==> order@[j] == goal[j],
        decreases second@.len() - b,
    {
        order.push(second[b]);
        b += 1;
    }
    assert(order@ =~= goal);
    order
}

/// The order in which a card of `player` handles the tokens of `chips` in
/// turn `turn`.
pub fn handling_order(chips: &Vec<Token>, selling: bool, player: usize, turn: usize) -> (order: Vec<
    Token,
>)
    ensures
        order@ == handling_queue(chips@, selling, player, turn),
{
    let cannabis = select_ready(chips, selling, ChipType::Cannabis, player, turn);
    let cocaine = select_ready(chips, selling, ChipType::Cocaine, player, turn);
    let cannabis = sort_by_depth(&cannabis, selling);
    let cocaine = sort_by_depth(&cocaine, selling);
    interleave(&cannabis, &cocaine)
}

} // verus!
