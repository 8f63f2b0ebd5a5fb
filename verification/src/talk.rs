//! What a run and its strategy say to each other.
use crate::candle::Bar;
use crate::cell::{CellView, Reply};
use crate::number::Arithmetic;
use crate::strategy::{Signal, Strategy};
use vstd::prelude::*;

verus! {

/// One bar's exchange with a strategy.
pub struct Round<S: Strategy> {
    /// The strategy before the bar.
    pub before: S,
    /// The strategy after it has taken in the bar's close.
    pub after: S,
    /// What it saw of the market then.
    pub snapshot: S::Snapshot,
    /// What it answered.
    pub reply: Reply,
}

/// The answers of each round.
pub open spec fn replies_of<S: Strategy>(rounds: Seq<Round<S>>) -> Seq<Reply> {
    rounds.map_values(|round: Round<S>| round.reply)
}

/// The strategy after these rounds, if it began as `first`.
pub open spec fn left_by<S: Strategy>(first: S, rounds: Seq<Round<S>>) -> S {
    if rounds.len() == 0 {
        first
    } else {
        rounds.last().after
    }
}

/// The round is what a run in the state `cell` makes of a bar: the strategy takes
/// in the close and the time of a usable bar; it is asked for an exit where the run
/// has something to ask, and told just what the run has to tell; it is asked for an
/// entry where the run wants one; and it is asked nothing else.
pub open spec fn is_round<S: Strategy>(
    ar: Arithmetic,
    cell: CellView,
    bar: Bar,
    round: Round<S>,
) -> bool {
    if !bar.is_usable() {
        round.after == round.before
    } else {
        &&& call_ensures(S::push_price, (round.before, bar.close, bar.t), round.after)
        &&& call_ensures(S::snapshot, (&round.after,), round.snapshot)
        &&& match cell.begun(ar, bar).query(ar, bar) {
            Some(context) => call_ensures(
                S::detect_exit,
                (&round.after, &round.snapshot, &context),
                round.reply.exit,
            ),
            None => round.reply.exit is None,
        }
        &&& if cell.settled(ar, bar, round.reply.exit).wants_entry(bar) {
            call_ensures(S::detect_entry, (&round.after, &round.snapshot), round.reply.entry)
        } else {
            round.reply.entry == Signal::Hold
        }
    }
}

/// The rounds are the exchange of a run that starts as `cell` with a strategy that
/// starts as `first`, over these bars.
pub open spec fn converses<S: Strategy>(
    ar: Arithmetic,
    cell: CellView,
    first: S,
    bars: Seq<Bar>,
    rounds: Seq<Round<S>>,
) -> bool
    decreases bars.len(),
{
    &&& rounds.len() == bars.len()
    &&& bars.len() > 0 ==> {
        let earlier = rounds.drop_last();
        &&& converses(ar, cell, first, bars.drop_last(), earlier)
        &&& rounds.last().before == left_by(first, earlier)
        &&& is_round(
            ar,
            cell.after_bars(ar, bars.drop_last(), replies_of(earlier)),
            bars.last(),
            rounds.last(),
        )
    }
}

/// An exchange goes on by one round.
pub proof fn converses_on<S: Strategy>(
    ar: Arithmetic,
    cell: CellView,
    first: S,
    bars: Seq<Bar>,
    rounds: Seq<Round<S>>,
    bar: Bar,
    round: Round<S>,
)
    requires
        converses(ar, cell, first, bars, rounds),
        round.before == left_by(first, rounds),
        is_round(ar, cell.after_bars(ar, bars, replies_of(rounds)), bar, round),
    ensures
        converses(ar, cell, first, bars.push(bar), rounds.push(round)),
        cell.after_bars(ar, bars.push(bar), replies_of(rounds.push(round))) == cell.after_bars(
            ar,
            bars,
            replies_of(rounds),
        ).after_bar(ar, bar, round.reply),
{
    assert(bars.push(bar).drop_last() =~= bars);
    assert(rounds.push(round).drop_last() =~= rounds);
    assert(replies_of(rounds.push(round)).drop_last() =~= replies_of(rounds));
    assert(replies_of(rounds.push(round)).last() == round.reply);
}

} // verus!
