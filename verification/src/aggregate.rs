//! The player aggregator: one `Player` aggregate per distinct player
//! name, summing a configurable metric over every match the player
//! appears in.
//!
//! The metric is a single run-wide choice: `Metric::Rank` sums ranks
//! (lower total is better, the default of the pipeline), `Metric::Score`
//! sums scores (higher total is better).  A score row without the chosen
//! metric contributes zero.  Totals saturate at `u64::MAX`; below that
//! bound they are the exact sums, and aggregation is additive across any
//! split of the matches ([`lemma_aggregate_additive`]).
//!
//! Players appear in first-encounter order, which makes the output a
//! function of the input alone.

use vstd::prelude::*;

use crate::records::{Match, Player, Score, SpecMatch, SpecPlayer, SpecScore};
use crate::util::{clamp_u64, find_first, lemma_find_first, sat_add_u64};

verus! {

/// The metric summed into player totals, fixed once per run.
#[derive(Clone, Copy, Debug, PartialEq, Eq, Structural)]
pub enum Metric {
    /// Sum of ranks: lower total is better.
    Rank,
    /// Sum of scores: higher total is better.
    Score,
}

/// What one score contributes to its player's total: the chosen metric's
/// value, or zero when the row did not declare it.
pub open spec fn metric_value(s: SpecScore, m: Metric) -> u64 {
    match m {
        Metric::Rank => match s.rank {
            Some(r) => r,
            None => 0,
        },
        Metric::Score => match s.score {
            Some(v) => v,
            None => 0,
        },
    }
}

/// Executable twin of [`metric_value`].
pub fn metric_of(score: &Score, metric: Metric) -> (v: u64)
    ensures
        v == metric_value(score@, metric),
{
    match metric {
        Metric::Rank => match score.rank {
            Some(r) => r,
            None => 0,
        },
        Metric::Score => match score.score {
            Some(v) => v,
            None => 0,
        },
    }
}

/// The index of the aggregate carrying `name`, if any.  Names are unique
/// in any sequence the aggregator builds, so the first index is the only
/// one.
pub open spec fn player_index(ps: Seq<SpecPlayer>, name: Seq<char>) -> Option<int> {
    find_first(ps, |p: SpecPlayer| p.name == name)
}

/// `player_index` returns the least index bearing `name`, and `None`
/// exactly when no aggregate bears it.
pub proof fn lemma_player_index(ps: Seq<SpecPlayer>, name: Seq<char>)
    ensures
        match player_index(ps, name) {
            Some(i) => 0 <= i < ps.len() && ps[i].name == name && (forall|j: int|
                0 <= j < i ==> ps[j].name != name),
            None => forall|j: int| 0 <= j < ps.len() ==> ps[j].name != name,
        },
{
    lemma_find_first(ps, |p: SpecPlayer| p.name == name);
}

/// One accumulation step: the score's metric value joins its player's
/// total, a new aggregate being created on first encounter of the name.
pub open spec fn spec_add_score(ps: Seq<SpecPlayer>, s: SpecScore, m: Metric) -> Seq<SpecPlayer> {
    match player_index(ps, s.player_name) {
        Some(i) => ps.update(
            i,
            SpecPlayer {
                name: ps[i].name,
                total: clamp_u64((ps[i].total + metric_value(s, m)) as nat),
            },
        ),
        None => ps.push(SpecPlayer { name: s.player_name, total: metric_value(s, m) }),
    }
}

/// The aggregation fold over a flat sequence of scores.
pub open spec fn spec_aggregate(ps: Seq<SpecPlayer>, ss: Seq<SpecScore>, m: Metric) -> Seq<
    SpecPlayer,
>
    decreases ss.len(),
{
    if ss.len() == 0 {
        ps
    } else {
        spec_add_score(spec_aggregate(ps, ss.drop_last(), m), ss.last(), m)
    }
}

/// Every score of every match, flattened in match order.
pub open spec fn spec_all_scores(ms: Seq<SpecMatch>) -> Seq<SpecScore>
    decreases ms.len(),
{
    if ms.len() == 0 {
        Seq::<SpecScore>::empty()
    } else {
        spec_all_scores(ms.drop_last()) + ms.last().scores
    }
}

/// The exact (unsaturated) total of `name` over a sequence of scores.
pub open spec fn total_of(ss: Seq<SpecScore>, name: Seq<char>, m: Metric) -> nat
    decreases ss.len(),
{
    if ss.len() == 0 {
        0
    } else {
        total_of(ss.drop_last(), name, m) + if ss.last().player_name == name {
            metric_value(ss.last(), m) as nat
        } else {
            0
        }
    }
}

/// Accumulates one score into the aggregates.
pub fn add_score(players: &mut Vec<Player>, score: &Score, metric: Metric)
    ensures
        final(players).deep_view() == spec_add_score(old(players).deep_view(), score@, metric),
{
    let ghost ps0 = old(players).deep_view();
    let v = metric_of(score, metric);
    let n = players.len();
    let mut i: usize = 0;
    while i < n
        invariant
            n == players.len(),
            ps0 == old(players).deep_view(),
            players.deep_view() == ps0,
            v == metric_value(score@, metric),
            i <= n,
            forall|j: int| 0 <= j < i ==> ps0[j].name != score@.player_name,
        decreases n - i,
    {
        if players[i].name == score.player_name {
            players[i].total = sat_add_u64(players[i].total, v);
            proof {
                assert(ps0[i as int].name == score@.player_name);
                lemma_player_index(ps0, score@.player_name);
                assert(player_index(ps0, score@.player_name) == Some(i as int));
                assert(players.deep_view() =~~= spec_add_score(ps0, score@, metric));
            }
            return ;
        }
        i += 1;
    }
    players.push(Player { name: score.player_name.clone(), total: v });
    proof {
        lemma_player_index(ps0, score@.player_name);
        assert(player_index(ps0, score@.player_name) is None);
        assert(players.deep_view() =~~= spec_add_score(ps0, score@, metric));
    }
}

/// Aggregates every score of every reconciled match into one `Player` per
/// distinct name, in first-encounter order.
pub fn aggregate_players(matches: &Vec<Match>, metric: Metric) -> (players: Vec<Player>)
    ensures
        players.deep_view() == spec_aggregate(
            Seq::<SpecPlayer>::empty(),
            spec_all_scores(matches.deep_view()),
            metric,
        ),
{
    let ghost msv = matches.deep_view();
    let mut players: Vec<Player> = Vec::new();
    let n = matches.len();
    let mut i: usize = 0;
    while i < n
        invariant
            n == matches.len(),
            msv == matches.deep_view(),
            i <= n,
            players.deep_view() == spec_aggregate(
                Seq::<SpecPlayer>::empty(),
                spec_all_scores(msv.take(i as int)),
                metric,
            ),
        decreases n - i,
    {
        let scores = &matches[i].scores;
        let w = scores.len();
        let mut k: usize = 0;
        while k < w
            invariant
                n == matches.len(),
                msv == matches.deep_view(),
                i < n,
                w == scores.len(),
                scores == &matches[i as int].scores,
                scores.deep_view() == msv[i as int].scores,
                k <= w,
                players.deep_view() == spec_aggregate(
                    Seq::<SpecPlayer>::empty(),
                    spec_all_scores(msv.take(i as int)) + msv[i as int].scores.take(k as int),
                    metric,
                ),
            decreases w - k,
        {
            let ghost pre = spec_all_scores(msv.take(i as int)) + msv[i as int].scores.take(
                k as int,
            );
            add_score(&mut players, &scores[k], metric);
            proof {
                let post = spec_all_scores(msv.take(i as int)) + msv[i as int].scores.take(
                    k + 1,
                );
                assert(post.drop_last() =~= pre);
                assert(post.last() == msv[i as int].scores[k as int]);
                assert(scores.deep_view()[k as int] == msv[i as int].scores[k as int]);
            }
            k += 1;
        }
        proof {
            assert(msv[i as int].scores.take(w as int) =~= msv[i as int].scores);
            assert(msv.take(i + 1).drop_last() =~= msv.take(i as int));
            assert(msv.take(i + 1).last() == msv[i as int]);
            assert(spec_all_scores(msv.take(i as int)) + msv[i as int].scores
                == spec_all_scores(msv.take(i + 1)));
        }
        i += 1;
    }
    proof {
        assert(msv.take(n as int) =~= msv);
    }
    players
}

/// Flattening distributes over concatenation of match sequences.
pub proof fn lemma_all_scores_concat(ms1: Seq<SpecMatch>, ms2: Seq<SpecMatch>)
    ensures
        spec_all_scores(ms1 + ms2) == spec_all_scores(ms1) + spec_all_scores(ms2),
    decreases ms2.len(),
{
    if ms2.len() == 0 {
        assert(ms1 + ms2 =~= ms1);
        assert(spec_all_scores(ms1) + spec_all_scores(ms2) =~= spec_all_scores(ms1));
    } else {
        lemma_all_scores_concat(ms1, ms2.drop_last());
        assert((ms1 + ms2).drop_last() =~= ms1 + ms2.drop_last());
        assert((ms1 + ms2).last() == ms2.last());
        assert(spec_all_scores(ms1) + spec_all_scores(ms2.drop_last()) + ms2.last().scores
            =~= spec_all_scores(ms1) + spec_all_scores(ms2));
    }
}

/// Aggregation is one fold over all scores: feeding two score sequences
/// through the same accumulator one after the other is the same as
/// feeding their concatenation.
pub proof fn lemma_aggregate_concat(
    ps: Seq<SpecPlayer>,
    ss1: Seq<SpecScore>,
    ss2: Seq<SpecScore>,
    m: Metric,
)
    ensures
        spec_aggregate(spec_aggregate(ps, ss1, m), ss2, m) == spec_aggregate(ps, ss1 + ss2, m),
    decreases ss2.len(),
{
    if ss2.len() == 0 {
        assert(ss1 + ss2 =~= ss1);
    } else {
        lemma_aggregate_concat(ps, ss1, ss2.drop_last(), m);
        assert((ss1 + ss2).drop_last() =~= ss1 + ss2.drop_last());
        assert((ss1 + ss2).last() == ss2.last());
    }
}

/// Player totals are additive: aggregating one set of matches and then a
/// second through the same accumulator yields exactly the aggregates of
/// the two sets combined.
pub proof fn lemma_aggregate_additive(
    ps: Seq<SpecPlayer>,
    ms1: Seq<SpecMatch>,
    ms2: Seq<SpecMatch>,
    m: Metric,
)
    ensures
        spec_aggregate(
            spec_aggregate(ps, spec_all_scores(ms1), m),
            spec_all_scores(ms2),
            m,
        ) == spec_aggregate(ps, spec_all_scores(ms1 + ms2), m),
{
    lemma_all_scores_concat(ms1, ms2);
    lemma_aggregate_concat(ps, spec_all_scores(ms1), spec_all_scores(ms2), m);
}

/// The exact total of `name` is additive over any split of the scores.
pub proof fn lemma_total_of_concat(
    ss1: Seq<SpecScore>,
    ss2: Seq<SpecScore>,
    name: Seq<char>,
    m: Metric,
)
    ensures
        total_of(ss1 + ss2, name, m) == total_of(ss1, name, m) + total_of(ss2, name, m),
    decreases ss2.len(),
{
    if ss2.len() == 0 {
        assert(ss1 + ss2 =~= ss1);
    } else {
        lemma_total_of_concat(ss1, ss2.drop_last(), name, m);
        assert((ss1 + ss2).drop_last() =~= ss1 + ss2.drop_last());
        assert((ss1 + ss2).last() == ss2.last());
    }
}

/// A name that occurs in no score has total zero.
proof fn lemma_total_of_absent(ss: Seq<SpecScore>, name: Seq<char>, m: Metric)
    requires
        forall|k: int| 0 <= k < ss.len() ==> ss[k].player_name != name,
    ensures
        total_of(ss, name, m) == 0,
    decreases ss.len(),
{
    if ss.len() > 0 {
        lemma_total_of_absent(ss.drop_last(), name, m);
    }
}

/// Aggregation is correct and complete: starting from aggregates with
/// pairwise-distinct names, the result keeps those names in place and
/// adds each name's exact total (clamped into `u64`); every name that
/// occurs in the scores has an aggregate; names stay pairwise distinct;
/// and brand-new aggregates carry exactly their name's total over the
/// scores.
pub proof fn lemma_aggregate_totals(ps: Seq<SpecPlayer>, ss: Seq<SpecScore>, m: Metric)
    requires
        forall|i: int, j: int| 0 <= i < j < ps.len() ==> ps[i].name != ps[j].name,
    ensures
        spec_aggregate(ps, ss, m).len() >= ps.len(),
        forall|i: int, j: int|
            0 <= i < j < spec_aggregate(ps, ss, m).len() ==> spec_aggregate(ps, ss, m)[i].name
                != spec_aggregate(ps, ss, m)[j].name,
        forall|i: int|
            0 <= i < ps.len() ==> spec_aggregate(ps, ss, m)[i].name == ps[i].name,
        forall|i: int|
            0 <= i < ps.len() ==> spec_aggregate(ps, ss, m)[i].total == clamp_u64(
                (ps[i].total + total_of(ss, ps[i].name, m)) as nat,
            ),
        forall|i: int|
            ps.len() <= i < spec_aggregate(ps, ss, m).len() ==> spec_aggregate(
                ps,
                ss,
                m,
            )[i].total == clamp_u64(total_of(ss, spec_aggregate(ps, ss, m)[i].name, m)),
        forall|k: int|
            0 <= k < ss.len() ==> player_index(
                spec_aggregate(ps, ss, m),
                ss[k].player_name,
            ) is Some,
    decreases ss.len(),
{
    if ss.len() == 0 {
    } else {
        let head = ss.drop_last();
        let s = ss.last();
        lemma_aggregate_totals(ps, head, m);
        let prev = spec_aggregate(ps, head, m);
        let cur = spec_aggregate(ps, ss, m);
        lemma_player_index(prev, s.player_name);
        assert(forall|name: Seq<char>|
            total_of(ss, name, m) == total_of(head, name, m) + if s.player_name == name {
                metric_value(s, m) as nat
            } else {
                0
            });
        match player_index(prev, s.player_name) {
            Some(t) => {
                assert(cur =~= prev.update(
                    t,
                    SpecPlayer {
                        name: prev[t].name,
                        total: clamp_u64((prev[t].total + metric_value(s, m)) as nat),
                    },
                ));
                assert forall|i: int|
                    0 <= i < ps.len() implies cur[i].total == clamp_u64(
                    (ps[i].total + total_of(ss, ps[i].name, m)) as nat,
                ) by {
                    if i == t {
                        assert(prev[t].name == ps[i].name);
                        assert(prev[t].total == clamp_u64(
                            (ps[i].total + total_of(head, ps[i].name, m)) as nat,
                        ));
                    } else {
                        assert(ps[i].name != s.player_name);
                    }
                }
                assert forall|i: int|
                    ps.len() <= i < cur.len() implies cur[i].total == clamp_u64(
                    total_of(ss, cur[i].name, m),
                ) by {
                    if i == t {
                        assert(prev[t].total == clamp_u64(
                            total_of(head, prev[t].name, m),
                        ));
                    } else {
                        assert(prev[i].name != s.player_name);
                    }
                }
                assert forall|k: int|
                    0 <= k < ss.len() implies player_index(cur, ss[k].player_name) is Some by {
                    lemma_player_index(cur, ss[k].player_name);
                    if k < ss.len() - 1 {
                        assert(head[k] == ss[k]);
                        lemma_player_index(prev, ss[k].player_name);
                        let w = choose|w: int| 0 <= w < prev.len() && prev[w].name == ss[
                            k
                        ].player_name;
                        assert(cur[w].name == ss[k].player_name);
                    } else {
                        assert(cur[t].name == s.player_name);
                    }
                }
            },
            None => {
                assert(cur =~= prev.push(
                    SpecPlayer { name: s.player_name, total: metric_value(s, m) },
                ));
                assert forall|k: int|
                    0 <= k < head.len() implies head[k].player_name != s.player_name by {
                    lemma_player_index(prev, head[k].player_name);
                }
                lemma_total_of_absent(head, s.player_name, m);
                assert(total_of(ss, s.player_name, m) == metric_value(s, m) as nat);
                assert forall|i: int|
                    ps.len() <= i < cur.len() implies cur[i].total == clamp_u64(
                    total_of(ss, cur[i].name, m),
                ) by {
                    if i < prev.len() {
                        assert(prev[i].name != s.player_name);
                    } else {
                        assert(cur[i].name == s.player_name);
                        assert(cur[i].total == metric_value(s, m));
                    }
                }
                assert forall|k: int|
                    0 <= k < ss.len() implies player_index(cur, ss[k].player_name) is Some by {
                    lemma_player_index(cur, ss[k].player_name);
                    if k < ss.len() - 1 {
                        assert(head[k] == ss[k]);
                        lemma_player_index(prev, ss[k].player_name);
                        let w = choose|w: int| 0 <= w < prev.len() && prev[w].name == ss[
                            k
                        ].player_name;
                        assert(cur[w].name == ss[k].player_name);
                    } else {
                        assert(cur[prev.len() as int].name == s.player_name);
                    }
                }
            },
        }
    }
}

} // verus!
