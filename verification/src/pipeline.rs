//! The whole pipeline as one deterministic transform: parse the game
//! source, build the registry, parse and reconcile every match source
//! through one shared accumulator, aggregate player totals, attach
//! matches to their games, and return the model with its diagnostics.
//!
//! The contract of [`run`] pins the report to a function of the inputs
//! alone ([`spec_run`]); [`lemma_run_deterministic`] records the
//! consequence that identical inputs give identical models, so a rerun
//! changes nothing as long as the external rendering collaborator is
//! itself deterministic.

use vstd::prelude::*;

use crate::aggregate::{Metric, aggregate_players, spec_aggregate, spec_all_scores};
use crate::attach::{UnresolvedReference, SpecUnresolvedReference, attach_matches, spec_attach};
use crate::parse::{
    ParseError, RowSkip, SpecRowSkip, parse_game_source, parse_match_source,
    spec_parse_game_source, spec_parse_match_source,
};
use crate::reconcile::{reconcile_into, spec_reconcile};
use crate::records::{
    Game, Match, Player, SpecGame, SpecMatch, SpecMatchScoreRecord, SpecPlayer,
};
use crate::registry::{
    DuplicateIdentifier, SpecDuplicateIdentifier, build_registry, spec_build_registry,
};

verus! {

/// Diagnostic for one skipped match row: which source it came from
/// (zero-based), which line, and why.
#[derive(Debug, PartialEq, Eq)]
pub struct SourceRowSkip {
    pub source: usize,
    pub line: usize,
    pub error: ParseError,
}

pub ghost struct SpecSourceRowSkip {
    pub source: int,
    pub line: int,
    pub error: ParseError,
}

impl View for SourceRowSkip {
    type V = SpecSourceRowSkip;

    open spec fn view(&self) -> SpecSourceRowSkip {
        SpecSourceRowSkip {
            source: self.source as int,
            line: self.line as int,
            error: self.error,
        }
    }
}

impl DeepView for SourceRowSkip {
    type V = SpecSourceRowSkip;

    open spec fn deep_view(&self) -> SpecSourceRowSkip {
        self.view()
    }
}

/// Row skips of one source, tagged with the source's index.
pub open spec fn tag_skips(skips: Seq<SpecRowSkip>, source: int) -> Seq<SpecSourceRowSkip> {
    Seq::new(
        skips.len(),
        |t: int|
            SpecSourceRowSkip { source: source, line: skips[t].line, error: skips[t].error },
    )
}

/// The records and tagged skips of all match sources, in source order.
pub open spec fn spec_parse_sources(srcs: Seq<Seq<char>>) -> (Seq<SpecMatchScoreRecord>, Seq<
    SpecSourceRowSkip,
>)
    decreases srcs.len(),
{
    if srcs.len() == 0 {
        (Seq::<SpecMatchScoreRecord>::empty(), Seq::<SpecSourceRowSkip>::empty())
    } else {
        let prev = spec_parse_sources(srcs.drop_last());
        let cur = spec_parse_match_source(srcs.last());
        (prev.0 + cur.0, prev.1 + tag_skips(cur.1, srcs.len() - 1))
    }
}

/// The finished model and its diagnostics: games carrying their matches,
/// player aggregates, and everything that was skipped, overwritten or
/// left unresolved on the way.
#[derive(Debug, PartialEq, Eq)]
pub struct Report {
    pub games: Vec<Game>,
    pub players: Vec<Player>,
    pub unresolved: Vec<UnresolvedReference>,
    pub duplicates: Vec<DuplicateIdentifier>,
    pub game_skips: Vec<RowSkip>,
    pub match_skips: Vec<SourceRowSkip>,
}

#[verifier::ext_equal]
pub ghost struct SpecReport {
    pub games: Seq<SpecGame>,
    pub players: Seq<SpecPlayer>,
    pub unresolved: Seq<SpecUnresolvedReference>,
    pub duplicates: Seq<SpecDuplicateIdentifier>,
    pub game_skips: Seq<SpecRowSkip>,
    pub match_skips: Seq<SpecSourceRowSkip>,
}

impl View for Report {
    type V = SpecReport;

    open spec fn view(&self) -> SpecReport {
        SpecReport {
            games: self.games.deep_view(),
            players: self.players.deep_view(),
            unresolved: self.unresolved.deep_view(),
            duplicates: self.duplicates.deep_view(),
            game_skips: self.game_skips.deep_view(),
            match_skips: self.match_skips.deep_view(),
        }
    }
}

/// What one run computes from the raw sources: a pure function of the
/// inputs and the chosen metric.
pub open spec fn spec_run(
    games_src: Seq<char>,
    match_srcs: Seq<Seq<char>>,
    metric: Metric,
) -> SpecReport {
    let parsed_games = spec_parse_game_source(games_src);
    let registry = spec_build_registry(parsed_games.0);
    let parsed_matches = spec_parse_sources(match_srcs);
    let matches = spec_reconcile(Seq::<SpecMatch>::empty(), parsed_matches.0);
    let players = spec_aggregate(
        Seq::<SpecPlayer>::empty(),
        spec_all_scores(matches),
        metric,
    );
    let attached = spec_attach(registry.0, matches);
    SpecReport {
        games: attached.0,
        players: players,
        unresolved: attached.1,
        duplicates: registry.1,
        game_skips: parsed_games.1,
        match_skips: parsed_matches.1,
    }
}

/// Runs the whole pipeline on raw source texts.  Display names stay
/// defaulted to the game identifiers; enrichment, being an external
/// lookup, is applied separately through
/// [`crate::registry::set_display_name`].
pub fn run(games_src: &str, match_srcs: &Vec<String>, metric: Metric) -> (report: Report)
    ensures
        report@ == spec_run(games_src@, match_srcs.deep_view(), metric),
{
    let ghost srcs = match_srcs.deep_view();
    let (game_records, game_skips) = parse_game_source(games_src);
    let (mut games, duplicates) = build_registry(&game_records);
    let mut matches: Vec<Match> = Vec::new();
    let mut match_skips: Vec<SourceRowSkip> = Vec::new();
    let n = match_srcs.len();
    let mut i: usize = 0;
    proof {
        assert(srcs.take(0) =~= Seq::<Seq<char>>::empty());
        assert(matches.deep_view() =~= Seq::<SpecMatch>::empty());
        assert(match_skips.deep_view() =~= Seq::<SpecSourceRowSkip>::empty());
    }
    while i < n
        invariant
            n == match_srcs@.len(),
            srcs == match_srcs.deep_view(),
            i <= n,
            matches.deep_view() == spec_reconcile(
                Seq::<SpecMatch>::empty(),
                spec_parse_sources(srcs.take(i as int)).0,
            ),
            match_skips.deep_view() == spec_parse_sources(srcs.take(i as int)).1,
        decreases n - i,
    {
        let ghost prev = spec_parse_sources(srcs.take(i as int));
        let (records, skips) = parse_match_source(match_srcs[i].as_str());
        proof {
            assert(match_srcs@[i as int]@ == srcs[i as int]);
        }
        reconcile_into(&mut matches, &records);
        let ghost base = match_skips.deep_view();
        let w = skips.len();
        let mut t: usize = 0;
        while t < w
            invariant
                w == skips@.len(),
                t <= w,
                skips.deep_view() == spec_parse_match_source(srcs[i as int]).1,
                i < n,
                base == spec_parse_sources(srcs.take(i as int)).1,
                match_skips.deep_view() == base + tag_skips(skips.deep_view(), i as int).take(
                    t as int,
                ),
            decreases w - t,
        {
            let s = &skips[t];
            let ghost pre = match_skips.deep_view();
            let ghost prew = match_skips@;
            match_skips.push(SourceRowSkip { source: i, line: s.line, error: s.error });
            proof {
                let tagged = tag_skips(skips.deep_view(), i as int);
                assert(skips.deep_view()[t as int] == skips@[t as int]@);
                assert(tagged[t as int] == SpecSourceRowSkip {
                    source: i as int,
                    line: s@.line,
                    error: s@.error,
                });
                assert(pre.len() == base.len() + t);
                assert forall|q: int|
                    0 <= q < pre.len() + 1 implies match_skips.deep_view()[q] == (base
                    + tagged.take(t + 1))[q] by {
                    assert(match_skips.deep_view()[q] == match_skips@[q].deep_view());
                    if q < pre.len() {
                        assert(match_skips@[q] == prew[q]);
                        assert(pre[q] == prew[q].deep_view());
                        assert(pre[q] == (base + tagged.take(t as int))[q]);
                        if q >= base.len() {
                            assert((base + tagged.take(t as int))[q] == tagged.take(
                                t as int,
                            )[q - base.len()]);
                            assert((base + tagged.take(t + 1))[q] == tagged.take(t + 1)[q
                                - base.len()]);
                        }
                    } else {
                        assert(match_skips@[q] == SourceRowSkip {
                            source: i,
                            line: s.line,
                            error: s.error,
                        });
                        assert((base + tagged.take(t + 1))[q] == tagged[t as int]);
                    }
                }
                assert(match_skips.deep_view() =~~= base + tagged.take(t + 1));
            }
            t += 1;
        }
        proof {
            let cur = spec_parse_match_source(srcs[i as int]);
            assert(srcs.take(i + 1).drop_last() =~= srcs.take(i as int));
            assert(srcs.take(i + 1).last() == srcs[i as int]);
            assert(tag_skips(cur.1, i as int).take(w as int) =~= tag_skips(cur.1, i as int));
            assert(match_skips.deep_view() =~= spec_parse_sources(srcs.take(i + 1)).1);
            crate::reconcile::lemma_reconcile_concat(
                Seq::<SpecMatch>::empty(),
                prev.0,
                cur.0,
            );
        }
        i += 1;
    }
    proof {
        assert(srcs.take(n as int) =~= srcs);
    }
    let players = aggregate_players(&matches, metric);
    let unresolved = attach_matches(&mut games, matches);
    let report = Report { games, players, unresolved, duplicates, game_skips, match_skips };
    proof {
        assert(report@ =~= spec_run(games_src@, srcs, metric));
    }
    report
}

/// Re-running the pipeline on identical inputs produces the identical
/// model: the report is a function of the inputs alone.  Byte-identical
/// output documents then follow whenever the external rendering
/// collaborator is deterministic or stubbed.
pub proof fn lemma_run_deterministic(
    r1: SpecReport,
    r2: SpecReport,
    games_src: Seq<char>,
    match_srcs: Seq<Seq<char>>,
    metric: Metric,
)
    requires
        r1 == spec_run(games_src, match_srcs, metric),
        r2 == spec_run(games_src, match_srcs, metric),
    ensures
        r1 == r2,
{
}

} // verus!
