//! The data model: input records, derived entities, and their ghost views.
//!
//! `GameRecord` and `MatchScoreRecord` are the transient typed rows produced
//! by the row parser.  `Game`, `Match`, `Score` and `Player` are the derived
//! entities the pipeline builds from them.  Each executable type has a ghost
//! counterpart (`SpecGame` and so on) over `Seq<char>` and mathematical
//! values; every contract in the crate speaks of those views.

use vstd::prelude::*;

verus! {

/// One valid row of the game input: the game's natural key and the opaque
/// token used to look the game up in the external metadata service.
#[derive(Debug, PartialEq, Eq)]
pub struct GameRecord {
    pub id: String,
    pub external_ref: String,
}

pub ghost struct SpecGameRecord {
    pub id: Seq<char>,
    pub external_ref: Seq<char>,
}

impl View for GameRecord {
    type V = SpecGameRecord;

    open spec fn view(&self) -> SpecGameRecord {
        SpecGameRecord { id: self.id@, external_ref: self.external_ref@ }
    }
}

impl DeepView for GameRecord {
    type V = SpecGameRecord;

    open spec fn deep_view(&self) -> SpecGameRecord {
        self.view()
    }
}

/// One valid row of a match input source: one player's result within one
/// match.  `score` and `rank` are each optional: a row that declares only
/// one of them is still valid.  When present, `rank` is at least 1.
#[derive(Debug, PartialEq, Eq)]
pub struct MatchScoreRecord {
    pub game_id: String,
    pub match_id: String,
    pub player_name: String,
    pub score: Option<u64>,
    pub rank: Option<u64>,
}

pub ghost struct SpecMatchScoreRecord {
    pub game_id: Seq<char>,
    pub match_id: Seq<char>,
    pub player_name: Seq<char>,
    pub score: Option<u64>,
    pub rank: Option<u64>,
}

impl View for MatchScoreRecord {
    type V = SpecMatchScoreRecord;

    open spec fn view(&self) -> SpecMatchScoreRecord {
        SpecMatchScoreRecord {
            game_id: self.game_id@,
            match_id: self.match_id@,
            player_name: self.player_name@,
            score: self.score,
            rank: self.rank,
        }
    }
}

impl DeepView for MatchScoreRecord {
    type V = SpecMatchScoreRecord;

    open spec fn deep_view(&self) -> SpecMatchScoreRecord {
        self.view()
    }
}

/// A record is well formed when a declared rank is positive.  The row
/// parser only ever produces well-formed records.
pub open spec fn record_wf(r: SpecMatchScoreRecord) -> bool {
    r.rank matches Some(k) ==> k >= 1
}

/// One player's result within one match, as kept inside a `Match`: the
/// match and game context is dropped, while `rank` is retained for
/// ranking semantics.
#[derive(Debug, PartialEq, Eq)]
pub struct Score {
    pub player_name: String,
    pub score: Option<u64>,
    pub rank: Option<u64>,
}

pub ghost struct SpecScore {
    pub player_name: Seq<char>,
    pub score: Option<u64>,
    pub rank: Option<u64>,
}

impl View for Score {
    type V = SpecScore;

    open spec fn view(&self) -> SpecScore {
        SpecScore { player_name: self.player_name@, score: self.score, rank: self.rank }
    }
}

impl DeepView for Score {
    type V = SpecScore;

    open spec fn deep_view(&self) -> SpecScore {
        self.view()
    }
}

/// The projection of a record down to a `Score`.
pub open spec fn spec_score_of(r: SpecMatchScoreRecord) -> SpecScore {
    SpecScore { player_name: r.player_name, score: r.score, rank: r.rank }
}

impl Score {
    /// Builds the `Score` projection of one score row.
    pub fn from_row(row: &MatchScoreRecord) -> (s: Self)
        ensures
            s@ == spec_score_of(row@),
    {
        Self { player_name: row.player_name.clone(), score: row.score, rank: row.rank }
    }
}

/// A reconciled match: every score row that shares `match_id`, folded into
/// one entity.  All contributing rows agree on `game_id` under the
/// first-seen-wins policy of the reconciler.
#[derive(Debug, PartialEq, Eq)]
pub struct Match {
    pub match_id: String,
    pub game_id: String,
    pub scores: Vec<Score>,
}

#[verifier::ext_equal]
pub ghost struct SpecMatch {
    pub match_id: Seq<char>,
    pub game_id: Seq<char>,
    pub scores: Seq<SpecScore>,
}

impl View for Match {
    type V = SpecMatch;

    open spec fn view(&self) -> SpecMatch {
        SpecMatch {
            match_id: self.match_id@,
            game_id: self.game_id@,
            scores: self.scores.deep_view(),
        }
    }
}

impl DeepView for Match {
    type V = SpecMatch;

    open spec fn deep_view(&self) -> SpecMatch {
        self.view()
    }
}

/// The match a single row gives rise to on first sighting of its
/// `match_id`: it carries just that row's score.
pub open spec fn spec_match_of(r: SpecMatchScoreRecord) -> SpecMatch {
    SpecMatch { match_id: r.match_id, game_id: r.game_id, scores: seq![spec_score_of(r)] }
}

impl Match {
    /// Builds the match created on first sighting of a `match_id`.
    pub fn from_row(row: &MatchScoreRecord) -> (m: Self)
        ensures
            m@ == spec_match_of(row@),
    {
        let scores = vec![Score::from_row(row)];
        let m = Match {
            match_id: row.match_id.clone(),
            game_id: row.game_id.clone(),
            scores,
        };
        proof {
            assert(m@.scores =~= seq![spec_score_of(row@)]);
            assert(m@ =~= spec_match_of(row@));
        }
        m
    }
}

/// A game entity: built from one `GameRecord`, later enriched with a
/// display name and populated with its matches by the attachment step.
#[derive(Debug, PartialEq, Eq)]
pub struct Game {
    pub id: String,
    pub external_ref: String,
    pub display_name: String,
    pub matches: Vec<Match>,
}

#[verifier::ext_equal]
pub ghost struct SpecGame {
    pub id: Seq<char>,
    pub external_ref: Seq<char>,
    pub display_name: Seq<char>,
    pub matches: Seq<SpecMatch>,
}

impl View for Game {
    type V = SpecGame;

    open spec fn view(&self) -> SpecGame {
        SpecGame {
            id: self.id@,
            external_ref: self.external_ref@,
            display_name: self.display_name@,
            matches: self.matches.deep_view(),
        }
    }
}

impl DeepView for Game {
    type V = SpecGame;

    open spec fn deep_view(&self) -> SpecGame {
        self.view()
    }
}

/// The game a `GameRecord` gives rise to: no matches yet, and the display
/// name defaulted to the identifier until enrichment supplies a better one.
pub open spec fn spec_game_of(r: SpecGameRecord) -> SpecGame {
    SpecGame {
        id: r.id,
        external_ref: r.external_ref,
        display_name: r.id,
        matches: Seq::<SpecMatch>::empty(),
    }
}

impl Game {
    /// Builds the registry entry for one game row, consuming the record.
    pub fn from_row(gs: GameRecord) -> (g: Game)
        ensures
            g@ == spec_game_of(gs@),
    {
        let g = Game {
            id: gs.id.clone(),
            external_ref: gs.external_ref,
            display_name: gs.id,
            matches: Vec::new(),
        };
        proof {
            assert(g@.matches =~= Seq::<SpecMatch>::empty());
            assert(g@ =~= spec_game_of(gs@));
        }
        g
    }
}

/// A per-player aggregate: the configured metric summed, saturating at
/// `u64::MAX`, over every match the player appears in.
#[derive(Debug, PartialEq, Eq)]
pub struct Player {
    pub name: String,
    pub total: u64,
}

pub ghost struct SpecPlayer {
    pub name: Seq<char>,
    pub total: u64,
}

impl View for Player {
    type V = SpecPlayer;

    open spec fn view(&self) -> SpecPlayer {
        SpecPlayer { name: self.name@, total: self.total }
    }
}

impl DeepView for Player {
    type V = SpecPlayer;

    open spec fn deep_view(&self) -> SpecPlayer {
        self.view()
    }
}

} // verus!
