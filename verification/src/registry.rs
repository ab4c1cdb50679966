//! The game registry: the authoritative mapping from game identifier to
//! `Game`, built once from the game input and never grown afterward.
//!
//! A later record with an already-registered identifier overwrites the
//! earlier entry (last-write-wins) and is surfaced as a
//! [`DuplicateIdentifier`] warning.  Enrichment, performed by an external
//! metadata collaborator, is applied through [`set_display_name`]; a
//! failed or missing lookup simply leaves the display name defaulted to
//! the identifier.

use vstd::prelude::*;

use crate::records::{Game, GameRecord, SpecGame, SpecGameRecord, spec_game_of};
use crate::util::{find_first, lemma_find_first};

verus! {

/// Warning that a later game record overwrote an earlier one sharing `id`.
#[derive(Debug, PartialEq, Eq)]
pub struct DuplicateIdentifier {
    pub id: String,
}

pub ghost struct SpecDuplicateIdentifier {
    pub id: Seq<char>,
}

impl View for DuplicateIdentifier {
    type V = SpecDuplicateIdentifier;

    open spec fn view(&self) -> SpecDuplicateIdentifier {
        SpecDuplicateIdentifier { id: self.id@ }
    }
}

impl DeepView for DuplicateIdentifier {
    type V = SpecDuplicateIdentifier;

    open spec fn deep_view(&self) -> SpecDuplicateIdentifier {
        self.view()
    }
}

/// The index of the game carrying `id`, if any.  Registry identifiers are
/// unique, so the first index is the only one.
pub open spec fn game_index(gs: Seq<SpecGame>, id: Seq<char>) -> Option<int> {
    find_first(gs, |g: SpecGame| g.id == id)
}

/// `game_index` returns the least index bearing `id`, and `None` exactly
/// when no game bears it.
pub proof fn lemma_game_index(gs: Seq<SpecGame>, id: Seq<char>)
    ensures
        match game_index(gs, id) {
            Some(i) => 0 <= i < gs.len() && gs[i].id == id && (forall|j: int|
                0 <= j < i ==> gs[j].id != id),
            None => forall|j: int| 0 <= j < gs.len() ==> gs[j].id != id,
        },
{
    lemma_find_first(gs, |g: SpecGame| g.id == id);
}

/// One build step: the record's game replaces an entry sharing its
/// identifier (last-write-wins, with a duplicate warning) or is appended.
pub open spec fn spec_insert_game(gs: Seq<SpecGame>, r: SpecGameRecord) -> (
    Seq<SpecGame>,
    Option<SpecDuplicateIdentifier>,
) {
    match game_index(gs, r.id) {
        Some(i) => (gs.update(i, spec_game_of(r)), Some(SpecDuplicateIdentifier { id: r.id })),
        None => (gs.push(spec_game_of(r)), None),
    }
}

/// The registry build fold: records are inserted left to right, later
/// records overwriting earlier ones that share an identifier.
pub open spec fn spec_build_registry(rs: Seq<SpecGameRecord>) -> (Seq<SpecGame>, Seq<
    SpecDuplicateIdentifier,
>)
    decreases rs.len(),
{
    if rs.len() == 0 {
        (Seq::<SpecGame>::empty(), Seq::<SpecDuplicateIdentifier>::empty())
    } else {
        let prev = spec_build_registry(rs.drop_last());
        let step = spec_insert_game(prev.0, rs.last());
        (
            step.0,
            match step.1 {
                Some(w) => prev.1.push(w),
                None => prev.1,
            },
        )
    }
}

/// Inserts one game record into the registry, reporting whether it
/// overwrote an earlier entry with the same identifier.
pub fn insert_game(games: &mut Vec<Game>, record: GameRecord) -> (dup: Option<
    DuplicateIdentifier,
>)
    ensures
        final(games).deep_view() == spec_insert_game(old(games).deep_view(), record@).0,
        dup.deep_view() == spec_insert_game(old(games).deep_view(), record@).1,
{
    let ghost gs0 = old(games).deep_view();
    let ghost r0 = record@;
    let n = games.len();
    let mut i: usize = 0;
    while i < n
        invariant
            n == games.len(),
            gs0 == old(games).deep_view(),
            r0 == record@,
            games.deep_view() == gs0,
            i <= n,
            forall|j: int| 0 <= j < i ==> gs0[j].id != r0.id,
        decreases n - i,
    {
        if games[i].id == record.id {
            let id = record.id.clone();
            games[i] = Game::from_row(record);
            proof {
                assert(gs0[i as int].id == r0.id);
                lemma_game_index(gs0, r0.id);
                assert(game_index(gs0, r0.id) == Some(i as int));
                assert(games.deep_view() =~~= spec_insert_game(gs0, r0).0);
            }
            return Some(DuplicateIdentifier { id });
        }
        i += 1;
    }
    let g = Game::from_row(record);
    games.push(g);
    proof {
        lemma_game_index(gs0, r0.id);
        assert(game_index(gs0, r0.id) is None);
        assert(games.deep_view() =~~= spec_insert_game(gs0, r0).0);
    }
    None
}

/// Builds the registry from the valid game records, in input order, under
/// the last-write-wins duplicate policy, returning the registry together
/// with one warning per overwritten entry.
pub fn build_registry(records: &Vec<GameRecord>) -> (r: (Vec<Game>, Vec<DuplicateIdentifier>))
    ensures
        r.0.deep_view() == spec_build_registry(records.deep_view()).0,
        r.1.deep_view() == spec_build_registry(records.deep_view()).1,
{
    let ghost rs = records.deep_view();
    let mut games: Vec<Game> = Vec::new();
    let mut dups: Vec<DuplicateIdentifier> = Vec::new();
    let n = records.len();
    let mut i: usize = 0;
    while i < n
        invariant
            n == records.len(),
            rs == records.deep_view(),
            i <= n,
            games.deep_view() == spec_build_registry(rs.take(i as int)).0,
            dups.deep_view() == spec_build_registry(rs.take(i as int)).1,
        decreases n - i,
    {
        let r = &records[i];
        let owned = GameRecord { id: r.id.clone(), external_ref: r.external_ref.clone() };
        let dup = insert_game(&mut games, owned);
        if let Some(w) = dup {
            dups.push(w);
        }
        proof {
            assert(rs.take(i + 1).drop_last() =~= rs.take(i as int));
            assert(rs.take(i + 1).last() == rs[i as int]);
        }
        i += 1;
    }
    proof {
        assert(rs.take(n as int) =~= rs);
    }
    (games, dups)
}

/// Applies one enrichment result: sets the display name of the game
/// carrying `id`, reporting whether such a game exists.  The rest of the
/// registry is untouched, so a missing or failed lookup changes nothing.
pub fn set_display_name(games: &mut Vec<Game>, id: &String, name: String) -> (found: bool)
    ensures
        match game_index(old(games).deep_view(), id@) {
            Some(i) => found && final(games).deep_view() == old(games).deep_view().update(
                i,
                SpecGame {
                    id: old(games).deep_view()[i].id,
                    external_ref: old(games).deep_view()[i].external_ref,
                    display_name: name@,
                    matches: old(games).deep_view()[i].matches,
                },
            ),
            None => !found && final(games).deep_view() == old(games).deep_view(),
        },
{
    let ghost gs0 = old(games).deep_view();
    let n = games.len();
    let mut i: usize = 0;
    while i < n
        invariant
            n == games.len(),
            gs0 == old(games).deep_view(),
            games.deep_view() == gs0,
            i <= n,
            forall|j: int| 0 <= j < i ==> gs0[j].id != id@,
        decreases n - i,
    {
        if games[i].id == *id {
            games[i].display_name = name;
            proof {
                assert(gs0[i as int].id == id@);
                lemma_game_index(gs0, id@);
                assert(game_index(gs0, id@) == Some(i as int));
                assert(games.deep_view() =~~= gs0.update(
                    i as int,
                    SpecGame {
                        id: gs0[i as int].id,
                        external_ref: gs0[i as int].external_ref,
                        display_name: name@,
                        matches: gs0[i as int].matches,
                    },
                ));
            }
            return true;
        }
        i += 1;
    }
    proof {
        lemma_game_index(gs0, id@);
        assert(game_index(gs0, id@) is None);
    }
    false
}

/// With pairwise-distinct record identifiers the registry holds exactly
/// one game per record, in input order, each with its display name
/// defaulted to its identifier and its match list empty, and no duplicate
/// warning is raised.
pub proof fn lemma_registry_unique_ids(rs: Seq<SpecGameRecord>)
    requires
        forall|i: int, j: int| 0 <= i < j < rs.len() ==> rs[i].id != rs[j].id,
    ensures
        spec_build_registry(rs).0.len() == rs.len(),
        forall|i: int|
            0 <= i < rs.len() ==> spec_build_registry(rs).0[i] == spec_game_of(rs[i]),
        spec_build_registry(rs).1 == Seq::<SpecDuplicateIdentifier>::empty(),
    decreases rs.len(),
{
    if rs.len() == 0 {
    } else {
        let head = rs.drop_last();
        lemma_registry_unique_ids(head);
        let gs = spec_build_registry(head).0;
        lemma_game_index(gs, rs.last().id);
        match game_index(gs, rs.last().id) {
            Some(i) => {
                assert(gs[i] == spec_game_of(head[i]));
                assert(rs[i].id == rs[rs.len() - 1].id);
                assert(false);
            },
            None => {
                assert forall|i: int|
                    0 <= i < rs.len() implies spec_build_registry(rs).0[i] == spec_game_of(
                    rs[i],
                ) by {
                    if i < rs.len() - 1 {
                        assert(head[i] == rs[i]);
                        assert(spec_build_registry(rs).0[i] == gs[i]);
                    }
                }
            },
        }
    }
}

/// The registry invariant: whatever the input, identifiers are pairwise
/// distinct in the built registry (last-write-wins leaves one entry per
/// identifier).
pub proof fn lemma_registry_ids_distinct(rs: Seq<SpecGameRecord>)
    ensures
        forall|i: int, j: int|
            0 <= i < j < spec_build_registry(rs).0.len() ==> spec_build_registry(rs).0[i].id
                != spec_build_registry(rs).0[j].id,
    decreases rs.len(),
{
    if rs.len() > 0 {
        let head = rs.drop_last();
        lemma_registry_ids_distinct(head);
        let gs = spec_build_registry(head).0;
        lemma_game_index(gs, rs.last().id);
    }
}

} // verus!
