//! The attachment step: linking each reconciled match to its owning game
//! by identifier.
//!
//! Matches are attached in reconciliation order.  A match whose `game_id`
//! is absent from the registry is never silently dropped: it is excluded
//! from the model and surfaced as an [`UnresolvedReference`] diagnostic.

use vstd::prelude::*;

use crate::records::{Game, Match, SpecGame, SpecMatch};
use crate::registry::{game_index, lemma_game_index};

verus! {

/// Diagnostic for a match whose `game_id` has no entry in the registry.
#[derive(Debug, PartialEq, Eq)]
pub struct UnresolvedReference {
    pub match_id: String,
    pub game_id: String,
}

pub ghost struct SpecUnresolvedReference {
    pub match_id: Seq<char>,
    pub game_id: Seq<char>,
}

impl View for UnresolvedReference {
    type V = SpecUnresolvedReference;

    open spec fn view(&self) -> SpecUnresolvedReference {
        SpecUnresolvedReference { match_id: self.match_id@, game_id: self.game_id@ }
    }
}

impl DeepView for UnresolvedReference {
    type V = SpecUnresolvedReference;

    open spec fn deep_view(&self) -> SpecUnresolvedReference {
        self.view()
    }
}

/// The diagnostic a match gives rise to when its game is missing.
pub open spec fn spec_unresolved_of(m: SpecMatch) -> SpecUnresolvedReference {
    SpecUnresolvedReference { match_id: m.match_id, game_id: m.game_id }
}

/// One attachment step: the match joins the match list of the game
/// bearing its `game_id`, or becomes an unresolved-reference diagnostic.
pub open spec fn spec_attach_one(gs: Seq<SpecGame>, m: SpecMatch) -> (Seq<SpecGame>, Option<
    SpecUnresolvedReference,
>) {
    match game_index(gs, m.game_id) {
        Some(i) => (
            gs.update(
                i,
                SpecGame {
                    id: gs[i].id,
                    external_ref: gs[i].external_ref,
                    display_name: gs[i].display_name,
                    matches: gs[i].matches.push(m),
                },
            ),
            None,
        ),
        None => (gs, Some(spec_unresolved_of(m))),
    }
}

/// The attachment fold: matches are attached left to right, in
/// reconciliation order.
pub open spec fn spec_attach(gs: Seq<SpecGame>, ms: Seq<SpecMatch>) -> (Seq<SpecGame>, Seq<
    SpecUnresolvedReference,
>)
    decreases ms.len(),
{
    if ms.len() == 0 {
        (gs, Seq::<SpecUnresolvedReference>::empty())
    } else {
        let prev = spec_attach(gs, ms.drop_last());
        let step = spec_attach_one(prev.0, ms.last());
        (
            step.0,
            match step.1 {
                Some(u) => prev.1.push(u),
                None => prev.1,
            },
        )
    }
}

/// Attaches one match, or reports it unresolved.
fn attach_one(games: &mut Vec<Game>, m: Match) -> (unresolved: Option<UnresolvedReference>)
    ensures
        final(games).deep_view() == spec_attach_one(old(games).deep_view(), m@).0,
        unresolved.deep_view() == spec_attach_one(old(games).deep_view(), m@).1,
{
    let ghost gs0 = old(games).deep_view();
    let ghost m0 = m@;
    let n = games.len();
    let mut i: usize = 0;
    while i < n
        invariant
            n == games.len(),
            gs0 == old(games).deep_view(),
            m0 == m@,
            games.deep_view() == gs0,
            i <= n,
            forall|j: int| 0 <= j < i ==> gs0[j].id != m0.game_id,
        decreases n - i,
    {
        if games[i].id == m.game_id {
            games[i].matches.push(m);
            proof {
                assert(gs0[i as int].id == m0.game_id);
                lemma_game_index(gs0, m0.game_id);
                assert(game_index(gs0, m0.game_id) == Some(i as int));
                assert(games.deep_view() =~~= spec_attach_one(gs0, m0).0);
            }
            return None;
        }
        i += 1;
    }
    proof {
        lemma_game_index(gs0, m0.game_id);
        assert(game_index(gs0, m0.game_id) is None);
    }
    Some(UnresolvedReference { match_id: m.match_id, game_id: m.game_id })
}

/// Attaches every reconciled match to its game, in order, returning one
/// diagnostic per match whose game is absent from the registry.
pub fn attach_matches(games: &mut Vec<Game>, matches: Vec<Match>) -> (unresolved: Vec<
    UnresolvedReference,
>)
    ensures
        final(games).deep_view() == spec_attach(old(games).deep_view(), matches.deep_view()).0,
        unresolved.deep_view() == spec_attach(old(games).deep_view(), matches.deep_view()).1,
{
    let ghost gs0 = old(games).deep_view();
    let ghost ms = matches.deep_view();
    let mut rest = matches;
    let mut unresolved: Vec<UnresolvedReference> = Vec::new();
    let ghost mut k: int = 0;
    while rest.len() > 0
        invariant
            gs0 == old(games).deep_view(),
            0 <= k <= ms.len(),
            rest.deep_view() == ms.skip(k),
            games.deep_view() == spec_attach(gs0, ms.take(k)).0,
            unresolved.deep_view() == spec_attach(gs0, ms.take(k)).1,
        decreases rest.len(),
    {
        let ghost restv0 = rest@;
        let ghost restd0 = rest.deep_view();
        let m = rest.remove(0);
        proof {
            assert(restd0 == ms.skip(k));
            assert(ms.skip(k).len() == ms.len() - k);
            assert(restv0.len() == restd0.len());
            assert(m == restv0[0]);
            assert(m.deep_view() == restd0[0]);
            assert(m.deep_view() == ms.skip(k)[0]);
            assert(ms.skip(k)[0] == ms[0 + k]);
            assert forall|j: int| 0 <= j < rest@.len() implies rest.deep_view()[j] == ms.skip(
                k + 1,
            )[j] by {
                assert(rest@[j] == restv0.remove(0)[j]);
                assert(restv0.remove(0)[j] == restv0[j + 1]);
                assert(rest.deep_view()[j] == rest@[j].deep_view());
                assert(restv0[j + 1].deep_view() == ms.skip(k)[j + 1]);
                assert(ms.skip(k)[j + 1] == ms[j + 1 + k]);
                assert(ms.skip(k + 1)[j] == ms[j + (k + 1)]);
            }
            assert(rest.deep_view() =~= ms.skip(k + 1));
        }
        let u = attach_one(games, m);
        if let Some(d) = u {
            unresolved.push(d);
        }
        proof {
            assert(ms.take(k + 1).drop_last() =~= ms.take(k));
            assert(ms.take(k + 1).last() == ms[k]);
        }
        proof {
            k = k + 1;
        }
    }
    proof {
        assert(ms.take(k) =~= ms);
    }
    unresolved
}

/// Attachment never adds, removes or re-keys games: the registry keeps
/// its length and its identifiers, in order.
pub proof fn lemma_attach_preserves_ids(gs: Seq<SpecGame>, ms: Seq<SpecMatch>)
    ensures
        spec_attach(gs, ms).0.len() == gs.len(),
        forall|i: int| 0 <= i < gs.len() ==> spec_attach(gs, ms).0[i].id == gs[i].id,
    decreases ms.len(),
{
    if ms.len() > 0 {
        lemma_attach_preserves_ids(gs, ms.drop_last());
        lemma_game_index(spec_attach(gs, ms.drop_last()).0, ms.last().game_id);
    }
}

/// A match value absent from every match list and whose `game_id` no game
/// bears stays absent from every match list: an unresolved match is never
/// attached anywhere.
pub proof fn lemma_unresolved_not_attached(gs: Seq<SpecGame>, ms: Seq<SpecMatch>, x: SpecMatch)
    requires
        forall|i: int| 0 <= i < gs.len() ==> gs[i].id != x.game_id,
        forall|i: int| 0 <= i < gs.len() ==> !gs[i].matches.contains(x),
    ensures
        forall|i: int|
            0 <= i < spec_attach(gs, ms).0.len() ==> !spec_attach(gs, ms).0[i].matches.contains(
                x,
            ),
    decreases ms.len(),
{
    if ms.len() > 0 {
        lemma_unresolved_not_attached(gs, ms.drop_last(), x);
        lemma_attach_preserves_ids(gs, ms.drop_last());
        let gs1 = spec_attach(gs, ms.drop_last()).0;
        let m = ms.last();
        lemma_game_index(gs1, m.game_id);
        match game_index(gs1, m.game_id) {
            Some(i) => {
                assert(gs1[i].id == m.game_id);
                assert(gs1[i].id == gs[i].id);
                assert(gs[i].id != x.game_id);
                assert(m != x);
                assert forall|j: int|
                    0 <= j < spec_attach(gs, ms).0.len() implies !spec_attach(
                    gs,
                    ms,
                ).0[j].matches.contains(x) by {
                    if j == i {
                        assert(spec_attach(gs, ms).0[j].matches == gs1[j].matches.push(m));
                        assert(!gs1[j].matches.contains(x));
                        assert(forall|t: int|
                            0 <= t < gs1[j].matches.len() ==> gs1[j].matches.push(m)[t]
                                == gs1[j].matches[t]);
                    }
                }
            },
            None => {},
        }
    }
}

/// A match whose `game_id` no registry entry bears is surfaced: its
/// unresolved-reference diagnostic appears in the attachment output.
pub proof fn lemma_unresolved_surfaced(gs: Seq<SpecGame>, ms: Seq<SpecMatch>, j: int)
    requires
        0 <= j < ms.len(),
        forall|i: int| 0 <= i < gs.len() ==> gs[i].id != ms[j].game_id,
    ensures
        spec_attach(gs, ms).1.contains(spec_unresolved_of(ms[j])),
    decreases ms.len(),
{
    let prev = spec_attach(gs, ms.drop_last());
    if j == ms.len() - 1 {
        lemma_attach_preserves_ids(gs, ms.drop_last());
        lemma_game_index(prev.0, ms.last().game_id);
        match game_index(prev.0, ms.last().game_id) {
            Some(i) => {
                assert(prev.0[i].id == gs[i].id);
                assert(gs[i].id != ms[j].game_id);
                assert(false);
            },
            None => {},
        }
        assert(spec_attach(gs, ms).1.last() == spec_unresolved_of(ms[j]));
    } else {
        assert(ms.drop_last()[j] == ms[j]);
        lemma_unresolved_surfaced(gs, ms.drop_last(), j);
        let t = choose|t: int| 0 <= t < prev.1.len() && prev.1[t] == spec_unresolved_of(ms[j]);
        match spec_attach_one(prev.0, ms.last()).1 {
            Some(u) => {
                assert(spec_attach(gs, ms).1 == prev.1.push(u));
                assert(spec_attach(gs, ms).1[t] == spec_unresolved_of(ms[j]));
            },
            None => {
                assert(spec_attach(gs, ms).1[t] == spec_unresolved_of(ms[j]));
            },
        }
    }
}

} // verus!
