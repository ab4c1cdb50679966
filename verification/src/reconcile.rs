//! Match reconciliation: folding score rows, possibly spread over many
//! input sources, into one `Match` entity per match identifier.
//!
//! The central primitive is a fold with the empty mapping as identity and
//! [`add_record`] as the merge step.  The accumulator is threaded across
//! *all* input sources, so a match whose scores are split over several
//! files is still merged into a single entity; [`lemma_reconcile_concat`]
//! states that such a split changes nothing.

use vstd::prelude::*;

use crate::records::{
    Match, MatchScoreRecord, Score, SpecMatch, SpecMatchScoreRecord, SpecScore, spec_match_of,
    spec_score_of,
};
use crate::util::{find_first, lemma_find_first};

verus! {

/// The index of the match carrying `id`, if any.  Match identifiers are
/// unique in any sequence the reconciler builds, so the first index is the
/// only one.
pub open spec fn match_index(ms: Seq<SpecMatch>, id: Seq<char>) -> Option<int> {
    find_first(ms, |m: SpecMatch| m.match_id == id)
}

/// `match_index` returns the least index bearing `id`, and `None` exactly
/// when no match bears it.
pub proof fn lemma_match_index(ms: Seq<SpecMatch>, id: Seq<char>)
    ensures
        match match_index(ms, id) {
            Some(i) => 0 <= i < ms.len() && ms[i].match_id == id && (forall|j: int|
                0 <= j < i ==> ms[j].match_id != id),
            None => forall|j: int| 0 <= j < ms.len() ==> ms[j].match_id != id,
        },
{
    lemma_find_first(ms, |m: SpecMatch| m.match_id == id);
}

/// One merge step: the record's score joins the match bearing its
/// `match_id`, or a new match is created on first sighting.
pub open spec fn spec_add_record(ms: Seq<SpecMatch>, r: SpecMatchScoreRecord) -> Seq<SpecMatch> {
    match match_index(ms, r.match_id) {
        Some(i) => ms.update(
            i,
            SpecMatch {
                match_id: ms[i].match_id,
                game_id: ms[i].game_id,
                scores: ms[i].scores.push(spec_score_of(r)),
            },
        ),
        None => ms.push(spec_match_of(r)),
    }
}

/// The reconciliation fold: records are merged left to right (arrival
/// order) into the accumulated matches.
pub open spec fn spec_reconcile(ms: Seq<SpecMatch>, rs: Seq<SpecMatchScoreRecord>) -> Seq<
    SpecMatch,
>
    decreases rs.len(),
{
    if rs.len() == 0 {
        ms
    } else {
        spec_add_record(spec_reconcile(ms, rs.drop_last()), rs.last())
    }
}

/// Merges one score row into the accumulated matches.
pub fn add_record(ms: &mut Vec<Match>, row: &MatchScoreRecord)
    ensures
        final(ms).deep_view() == spec_add_record(old(ms).deep_view(), row@),
{
    let ghost ms0 = old(ms).deep_view();
    let n = ms.len();
    let mut i: usize = 0;
    while i < n
        invariant
            n == ms.len(),
            ms0 == old(ms).deep_view(),
            ms.deep_view() == ms0,
            i <= n,
            forall|j: int| 0 <= j < i ==> ms0[j].match_id != row@.match_id,
        decreases n - i,
    {
        if ms[i].match_id == row.match_id {
            let s = Score::from_row(row);
            ms[i].scores.push(s);
            proof {
                assert(ms0[i as int].match_id == row@.match_id);
                lemma_match_index(ms0, row@.match_id);
                assert(match_index(ms0, row@.match_id) == Some(i as int));
                assert(ms.deep_view() =~~= spec_add_record(ms0, row@));
            }
            return ;
        }
        i += 1;
    }
    let m = Match::from_row(row);
    ms.push(m);
    proof {
        lemma_match_index(ms0, row@.match_id);
        assert(match_index(ms0, row@.match_id) is None);
        assert(ms.deep_view() =~~= spec_add_record(ms0, row@));
    }
}

/// Folds every record of one source, in arrival order, into the
/// accumulated matches.  Calling this repeatedly with the same accumulator
/// merges records split across several physical sources into one entity
/// per match identifier.
pub fn reconcile_into(ms: &mut Vec<Match>, records: &Vec<MatchScoreRecord>)
    ensures
        final(ms).deep_view() == spec_reconcile(old(ms).deep_view(), records.deep_view()),
{
    let ghost ms0 = old(ms).deep_view();
    let ghost rs = records.deep_view();
    let n = records.len();
    let mut i: usize = 0;
    while i < n
        invariant
            n == records.len(),
            ms0 == old(ms).deep_view(),
            rs == records.deep_view(),
            i <= n,
            ms.deep_view() == spec_reconcile(ms0, rs.take(i as int)),
        decreases n - i,
    {
        add_record(ms, &records[i]);
        proof {
            assert(rs.take(i + 1).drop_last() =~= rs.take(i as int));
            assert(rs.take(i + 1).last() == rs[i as int]);
        }
        i += 1;
    }
    proof {
        assert(rs.take(n as int) =~= rs);
    }
}

/// The score projections of the records bearing `id`, in arrival order.
pub open spec fn scores_for(rs: Seq<SpecMatchScoreRecord>, id: Seq<char>) -> Seq<SpecScore>
    decreases rs.len(),
{
    if rs.len() == 0 {
        Seq::<SpecScore>::empty()
    } else {
        let prev = scores_for(rs.drop_last(), id);
        if rs.last().match_id == id {
            prev.push(spec_score_of(rs.last()))
        } else {
            prev
        }
    }
}

/// The index of the first record bearing `id`, if any.
pub open spec fn record_index(rs: Seq<SpecMatchScoreRecord>, id: Seq<char>) -> Option<int> {
    find_first(rs, |r: SpecMatchScoreRecord| r.match_id == id)
}

/// `record_index` returns the least index bearing `id`, and `None`
/// exactly when no record bears it.
pub proof fn lemma_record_index(rs: Seq<SpecMatchScoreRecord>, id: Seq<char>)
    ensures
        match record_index(rs, id) {
            Some(i) => 0 <= i < rs.len() && rs[i].match_id == id && (forall|j: int|
                0 <= j < i ==> rs[j].match_id != id),
            None => forall|j: int| 0 <= j < rs.len() ==> rs[j].match_id != id,
        },
{
    lemma_find_first(rs, |r: SpecMatchScoreRecord| r.match_id == id);
}

/// An identifier no record bears contributes no scores.
proof fn lemma_scores_for_absent(rs: Seq<SpecMatchScoreRecord>, id: Seq<char>)
    requires
        forall|j: int| 0 <= j < rs.len() ==> rs[j].match_id != id,
    ensures
        scores_for(rs, id) == Seq::<SpecScore>::empty(),
    decreases rs.len(),
{
    if rs.len() > 0 {
        lemma_scores_for_absent(rs.drop_last(), id);
    }
}

/// How the first record bearing `id` relates to the one-shorter prefix:
/// an earlier hit stands, otherwise only the last record can be it.
proof fn lemma_record_index_step(rs: Seq<SpecMatchScoreRecord>, id: Seq<char>)
    requires
        rs.len() > 0,
    ensures
        rs.last().match_id == id ==> record_index(rs, id) == (match record_index(
            rs.drop_last(),
            id,
        ) {
            Some(k) => Some(k),
            None => Some(rs.len() - 1),
        }),
        rs.last().match_id != id ==> record_index(rs, id) == record_index(rs.drop_last(), id),
{
    let head = rs.drop_last();
    lemma_record_index(rs, id);
    lemma_record_index(head, id);
    assert(forall|j: int| 0 <= j < head.len() ==> head[j] == rs[j]);
    match (record_index(rs, id), record_index(head, id)) {
        (Some(x), Some(y)) => {
            if x < y {
                assert(head[x].match_id != id);
                assert(rs[x].match_id == id);
                assert(false);
            }
            if y < x {
                assert(rs[y].match_id != id);
                assert(head[y].match_id == id);
                assert(false);
            }
        },
        (Some(x), None) => {
            if x < rs.len() - 1 {
                assert(head[x].match_id != id);
                assert(rs[x].match_id == id);
                assert(false);
            }
            assert(x == rs.len() - 1);
            assert(rs.last().match_id == id);
        },
        (None, Some(y)) => {
            assert(rs[y].match_id != id);
            assert(head[y].match_id == id);
            assert(false);
        },
        (None, None) => {
            assert(rs[rs.len() - 1].match_id != id);
        },
    }
}

/// Two match sequences with the same identifiers in the same places are
/// searched identically.
proof fn lemma_match_index_same_ids(a: Seq<SpecMatch>, b: Seq<SpecMatch>, id: Seq<char>)
    requires
        a.len() == b.len(),
        forall|j: int| 0 <= j < a.len() ==> a[j].match_id == b[j].match_id,
    ensures
        match_index(a, id) == match_index(b, id),
{
    lemma_match_index(a, id);
    lemma_match_index(b, id);
    match (match_index(a, id), match_index(b, id)) {
        (Some(x), Some(y)) => {
            if x < y {
                assert(b[x].match_id != id);
                assert(a[x].match_id == id);
                assert(false);
            }
            if y < x {
                assert(a[y].match_id != id);
                assert(b[y].match_id == id);
                assert(false);
            }
        },
        (Some(x), None) => {
            assert(b[x].match_id != id);
            assert(false);
        },
        (None, Some(y)) => {
            assert(a[y].match_id != id);
            assert(false);
        },
        (None, None) => {},
    }
}

/// What reconciliation does per match identifier: a match already in the
/// accumulator keeps its place, identifier and `game_id` and gains, in
/// arrival order, the score projections of the records bearing its
/// identifier; a fresh identifier gets a new match whose `game_id` is the
/// first contributing record's (first-seen wins) and whose scores are
/// exactly those projections; an identifier no record bears stays absent.
pub proof fn lemma_reconcile_scores(
    ms: Seq<SpecMatch>,
    rs: Seq<SpecMatchScoreRecord>,
    id: Seq<char>,
)
    ensures
        match match_index(ms, id) {
            Some(i) => {
                &&& match_index(spec_reconcile(ms, rs), id) == Some(i)
                &&& spec_reconcile(ms, rs)[i].match_id == ms[i].match_id
                &&& spec_reconcile(ms, rs)[i].game_id == ms[i].game_id
                &&& spec_reconcile(ms, rs)[i].scores == ms[i].scores + scores_for(rs, id)
            },
            None => match record_index(rs, id) {
                Some(k) => match match_index(spec_reconcile(ms, rs), id) {
                    Some(j) => {
                        &&& spec_reconcile(ms, rs)[j].match_id == id
                        &&& spec_reconcile(ms, rs)[j].game_id == rs[k].game_id
                        &&& spec_reconcile(ms, rs)[j].scores == scores_for(rs, id)
                    },
                    None => false,
                },
                None => match_index(spec_reconcile(ms, rs), id) is None,
            },
        },
    decreases rs.len(),
{
    lemma_match_index(ms, id);
    if rs.len() == 0 {
        if match_index(ms, id) is Some {
            let i = match_index(ms, id)->Some_0;
            assert(ms[i].scores + scores_for(rs, id) =~= ms[i].scores);
        }
    } else {
        let head = rs.drop_last();
        let r = rs.last();
        lemma_reconcile_scores(ms, head, id);
        lemma_record_index(rs, id);
        lemma_record_index(head, id);
        lemma_record_index_step(rs, id);
        let prev = spec_reconcile(ms, rs);
        let mid = spec_reconcile(ms, head);
        lemma_match_index(mid, id);
        lemma_match_index(mid, r.match_id);
        assert(prev == spec_add_record(mid, r));
        match match_index(mid, r.match_id) {
            Some(t) => {
                assert(prev.len() == mid.len());
                assert(forall|j: int|
                    0 <= j < mid.len() ==> prev[j].match_id == mid[j].match_id);
                lemma_match_index_same_ids(prev, mid, id);
                if r.match_id == id {
                    assert(match_index(mid, id) == Some(t));
                    assert(prev[t].scores == mid[t].scores.push(spec_score_of(r)));
                    match match_index(ms, id) {
                        Some(i) => {
                            assert(i == t);
                            assert(ms[i].scores + scores_for(head, id) + seq![
                                spec_score_of(r),
                            ] =~= ms[i].scores + scores_for(rs, id));
                            assert(mid[t].scores.push(spec_score_of(r)) =~= mid[t].scores
                                + seq![spec_score_of(r)]);
                        },
                        None => {
                            assert(record_index(head, id) is Some);
                            assert(record_index(rs, id) == record_index(head, id));
                            assert(mid[t].scores.push(spec_score_of(r)) =~= scores_for(
                                rs,
                                id,
                            ));
                        },
                    }
                } else {
                    assert(mid[t].match_id == r.match_id);
                    match match_index(mid, id) {
                        Some(j) => {
                            assert(j != t);
                            assert(prev[j] == mid[j]);
                            if match_index(ms, id) is None {
                                assert(record_index(rs, id) == record_index(head, id));
                                assert(scores_for(rs, id) == scores_for(head, id));
                            }
                        },
                        None => {
                            if match_index(ms, id) is None {
                                assert(record_index(rs, id) == record_index(head, id));
                            }
                        },
                    }
                }
            },
            None => {
                assert(prev == mid.push(spec_match_of(r)));
                lemma_match_index(prev, id);
                if r.match_id == id {
                    assert(match_index(mid, id) is None);
                    assert(match_index(ms, id) is None);
                    assert(record_index(head, id) is None);
                    assert(prev[mid.len() as int].match_id == id);
                    assert(forall|j: int| 0 <= j < mid.len() ==> prev[j].match_id != id);
                    assert(match_index(prev, id) == Some(mid.len() as int));
                    assert(record_index(rs, id) == Some(rs.len() - 1));
                    lemma_scores_for_absent(head, id);
                    assert(prev[mid.len() as int].scores =~= scores_for(rs, id));
                } else {
                    match match_index(mid, id) {
                        Some(j) => {
                            assert(prev[j] == mid[j]);
                            assert(match_index(prev, id) == Some(j));
                            if match_index(ms, id) is None {
                                assert(record_index(rs, id) == record_index(head, id));
                                assert(scores_for(rs, id) == scores_for(head, id));
                            }
                        },
                        None => {
                            assert(forall|j: int|
                                0 <= j < prev.len() ==> prev[j].match_id != id);
                            assert(match_index(prev, id) is None);
                            if match_index(ms, id) is None {
                                assert(record_index(rs, id) == record_index(head, id));
                            }
                        },
                    }
                }
            },
        }
    }
}

/// Cross-source merge: reconciling two record sequences through the same
/// accumulator, starting empty, yields for each match identifier exactly
/// the score projections of the records bearing it across *both* sources,
/// in arrival order — so `scores` has one entry per such record however
/// the records were split.
pub proof fn lemma_cross_source_merge(
    rs1: Seq<SpecMatchScoreRecord>,
    rs2: Seq<SpecMatchScoreRecord>,
    id: Seq<char>,
)
    ensures
        match record_index(rs1 + rs2, id) {
            Some(k) => match match_index(
                spec_reconcile(spec_reconcile(Seq::<SpecMatch>::empty(), rs1), rs2),
                id,
            ) {
                Some(j) => {
                    &&& spec_reconcile(
                        spec_reconcile(Seq::<SpecMatch>::empty(), rs1),
                        rs2,
                    )[j].match_id == id
                    &&& spec_reconcile(
                        spec_reconcile(Seq::<SpecMatch>::empty(), rs1),
                        rs2,
                    )[j].game_id == (rs1 + rs2)[k].game_id
                    &&& spec_reconcile(
                        spec_reconcile(Seq::<SpecMatch>::empty(), rs1),
                        rs2,
                    )[j].scores == scores_for(rs1 + rs2, id)
                },
                None => false,
            },
            None => match_index(
                spec_reconcile(spec_reconcile(Seq::<SpecMatch>::empty(), rs1), rs2),
                id,
            ) is None,
        },
{
    lemma_reconcile_concat(Seq::<SpecMatch>::empty(), rs1, rs2);
    lemma_reconcile_scores(Seq::<SpecMatch>::empty(), rs1 + rs2, id);
}

/// Reconciliation over several sources is reconciliation over their
/// concatenation: splitting the same records over more sources never
/// changes the result.
pub proof fn lemma_reconcile_concat(
    ms: Seq<SpecMatch>,
    rs1: Seq<SpecMatchScoreRecord>,
    rs2: Seq<SpecMatchScoreRecord>,
)
    ensures
        spec_reconcile(spec_reconcile(ms, rs1), rs2) == spec_reconcile(ms, rs1 + rs2),
    decreases rs2.len(),
{
    if rs2.len() == 0 {
        assert(rs1 + rs2 =~= rs1);
    } else {
        lemma_reconcile_concat(ms, rs1, rs2.drop_last());
        assert((rs1 + rs2).drop_last() =~= rs1 + rs2.drop_last());
        assert((rs1 + rs2).last() == rs2.last());
    }
}

} // verus!
