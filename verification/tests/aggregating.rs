use game_report::aggregate::{aggregate_players, Metric};
use game_report::reconcile::reconcile_into;
use game_report::records::{Match, MatchScoreRecord};

fn record(game: &str, matchid: &str, player: &str, score: u64, rank: u64) -> MatchScoreRecord {
    MatchScoreRecord {
        game_id: game.to_string(),
        match_id: matchid.to_string(),
        player_name: player.to_string(),
        score: Some(score),
        rank: Some(rank),
    }
}

fn matches_of(rows: Vec<MatchScoreRecord>) -> Vec<Match> {
    let mut matches: Vec<Match> = Vec::new();
    reconcile_into(&mut matches, &rows);
    matches
}

#[test]
fn rank_metric_sums_ranks() {
    let matches = matches_of(vec![
        record("chess", "m1", "Alice", 10, 1),
        record("chess", "m1", "Bob", 8, 2),
        record("chess", "m2", "Alice", 4, 2),
        record("chess", "m2", "Bob", 9, 1),
    ]);
    let players = aggregate_players(&matches, Metric::Rank);
    assert_eq!(players.len(), 2);
    assert_eq!(players[0].name, "Alice");
    assert_eq!(players[0].total, 3);
    assert_eq!(players[1].name, "Bob");
    assert_eq!(players[1].total, 3);
}

#[test]
fn score_metric_sums_scores() {
    let matches = matches_of(vec![
        record("chess", "m1", "Alice", 10, 1),
        record("chess", "m1", "Bob", 8, 2),
        record("chess", "m2", "Alice", 4, 2),
    ]);
    let players = aggregate_players(&matches, Metric::Score);
    assert_eq!(players.len(), 2);
    assert_eq!(players[0].name, "Alice");
    assert_eq!(players[0].total, 14);
    assert_eq!(players[1].name, "Bob");
    assert_eq!(players[1].total, 8);
}

#[test]
fn absent_metric_contributes_zero() {
    let mut rows = vec![record("chess", "m1", "Alice", 10, 1)];
    rows.push(MatchScoreRecord {
        game_id: "chess".to_string(),
        match_id: "m1".to_string(),
        player_name: "Alice".to_string(),
        score: Some(5),
        rank: None,
    });
    let matches = matches_of(rows);
    let by_rank = aggregate_players(&matches, Metric::Rank);
    assert_eq!(by_rank[0].total, 1);
    let by_score = aggregate_players(&matches, Metric::Score);
    assert_eq!(by_score[0].total, 15);
}

#[test]
fn players_appear_in_first_encounter_order() {
    let matches = matches_of(vec![
        record("chess", "m1", "Zoe", 3, 1),
        record("chess", "m1", "Abe", 2, 2),
        record("chess", "m2", "Abe", 4, 1),
    ]);
    let players = aggregate_players(&matches, Metric::Rank);
    assert_eq!(players[0].name, "Zoe");
    assert_eq!(players[1].name, "Abe");
}

#[test]
fn totals_are_additive_across_match_splits() {
    let first = vec![
        record("chess", "m1", "Alice", 10, 1),
        record("chess", "m1", "Bob", 8, 2),
        record("chess", "m2", "Alice", 4, 2),
    ];
    let second = vec![record("chess", "m3", "Bob", 6, 1)];
    let all: Vec<MatchScoreRecord> = first
        .iter()
        .chain(second.iter())
        .map(|r| MatchScoreRecord {
            game_id: r.game_id.clone(),
            match_id: r.match_id.clone(),
            player_name: r.player_name.clone(),
            score: r.score,
            rank: r.rank,
        })
        .collect();
    let part_one = aggregate_players(&matches_of(first), Metric::Rank);
    let part_two = aggregate_players(&matches_of(second), Metric::Rank);
    let combined = aggregate_players(&matches_of(all), Metric::Rank);
    for p in &combined {
        let a = part_one.iter().find(|q| q.name == p.name).map_or(0, |q| q.total);
        let b = part_two.iter().find(|q| q.name == p.name).map_or(0, |q| q.total);
        assert_eq!(p.total, a + b);
    }
    assert_eq!(combined.len(), 2);
}

#[test]
fn totals_saturate_instead_of_overflowing() {
    let matches = matches_of(vec![
        record("chess", "m1", "Alice", u64::MAX, 1),
        record("chess", "m2", "Alice", u64::MAX, 1),
    ]);
    let players = aggregate_players(&matches, Metric::Score);
    assert_eq!(players[0].total, u64::MAX);
}
