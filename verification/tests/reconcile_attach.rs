use game_report::attach::attach_matches;
use game_report::reconcile::reconcile_into;
use game_report::records::{Game, GameRecord, Match, MatchScoreRecord, Score};
use game_report::registry::{build_registry, set_display_name};

fn record(game: &str, matchid: &str, player: &str, score: u64, rank: u64) -> MatchScoreRecord {
    MatchScoreRecord {
        game_id: game.to_string(),
        match_id: matchid.to_string(),
        player_name: player.to_string(),
        score: Some(score),
        rank: Some(rank),
    }
}

fn game_record(id: &str, external_ref: &str) -> GameRecord {
    GameRecord { id: id.to_string(), external_ref: external_ref.to_string() }
}

#[test]
fn from_row_projections() {
    let row = record("chess", "m1", "Alice", 10, 1);
    let score = Score::from_row(&row);
    assert_eq!(score.player_name, "Alice");
    assert_eq!(score.score, Some(10));
    assert_eq!(score.rank, Some(1));
    let m = Match::from_row(&row);
    assert_eq!(m.match_id, "m1");
    assert_eq!(m.game_id, "chess");
    assert_eq!(m.scores.len(), 1);
    let g = Game::from_row(game_record("chess", "171"));
    assert_eq!(g.id, "chess");
    assert_eq!(g.external_ref, "171");
    assert_eq!(g.display_name, "chess");
    assert!(g.matches.is_empty());
}

#[test]
fn scores_split_across_sources_merge_into_one_match() {
    let mut matches: Vec<Match> = Vec::new();
    let source_one = vec![
        record("chess", "m1", "Alice", 10, 1),
        record("chess", "m2", "Carol", 5, 1),
    ];
    let source_two = vec![
        record("chess", "m1", "Bob", 8, 2),
        record("chess", "m1", "Dave", 6, 3),
    ];
    reconcile_into(&mut matches, &source_one);
    reconcile_into(&mut matches, &source_two);
    assert_eq!(matches.len(), 2);
    let m1 = &matches[0];
    assert_eq!(m1.match_id, "m1");
    assert_eq!(m1.scores.len(), 3);
    assert_eq!(m1.scores[0].player_name, "Alice");
    assert_eq!(m1.scores[1].player_name, "Bob");
    assert_eq!(m1.scores[2].player_name, "Dave");
    assert_eq!(matches[1].match_id, "m2");
}

#[test]
fn duplicate_player_rows_are_both_retained() {
    let mut matches: Vec<Match> = Vec::new();
    let rows = vec![
        record("chess", "m1", "Alice", 10, 1),
        record("chess", "m1", "Alice", 7, 2),
    ];
    reconcile_into(&mut matches, &rows);
    assert_eq!(matches.len(), 1);
    assert_eq!(matches[0].scores.len(), 2);
    assert_eq!(matches[0].scores[0].score, Some(10));
    assert_eq!(matches[0].scores[1].score, Some(7));
}

#[test]
fn first_seen_game_id_wins_on_disagreement() {
    let mut matches: Vec<Match> = Vec::new();
    let rows = vec![
        record("chess", "m1", "Alice", 10, 1),
        record("checkers", "m1", "Bob", 8, 2),
    ];
    reconcile_into(&mut matches, &rows);
    assert_eq!(matches.len(), 1);
    assert_eq!(matches[0].game_id, "chess");
    assert_eq!(matches[0].scores.len(), 2);
}

#[test]
fn registry_holds_one_game_per_unique_id() {
    let records = vec![game_record("chess", "171"), game_record("go", "188")];
    let (games, dups) = build_registry(&records);
    assert_eq!(games.len(), 2);
    assert_eq!(games[0].id, "chess");
    assert_eq!(games[0].display_name, "chess");
    assert!(games[0].matches.is_empty());
    assert_eq!(games[1].id, "go");
    assert!(games[1].matches.is_empty());
    assert!(dups.is_empty());
}

#[test]
fn duplicate_game_id_applies_last_write_wins() {
    let records = vec![
        game_record("chess", "171"),
        game_record("go", "188"),
        game_record("chess", "999"),
    ];
    let (games, dups) = build_registry(&records);
    assert_eq!(games.len(), 2);
    assert_eq!(games[0].id, "chess");
    assert_eq!(games[0].external_ref, "999");
    assert_eq!(games[1].id, "go");
    assert_eq!(dups.len(), 1);
    assert_eq!(dups[0].id, "chess");
}

#[test]
fn enrichment_sets_display_name_of_known_game_only() {
    let records = vec![game_record("chess", "171")];
    let (mut games, _) = build_registry(&records);
    let found = set_display_name(&mut games, &"chess".to_string(), "Chess".to_string());
    assert!(found);
    assert_eq!(games[0].display_name, "Chess");
    let missing = set_display_name(&mut games, &"go".to_string(), "Go".to_string());
    assert!(!missing);
    assert_eq!(games.len(), 1);
    assert_eq!(games[0].display_name, "Chess");
}

#[test]
fn unresolved_match_is_surfaced_and_not_attached() {
    let records = vec![game_record("chess", "171")];
    let (mut games, _) = build_registry(&records);
    let mut matches: Vec<Match> = Vec::new();
    reconcile_into(
        &mut matches,
        &vec![
            record("chess", "m1", "Alice", 10, 1),
            record("mahjong", "m2", "Bob", 8, 1),
        ],
    );
    let unresolved = attach_matches(&mut games, matches);
    assert_eq!(unresolved.len(), 1);
    assert_eq!(unresolved[0].match_id, "m2");
    assert_eq!(unresolved[0].game_id, "mahjong");
    assert_eq!(games.len(), 1);
    assert_eq!(games[0].matches.len(), 1);
    assert_eq!(games[0].matches[0].match_id, "m1");
}

#[test]
fn matches_attach_in_reconciliation_order() {
    let records = vec![game_record("chess", "171")];
    let (mut games, _) = build_registry(&records);
    let mut matches: Vec<Match> = Vec::new();
    reconcile_into(
        &mut matches,
        &vec![
            record("chess", "m2", "Alice", 10, 1),
            record("chess", "m1", "Bob", 8, 1),
        ],
    );
    let unresolved = attach_matches(&mut games, matches);
    assert!(unresolved.is_empty());
    assert_eq!(games[0].matches.len(), 2);
    assert_eq!(games[0].matches[0].match_id, "m2");
    assert_eq!(games[0].matches[1].match_id, "m1");
}
