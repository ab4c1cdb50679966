use game_report::aggregate::Metric;
use game_report::parse::ParseError;
use game_report::pipeline::run;

const GAMES: &str = "id,bgg_id\nchess,171\n";
const MATCHES: &str = "game,matchid,player,score,rank\nchess,m1,Alice,10,1\nchess,m1,Bob,8,2\n";

#[test]
fn round_trip_one_game_one_match() {
    let report = run(GAMES, &vec![MATCHES.to_string()], Metric::Rank);
    assert_eq!(report.games.len(), 1);
    let game = &report.games[0];
    assert_eq!(game.id, "chess");
    assert_eq!(game.external_ref, "171");
    assert_eq!(game.display_name, "chess");
    assert_eq!(game.matches.len(), 1);
    let m = &game.matches[0];
    assert_eq!(m.match_id, "m1");
    assert_eq!(m.game_id, "chess");
    assert_eq!(m.scores.len(), 2);
    assert_eq!(m.scores[0].player_name, "Alice");
    assert_eq!(m.scores[1].player_name, "Bob");
    assert_eq!(report.players.len(), 2);
    assert_eq!(report.players[0].name, "Alice");
    assert_eq!(report.players[0].total, 1);
    assert_eq!(report.players[1].name, "Bob");
    assert_eq!(report.players[1].total, 2);
    assert!(report.unresolved.is_empty());
    assert!(report.duplicates.is_empty());
    assert!(report.game_skips.is_empty());
    assert!(report.match_skips.is_empty());
}

#[test]
fn round_trip_with_score_metric() {
    let report = run(GAMES, &vec![MATCHES.to_string()], Metric::Score);
    assert_eq!(report.players[0].name, "Alice");
    assert_eq!(report.players[0].total, 10);
    assert_eq!(report.players[1].name, "Bob");
    assert_eq!(report.players[1].total, 8);
}

#[test]
fn bad_game_row_is_skipped_and_rest_processed() {
    let games = "id,bgg_id\nchess,\ngo,188\n";
    let report = run(games, &Vec::new(), Metric::Rank);
    assert_eq!(report.games.len(), 1);
    assert_eq!(report.games[0].id, "go");
    assert_eq!(report.game_skips.len(), 1);
    assert_eq!(report.game_skips[0].line, 1);
    assert_eq!(report.game_skips[0].error, ParseError::MissingField);
}

#[test]
fn reruns_on_identical_inputs_agree() {
    let sources = vec![MATCHES.to_string()];
    let first = run(GAMES, &sources, Metric::Rank);
    let second = run(GAMES, &sources, Metric::Rank);
    assert_eq!(first, second);
}

#[test]
fn matches_split_across_sources_merge_in_pipeline() {
    let one = "game,matchid,player,score,rank\nchess,m1,Alice,10,1\n";
    let two = "game,matchid,player,score,rank\nchess,m1,Bob,8,2\n";
    let report = run(GAMES, &vec![one.to_string(), two.to_string()], Metric::Rank);
    assert_eq!(report.games[0].matches.len(), 1);
    assert_eq!(report.games[0].matches[0].scores.len(), 2);
}

#[test]
fn unknown_game_reference_is_reported_not_dropped() {
    let matches = "game,matchid,player,score,rank\nmahjong,m9,Eve,1,1\n";
    let report = run(GAMES, &vec![matches.to_string()], Metric::Rank);
    assert_eq!(report.games.len(), 1);
    assert!(report.games[0].matches.is_empty());
    assert_eq!(report.unresolved.len(), 1);
    assert_eq!(report.unresolved[0].match_id, "m9");
    assert_eq!(report.unresolved[0].game_id, "mahjong");
    assert_eq!(report.players.len(), 1);
    assert_eq!(report.players[0].name, "Eve");
}

#[test]
fn match_skips_carry_source_and_line() {
    let one = "game,matchid,player,score,rank\nchess,m1,Alice,10,1\n";
    let two = "game,matchid,player,score,rank\nchess,m2,Bob,x,2\n";
    let report = run(GAMES, &vec![one.to_string(), two.to_string()], Metric::Rank);
    assert_eq!(report.match_skips.len(), 1);
    assert_eq!(report.match_skips[0].source, 1);
    assert_eq!(report.match_skips[0].line, 1);
    assert_eq!(report.match_skips[0].error, ParseError::WrongType);
}

#[test]
fn empty_inputs_give_empty_model() {
    let report = run("id,bgg_id\n", &Vec::new(), Metric::Rank);
    assert!(report.games.is_empty());
    assert!(report.players.is_empty());
    assert!(report.unresolved.is_empty());
    assert!(report.duplicates.is_empty());
    assert!(report.game_skips.is_empty());
    assert!(report.match_skips.is_empty());
}

#[test]
fn duplicate_game_rows_warn_in_pipeline() {
    let games = "id,bgg_id\nchess,171\nchess,999\n";
    let report = run(games, &Vec::new(), Metric::Rank);
    assert_eq!(report.games.len(), 1);
    assert_eq!(report.games[0].external_ref, "999");
    assert_eq!(report.duplicates.len(), 1);
    assert_eq!(report.duplicates[0].id, "chess");
}
