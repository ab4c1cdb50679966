use game_report::parse::{parse_game_row, parse_match_row, parse_game_source, parse_match_source,
    parse_u64, split_on_exec, ParseError};

fn header(cols: &[&str]) -> Vec<String> {
    cols.iter().map(|c| c.to_string()).collect()
}

#[test]
fn parse_u64_accepts_plain_digits() {
    assert_eq!(parse_u64("171"), Some(171));
    assert_eq!(parse_u64("0"), Some(0));
    assert_eq!(parse_u64("18446744073709551615"), Some(u64::MAX));
}

#[test]
fn parse_u64_rejects_empty_and_non_digits() {
    assert_eq!(parse_u64(""), None);
    assert_eq!(parse_u64("12a"), None);
    assert_eq!(parse_u64("-3"), None);
    assert_eq!(parse_u64(" 7"), None);
}

#[test]
fn parse_u64_rejects_out_of_range() {
    assert_eq!(parse_u64("18446744073709551616"), None);
    assert_eq!(parse_u64("99999999999999999999999"), None);
}

#[test]
fn split_keeps_empty_fields() {
    let fields = split_on_exec("a,,b,", ',');
    assert_eq!(fields, vec!["a".to_string(), "".to_string(), "b".to_string(), "".to_string()]);
    assert_eq!(split_on_exec("", ','), vec!["".to_string()]);
}

#[test]
fn game_row_parses() {
    let cols = header(&["id", "bgg_id"]);
    let rec = parse_game_row(&cols, "chess,171").unwrap();
    assert_eq!(rec.id, "chess");
    assert_eq!(rec.external_ref, "171");
}

#[test]
fn game_row_missing_required_field() {
    let cols = header(&["id", "bgg_id"]);
    assert_eq!(parse_game_row(&cols, "chess,").unwrap_err(), ParseError::MissingField);
    assert_eq!(parse_game_row(&cols, ",171").unwrap_err(), ParseError::MissingField);
    assert_eq!(parse_game_row(&cols, "chess").unwrap_err(), ParseError::MissingField);
    let bad_header = header(&["id"]);
    assert_eq!(parse_game_row(&bad_header, "chess").unwrap_err(), ParseError::MissingField);
}

#[test]
fn game_row_with_extra_fields_is_malformed() {
    let cols = header(&["id", "bgg_id"]);
    assert_eq!(parse_game_row(&cols, "chess,171,extra").unwrap_err(), ParseError::MalformedRow);
}

#[test]
fn match_row_parses() {
    let cols = header(&["game", "matchid", "player", "score", "rank"]);
    let rec = parse_match_row(&cols, "chess,m1,Alice,10,1").unwrap();
    assert_eq!(rec.game_id, "chess");
    assert_eq!(rec.match_id, "m1");
    assert_eq!(rec.player_name, "Alice");
    assert_eq!(rec.score, Some(10));
    assert_eq!(rec.rank, Some(1));
}

#[test]
fn match_row_score_and_rank_are_each_optional() {
    let cols = header(&["game", "matchid", "player", "score", "rank"]);
    let no_rank = parse_match_row(&cols, "chess,m1,Alice,10,").unwrap();
    assert_eq!(no_rank.score, Some(10));
    assert_eq!(no_rank.rank, None);
    let no_score = parse_match_row(&cols, "chess,m1,Alice,,2").unwrap();
    assert_eq!(no_score.score, None);
    assert_eq!(no_score.rank, Some(2));
    let short_header = header(&["game", "matchid", "player"]);
    let neither = parse_match_row(&short_header, "chess,m1,Alice").unwrap();
    assert_eq!(neither.score, None);
    assert_eq!(neither.rank, None);
}

#[test]
fn match_row_rejects_bad_numbers() {
    let cols = header(&["game", "matchid", "player", "score", "rank"]);
    assert_eq!(
        parse_match_row(&cols, "chess,m1,Alice,ten,1").unwrap_err(),
        ParseError::WrongType
    );
    assert_eq!(
        parse_match_row(&cols, "chess,m1,Alice,10,0").unwrap_err(),
        ParseError::WrongType
    );
    assert_eq!(
        parse_match_row(&cols, "chess,m1,Alice,99999999999999999999999,1").unwrap_err(),
        ParseError::WrongType
    );
}

#[test]
fn match_row_missing_player_is_missing_field() {
    let cols = header(&["game", "matchid", "player", "score", "rank"]);
    assert_eq!(
        parse_match_row(&cols, "chess,m1,,10,1").unwrap_err(),
        ParseError::MissingField
    );
}

#[test]
fn game_source_skips_bad_rows_and_keeps_good_ones() {
    let content = "id,bgg_id\nchess,171\nbadrow,\ngo,188\n";
    let (records, skips) = parse_game_source(content);
    assert_eq!(records.len(), 2);
    assert_eq!(records[0].id, "chess");
    assert_eq!(records[1].id, "go");
    assert_eq!(skips.len(), 1);
    assert_eq!(skips[0].line, 2);
    assert_eq!(skips[0].error, ParseError::MissingField);
}

#[test]
fn sources_accept_crlf_and_blank_lines() {
    let content = "id,bgg_id\r\n\r\nchess,171\r\n";
    let (records, skips) = parse_game_source(content);
    assert_eq!(records.len(), 1);
    assert_eq!(records[0].id, "chess");
    assert_eq!(records[0].external_ref, "171");
    assert!(skips.is_empty());
}

#[test]
fn match_source_parses_rows_in_order() {
    let content = "game,matchid,player,score,rank\nchess,m1,Alice,10,1\nchess,m1,Bob,8,2\n";
    let (records, skips) = parse_match_source(content);
    assert_eq!(records.len(), 2);
    assert_eq!(records[0].player_name, "Alice");
    assert_eq!(records[1].player_name, "Bob");
    assert!(skips.is_empty());
}

#[test]
fn match_source_reports_skip_reasons() {
    let content = "game,matchid,player,score,rank\nchess,m1,Alice,x,1\nchess,m2,Bob,8,2\n";
    let (records, skips) = parse_match_source(content);
    assert_eq!(records.len(), 1);
    assert_eq!(records[0].player_name, "Bob");
    assert_eq!(skips.len(), 1);
    assert_eq!(skips[0].line, 1);
    assert_eq!(skips[0].error, ParseError::WrongType);
}
