//! The row parser: one line of delimited text in, one typed record (or a
//! classified parse failure) out.
//!
//! Input sources are header-declared: the first line names the columns,
//! every later line supplies values, comma-delimited.  A row is either
//! fully valid or fully rejected with a [`ParseError`]; the caller skips
//! the row and continues, so one malformed row never aborts a run.
//!
//! Policy, stated precisely in the contracts below: a required field must
//! be present and non-empty; the numeric fields `score` and `rank` are
//! each optional (absent column or empty value means "not declared") but
//! must be unsigned decimal numbers fitting `u64` when present, `rank`
//! additionally positive; a row with more fields than the header has is
//! malformed; blank lines are ignored by the source-level parser; a
//! trailing carriage return is stripped from every line, so both LF and
//! CRLF sources are accepted.

use vstd::prelude::*;

use crate::records::{GameRecord, MatchScoreRecord, SpecGameRecord, SpecMatchScoreRecord};

verus! {

/// Why a row was rejected.
#[derive(Clone, Copy, Debug, PartialEq, Eq, Structural)]
pub enum ParseError {
    /// A required column is absent from the header, or the row has no
    /// non-empty value in it.
    MissingField,
    /// A numeric field is not an unsigned decimal number in range, or a
    /// rank is zero.
    WrongType,
    /// The row has more fields than the header declares.
    MalformedRow,
}

/// The fields of `s` delimited by `d`: splitting the empty text gives one
/// empty field, and every occurrence of `d` ends a field.
pub open spec fn split_on(s: Seq<char>, d: char) -> Seq<Seq<char>>
    decreases s.len(),
{
    if s.len() == 0 {
        seq![Seq::<char>::empty()]
    } else {
        let prev = split_on(s.drop_last(), d);
        if s.last() == d {
            prev + seq![Seq::<char>::empty()]
        } else {
            prev.update(prev.len() - 1, prev.last().push(s.last()))
        }
    }
}

/// Splitting always yields at least one field.
pub proof fn lemma_split_on_len(s: Seq<char>, d: char)
    ensures
        split_on(s, d).len() >= 1,
    decreases s.len(),
{
    if s.len() > 0 {
        lemma_split_on_len(s.drop_last(), d);
    }
}

/// Splits `s` at every occurrence of `d`.
pub fn split_on_exec(s: &str, d: char) -> (fields: Vec<String>)
    ensures
        fields.deep_view() == split_on(s@, d),
{
    let len = s.unicode_len();
    let mut fields: Vec<String> = Vec::new();
    let mut start: usize = 0;
    let mut i: usize = 0;
    proof {
        assert(s@.take(0) =~= Seq::<char>::empty());
        assert(fields.deep_view() + seq![s@.subrange(0, 0)] =~= split_on(s@.take(0), d));
    }
    while i < len
        invariant
            len == s@.len(),
            start <= i <= len,
            fields.deep_view() + seq![s@.subrange(start as int, i as int)] == split_on(
                s@.take(i as int),
                d,
            ),
        decreases len - i,
    {
        let ghost pre = fields.deep_view();
        let c = s.get_char(i);
        proof {
            assert(s@.take(i + 1).drop_last() =~= s@.take(i as int));
            assert(s@.take(i + 1).last() == s@[i as int]);
        }
        if c == d {
            let ghost start0 = start as int;
            let f = s.substring_char(start, i).to_owned();
            fields.push(f);
            start = i + 1;
            proof {
                assert(s@[i as int] == d);
                assert(f@ == s@.subrange(start0, i as int));
                assert(fields.deep_view() =~~= pre.push(s@.subrange(start0, i as int)));
                assert(s@.subrange(i + 1, i + 1) =~= Seq::<char>::empty());
                assert(fields.deep_view() + seq![s@.subrange(i + 1, i + 1)] =~~= split_on(
                    s@.take(i as int),
                    d,
                ) + seq![Seq::<char>::empty()]);
            }
        } else {
            proof {
                lemma_split_on_len(s@.take(i as int), d);
                let w = split_on(s@.take(i as int), d);
                assert(w.last() == s@.subrange(start as int, i as int));
                assert(s@.subrange(start as int, i + 1) =~= s@.subrange(
                    start as int,
                    i as int,
                ).push(s@[i as int]));
                assert(pre + seq![s@.subrange(start as int, i + 1)] =~= w.update(
                    w.len() - 1,
                    w.last().push(s@[i as int]),
                ));
            }
        }
        i += 1;
    }
    let f = s.substring_char(start, len).to_owned();
    fields.push(f);
    proof {
        assert(s@.take(len as int) =~= s@);
        assert(fields.deep_view() =~= split_on(s@, d));
    }
    fields
}

/// A decimal digit.
pub open spec fn is_digit(c: char) -> bool {
    48 <= c as u32 <= 57
}

/// The value of one digit; a non-digit counts zero, which keeps the
/// accumulated value monotone in the length of the text.
pub open spec fn digit_val(c: char) -> nat {
    if is_digit(c) {
        (c as u32 - 48) as nat
    } else {
        0
    }
}

/// Non-empty text made of decimal digits only.
pub open spec fn is_digits(s: Seq<char>) -> bool {
    s.len() > 0 && forall|i: int| 0 <= i < s.len() ==> is_digit(s[i])
}

/// The number the digits denote, most significant first.
pub open spec fn digits_val(s: Seq<char>) -> nat
    decreases s.len(),
{
    if s.len() == 0 {
        0
    } else {
        digits_val(s.drop_last()) * 10 + digit_val(s.last())
    }
}

/// The denoted number never shrinks as text is appended.
proof fn lemma_digits_val_monotone(s: Seq<char>, k: int)
    requires
        0 <= k <= s.len(),
    ensures
        digits_val(s) >= digits_val(s.take(k)),
    decreases s.len(),
{
    if k == s.len() {
        assert(s.take(k) =~= s);
    } else {
        lemma_digits_val_monotone(s.drop_last(), k);
        assert(s.drop_last().take(k) =~= s.take(k));
        assert(digits_val(s.drop_last()) * 10 >= digits_val(s.drop_last()));
    }
}

/// Parses an unsigned decimal number.  Exactly the non-empty all-digit
/// texts whose value fits `u64` are accepted.
pub fn parse_u64(s: &str) -> (r: Option<u64>)
    ensures
        match r {
            Some(v) => is_digits(s@) && digits_val(s@) == v as nat,
            None => !is_digits(s@) || digits_val(s@) > u64::MAX,
        },
{
    let len = s.unicode_len();
    if len == 0 {
        return None;
    }
    let mut val: u64 = 0;
    let mut i: usize = 0;
    proof {
        assert(s@.take(0) =~= Seq::<char>::empty());
    }
    while i < len
        invariant
            len == s@.len(),
            s@.len() > 0,
            i <= len,
            forall|j: int| 0 <= j < i ==> is_digit(s@[j]),
            val as nat == digits_val(s@.take(i as int)),
        decreases len - i,
    {
        let c = s.get_char(i);
        let u: u32 = c as u32;
        if u < 48 || u > 57 {
            return None;
        }
        let d: u64 = (u - 48) as u64;
        proof {
            assert(s@.take(i + 1).drop_last() =~= s@.take(i as int));
            assert(s@.take(i + 1).last() == s@[i as int]);
            assert(digits_val(s@.take(i + 1)) == val as nat * 10 + d as nat);
        }
        if val > (u64::MAX - d) / 10 {
            proof {
                assert(val as nat * 10 + d as nat > u64::MAX) by (nonlinear_arith)
                    requires
                        val as nat > (u64::MAX - d as nat) / 10,
                        d as nat <= 9,
                ;
                if is_digits(s@) {
                    lemma_digits_val_monotone(s@, i + 1);
                }
            }
            return None;
        }
        proof {
            assert(val as nat * 10 + d as nat <= u64::MAX) by (nonlinear_arith)
                requires
                    val as nat <= (u64::MAX - d as nat) / 10,
                    d as nat <= 9,
            ;
        }
        val = val * 10 + d;
        i += 1;
    }
    proof {
        assert(s@.take(len as int) =~= s@);
    }
    Some(val)
}

/// The index of the column named `name`, if the header declares one; the
/// first such column wins when the header repeats a name.
pub open spec fn col_index(cols: Seq<Seq<char>>, name: Seq<char>) -> Option<int>
    decreases cols.len(),
{
    if cols.len() == 0 {
        None
    } else if cols[0] == name {
        Some(0int)
    } else {
        match col_index(cols.drop_first(), name) {
            Some(i) => Some(i + 1),
            None => None,
        }
    }
}

/// `col_index` returns the least index declaring `name`, and `None`
/// exactly when no column does.
pub proof fn lemma_col_index(cols: Seq<Seq<char>>, name: Seq<char>)
    ensures
        match col_index(cols, name) {
            Some(i) => 0 <= i < cols.len() && cols[i] == name && (forall|j: int|
                0 <= j < i ==> cols[j] != name),
            None => forall|j: int| 0 <= j < cols.len() ==> cols[j] != name,
        },
    decreases cols.len(),
{
    if cols.len() == 0 {
    } else if cols[0] == name {
    } else {
        let t = cols.drop_first();
        lemma_col_index(t, name);
        match col_index(t, name) {
            Some(i) => {
                assert(cols[i + 1] == t[i]);
                assert forall|j: int| 0 <= j < i + 1 implies cols[j] != name by {
                    if j > 0 {
                        assert(cols[j] == t[j - 1]);
                    }
                }
            },
            None => {
                assert forall|j: int| 0 <= j < cols.len() implies cols[j] != name by {
                    if j > 0 {
                        assert(cols[j] == t[j - 1]);
                    }
                }
            },
        }
    }
}

/// The value of the field named `name` in a row: present exactly when the
/// header declares the column and the row holds a non-empty value there.
/// A row shorter than the header simply omits the trailing fields.
pub open spec fn spec_field(
    fields: Seq<Seq<char>>,
    cols: Seq<Seq<char>>,
    name: Seq<char>,
) -> Option<Seq<char>> {
    match col_index(cols, name) {
        Some(i) => if i < fields.len() && fields[i].len() > 0 {
            Some(fields[i])
        } else {
            None
        },
        None => None,
    }
}

/// An optional numeric field: absent is fine, but a present value must be
/// an unsigned decimal number fitting `u64`.
pub open spec fn spec_num_field(
    fields: Seq<Seq<char>>,
    cols: Seq<Seq<char>>,
    name: Seq<char>,
) -> Result<Option<u64>, ParseError> {
    match spec_field(fields, cols, name) {
        None => Ok(None),
        Some(f) => if is_digits(f) && digits_val(f) <= u64::MAX {
            Ok(Some(digits_val(f) as u64))
        } else {
            Err(ParseError::WrongType)
        },
    }
}

/// What one game-input row parses to: a record with the `id` and `bgg_id`
/// fields, both required, or the first applicable failure (malformed row
/// before missing field).
pub open spec fn spec_parse_game_row(cols: Seq<Seq<char>>, line: Seq<char>) -> Result<
    SpecGameRecord,
    ParseError,
> {
    let fields = split_on(line, ',');
    if fields.len() > cols.len() {
        Err(ParseError::MalformedRow)
    } else {
        match (spec_field(fields, cols, "id"@), spec_field(fields, cols, "bgg_id"@)) {
            (Some(id), Some(rf)) => Ok(SpecGameRecord { id: id, external_ref: rf }),
            _ => Err(ParseError::MissingField),
        }
    }
}

/// What one match-input row parses to: `game`, `matchid` and `player` are
/// required; `score` and `rank` are optional numbers, a declared rank
/// additionally positive.  Failures are classified in that order.
pub open spec fn spec_parse_match_row(cols: Seq<Seq<char>>, line: Seq<char>) -> Result<
    SpecMatchScoreRecord,
    ParseError,
> {
    let fields = split_on(line, ',');
    if fields.len() > cols.len() {
        Err(ParseError::MalformedRow)
    } else {
        match (
            spec_field(fields, cols, "game"@),
            spec_field(fields, cols, "matchid"@),
            spec_field(fields, cols, "player"@),
        ) {
            (Some(g), Some(mid), Some(p)) => match (
                spec_num_field(fields, cols, "score"@),
                spec_num_field(fields, cols, "rank"@),
            ) {
                (Ok(score), Ok(rank)) => if rank matches Some(k) && k == 0 {
                    Err(ParseError::WrongType)
                } else {
                    Ok(
                        SpecMatchScoreRecord {
                            game_id: g,
                            match_id: mid,
                            player_name: p,
                            score: score,
                            rank: rank,
                        },
                    )
                },
                _ => Err(ParseError::WrongType),
            },
            _ => Err(ParseError::MissingField),
        }
    }
}

/// Finds the column named `name` in the header.
fn find_column(cols: &Vec<String>, name: &String) -> (r: Option<usize>)
    ensures
        match r {
            Some(i) => i < cols@.len() && col_index(cols.deep_view(), name@) == Some(i as int),
            None => col_index(cols.deep_view(), name@) is None,
        },
{
    let n = cols.len();
    let mut i: usize = 0;
    while i < n
        invariant
            n == cols.len(),
            i <= n,
            forall|j: int| 0 <= j < i ==> cols.deep_view()[j] != name@,
        decreases n - i,
    {
        if cols[i] == *name {
            proof {
                assert(cols.deep_view()[i as int] == name@);
                lemma_col_index(cols.deep_view(), name@);
            }
            return Some(i);
        }
        i += 1;
    }
    proof {
        lemma_col_index(cols.deep_view(), name@);
    }
    None
}

/// Fetches the required or optional field named `name` from a row.
fn get_field(fields: &Vec<String>, cols: &Vec<String>, name: &String) -> (r: Option<String>)
    ensures
        match r {
            Some(f) => spec_field(fields.deep_view(), cols.deep_view(), name@) == Some(f@),
            None => spec_field(fields.deep_view(), cols.deep_view(), name@) is None,
        },
{
    match find_column(cols, name) {
        Some(i) => {
            if i < fields.len() {
                let f = &fields[i];
                if !f.as_str().is_empty() {
                    Some(f.clone())
                } else {
                    None
                }
            } else {
                None
            }
        },
        None => None,
    }
}

/// Fetches and parses the optional numeric field named `name`.
fn get_num_field(fields: &Vec<String>, cols: &Vec<String>, name: &String) -> (r: Result<
    Option<u64>,
    ParseError,
>)
    ensures
        r == spec_num_field(fields.deep_view(), cols.deep_view(), name@),
{
    match get_field(fields, cols, name) {
        None => Ok(None),
        Some(f) => match parse_u64(f.as_str()) {
            Some(v) => Ok(Some(v)),
            None => Err(ParseError::WrongType),
        },
    }
}

/// Parses one game-input row against the header.
pub fn parse_game_row(cols: &Vec<String>, line: &str) -> (r: Result<GameRecord, ParseError>)
    ensures
        match r {
            Ok(rec) => spec_parse_game_row(cols.deep_view(), line@) == Ok::<
                SpecGameRecord,
                ParseError,
            >(rec@),
            Err(e) => spec_parse_game_row(cols.deep_view(), line@) == Err::<
                SpecGameRecord,
                ParseError,
            >(e),
        },
{
    let fields = split_on_exec(line, ',');
    if fields.len() > cols.len() {
        return Err(ParseError::MalformedRow);
    }
    let name_id = String::from_str("id");
    let name_ref = String::from_str("bgg_id");
    let id = get_field(&fields, cols, &name_id);
    let rf = get_field(&fields, cols, &name_ref);
    match (id, rf) {
        (Some(id), Some(rf)) => Ok(GameRecord { id, external_ref: rf }),
        _ => Err(ParseError::MissingField),
    }
}

/// Parses one match-input row against the header.
pub fn parse_match_row(cols: &Vec<String>, line: &str) -> (r: Result<MatchScoreRecord, ParseError>)
    ensures
        match r {
            Ok(rec) => spec_parse_match_row(cols.deep_view(), line@) == Ok::<
                SpecMatchScoreRecord,
                ParseError,
            >(rec@),
            Err(e) => spec_parse_match_row(cols.deep_view(), line@) == Err::<
                SpecMatchScoreRecord,
                ParseError,
            >(e),
        },
{
    let fields = split_on_exec(line, ',');
    if fields.len() > cols.len() {
        return Err(ParseError::MalformedRow);
    }
    let name_game = String::from_str("game");
    let name_matchid = String::from_str("matchid");
    let name_player = String::from_str("player");
    let name_score = String::from_str("score");
    let name_rank = String::from_str("rank");
    let g = get_field(&fields, cols, &name_game);
    let mid = get_field(&fields, cols, &name_matchid);
    let p = get_field(&fields, cols, &name_player);
    match (g, mid, p) {
        (Some(g), Some(mid), Some(p)) => {
            let score = get_num_field(&fields, cols, &name_score);
            let rank = get_num_field(&fields, cols, &name_rank);
            match (score, rank) {
                (Ok(score), Ok(rank)) => {
                    if let Some(k) = rank {
                        if k == 0 {
                            return Err(ParseError::WrongType);
                        }
                    }
                    Ok(
                        MatchScoreRecord {
                            game_id: g,
                            match_id: mid,
                            player_name: p,
                            score,
                            rank,
                        },
                    )
                },
                _ => Err(ParseError::WrongType),
            }
        },
        _ => Err(ParseError::MissingField),
    }
}

/// A line with a trailing carriage return stripped, so CRLF sources parse
/// like LF sources.
pub open spec fn strip_cr(s: Seq<char>) -> Seq<char> {
    if s.len() > 0 && s.last() == '\r' {
        s.drop_last()
    } else {
        s
    }
}

/// Strips the trailing carriage return, if any.
fn strip_cr_exec(line: &String) -> (r: String)
    ensures
        r@ == strip_cr(line@),
{
    let s = line.as_str();
    let len = s.unicode_len();
    if len > 0 && s.get_char(len - 1) == '\r' {
        s.substring_char(0, len - 1).to_owned()
    } else {
        proof {
            assert(s@.subrange(0, len as int) =~= s@);
        }
        s.substring_char(0, len).to_owned()
    }
}

/// The logical lines of a source: physical lines split at every newline,
/// each with a trailing carriage return stripped.
pub open spec fn spec_lines(content: Seq<char>) -> Seq<Seq<char>> {
    Seq::new(split_on(content, '\n').len(), |i: int| strip_cr(split_on(content, '\n')[i]))
}

/// Splits a whole source into logical lines.
fn lines_exec(content: &str) -> (lines: Vec<String>)
    ensures
        lines.deep_view() == spec_lines(content@),
        lines@.len() >= 1,
{
    let raw = split_on_exec(content, '\n');
    proof {
        lemma_split_on_len(content@, '\n');
    }
    let mut lines: Vec<String> = Vec::new();
    let n = raw.len();
    let mut i: usize = 0;
    while i < n
        invariant
            n == raw.len(),
            raw.deep_view() == split_on(content@, '\n'),
            i <= n,
            lines@.len() == i,
            forall|j: int|
                0 <= j < i ==> lines.deep_view()[j] == strip_cr(split_on(content@, '\n')[j]),
        decreases n - i,
    {
        let stripped = strip_cr_exec(&raw[i]);
        proof {
            assert(raw@[i as int]@ == raw.deep_view()[i as int]);
            assert(stripped@ == strip_cr(split_on(content@, '\n')[i as int]));
        }
        let ghost prevv = lines@;
        let ghost prevd = lines.deep_view();
        lines.push(stripped);
        proof {
            assert forall|j: int|
                0 <= j < i + 1 implies lines.deep_view()[j] == strip_cr(
                split_on(content@, '\n')[j],
            ) by {
                assert(lines.deep_view()[j] == lines@[j].deep_view());
                if j < i {
                    assert(lines@[j] == prevv[j]);
                    assert(prevd[j] == prevv[j].deep_view());
                } else {
                    assert(lines@[j] == stripped);
                }
            }
        }
        i += 1;
    }
    proof {
        assert(lines.deep_view() =~~= spec_lines(content@));
    }
    lines
}

/// Diagnostic for one skipped row: the zero-based index of the line in
/// its source (the header is line zero) and why it was rejected.
#[derive(Debug, PartialEq, Eq)]
pub struct RowSkip {
    pub line: usize,
    pub error: ParseError,
}

pub ghost struct SpecRowSkip {
    pub line: int,
    pub error: ParseError,
}

impl View for RowSkip {
    type V = SpecRowSkip;

    open spec fn view(&self) -> SpecRowSkip {
        SpecRowSkip { line: self.line as int, error: self.error }
    }
}

impl DeepView for RowSkip {
    type V = SpecRowSkip;

    open spec fn deep_view(&self) -> SpecRowSkip {
        self.view()
    }
}

/// The game records and skip diagnostics of the first `k` logical lines:
/// line zero is the header, blank lines are ignored, malformed rows are
/// skipped with their reason, valid rows become records in order.
pub open spec fn spec_parse_game_lines(
    cols: Seq<Seq<char>>,
    lines: Seq<Seq<char>>,
    k: int,
) -> (Seq<SpecGameRecord>, Seq<SpecRowSkip>)
    decreases k,
{
    if k <= 1 {
        (Seq::<SpecGameRecord>::empty(), Seq::<SpecRowSkip>::empty())
    } else {
        let prev = spec_parse_game_lines(cols, lines, k - 1);
        let line = lines[k - 1];
        if line.len() == 0 {
            prev
        } else {
            match spec_parse_game_row(cols, line) {
                Ok(r) => (prev.0.push(r), prev.1),
                Err(e) => (prev.0, prev.1.push(SpecRowSkip { line: k - 1, error: e })),
            }
        }
    }
}

/// A game row that fails to parse is skipped locally: the records are
/// exactly those of the same source with that line blanked out, so the
/// bad row contributes nothing while every other row is still processed.
/// (The registry is a function of the records, so the bad row appears in
/// no registry entry either.)
pub proof fn lemma_bad_game_row_is_local(
    cols: Seq<Seq<char>>,
    lines: Seq<Seq<char>>,
    j: int,
    k: int,
)
    requires
        1 <= j < lines.len(),
        spec_parse_game_row(cols, lines[j]) is Err,
        0 <= k <= lines.len(),
    ensures
        spec_parse_game_lines(cols, lines, k).0 == spec_parse_game_lines(
            cols,
            lines.update(j, Seq::<char>::empty()),
            k,
        ).0,
    decreases k,
{
    if k > 1 {
        lemma_bad_game_row_is_local(cols, lines, j, k - 1);
        let blanked = lines.update(j, Seq::<char>::empty());
        if k - 1 != j {
            assert(blanked[k - 1] == lines[k - 1]);
        }
    }
}

/// What a whole game source parses to, header included.
pub open spec fn spec_parse_game_source(content: Seq<char>) -> (Seq<SpecGameRecord>, Seq<
    SpecRowSkip,
>) {
    let lines = spec_lines(content);
    let cols = split_on(lines[0], ',');
    spec_parse_game_lines(cols, lines, lines.len() as int)
}

/// Parses a whole game source: the first logical line declares the
/// columns, every later non-blank line yields either a record or a skip
/// diagnostic, and one bad row never stops the rest from being parsed.
pub fn parse_game_source(content: &str) -> (r: (Vec<GameRecord>, Vec<RowSkip>))
    ensures
        r.0.deep_view() == spec_parse_game_source(content@).0,
        r.1.deep_view() == spec_parse_game_source(content@).1,
{
    let lines = lines_exec(content);
    let cols = split_on_exec(lines[0].as_str(), ',');
    let mut records: Vec<GameRecord> = Vec::new();
    let mut skips: Vec<RowSkip> = Vec::new();
    let n = lines.len();
    let mut k: usize = 1;
    while k < n
        invariant
            n == lines@.len(),
            lines.deep_view() == spec_lines(content@),
            cols.deep_view() == split_on(spec_lines(content@)[0], ','),
            1 <= k <= n || (n == 1 && k == 1),
            records.deep_view() == spec_parse_game_lines(
                cols.deep_view(),
                lines.deep_view(),
                k as int,
            ).0,
            skips.deep_view() == spec_parse_game_lines(
                cols.deep_view(),
                lines.deep_view(),
                k as int,
            ).1,
        decreases n - k,
    {
        let line = &lines[k];
        if !line.as_str().is_empty() {
            match parse_game_row(&cols, line.as_str()) {
                Ok(rec) => {
                    records.push(rec);
                },
                Err(e) => {
                    skips.push(RowSkip { line: k, error: e });
                },
            }
        }
        proof {
            assert(lines.deep_view()[k as int] == line@);
            assert(records.deep_view() =~~= spec_parse_game_lines(
                cols.deep_view(),
                lines.deep_view(),
                k + 1,
            ).0);
            assert(skips.deep_view() =~~= spec_parse_game_lines(
                cols.deep_view(),
                lines.deep_view(),
                k + 1,
            ).1);
        }
        k += 1;
    }
    (records, skips)
}

/// The match records and skip diagnostics of the first `k` logical lines,
/// under the same conventions as the game side.
pub open spec fn spec_parse_match_lines(
    cols: Seq<Seq<char>>,
    lines: Seq<Seq<char>>,
    k: int,
) -> (Seq<SpecMatchScoreRecord>, Seq<SpecRowSkip>)
    decreases k,
{
    if k <= 1 {
        (Seq::<SpecMatchScoreRecord>::empty(), Seq::<SpecRowSkip>::empty())
    } else {
        let prev = spec_parse_match_lines(cols, lines, k - 1);
        let line = lines[k - 1];
        if line.len() == 0 {
            prev
        } else {
            match spec_parse_match_row(cols, line) {
                Ok(r) => (prev.0.push(r), prev.1),
                Err(e) => (prev.0, prev.1.push(SpecRowSkip { line: k - 1, error: e })),
            }
        }
    }
}

/// What a whole match source parses to, header included.
pub open spec fn spec_parse_match_source(content: Seq<char>) -> (Seq<SpecMatchScoreRecord>, Seq<
    SpecRowSkip,
>) {
    let lines = spec_lines(content);
    let cols = split_on(lines[0], ',');
    spec_parse_match_lines(cols, lines, lines.len() as int)
}

/// Parses one whole match source, exactly as [`parse_game_source`] does
/// for the game side.
pub fn parse_match_source(content: &str) -> (r: (Vec<MatchScoreRecord>, Vec<RowSkip>))
    ensures
        r.0.deep_view() == spec_parse_match_source(content@).0,
        r.1.deep_view() == spec_parse_match_source(content@).1,
{
    let lines = lines_exec(content);
    let cols = split_on_exec(lines[0].as_str(), ',');
    let mut records: Vec<MatchScoreRecord> = Vec::new();
    let mut skips: Vec<RowSkip> = Vec::new();
    let n = lines.len();
    let mut k: usize = 1;
    while k < n
        invariant
            n == lines@.len(),
            lines.deep_view() == spec_lines(content@),
            cols.deep_view() == split_on(spec_lines(content@)[0], ','),
            1 <= k <= n || (n == 1 && k == 1),
            records.deep_view() == spec_parse_match_lines(
                cols.deep_view(),
                lines.deep_view(),
                k as int,
            ).0,
            skips.deep_view() == spec_parse_match_lines(
                cols.deep_view(),
                lines.deep_view(),
                k as int,
            ).1,
        decreases n - k,
    {
        let line = &lines[k];
        if !line.as_str().is_empty() {
            match parse_match_row(&cols, line.as_str()) {
                Ok(rec) => {
                    records.push(rec);
                },
                Err(e) => {
                    skips.push(RowSkip { line: k, error: e });
                },
            }
        }
        proof {
            assert(lines.deep_view()[k as int] == line@);
            assert(records.deep_view() =~~= spec_parse_match_lines(
                cols.deep_view(),
                lines.deep_view(),
                k + 1,
            ).0);
            assert(skips.deep_view() =~~= spec_parse_match_lines(
                cols.deep_view(),
                lines.deep_view(),
                k + 1,
            ).1);
        }
        k += 1;
    }
    (records, skips)
}

} // verus!

