//! The recordings endpoint: which columns a client may ask for, how its
//! request is checked, and the SQL that answers it.
use crate::http::{into_http_error, HttpError, BAD_REQUEST};
use crate::instant::{parse_rfc3339, rfc3339_parse};
use crate::weather::{occurs_at, occurs_in};
use vstd::prelude::*;

verus! {

// ---------------------------------------------------------------------
// Columns
// ---------------------------------------------------------------------

/// The recording columns that a client may request.
pub open spec fn allowed_recording_columns() -> Seq<Seq<char>> {
    seq![
        "co2"@,
        "pressure"@,
        "humidity"@,
        "air_temperature"@,
        "water_temperature"@,
        "ground_temperature"@,
        "wind_speed"@,
        "net_irradiance"@,
        "rate_of_evaporation"@,
    ]
}

/// Whether `col` is one of the recording columns a client may request.
pub fn is_allowed_column(col: &String) -> (res: bool)
    ensures
        res == allowed_recording_columns().contains(col@),
{
    let found = *col == "co2".to_owned() || *col == "pressure".to_owned() || *col
        == "humidity".to_owned() || *col == "air_temperature".to_owned() || *col
        == "water_temperature".to_owned() || *col == "ground_temperature".to_owned() || *col
        == "wind_speed".to_owned() || *col == "net_irradiance".to_owned() || *col
        == "rate_of_evaporation".to_owned();
    proof {
        let a = allowed_recording_columns();
        if a.contains(col@) {
            let i = choose|i: int| 0 <= i < a.len() && a[i] == col@;
            assert(0 <= i < 9);
        }
        if found {
            assert(a[0] == "co2"@);
            assert(a[8] == "rate_of_evaporation"@);
        }
    }
    found
}

/// Whether `c` has the Unicode White_Space property, the test that
/// `str::trim` applies: U+0009 to U+000D, U+0020, U+0085, U+00A0, U+1680,
/// U+2000 to U+200A, U+2028, U+2029, U+202F, U+205F and U+3000.
pub open spec fn white_space(c: char) -> bool {
    let u = c as int;
    ||| 0x9 <= u <= 0xd
    ||| u == 0x20
    ||| u == 0x85
    ||| u == 0xa0
    ||| u == 0x1680
    ||| 0x2000 <= u <= 0x200a
    ||| u == 0x2028
    ||| u == 0x2029
    ||| u == 0x202f
    ||| u == 0x205f
    ||| u == 0x3000
}

/// Whether `c` is white space, as `char::is_whitespace` answers.
pub fn is_white_space(c: char) -> (res: bool)
    ensures
        res == white_space(c),
{
    let u = c as u32;
    (0x9 <= u && u <= 0xd) || u == 0x20 || u == 0x85 || u == 0xa0 || u == 0x1680 || (0x2000 <= u
        && u <= 0x200a) || u == 0x2028 || u == 0x2029 || u == 0x202f || u == 0x205f || u == 0x3000
}

/// The pieces of `s` between the occurrences of `sep`, in order; there is
/// one more piece than there are separators.
pub open spec fn split_on(s: Seq<char>, sep: char) -> Seq<Seq<char>>
    decreases s.len(),
{
    if s.len() == 0 {
        seq![Seq::empty()]
    } else {
        let p = split_on(s.drop_last(), sep);
        if s.last() == sep {
            p.push(Seq::empty())
        } else {
            p.update(p.len() - 1, p.last().push(s.last()))
        }
    }
}

/// The index of the first character at or after `i` that is not white
/// space (or the end).
pub open spec fn skip_leading(s: Seq<char>, i: int) -> int
    decreases s.len() - i,
{
    if 0 <= i < s.len() && white_space(s[i]) {
        skip_leading(s, i + 1)
    } else {
        i
    }
}

/// The index just past the last character before `j`, and not before `lo`,
/// that is not white space.
pub open spec fn skip_trailing(s: Seq<char>, lo: int, j: int) -> int
    decreases j - lo,
{
    if j > lo && white_space(s[j - 1]) {
        skip_trailing(s, lo, j - 1)
    } else {
        j
    }
}

/// `s` without its leading and trailing white space.
pub open spec fn trim(s: Seq<char>) -> Seq<char> {
    let a = skip_leading(s, 0);
    s.subrange(a, skip_trailing(s, a, s.len() as int))
}

/// The pieces, trimmed, that are not empty.
pub open spec fn kept_pieces(ps: Seq<Seq<char>>) -> Seq<Seq<char>>
    decreases ps.len(),
{
    if ps.len() == 0 {
        Seq::empty()
    } else {
        let k = kept_pieces(ps.drop_last());
        if trim(ps.last()).len() > 0 {
            k.push(trim(ps.last()))
        } else {
            k
        }
    }
}

/// The column names in a comma-separated request, trimmed, empty ones left out.
pub open spec fn requested_columns(s: Seq<char>) -> Seq<Seq<char>> {
    kept_pieces(split_on(s, ','))
}

/// The index of the first column at or after `i` that may not be requested.
pub open spec fn first_unsupported(cols: Seq<Seq<char>>, i: int) -> Option<int>
    decreases cols.len() - i,
{
    if i < 0 || i >= cols.len() {
        None
    } else if !allowed_recording_columns().contains(cols[i]) {
        Some(i)
    } else {
        first_unsupported(cols, i + 1)
    }
}

/// The message of a request that names no column.
pub open spec fn no_columns_text() -> Seq<char> {
    "at least one recording column must be requested"@
}

/// The message of a request that names column `col`, which it may not.
pub open spec fn unsupported_column_text(col: Seq<char>) -> Seq<char> {
    "unsupported recording column: "@ + col
}

proof fn lemma_split_nonempty(s: Seq<char>, sep: char)
    ensures
        split_on(s, sep).len() >= 1,
    decreases s.len(),
{
    if s.len() > 0 {
        lemma_split_nonempty(s.drop_last(), sep);
    }
}

/// The characters of `s`.
pub(crate) fn chars_of(s: &str) -> (res: Vec<char>)
    ensures
        res@ == s@,
{
    let mut out: Vec<char> = Vec::new();
    for c in it: s.chars()
        invariant
            it.seq() == s@,
            out@.len() == it.index(),
            forall|k: int| 0 <= k < out@.len() ==> out@[k] == s@[k],
    {
        out.push(c);
    }
    proof {
        assert(out@ =~= s@);
    }
    out
}

/// The piece `chars[lo..hi]` of `s` without leading and trailing white
/// space, as bounds.
fn trim_bounds(chars: &Vec<char>, lo: usize, hi: usize) -> (res: (usize, usize))
    requires
        lo <= hi <= chars@.len(),
    ensures
        lo <= res.0 <= res.1 <= hi,
        chars@.subrange(res.0 as int, res.1 as int) == trim(chars@.subrange(lo as int, hi as int)),
{
    let ghost p = chars@.subrange(lo as int, hi as int);
    let mut a = lo;
    while a < hi && is_white_space(chars[a])
        invariant
            lo <= a <= hi <= chars@.len(),
            p == chars@.subrange(lo as int, hi as int),
            skip_leading(p, 0) == skip_leading(p, a - lo),
        decreases hi - a,
    {
        a = a + 1;
    }
    let mut b = hi;
    while b > a && is_white_space(chars[b - 1])
        invariant
            lo <= a <= b <= hi <= chars@.len(),
            p == chars@.subrange(lo as int, hi as int),
            skip_leading(p, 0) == a - lo,
            skip_trailing(p, a - lo, p.len() as int) == skip_trailing(p, a - lo, b - lo),
        decreases b - a,
    {
        b = b - 1;
    }
    proof {
        assert(chars@.subrange(a as int, b as int) =~= p.subrange(a - lo, b - lo));
    }
    (a, b)
}

/// Reads the requested recording columns from a comma-separated list:
/// pieces are trimmed and empty ones dropped; at least one must remain and
/// each must be a column that a client may request.
pub fn parse_requested_columns(columns: &str) -> (res: Result<Vec<String>, String>)
    ensures
        requested_columns(columns@).len() == 0 ==> (res matches Err(e) && e@
            == no_columns_text()),
        requested_columns(columns@).len() > 0 ==> match first_unsupported(
            requested_columns(columns@),
            0,
        ) {
            Some(i) => res matches Err(e) && e@ == unsupported_column_text(
                requested_columns(columns@)[i],
            ),
            None => res matches Ok(v) && v.deep_view() == requested_columns(columns@),
        },
{
    let chars = chars_of(columns);
    let ghost s = columns@;
    let n = chars.len();
    let mut parsed: Vec<String> = Vec::new();
    let ghost mut done: Seq<Seq<char>> = Seq::empty();
    let mut start: usize = 0;
    let mut i: usize = 0;
    proof {
        assert(s.take(0) =~= Seq::<char>::empty());
        assert(split_on(s.take(0), ',') =~= done.push(s.subrange(0, 0)));
    }
    while i < n
        invariant
            start <= i <= n == chars@.len(),
            chars@ == s,
            s == columns@,
            split_on(s.take(i as int), ',') == done.push(s.subrange(start as int, i as int)),
            parsed.deep_view() == kept_pieces(done),
        decreases n - i,
    {
        proof {
            assert(s.take(i + 1).drop_last() =~= s.take(i as int));
            assert(s.take(i + 1).last() == s[i as int]);
            lemma_split_nonempty(s.take(i as int), ',');
        }
        if chars[i] == ',' {
            let (a, b) = trim_bounds(&chars, start, i);
            let ghost piece = s.subrange(start as int, i as int);
            if a < b {
                let col = columns.substring_char(a, b).to_owned();
                let ghost before = parsed.deep_view();
                parsed.push(col);
                proof {
                    assert(parsed.deep_view() =~= before.push(col@));
                }
            }
            proof {
                assert(done.push(piece).drop_last() =~= done);
                done = done.push(piece);
                assert(s.subrange(i + 1, i + 1) =~= Seq::<char>::empty());
                assert(split_on(s.take(i + 1), ',') =~= done.push(s.subrange(i + 1, i + 1)));
            }
            start = i + 1;
        } else {
            proof {
                let p = split_on(s.take(i as int), ',');
                assert(s.subrange(start as int, i + 1) =~= s.subrange(start as int, i as int).push(
                    s[i as int],
                ));
                assert(p.update(p.len() - 1, p.last().push(s[i as int])) =~= done.push(
                    s.subrange(start as int, i + 1),
                ));
            }
        }
        i = i + 1;
    }
    let (a, b) = trim_bounds(&chars, start, n);
    let ghost piece = s.subrange(start as int, n as int);
    if a < b {
        let col = columns.substring_char(a, b).to_owned();
        let ghost before = parsed.deep_view();
        parsed.push(col);
        proof {
            assert(parsed.deep_view() =~= before.push(col@));
        }
    }
    proof {
        assert(s.take(n as int) =~= s);
        assert(done.push(piece).drop_last() =~= done);
        done = done.push(piece);
    }
    if parsed.len() == 0 {
        return Err("at least one recording column must be requested".to_owned());
    }
    let mut j: usize = 0;
    while j < parsed.len()
        invariant
            j <= parsed@.len(),
            parsed.deep_view() == requested_columns(s),
            s == columns@,
            first_unsupported(requested_columns(s), 0) == first_unsupported(
                requested_columns(s),
                j as int,
            ),
        decreases parsed@.len() - j,
    {
        if !is_allowed_column(&parsed[j]) {
            let mut msg = "unsupported recording column: ".to_owned();
            msg.append(parsed[j].as_str());
            return Err(msg);
        }
        j = j + 1;
    }
    Ok(parsed)
}

// ---------------------------------------------------------------------
// SQL
// ---------------------------------------------------------------------

/// The pieces joined, with `sep` between each two.
pub open spec fn join(ps: Seq<Seq<char>>, sep: Seq<char>) -> Seq<char>
    decreases ps.len(),
{
    if ps.len() == 0 {
        Seq::empty()
    } else if ps.len() == 1 {
        ps[0]
    } else {
        join(ps.drop_last(), sep) + sep + ps.last()
    }
}

/// `c::double precision AS c`, for each column, joined by ", ".
pub open spec fn select_columns_sql(cols: Seq<Seq<char>>) -> Seq<char> {
    join(cols.map_values(|c: Seq<char>| c + "::double precision AS "@ + c), ", "@)
}

/// `AVG(c)::double precision AS c`, for each column, joined by ", ".
pub open spec fn average_columns_sql(cols: Seq<Seq<char>>) -> Seq<char> {
    join(cols.map_values(|c: Seq<char>| "AVG("@ + c + ")::double precision AS "@ + c), ", "@)
}

/// Builds the list of columns of a query: for each column `c`, `prefix`,
/// `c`, `middle`, `c`; joined by ", ".
fn column_list(cols: &Vec<String>, prefix: &str, middle: &str) -> (res: String)
    ensures
        res@ == join(cols.deep_view().map_values(|c: Seq<char>| prefix@ + c + middle@ + c), ", "@),
{
    let ghost items = cols.deep_view().map_values(|c: Seq<char>| prefix@ + c + middle@ + c);
    let mut out = String::new();
    let mut i: usize = 0;
    while i < cols.len()
        invariant
            i <= cols@.len(),
            items == cols.deep_view().map_values(|c: Seq<char>| prefix@ + c + middle@ + c),
            out@ == join(items.take(i as int), ", "@),
        decreases cols@.len() - i,
    {
        if i > 0 {
            out.append(", ");
        }
        out.append(prefix);
        out.append(cols[i].as_str());
        out.append(middle);
        out.append(cols[i].as_str());
        proof {
            assert(items.take(i + 1).drop_last() =~= items.take(i as int));
            assert(cols.deep_view()[i as int] == cols@[i as int]@);
            assert(items[i as int] == prefix@ + cols@[i as int]@ + middle@ + cols@[i as int]@);
            if i == 0 {
                assert(out@ =~= items.take(1)[0]);
            } else {
                assert(out@ =~= join(items.take(i as int), ", "@) + ", "@ + items[i as int]);
            }
        }
        i = i + 1;
    }
    proof {
        assert(items.take(cols@.len() as int) =~= items);
    }
    out
}

/// Text of the aggregating query, before the selected columns.
pub open spec fn aggregate_sql_head() -> Seq<char> {
    "
            WITH grouped AS (
                SELECT
                    timestamp,
                    "@
}

/// Text of the aggregating query, between the selected and the averaged columns.
pub open spec fn aggregate_sql_middle() -> Seq<char> {
    ",
                    NTILE($4) OVER (ORDER BY timestamp) AS bucket
                FROM recordings
                WHERE station_id = $1
                  AND timestamp >= $2::timestamp
                  AND timestamp <= $3::timestamp
            )
            SELECT
                MIN(timestamp)::text AS timestamp,
                "@
}

/// Text of the aggregating query, after the averaged columns.
pub open spec fn aggregate_sql_tail() -> Seq<char> {
    "
            FROM grouped
            GROUP BY bucket
            ORDER BY bucket
            "@
}

/// Text of the plain query, before the selected columns.
pub open spec fn plain_sql_head() -> Seq<char> {
    "
            SELECT
                timestamp::text AS timestamp,
                "@
}

/// Text of the plain query, after the selected columns.
pub open spec fn plain_sql_tail() -> Seq<char> {
    "
            FROM recordings
            WHERE station_id = $1
              AND timestamp >= $2::timestamp
              AND timestamp <= $3::timestamp
            ORDER BY timestamp
            "@
}

/// The query that averages the requested columns over `$4` buckets of
/// consecutive recordings in the range.
pub open spec fn aggregate_sql(cols: Seq<Seq<char>>) -> Seq<char> {
    aggregate_sql_head() + select_columns_sql(cols) + aggregate_sql_middle() + average_columns_sql(
        cols,
    ) + aggregate_sql_tail()
}

/// The query that returns every recording in the range.
pub open spec fn plain_sql(cols: Seq<Seq<char>>) -> Seq<char> {
    plain_sql_head() + select_columns_sql(cols) + plain_sql_tail()
}

/// The query that answers a recordings request, once the number of
/// recordings in the range is known.
pub enum RecordingsQuery {
    /// No recording lies in the range: the answer is empty.
    Empty,
    /// Every recording in the range, in time order.
    All { sql: String },
    /// The recordings in the range averaged over `buckets` groups.
    Aggregated { sql: String, buckets: i64 },
}

/// Chooses the query for a recordings request: none when the range holds
/// no recording; averages over `preferred_rows` buckets when the range
/// holds more recordings than that; else every recording.
pub fn recordings_query(columns: &Vec<String>, preferred_rows: usize, total_in_range: i64) -> (res:
    RecordingsQuery)
    ensures
        total_in_range == 0 ==> res is Empty,
        total_in_range != 0 && (preferred_rows as i64) < total_in_range ==> (res matches RecordingsQuery::Aggregated { sql, buckets }
            && sql@ == aggregate_sql(columns.deep_view()) && buckets == preferred_rows as i64),
        total_in_range != 0 && !((preferred_rows as i64) < total_in_range) ==> (res matches RecordingsQuery::All { sql }
            && sql@ == plain_sql(columns.deep_view())),
{
    if total_in_range == 0 {
        return RecordingsQuery::Empty;
    }
    let buckets = preferred_rows as i64;
    let select_cols = column_list(columns, "", "::double precision AS ");
    proof {
        reveal_strlit("");
        assert(columns.deep_view().map_values(|c: Seq<char>| ""@ + c + "::double precision AS "@ + c)
            =~= columns.deep_view().map_values(|c: Seq<char>| c + "::double precision AS "@ + c));
    }
    if buckets < total_in_range {
        let avg_cols = column_list(columns, "AVG(", ")::double precision AS ");
        let mut sql = "
            WITH grouped AS (
                SELECT
                    timestamp,
                    ".to_owned();
        sql.append(select_cols.as_str());
        sql.append(",
                    NTILE($4) OVER (ORDER BY timestamp) AS bucket
                FROM recordings
                WHERE station_id = $1
                  AND timestamp >= $2::timestamp
                  AND timestamp <= $3::timestamp
            )
            SELECT
                MIN(timestamp)::text AS timestamp,
                ");
        sql.append(avg_cols.as_str());
        sql.append("
            FROM grouped
            GROUP BY bucket
            ORDER BY bucket
            ");
        RecordingsQuery::Aggregated { sql, buckets }
    } else {
        let mut sql = "
            SELECT
                timestamp::text AS timestamp,
                ".to_owned();
        sql.append(select_cols.as_str());
        sql.append("
            FROM recordings
            WHERE station_id = $1
              AND timestamp >= $2::timestamp
              AND timestamp <= $3::timestamp
            ORDER BY timestamp
            ");
        RecordingsQuery::All { sql }
    }
}

// ---------------------------------------------------------------------
// Requests
// ---------------------------------------------------------------------

/// A checked recordings request.
pub struct RecordingsPlan {
    /// The requested columns, in order.
    pub columns: Vec<String>,
    /// Start of the range, as (Unix seconds, nanoseconds).
    pub start: (i64, u32),
    /// End of the range, as (Unix seconds, nanoseconds).
    pub end: (i64, u32),
    /// How many rows the client would like at most.
    pub preferred_rows: usize,
}

/// The message of a request that asks for no row.
pub open spec fn no_rows_text() -> Seq<char> {
    "preferred_rows must be greater than 0"@
}

/// Checks a recordings request, in the order the server checks it: the
/// number of rows, the columns, the start, the end.
pub fn plan_recordings(preferred_rows: usize, columns: &str, start: &str, end: &str) -> (res: Result<
    RecordingsPlan,
    HttpError,
>)
    ensures
        res matches Err(e) ==> e.status == BAD_REQUEST && e.field@ == "error"@,
        preferred_rows == 0 ==> (res matches Err(e) && e.message@ == no_rows_text()),
        preferred_rows != 0 && requested_columns(columns@).len() == 0 ==> (res matches Err(e)
            && e.message@ == no_columns_text()),
        preferred_rows != 0 && requested_columns(columns@).len() > 0 ==> match first_unsupported(
            requested_columns(columns@),
            0,
        ) {
            Some(i) => res matches Err(e) && e.message@ == unsupported_column_text(
                requested_columns(columns@)[i],
            ),
            None => match (rfc3339_parse(start@), rfc3339_parse(end@)) {
                (Err(t), _) => res matches Err(e) && e.message@ == "invalid start timestamp: "@ + t,
                (Ok(_), Err(t)) => res matches Err(e) && e.message@ == "invalid end timestamp: "@
                    + t,
                (Ok(a), Ok(b)) => res matches Ok(p) && p.columns.deep_view() == requested_columns(
                    columns@,
                ) && p.start == a && p.end == b && p.preferred_rows == preferred_rows,
            },
        },
{
    if preferred_rows == 0 {
        return Err(into_http_error("preferred_rows must be greater than 0".to_owned()));
    }
    let cols = match parse_requested_columns(columns) {
        Ok(c) => c,
        Err(msg) => return Err(into_http_error(msg)),
    };
    let start_at = match parse_rfc3339(start) {
        Ok(t) => t,
        Err(text) => {
            let mut msg = "invalid start timestamp: ".to_owned();
            msg.append(text.as_str());
            return Err(into_http_error(msg));
        },
    };
    let end_at = match parse_rfc3339(end) {
        Ok(t) => t,
        Err(text) => {
            let mut msg = "invalid end timestamp: ".to_owned();
            msg.append(text.as_str());
            return Err(into_http_error(msg));
        },
    };
    Ok(RecordingsPlan { columns: cols, start: start_at, end: end_at, preferred_rows })
}


// ---------------------------------------------------------------------
// Laws
// ---------------------------------------------------------------------

proof fn lemma_no_unsupported_from(cols: Seq<Seq<char>>, j: int, i: int)
    requires
        0 <= j <= i < cols.len(),
        first_unsupported(cols, j) is None,
    ensures
        allowed_recording_columns().contains(cols[i]),
    decreases i - j,
{
    if j < i {
        lemma_no_unsupported_from(cols, j + 1, i);
    }
}

proof fn lemma_kept_pieces_nonempty(ps: Seq<Seq<char>>)
    ensures
        forall|i: int| 0 <= i < kept_pieces(ps).len() ==> #[trigger] kept_pieces(ps)[i].len() > 0,
    decreases ps.len(),
{
    if ps.len() > 0 {
        lemma_kept_pieces_nonempty(ps.drop_last());
        let k = kept_pieces(ps.drop_last());
        assert forall|i: int| 0 <= i < kept_pieces(ps).len() implies #[trigger] kept_pieces(
            ps,
        )[i].len() > 0 by {
            if i < k.len() {
                assert(kept_pieces(ps)[i] == k[i]);
            }
        }
    }
}

/// Every column of a request that the server accepts is a non-empty name
/// from the list of recording columns: no other text reaches the SQL.
pub proof fn law_accepted_columns_are_allowed(columns: Seq<char>)
    requires
        requested_columns(columns).len() > 0,
        first_unsupported(requested_columns(columns), 0) is None,
    ensures
        forall|i: int|
            0 <= i < requested_columns(columns).len() ==> allowed_recording_columns().contains(
                #[trigger] requested_columns(columns)[i],
            ) && requested_columns(columns)[i].len() > 0,
{
    let cols = requested_columns(columns);
    lemma_kept_pieces_nonempty(split_on(columns, ','));
    assert forall|i: int| 0 <= i < cols.len() implies allowed_recording_columns().contains(
        #[trigger] cols[i],
    ) && cols[i].len() > 0 by {
        lemma_no_unsupported_from(cols, 0, i);
    }
}

/// Whether the server accepts a request for the columns `s`: at least one
/// column is named and each may be requested.
pub open spec fn columns_accepted(s: Seq<char>) -> bool {
    requested_columns(s).len() > 0 && first_unsupported(requested_columns(s), 0) is None
}

/// A column name as the parser hands it out: not empty, without a comma,
/// and neither starting nor ending with white space.
pub open spec fn clean_column(c: Seq<char>) -> bool {
    c.len() > 0 && !c.contains(',') && !white_space(c[0]) && !white_space(c.last())
}

proof fn lemma_unsupported_none_iff(cols: Seq<Seq<char>>, i: int)
    requires
        0 <= i <= cols.len(),
    ensures
        first_unsupported(cols, i) is None <==> forall|j: int|
            i <= j < cols.len() ==> allowed_recording_columns().contains(#[trigger] cols[j]),
    decreases cols.len() - i,
{
    if i < cols.len() {
        lemma_unsupported_none_iff(cols, i + 1);
    }
}

/// Splitting `a`, a separator and `b` gives the pieces of `a`, then those
/// of `b`.
proof fn lemma_split_concat(a: Seq<char>, b: Seq<char>, sep: char)
    ensures
        split_on(a + seq![sep] + b, sep) == split_on(a, sep) + split_on(b, sep),
    decreases b.len(),
{
    let c = a + seq![sep] + b;
    if b.len() == 0 {
        assert(c.drop_last() =~= a);
        assert(split_on(a, sep).push(Seq::empty()) =~= split_on(a, sep) + split_on(b, sep));
    } else {
        assert(c.drop_last() =~= a + seq![sep] + b.drop_last());
        lemma_split_concat(a, b.drop_last(), sep);
        lemma_split_nonempty(b.drop_last(), sep);
        lemma_split_nonempty(a, sep);
        let pa = split_on(a, sep);
        let pb = split_on(b.drop_last(), sep);
        if b.last() == sep {
            assert((pa + pb).push(Seq::empty()) =~= pa + pb.push(Seq::empty()));
        } else {
            let q = pa + pb;
            assert(q.update(q.len() - 1, q.last().push(b.last())) =~= pa + pb.update(
                pb.len() - 1,
                pb.last().push(b.last()),
            ));
        }
    }
}

/// No piece of a split holds the separator.
proof fn lemma_split_pieces_clean(s: Seq<char>, sep: char)
    ensures
        forall|i: int|
            0 <= i < split_on(s, sep).len() ==> !(#[trigger] split_on(s, sep)[i]).contains(sep),
    decreases s.len(),
{
    if s.len() > 0 {
        lemma_split_pieces_clean(s.drop_last(), sep);
        lemma_split_nonempty(s.drop_last(), sep);
        let p = split_on(s.drop_last(), sep);
        if s.last() != sep {
            let l = p.last().push(s.last());
            assert(!l.contains(sep)) by {
                if l.contains(sep) {
                    let k = choose|k: int| 0 <= k < l.len() && l[k] == sep;
                    assert(p.last()[k] == sep);
                }
            }
            assert forall|i: int| 0 <= i < split_on(s, sep).len() implies !(
            #[trigger] split_on(s, sep)[i]).contains(sep) by {
                if i < p.len() - 1 {
                    assert(split_on(s, sep)[i] == p[i]);
                }
            }
        } else {
            assert forall|i: int| 0 <= i < split_on(s, sep).len() implies !(
            #[trigger] split_on(s, sep)[i]).contains(sep) by {
                if i < p.len() {
                    assert(split_on(s, sep)[i] == p[i]);
                } else {
                    assert(split_on(s, sep)[i] =~= Seq::<char>::empty());
                }
            }
        }
    }
}

/// Text without the separator is a single piece.
proof fn lemma_split_single(s: Seq<char>, sep: char)
    requires
        !s.contains(sep),
    ensures
        split_on(s, sep) == seq![s],
    decreases s.len(),
{
    if s.len() == 0 {
        assert(s =~= Seq::<char>::empty());
        assert(split_on(s, sep) =~= seq![s]);
    } else {
        assert(!s.drop_last().contains(sep)) by {
            if s.drop_last().contains(sep) {
                let k = choose|k: int| 0 <= k < s.drop_last().len() && s.drop_last()[k] == sep;
                assert(s[k] == sep);
            }
        }
        lemma_split_single(s.drop_last(), sep);
        assert(s.last() != sep) by {
            assert(s[s.len() - 1] == s.last());
        }
        assert(s.drop_last().push(s.last()) =~= s);
        assert(seq![s.drop_last()].update(0, s.drop_last().push(s.last())) =~= seq![s]);
    }
}

proof fn lemma_skip_leading(s: Seq<char>, i: int)
    requires
        0 <= i <= s.len(),
    ensures
        i <= skip_leading(s, i) <= s.len(),
        skip_leading(s, i) < s.len() ==> !white_space(s[skip_leading(s, i)]),
    decreases s.len() - i,
{
    if i < s.len() && white_space(s[i]) {
        lemma_skip_leading(s, i + 1);
    }
}

proof fn lemma_skip_trailing(s: Seq<char>, lo: int, j: int)
    requires
        0 <= lo <= j <= s.len(),
    ensures
        lo <= skip_trailing(s, lo, j) <= j,
        skip_trailing(s, lo, j) > lo ==> !white_space(s[skip_trailing(s, lo, j) - 1]),
    decreases j - lo,
{
    if j > lo && white_space(s[j - 1]) {
        lemma_skip_trailing(s, lo, j - 1);
    }
}

/// A piece, trimmed, keeps no separator it did not have and starts and
/// ends with a character that is not white space.
proof fn lemma_trim_clean(p: Seq<char>)
    requires
        !p.contains(','),
    ensures
        trim(p).len() > 0 ==> clean_column(trim(p)),
{
    let a = skip_leading(p, 0);
    lemma_skip_leading(p, 0);
    let b = skip_trailing(p, a, p.len() as int);
    lemma_skip_trailing(p, a, p.len() as int);
    let t = trim(p);
    if t.len() > 0 {
        assert(t[0] == p[a]);
        assert(t.last() == p[b - 1]);
        assert(!t.contains(',')) by {
            if t.contains(',') {
                let k = choose|k: int| 0 <= k < t.len() && t[k] == ',';
                assert(p[a + k] == ',');
            }
        }
    }
}

/// A clean column is its own trimming.
proof fn lemma_trim_clean_fixed(c: Seq<char>)
    requires
        clean_column(c),
    ensures
        trim(c) == c,
{
    assert(c[c.len() - 1] == c.last());
    assert(skip_leading(c, 0) == 0);
    assert(skip_trailing(c, 0, c.len() as int) == c.len());
    assert(c.subrange(0, c.len() as int) =~= c);
}

proof fn lemma_kept_pieces_clean(ps: Seq<Seq<char>>)
    requires
        forall|i: int| 0 <= i < ps.len() ==> !(#[trigger] ps[i]).contains(','),
    ensures
        forall|i: int| 0 <= i < kept_pieces(ps).len() ==> clean_column(#[trigger] kept_pieces(ps)[i]),
    decreases ps.len(),
{
    if ps.len() > 0 {
        assert(forall|i: int| 0 <= i < ps.drop_last().len() ==> ps.drop_last()[i] == ps[i]);
        lemma_kept_pieces_clean(ps.drop_last());
        assert(ps.last() == ps[ps.len() - 1]);
        lemma_trim_clean(ps.last());
        let k = kept_pieces(ps.drop_last());
        assert forall|i: int| 0 <= i < kept_pieces(ps).len() implies clean_column(
            #[trigger] kept_pieces(ps)[i],
        ) by {
            if i < k.len() {
                assert(kept_pieces(ps)[i] == k[i]);
            }
        }
    }
}

proof fn lemma_kept_pieces_concat(p: Seq<Seq<char>>, q: Seq<Seq<char>>)
    ensures
        kept_pieces(p + q) == kept_pieces(p) + kept_pieces(q),
    decreases q.len(),
{
    if q.len() == 0 {
        assert(p + q =~= p);
        assert(kept_pieces(p) + kept_pieces(q) =~= kept_pieces(p));
    } else {
        assert((p + q).drop_last() =~= p + q.drop_last());
        assert((p + q).last() == q.last());
        lemma_kept_pieces_concat(p, q.drop_last());
        let kp = kept_pieces(p);
        let kq = kept_pieces(q.drop_last());
        assert((kp + kq).push(trim(q.last())) =~= kp + kq.push(trim(q.last())));
    }
}

proof fn lemma_kept_pieces_fixed(cols: Seq<Seq<char>>)
    requires
        forall|i: int| 0 <= i < cols.len() ==> clean_column(#[trigger] cols[i]),
    ensures
        kept_pieces(cols) == cols,
    decreases cols.len(),
{
    if cols.len() > 0 {
        assert(forall|i: int| 0 <= i < cols.drop_last().len() ==> cols.drop_last()[i] == cols[i]);
        lemma_kept_pieces_fixed(cols.drop_last());
        assert(cols.last() == cols[cols.len() - 1]);
        lemma_trim_clean_fixed(cols.last());
        assert(cols.drop_last().push(cols.last()) =~= cols);
    }
}

proof fn lemma_split_join(cols: Seq<Seq<char>>)
    requires
        cols.len() >= 1,
        forall|i: int| 0 <= i < cols.len() ==> clean_column(#[trigger] cols[i]),
    ensures
        split_on(join(cols, seq![',']), ',') == cols,
    decreases cols.len(),
{
    if cols.len() == 1 {
        assert(clean_column(cols[0]));
        lemma_split_single(cols[0], ',');
        assert(seq![cols[0]] =~= cols);
    } else {
        let d = cols.drop_last();
        assert(forall|i: int| 0 <= i < d.len() ==> d[i] == cols[i]);
        lemma_split_join(d);
        assert(cols.last() == cols[cols.len() - 1]);
        lemma_split_single(cols.last(), ',');
        lemma_split_concat(join(d, seq![',']), cols.last(), ',');
        assert(d + seq![cols.last()] =~= cols);
    }
}

/// Two accepted column lists joined by a comma are accepted, and name the
/// columns of the first, then those of the second.
pub proof fn law_columns_concatenate(a: Seq<char>, b: Seq<char>)
    ensures
        requested_columns(a + seq![','] + b) == requested_columns(a) + requested_columns(b),
        columns_accepted(a) && columns_accepted(b) ==> columns_accepted(a + seq![','] + b),
{
    lemma_split_concat(a, b, ',');
    lemma_kept_pieces_concat(split_on(a, ','), split_on(b, ','));
    let ca = requested_columns(a);
    let cb = requested_columns(b);
    let c = ca + cb;
    if columns_accepted(a) && columns_accepted(b) {
        lemma_unsupported_none_iff(ca, 0);
        lemma_unsupported_none_iff(cb, 0);
        lemma_unsupported_none_iff(c, 0);
        assert forall|j: int| 0 <= j < c.len() implies allowed_recording_columns().contains(
            #[trigger] c[j],
        ) by {
            if j < ca.len() {
                assert(c[j] == ca[j]);
            } else {
                assert(c[j] == cb[j - ca.len()]);
            }
        }
    }
}

/// The columns that a request names, joined again with commas, name the
/// same columns in the same order; so an accepted list, joined, is
/// accepted as the same list.
pub proof fn law_joined_columns_read_back(s: Seq<char>)
    ensures
        requested_columns(join(requested_columns(s), seq![','])) == requested_columns(s),
        columns_accepted(s) ==> columns_accepted(join(requested_columns(s), seq![','])),
{
    let cols = requested_columns(s);
    lemma_split_pieces_clean(s, ',');
    lemma_kept_pieces_clean(split_on(s, ','));
    if cols.len() == 0 {
        let e = Seq::<char>::empty();
        assert(join(cols, seq![',']) == e);
        assert(split_on(e, ',') == seq![e]);
        assert(seq![e].drop_last() =~= Seq::<Seq<char>>::empty());
        assert(skip_leading(e, 0) == 0);
        assert(trim(e).len() == 0);
        assert(kept_pieces(seq![e]) == kept_pieces(Seq::<Seq<char>>::empty()));
    } else {
        lemma_split_join(cols);
        lemma_kept_pieces_fixed(cols);
    }
}


/// `p` occurs in `b` at `k`, so it occurs in `a + b + c` at `a.len() + k`.
proof fn lemma_occurs_inside(a: Seq<char>, b: Seq<char>, c: Seq<char>, p: Seq<char>, k: int)
    requires
        occurs_at(b, p, k),
    ensures
        occurs_at(a + b + c, p, a.len() + k),
{
    assert((a + b + c).subrange(a.len() + k, a.len() + k + p.len()) =~= b.subrange(k, k + p.len()));
}

/// Where the clauses of the range filter stand in the plain query's tail.
proof fn lemma_plain_tail_filter()
    ensures
        occurs_at(plain_sql_tail(), "station_id = $1"@, 47),
        occurs_at(plain_sql_tail(), "timestamp >= $2::timestamp"@, 81),
        occurs_at(plain_sql_tail(), "timestamp <= $3::timestamp"@, 126),
        occurs_at(plain_sql_tail(), "ORDER BY timestamp"@, 165),
{
    reveal_strlit("
            FROM recordings
            WHERE station_id = $1
              AND timestamp >= $2::timestamp
              AND timestamp <= $3::timestamp
            ORDER BY timestamp
            ");
    reveal_strlit("station_id = $1");
    assert(plain_sql_tail().subrange(47, 62) =~= "station_id = $1"@);
    reveal_strlit("timestamp >= $2::timestamp");
    assert(plain_sql_tail().subrange(81, 107) =~= "timestamp >= $2::timestamp"@);
    reveal_strlit("timestamp <= $3::timestamp");
    assert(plain_sql_tail().subrange(126, 152) =~= "timestamp <= $3::timestamp"@);
    reveal_strlit("ORDER BY timestamp");
    assert(plain_sql_tail().subrange(165, 183) =~= "ORDER BY timestamp"@);
}

/// Where the clauses of the range filter stand in the middle of the
/// aggregating query.
proof fn lemma_aggregate_middle_filter()
    ensures
        occurs_at(aggregate_sql_middle(), "station_id = $1"@, 122),
        occurs_at(aggregate_sql_middle(), "timestamp >= $2::timestamp"@, 160),
        occurs_at(aggregate_sql_middle(), "timestamp <= $3::timestamp"@, 209),
        occurs_at(aggregate_sql_middle(), "NTILE($4)"@, 22),
{
    reveal_strlit(",
                    NTILE($4) OVER (ORDER BY timestamp) AS bucket
                FROM recordings
                WHERE station_id = $1
                  AND timestamp >= $2::timestamp
                  AND timestamp <= $3::timestamp
            )
            SELECT
                MIN(timestamp)::text AS timestamp,
                ");
    reveal_strlit("station_id = $1");
    assert(aggregate_sql_middle().subrange(122, 137) =~= "station_id = $1"@);
    reveal_strlit("timestamp >= $2::timestamp");
    assert(aggregate_sql_middle().subrange(160, 186) =~= "timestamp >= $2::timestamp"@);
    reveal_strlit("timestamp <= $3::timestamp");
    assert(aggregate_sql_middle().subrange(209, 235) =~= "timestamp <= $3::timestamp"@);
    reveal_strlit("NTILE($4)");
    assert(aggregate_sql_middle().subrange(22, 31) =~= "NTILE($4)"@);
}

/// Both recordings queries read the recordings that the count covers: those
/// of the station (`$1`) stamped from the start (`$2`) to the end (`$3`),
/// both included. The plain query gives them in time order; the
/// aggregating one splits them into `$4` buckets. This holds whatever the
/// columns.
pub proof fn law_queries_select_the_counted_range(cols: Seq<Seq<char>>)
    ensures
        occurs_in(plain_sql(cols), "station_id = $1"@),
        occurs_in(plain_sql(cols), "timestamp >= $2::timestamp"@),
        occurs_in(plain_sql(cols), "timestamp <= $3::timestamp"@),
        occurs_in(plain_sql(cols), "ORDER BY timestamp"@),
        occurs_in(aggregate_sql(cols), "station_id = $1"@),
        occurs_in(aggregate_sql(cols), "timestamp >= $2::timestamp"@),
        occurs_in(aggregate_sql(cols), "timestamp <= $3::timestamp"@),
        occurs_in(aggregate_sql(cols), "NTILE($4)"@),
{
    lemma_plain_tail_filter();
    lemma_aggregate_middle_filter();
    let e = Seq::<char>::empty();
    let hp = plain_sql_head() + select_columns_sql(cols);
    assert(plain_sql(cols) =~= hp + plain_sql_tail() + e);
    let ha = aggregate_sql_head() + select_columns_sql(cols);
    let ra = average_columns_sql(cols) + aggregate_sql_tail();
    assert(aggregate_sql(cols) =~= ha + aggregate_sql_middle() + ra);
    lemma_occurs_inside(hp, plain_sql_tail(), e, "station_id = $1"@, 47);
    lemma_occurs_inside(hp, plain_sql_tail(), e, "timestamp >= $2::timestamp"@, 81);
    lemma_occurs_inside(hp, plain_sql_tail(), e, "timestamp <= $3::timestamp"@, 126);
    lemma_occurs_inside(hp, plain_sql_tail(), e, "ORDER BY timestamp"@, 165);
    lemma_occurs_inside(ha, aggregate_sql_middle(), ra, "station_id = $1"@, 122);
    lemma_occurs_inside(ha, aggregate_sql_middle(), ra, "timestamp >= $2::timestamp"@, 160);
    lemma_occurs_inside(ha, aggregate_sql_middle(), ra, "timestamp <= $3::timestamp"@, 209);
    lemma_occurs_inside(ha, aggregate_sql_middle(), ra, "NTILE($4)"@, 22);
}


/// The columns that a client may request are the nine columns that each
/// recording stores, no more and no fewer: co2, pressure, humidity,
/// air_temperature, water_temperature, ground_temperature, wind_speed,
/// net_irradiance and rate_of_evaporation.
pub proof fn law_allowed_columns_are_the_recorded_ones()
    ensures
        allowed_recording_columns().len() == 9,
        forall|c: Seq<char>|
            #[trigger] allowed_recording_columns().contains(c) <==> (c == "co2"@ || c == "pressure"@ || c == "humidity"@ || c == "air_temperature"@ || c == "water_temperature"@ || c == "ground_temperature"@ || c == "wind_speed"@ || c == "net_irradiance"@ || c == "rate_of_evaporation"@),
{
    let a = allowed_recording_columns();
    assert forall|c: Seq<char>| #[trigger] a.contains(c) <==> (c == "co2"@ || c == "pressure"@ || c == "humidity"@ || c == "air_temperature"@ || c == "water_temperature"@ || c == "ground_temperature"@ || c == "wind_speed"@ || c == "net_irradiance"@ || c == "rate_of_evaporation"@) by {
        if a.contains(c) {
            let i = choose|i: int| 0 <= i < a.len() && a[i] == c;
            assert(0 <= i < 9);
        }
        if c == "co2"@ {
            assert(a[0] == c);
        }
        if c == "pressure"@ {
            assert(a[1] == c);
        }
        if c == "humidity"@ {
            assert(a[2] == c);
        }
        if c == "air_temperature"@ {
            assert(a[3] == c);
        }
        if c == "water_temperature"@ {
            assert(a[4] == c);
        }
        if c == "ground_temperature"@ {
            assert(a[5] == c);
        }
        if c == "wind_speed"@ {
            assert(a[6] == c);
        }
        if c == "net_irradiance"@ {
            assert(a[7] == c);
        }
        if c == "rate_of_evaporation"@ {
            assert(a[8] == c);
        }
    }
}

} // verus!
