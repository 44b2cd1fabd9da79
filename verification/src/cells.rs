//! Bidirectional conversion between JSON values and typed relational cells.
//!
//! Column lookup against a row object tries, in order: exact name match, the
//! camelCase form of the target name, then a case-insensitive scan.  The
//! `attrs` column always receives the whole row.  Time-typed columns need the
//! host's clock capability to turn an RFC 3339 string into an epoch value, so
//! conversion returns a plan: either a finished cell or a parse request that
//! the caller completes with `time_cell`.

use vstd::prelude::*;
use crate::json::{JsonValue, JsonV, jv_obj, obj_get, text_of, lemma_jv_obj_index, lemma_jv_obj_len};
use crate::strutil;
use crate::strutil::ascii_fold;

verus! {

/// The closed set of relational column type tags.
#[derive(Clone, Copy, PartialEq, Eq, Structural, Debug)]
pub enum ColumnType {
    Bool,
    I8,
    I16,
    I32,
    I64,
    F32,
    F64,
    Numeric,
    Text,
    Date,
    Timestamp,
    Timestamptz,
    Json,
    Uuid,
    /// Any tag not otherwise modeled; its values travel as raw JSON.
    Other,
}

/// A typed relational cell.  Floating-point and arbitrary-precision numbers
/// are carried as their JSON number text; time cells hold epoch values from
/// the host's clock (microseconds, except `Date` which holds seconds).
pub enum Cell {
    Bool(bool),
    I8(i8),
    I16(i16),
    I32(i32),
    I64(i64),
    F32(String),
    F64(String),
    Numeric(String),
    Text(String),
    Date(i64),
    Timestamp(i64),
    Timestamptz(i64),
    Json(JsonValue),
    Uuid(String),
    Other(String),
}

/// The mathematical view of a cell.
pub enum CellV {
    Bool(bool),
    I8(int),
    I16(int),
    I32(int),
    I64(int),
    F32(Seq<char>),
    F64(Seq<char>),
    Numeric(Seq<char>),
    Text(Seq<char>),
    Date(int),
    Timestamp(int),
    Timestamptz(int),
    Json(JsonV),
    Uuid(Seq<char>),
    Other(Seq<char>),
}

impl View for Cell {
    type V = CellV;

    open spec fn view(&self) -> CellV {
        match self {
            Cell::Bool(b) => CellV::Bool(*b),
            Cell::I8(v) => CellV::I8(*v as int),
            Cell::I16(v) => CellV::I16(*v as int),
            Cell::I32(v) => CellV::I32(*v as int),
            Cell::I64(v) => CellV::I64(*v as int),
            Cell::F32(t) => CellV::F32(t@),
            Cell::F64(t) => CellV::F64(t@),
            Cell::Numeric(t) => CellV::Numeric(t@),
            Cell::Text(t) => CellV::Text(t@),
            Cell::Date(v) => CellV::Date(*v as int),
            Cell::Timestamp(v) => CellV::Timestamp(*v as int),
            Cell::Timestamptz(v) => CellV::Timestamptz(*v as int),
            Cell::Json(j) => CellV::Json(j@),
            Cell::Uuid(t) => CellV::Uuid(t@),
            Cell::Other(t) => CellV::Other(t@),
        }
    }
}

/// A target column: its name and type tag.
pub struct Column {
    pub name: String,
    pub col_type: ColumnType,
}

/// A relational row: column names with their (possibly unset) cells.
pub struct Row {
    pub cols: Vec<String>,
    pub cells: Vec<Option<Cell>>,
}

/// The three time-typed column kinds.
#[derive(Clone, Copy, PartialEq, Eq, Structural)]
pub enum TimeKind {
    Date,
    Timestamp,
    Timestamptz,
}

/// The outcome of converting one JSON value for one column: either a
/// finished cell, or an RFC 3339 string that the host must parse before the
/// cell can be built with `time_cell`.
pub enum CellPlan {
    Ready(Option<Cell>),
    ParseTime(TimeKind, String),
}

/// The mathematical view of a conversion outcome.
pub enum PlanV {
    Ready(Option<CellV>),
    ParseTime(TimeKind, Seq<char>),
}

impl View for CellPlan {
    type V = PlanV;

    open spec fn view(&self) -> PlanV {
        match self {
            CellPlan::Ready(None) => PlanV::Ready(None),
            CellPlan::Ready(Some(c)) => PlanV::Ready(Some(c@)),
            CellPlan::ParseTime(k, s) => PlanV::ParseTime(*k, s@),
        }
    }
}

/// Case-insensitive first-match lookup among an object's fields.
pub open spec fn obj_get_fold(fields: Seq<(Seq<char>, JsonV)>, key: Seq<char>) -> Option<JsonV>
    decreases fields,
{
    if fields.len() == 0 {
        None
    } else if ascii_fold(fields[0].0) == ascii_fold(key) {
        Some(fields[0].1)
    } else {
        obj_get_fold(fields.drop_first(), key)
    }
}

pub proof fn lemma_obj_get_fold_skip(fields: Seq<(Seq<char>, JsonV)>, key: Seq<char>, i: int)
    requires
        0 <= i <= fields.len(),
        forall|j: int| 0 <= j < i ==> ascii_fold(fields[j].0) != ascii_fold(key),
    ensures
        obj_get_fold(fields, key) == obj_get_fold(fields.skip(i), key),
    decreases i,
{
    if i > 0 {
        assert(fields.drop_first().skip(i - 1) =~= fields.skip(i));
        lemma_obj_get_fold_skip(fields.drop_first(), key, i - 1);
    } else {
        assert(fields.skip(0) =~= fields);
    }
}

/// Case-insensitive first-match lookup of a key among an object's fields.
fn obj_find_fold<'a>(fields: &'a Vec<(String, JsonValue)>, key: &str) -> (r: Option<
    &'a JsonValue,
>)
    ensures
        match r {
            Some(x) => obj_get_fold(jv_obj(fields@), key@) == Some(x@),
            None => obj_get_fold(jv_obj(fields@), key@) is None,
        },
{
    proof {
        lemma_jv_obj_len(fields@);
    }
    let mut i: usize = 0;
    while i < fields.len()
        invariant
            jv_obj(fields@).len() == fields@.len(),
            i <= fields@.len(),
            forall|j: int| 0 <= j < i ==> ascii_fold(jv_obj(fields@)[j].0) != ascii_fold(key@),
        decreases fields.len() - i,
    {
        proof {
            lemma_jv_obj_index(fields@, i as int);
        }
        if strutil::str_eq_fold(fields[i].0.as_str(), key) {
            proof {
                lemma_obj_get_fold_skip(jv_obj(fields@), key@, i as int);
                assert(jv_obj(fields@).skip(i as int)[0] == jv_obj(fields@)[i as int]);
                assert(jv_obj(fields@).skip(i as int).len() > 0);
            }
            return Some(&fields[i].1);
        }
        i = i + 1;
    }
    proof {
        lemma_obj_get_fold_skip(jv_obj(fields@), key@, fields@.len() as int);
        assert(jv_obj(fields@).skip(fields@.len() as int).len() == 0);
    }
    None
}

/// The source value for a target column name inside a row object: exact
/// match first, then the camelCase form of the name, then a case-insensitive
/// scan.  A row that is not an object offers no source value.
pub open spec fn lookup_source(row: JsonV, name: Seq<char>) -> Option<JsonV> {
    match row {
        JsonV::Obj(fields) => match obj_get(fields, name) {
            Some(v) => Some(v),
            None => match obj_get(fields, strutil::camel_of(name, false)) {
                Some(v) => Some(v),
                None => obj_get_fold(fields, name),
            },
        },
        _ => None,
    }
}

/// Find the source value for a column name, per `lookup_source`.
pub fn find_source<'a>(row: &'a JsonValue, name: &str) -> (r: Option<&'a JsonValue>)
    ensures
        match r {
            Some(x) => lookup_source(row@, name@) == Some(x@),
            None => lookup_source(row@, name@) is None,
        },
{
    match row {
        JsonValue::Obj(fields) => {
            match crate::json::obj_find(fields, name) {
                Some(x) => Some(x),
                None => {
                    let camel = strutil::to_camel_case(name);
                    match crate::json::obj_find(fields, camel.as_str()) {
                        Some(x) => Some(x),
                        None => obj_find_fold(fields, name),
                    }
                },
            }
        },
        _ => None,
    }
}

/// The truncating conversion of an integer to a signed 8-bit value.
pub open spec fn trunc_i8(i: int) -> int {
    i as i8 as int
}

/// The truncating conversion of an integer to a signed 16-bit value.
pub open spec fn trunc_i16(i: int) -> int {
    i as i16 as int
}

/// The truncating conversion of an integer to a signed 32-bit value.
pub open spec fn trunc_i32(i: int) -> int {
    i as i32 as int
}

/// The conversion of one source JSON value for a column of the given type:
/// dispatch on the type tag, per the cell mapper's rules.
pub open spec fn convert_value(v: JsonV, t: ColumnType) -> PlanV {
    match t {
        ColumnType::Bool => match v {
            JsonV::Bool(b) => PlanV::Ready(Some(CellV::Bool(b))),
            _ => PlanV::Ready(None),
        },
        ColumnType::I8 => match v {
            JsonV::Int(i) => PlanV::Ready(Some(CellV::I8(trunc_i8(i)))),
            _ => PlanV::Ready(None),
        },
        ColumnType::I16 => match v {
            JsonV::Int(i) => PlanV::Ready(Some(CellV::I16(trunc_i16(i)))),
            _ => PlanV::Ready(None),
        },
        ColumnType::I32 => match v {
            JsonV::Int(i) => PlanV::Ready(Some(CellV::I32(trunc_i32(i)))),
            _ => PlanV::Ready(None),
        },
        ColumnType::I64 => match v {
            JsonV::Int(i) => PlanV::Ready(Some(CellV::I64(i))),
            _ => PlanV::Ready(None),
        },
        ColumnType::F32 => match v {
            JsonV::Int(i) => PlanV::Ready(Some(CellV::F32(strutil::dec_str_signed(i)))),
            JsonV::Num(n) => PlanV::Ready(Some(CellV::F32(n))),
            _ => PlanV::Ready(None),
        },
        ColumnType::F64 => match v {
            JsonV::Int(i) => PlanV::Ready(Some(CellV::F64(strutil::dec_str_signed(i)))),
            JsonV::Num(n) => PlanV::Ready(Some(CellV::F64(n))),
            _ => PlanV::Ready(None),
        },
        ColumnType::Numeric => match v {
            JsonV::Int(i) => PlanV::Ready(Some(CellV::Numeric(strutil::dec_str_signed(i)))),
            JsonV::Num(n) => PlanV::Ready(Some(CellV::Numeric(n))),
            _ => PlanV::Ready(None),
        },
        ColumnType::Text => match v {
            JsonV::Str(s) => PlanV::Ready(Some(CellV::Text(s))),
            _ => PlanV::Ready(Some(CellV::Text(text_of(v)))),
        },
        ColumnType::Date => match v {
            JsonV::Str(s) => PlanV::ParseTime(TimeKind::Date, s),
            _ => PlanV::Ready(None),
        },
        ColumnType::Timestamp => match v {
            JsonV::Str(s) => PlanV::ParseTime(TimeKind::Timestamp, s),
            _ => PlanV::Ready(None),
        },
        ColumnType::Timestamptz => match v {
            JsonV::Str(s) => PlanV::ParseTime(TimeKind::Timestamptz, s),
            _ => PlanV::Ready(None),
        },
        ColumnType::Json => PlanV::Ready(Some(CellV::Json(v))),
        ColumnType::Uuid => match v {
            JsonV::Str(s) => PlanV::Ready(Some(CellV::Text(s))),
            _ => PlanV::Ready(None),
        },
        ColumnType::Other => PlanV::Ready(Some(CellV::Json(v))),
    }
}

/// The conversion outcome for one target column of a row: the `attrs` column
/// always receives the whole row as JSON; otherwise the source value found by
/// `lookup_source` is converted by type, a missing or null source leaving the
/// cell unset.
pub open spec fn plan_of(row: JsonV, name: Seq<char>, t: ColumnType) -> PlanV {
    if name == "attrs"@ {
        PlanV::Ready(Some(CellV::Json(row)))
    } else {
        match lookup_source(row, name) {
            None => PlanV::Ready(None),
            Some(JsonV::Null) => PlanV::Ready(None),
            Some(v) => convert_value(v, t),
        }
    }
}

/// Convert one JSON row value for one target column.
pub fn json_to_cell(row: &JsonValue, col: &Column) -> (r: CellPlan)
    ensures
        r@ == plan_of(row@, col.name@, col.col_type),
{
    if strutil::str_eq(col.name.as_str(), "attrs") {
        return CellPlan::Ready(Some(Cell::Json(row.dup())));
    }
    let src = match find_source(row, col.name.as_str()) {
        None => {
            return CellPlan::Ready(None);
        },
        Some(v) => v,
    };
    if let JsonValue::Null = src {
        return CellPlan::Ready(None);
    }
    match col.col_type {
        ColumnType::Bool => match src {
            JsonValue::Bool(b) => CellPlan::Ready(Some(Cell::Bool(*b))),
            _ => CellPlan::Ready(None),
        },
        ColumnType::I8 => match src {
            JsonValue::Int(i) => CellPlan::Ready(Some(Cell::I8(#[verifier::truncate] (*i as i8)))),
            _ => CellPlan::Ready(None),
        },
        ColumnType::I16 => match src {
            JsonValue::Int(i) => CellPlan::Ready(
                Some(Cell::I16(#[verifier::truncate] (*i as i16))),
            ),
            _ => CellPlan::Ready(None),
        },
        ColumnType::I32 => match src {
            JsonValue::Int(i) => CellPlan::Ready(
                Some(Cell::I32(#[verifier::truncate] (*i as i32))),
            ),
            _ => CellPlan::Ready(None),
        },
        ColumnType::I64 => match src {
            JsonValue::Int(i) => CellPlan::Ready(Some(Cell::I64(*i))),
            _ => CellPlan::Ready(None),
        },
        ColumnType::F32 => match src {
            JsonValue::Int(i) => CellPlan::Ready(Some(Cell::F32(strutil::i64_to_string(*i)))),
            JsonValue::Num(n) => CellPlan::Ready(Some(Cell::F32(n.clone()))),
            _ => CellPlan::Ready(None),
        },
        ColumnType::F64 => match src {
            JsonValue::Int(i) => CellPlan::Ready(Some(Cell::F64(strutil::i64_to_string(*i)))),
            JsonValue::Num(n) => CellPlan::Ready(Some(Cell::F64(n.clone()))),
            _ => CellPlan::Ready(None),
        },
        ColumnType::Numeric => match src {
            JsonValue::Int(i) => CellPlan::Ready(Some(Cell::Numeric(strutil::i64_to_string(*i)))),
            JsonValue::Num(n) => CellPlan::Ready(Some(Cell::Numeric(n.clone()))),
            _ => CellPlan::Ready(None),
        },
        ColumnType::Text => match src {
            JsonValue::Str(s) => CellPlan::Ready(Some(Cell::Text(s.clone()))),
            _ => CellPlan::Ready(Some(Cell::Text(src.to_text()))),
        },
        ColumnType::Date => match src {
            JsonValue::Str(s) => CellPlan::ParseTime(TimeKind::Date, s.clone()),
            _ => CellPlan::Ready(None),
        },
        ColumnType::Timestamp => match src {
            JsonValue::Str(s) => CellPlan::ParseTime(TimeKind::Timestamp, s.clone()),
            _ => CellPlan::Ready(None),
        },
        ColumnType::Timestamptz => match src {
            JsonValue::Str(s) => CellPlan::ParseTime(TimeKind::Timestamptz, s.clone()),
            _ => CellPlan::Ready(None),
        },
        ColumnType::Json => CellPlan::Ready(Some(Cell::Json(src.dup()))),
        ColumnType::Uuid => match src {
            JsonValue::Str(s) => CellPlan::Ready(Some(Cell::Text(s.clone()))),
            _ => CellPlan::Ready(None),
        },
        ColumnType::Other => CellPlan::Ready(Some(Cell::Json(src.dup()))),
    }
}

/// The seconds value of a timestamp in microseconds, truncating toward zero
/// as the host's division does.
pub open spec fn micros_to_secs(ts: int) -> int {
    if ts >= 0 {
        ts / 1_000_000
    } else {
        -((-ts) / 1_000_000)
    }
}

/// Build the cell for a time-typed column from the epoch value (microsecond
/// precision) that the host parsed out of the RFC 3339 string of a
/// `CellPlan::ParseTime`.  A date cell truncates to whole seconds.
pub fn time_cell(kind: TimeKind, ts: i64) -> (r: Cell)
    ensures
        kind == TimeKind::Date ==> r@ == CellV::Date(micros_to_secs(ts as int)),
        kind == TimeKind::Timestamp ==> r@ == CellV::Timestamp(ts as int),
        kind == TimeKind::Timestamptz ==> r@ == CellV::Timestamptz(ts as int),
{
    match kind {
        TimeKind::Date => {
            let secs: i64 = if ts >= 0 {
                ((ts as u64) / 1_000_000) as i64
            } else {
                let m: u64 = (-(ts as i128)) as u64;
                -((m / 1_000_000) as i64)
            };
            proof {
                assert(secs as int == micros_to_secs(ts as int));
            }
            Cell::Date(secs)
        },
        TimeKind::Timestamp => Cell::Timestamp(ts),
        TimeKind::Timestamptz => Cell::Timestamptz(ts),
    }
}

/// The epoch value (microseconds) that the host must render to RFC 3339 to
/// serialize a time cell; `None` for every other cell, or when a date cell's
/// seconds do not fit the microsecond scale.
pub open spec fn render_epoch(c: CellV) -> Option<int> {
    match c {
        CellV::Date(v) => if i64::MIN <= v * 1_000_000 <= i64::MAX {
            Some(v * 1_000_000)
        } else {
            None
        },
        CellV::Timestamp(v) => Some(v),
        CellV::Timestamptz(v) => Some(v),
        _ => None,
    }
}

/// The epoch value the host must render for a time cell, per `render_epoch`.
pub fn time_render_epoch(c: &Cell) -> (r: Option<i64>)
    ensures
        match r {
            Some(v) => render_epoch(c@) == Some(v as int),
            None => render_epoch(c@) is None,
        },
{
    match c {
        Cell::Date(v) => {
            if *v >= -9_223_372_036_854i64 && *v <= 9_223_372_036_854i64 {
                proof {
                    assert(i64::MIN <= (*v as int) * 1_000_000 <= i64::MAX) by (nonlinear_arith)
                        requires
                            -9_223_372_036_854 <= *v as int <= 9_223_372_036_854,
                    ;
                }
                Some(*v * 1_000_000)
            } else {
                proof {
                    assert(!(i64::MIN <= (*v as int) * 1_000_000 <= i64::MAX))
                        by (nonlinear_arith)
                        requires
                            !(-9_223_372_036_854 <= *v as int <= 9_223_372_036_854),
                    ;
                }
                None
            }
        },
        Cell::Timestamp(v) => Some(*v),
        Cell::Timestamptz(v) => Some(*v),
        _ => None,
    }
}

/// Whether a cell needs the host to render a time string before it can be
/// serialized into a mutation body.
pub open spec fn is_time_cell(c: CellV) -> bool {
    c is Date || c is Timestamp || c is Timestamptz
}

/// The JSON value of one cell inside a mutation body; time cells use the
/// pre-rendered RFC 3339 text.
pub open spec fn cell_json(c: CellV, time: Option<Seq<char>>) -> JsonV {
    match c {
        CellV::Bool(b) => JsonV::Bool(b),
        CellV::I8(i) => JsonV::Int(i),
        CellV::I16(i) => JsonV::Int(i),
        CellV::I32(i) => JsonV::Int(i),
        CellV::I64(i) => JsonV::Int(i),
        CellV::F32(t) => JsonV::Num(t),
        CellV::F64(t) => JsonV::Num(t),
        CellV::Numeric(t) => JsonV::Num(t),
        CellV::Text(t) => JsonV::Str(t),
        CellV::Date(v) => match time {
            Some(s) => JsonV::Str(s),
            None => JsonV::Null,
        },
        CellV::Timestamp(v) => match time {
            Some(s) => JsonV::Str(s),
            None => JsonV::Null,
        },
        CellV::Timestamptz(v) => match time {
            Some(s) => JsonV::Str(s),
            None => JsonV::Null,
        },
        CellV::Json(j) => j,
        CellV::Uuid(t) => JsonV::Str(t),
        CellV::Other(t) => JsonV::Str(t),
    }
}

/// The members of a mutation body: every column but `attrs` whose cell is
/// set, in row order, each converted by `cell_json`.
pub open spec fn body_fields(
    cols: Seq<Seq<char>>,
    cells: Seq<Option<CellV>>,
    times: Seq<Option<Seq<char>>>,
) -> Seq<(Seq<char>, JsonV)>
    decreases cols.len(),
{
    if cols.len() == 0 || cells.len() == 0 || times.len() == 0 {
        Seq::empty()
    } else {
        let rest = body_fields(cols.drop_first(), cells.drop_first(), times.drop_first());
        if cols[0] == "attrs"@ {
            rest
        } else {
            match cells[0] {
                None => rest,
                Some(c) => seq![(cols[0], cell_json(c, times[0]))] + rest,
            }
        }
    }
}

/// The column names of a row that a mutation body keeps: every column but
/// `attrs` whose cell is set, in order.
pub open spec fn body_keys(cols: Seq<Seq<char>>, cells: Seq<Option<CellV>>) -> Seq<Seq<char>>
    decreases cols.len(),
{
    if cols.len() == 0 || cells.len() == 0 {
        Seq::empty()
    } else {
        let rest = body_keys(cols.drop_first(), cells.drop_first());
        if cols[0] == "attrs"@ || cells[0] is None {
            rest
        } else {
            seq![cols[0]] + rest
        }
    }
}

/// The names of a row's columns.
pub open spec fn col_names(cols: Seq<String>) -> Seq<Seq<char>> {
    cols.map_values(|c: String| c@)
}

/// The views of a row's cells.
pub open spec fn cell_views(cells: Seq<Option<Cell>>) -> Seq<Option<CellV>> {
    cells.map_values(
        |c: Option<Cell>|
            match c {
                None => None,
                Some(x) => Some(x@),
            },
    )
}

/// The views of pre-rendered time strings.
pub open spec fn time_views(times: Seq<Option<String>>) -> Seq<Option<Seq<char>>> {
    times.map_values(
        |t: Option<String>|
            match t {
                None => None,
                Some(x) => Some(x@),
            },
    )
}

impl Row {
    /// A well-formed row names one column per cell.
    pub open spec fn wf(&self) -> bool {
        self.cols@.len() == self.cells@.len()
    }
}

/// Build the JSON mutation body of a row.  `times` holds, for each cell, the
/// RFC 3339 rendering that the host produced for a time cell (see
/// `time_render_epoch`), and `None` for every other cell.
pub fn row_to_body(row: &Row, times: &Vec<Option<String>>) -> (r: JsonValue)
    requires
        row.wf(),
        times@.len() == row.cells@.len(),
    ensures
        r@ == JsonV::Obj(
            body_fields(
                col_names(row.cols@),
                cell_views(row.cells@),
                time_views(times@),
            ),
        ),
{
    let ghost gcols = col_names(row.cols@);
    let ghost gcells = cell_views(row.cells@);
    let ghost gtimes = time_views(times@);
    let n: usize = row.cols.len();
    let mut out: Vec<(String, JsonValue)> = Vec::new();
    let mut i: usize = 0;
    proof {
        assert(gcols.skip(0) =~= gcols);
        assert(gcells.skip(0) =~= gcells);
        assert(gtimes.skip(0) =~= gtimes);
        crate::json::lemma_jv_obj_len(out@);
        assert(jv_obj(out@) =~= Seq::<(Seq<char>, JsonV)>::empty());
    }
    while i < n
        invariant
            row.wf(),
            gcols == col_names(row.cols@),
            gcells == cell_views(row.cells@),
            gtimes == time_views(times@),
            n == row.cols@.len(),
            times@.len() == n as int,
            i <= n,
            body_fields(gcols, gcells, gtimes) == jv_obj(out@) + body_fields(
                gcols.skip(i as int),
                gcells.skip(i as int),
                gtimes.skip(i as int),
            ),
        decreases n - i,
    {
        proof {
            assert(gcols.skip(i as int).drop_first() =~= gcols.skip(i as int + 1));
            assert(gcells.skip(i as int).drop_first() =~= gcells.skip(i as int + 1));
            assert(gtimes.skip(i as int).drop_first() =~= gtimes.skip(i as int + 1));
            assert(gcols.skip(i as int)[0] == row.cols@[i as int]@);
            assert(gcells.skip(i as int)[0] == cell_views(row.cells@)[i as int]);
            assert(gtimes.skip(i as int)[0] == time_views(times@)[i as int]);
        }
        let name = &row.cols[i];
        if !strutil::str_eq(name.as_str(), "attrs") {
            match &row.cells[i] {
                None => {},
                Some(c) => {
                    let time_str: Option<String> = match &times[i] {
                        None => None,
                        Some(t) => Some(t.clone()),
                    };
                    let v = cell_to_json(c, time_str);
                    let ghost pre = out@;
                    let entry = (name.clone(), v);
                    let ghost gentry = entry;
                    out.push(entry);
                    proof {
                        crate::json::lemma_jv_obj_push(pre, gentry);
                        assert(jv_obj(out@) + body_fields(
                            gcols.skip(i as int + 1),
                            gcells.skip(i as int + 1),
                            gtimes.skip(i as int + 1),
                        ) =~= jv_obj(pre) + (seq![(gentry.0@, gentry.1@)] + body_fields(
                            gcols.skip(i as int + 1),
                            gcells.skip(i as int + 1),
                            gtimes.skip(i as int + 1),
                        )));
                    }
                },
            }
        }
        i = i + 1;
    }
    proof {
        assert(gcols.skip(n as int).len() == 0);
        assert(body_fields(gcols.skip(n as int), gcells.skip(n as int), gtimes.skip(n as int))
            =~= Seq::<(Seq<char>, JsonV)>::empty());
        assert(body_fields(gcols, gcells, gtimes) =~= jv_obj(out@));
    }
    JsonValue::Obj(out)
}

/// The JSON value of one cell, per `cell_json`.
fn cell_to_json(c: &Cell, time: Option<String>) -> (r: JsonValue)
    ensures
        r@ == cell_json(
            c@,
            match time {
                None => None,
                Some(t) => Some(t@),
            },
        ),
{
    match c {
        Cell::Bool(b) => JsonValue::Bool(*b),
        Cell::I8(v) => JsonValue::Int(*v as i64),
        Cell::I16(v) => JsonValue::Int(*v as i64),
        Cell::I32(v) => JsonValue::Int(*v as i64),
        Cell::I64(v) => JsonValue::Int(*v),
        Cell::F32(t) => JsonValue::Num(t.clone()),
        Cell::F64(t) => JsonValue::Num(t.clone()),
        Cell::Numeric(t) => JsonValue::Num(t.clone()),
        Cell::Text(t) => JsonValue::Str(t.clone()),
        Cell::Date(_) => match time {
            Some(s) => JsonValue::Str(s),
            None => JsonValue::Null,
        },
        Cell::Timestamp(_) => match time {
            Some(s) => JsonValue::Str(s),
            None => JsonValue::Null,
        },
        Cell::Timestamptz(_) => match time {
            Some(s) => JsonValue::Str(s),
            None => JsonValue::Null,
        },
        Cell::Json(j) => j.dup(),
        Cell::Uuid(t) => JsonValue::Str(t.clone()),
        Cell::Other(t) => JsonValue::Str(t.clone()),
    }
}

/// The identifier text of a row-id cell: strings pass through, 32- and
/// 64-bit integers render in decimal, and no other cell kind identifies a
/// resource.
pub open spec fn id_text(c: CellV) -> Option<Seq<char>> {
    match c {
        CellV::Text(t) => Some(t),
        CellV::I32(i) => Some(strutil::dec_str_signed(i)),
        CellV::I64(i) => Some(strutil::dec_str_signed(i)),
        _ => None,
    }
}

/// Render a row-id cell as the identifier path segment, per `id_text`.
pub fn cell_id_string(c: &Cell) -> (r: Option<String>)
    ensures
        match r {
            Some(s) => id_text(c@) == Some(s@),
            None => id_text(c@) is None,
        },
{
    match c {
        Cell::Text(t) => Some(t.clone()),
        Cell::I32(i) => Some(strutil::i32_to_string(*i)),
        Cell::I64(i) => Some(strutil::i64_to_string(*i)),
        _ => None,
    }
}

/// The keys of a mutation body are exactly the row's non-`attrs` columns
/// whose cell is set, in row order, whatever time renderings are supplied.
pub proof fn law_body_keys(
    cols: Seq<Seq<char>>,
    cells: Seq<Option<CellV>>,
    times: Seq<Option<Seq<char>>>,
)
    requires
        cols.len() == cells.len(),
        times.len() == cells.len(),
    ensures
        body_fields(cols, cells, times).map_values(|p: (Seq<char>, JsonV)| p.0) == body_keys(
            cols,
            cells,
        ),
    decreases cols.len(),
{
    if cols.len() > 0 {
        law_body_keys(cols.drop_first(), cells.drop_first(), times.drop_first());
        let rest = body_fields(cols.drop_first(), cells.drop_first(), times.drop_first());
        if cols[0] == "attrs"@ || cells[0] is None {
            assert(body_fields(cols, cells, times).map_values(|p: (Seq<char>, JsonV)| p.0)
                =~= body_keys(cols, cells));
        } else {
            let c = cells[0]->0;
            assert(body_fields(cols, cells, times) == seq![(cols[0], cell_json(c, times[0]))]
                + rest);
            assert(body_fields(cols, cells, times).map_values(|p: (Seq<char>, JsonV)| p.0)
                =~= body_keys(cols, cells));
        }
    } else {
        assert(body_fields(cols, cells, times).map_values(|p: (Seq<char>, JsonV)| p.0)
            =~= body_keys(cols, cells));
    }
}

} // verus!
