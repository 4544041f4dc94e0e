//! The snapshot table as a Polars `DataFrame`: built from the columns of
//! [`crate::columns`] for writing, and read back into snapshots for the
//! viewer.

use vstd::prelude::*;

use polars::prelude::{Column, DataFrame, NamedFrom, PolarsError, Series};

use crate::json::json_readable;
use crate::columns::{law_storage_round_trip, lemma_log_rows_plain, plain_melds, ColumnsView, SnapshotColumns, bools, ints, melds_readable, row_of, rows_from_columns, shaped, snapshot_columns, strs, table_of};
use crate::parser::{XmlEvent, parse_game_xml, run_items, run_spec};
use crate::xml::xml_items;
use crate::snapshot::{Snapshot, SnapView, init_view, snap_views};
use crate::text::{append_chars, chars_of, string_of};

verus! {

// ── outside types ─────────────────────────────────────────────

#[verifier::external_type_specification]
#[verifier::external_body]
pub struct ExDataFrame(DataFrame);

#[verifier::external_type_specification]
#[verifier::external_body]
pub struct ExSeries(Series);

#[verifier::external_type_specification]
#[verifier::external_body]
pub struct ExColumn(Column);

#[verifier::external_type_specification]
#[verifier::external_body]
pub struct ExPolarsError(PolarsError);

// ── what a frame holds ────────────────────────────────────────

/// What a column or a series holds, by type (`None` for a null).
pub enum ColumnData {
    I32(Seq<Option<i32>>),
    I8(Seq<Option<i8>>),
    Bool(Seq<Option<bool>>),
    Str(Seq<Option<Seq<char>>>),
    /// A list column: one series per row.
    List(Seq<Option<ColumnData>>),
    /// Any other type, by its length.
    Other(nat),
}

/// The number of rows of a column.
pub open spec fn data_len(d: ColumnData) -> nat {
    match d {
        ColumnData::I32(v) => v.len(),
        ColumnData::I8(v) => v.len(),
        ColumnData::Bool(v) => v.len(),
        ColumnData::Str(v) => v.len(),
        ColumnData::List(v) => v.len(),
        ColumnData::Other(n) => n,
    }
}

/// Both hold the same type (lists of any inner type alike).
pub open spec fn same_kind(a: ColumnData, b: ColumnData) -> bool {
    match (a, b) {
        (ColumnData::I32(_), ColumnData::I32(_)) => true,
        (ColumnData::I8(_), ColumnData::I8(_)) => true,
        (ColumnData::Bool(_), ColumnData::Bool(_)) => true,
        (ColumnData::Str(_), ColumnData::Str(_)) => true,
        (ColumnData::List(_), ColumnData::List(_)) => true,
        _ => false,
    }
}

/// A column of one plain type, not a list and not of another type.
pub open spec fn flat_kind(d: ColumnData) -> bool {
    d is I32 || d is I8 || d is Bool || d is Str
}

/// The name of a series.
pub uninterp spec fn series_name(s: Series) -> Seq<char>;

/// What a series holds.
pub uninterp spec fn series_data(s: Series) -> ColumnData;

/// What a column holds.
pub uninterp spec fn column_data(c: Column) -> ColumnData;

/// The columns of a frame, in order: (name, what it holds).
pub uninterp spec fn frame_columns(df: DataFrame) -> Seq<(Seq<char>, ColumnData)>;

/// The height of a frame.
pub uninterp spec fn frame_rows(df: DataFrame) -> nat;

/// Non-null values.
pub open spec fn all_some<T>(v: Seq<T>) -> Seq<Option<T>> {
    v.map_values(|x: T| Some(x))
}

/// `v` holds the values of `d` wherever `d` has no null (and as many).
pub open spec fn agree<T>(v: Seq<T>, d: Seq<Option<T>>) -> bool {
    &&& v.len() == d.len()
    &&& forall|i: int| 0 <= i < d.len() ==> (#[trigger] d[i] matches Some(x) ==> v[i] == x)
}

/// The first column named `name`.
pub open spec fn find_col(cols: Seq<(Seq<char>, ColumnData)>, name: Seq<char>) -> Option<ColumnData>
    decreases cols.len(),
{
    if cols.len() == 0 {
        None
    } else if cols[0].0 == name {
        Some(cols[0].1)
    } else {
        find_col(cols.drop_first(), name)
    }
}

/// A list column of `i32` lists as built (an empty one has no type).
pub open spec fn int_lists(rows: Seq<Seq<i32>>) -> ColumnData {
    if rows.len() == 0 {
        ColumnData::Other(0)
    } else {
        ColumnData::List(rows.map_values(|r: Seq<i32>| Some(ColumnData::I32(all_some(r)))))
    }
}

/// A list column of flag lists as built (an empty one has no type).
pub open spec fn bool_lists(rows: Seq<Seq<bool>>) -> ColumnData {
    if rows.len() == 0 {
        ColumnData::Other(0)
    } else {
        ColumnData::List(rows.map_values(|r: Seq<bool>| Some(ColumnData::Bool(all_some(r)))))
    }
}

/// A string column without nulls.
pub open spec fn str_data(v: Seq<Seq<char>>) -> ColumnData {
    ColumnData::Str(all_some(v))
}

/// Strings of a string column, nulls read as empty.
pub open spec fn strs_or_empty(d: Seq<Option<Seq<char>>>) -> Seq<Seq<char>> {
    d.map_values(|o: Option<Seq<char>>| match o {
        Some(t) => t,
        None => Seq::<char>::empty(),
    })
}

/// A row of an `i32` list column as read: the values of an `i32` series,
/// empty for a null row or a series of another type.
pub open spec fn int_row(v: Seq<i32>, o: Option<ColumnData>) -> bool {
    match o {
        Some(ColumnData::I32(x)) => agree(v, x),
        _ => v.len() == 0,
    }
}

/// A row of a flag list column as read.
pub open spec fn bool_row(v: Seq<bool>, o: Option<ColumnData>) -> bool {
    match o {
        Some(ColumnData::Bool(x)) => agree(v, x),
        _ => v.len() == 0,
    }
}

/// `v` is the `i32` column `name` as read.
pub open spec fn i32_col_ok(v: Seq<i32>, cols: Seq<(Seq<char>, ColumnData)>, name: Seq<char>) -> bool {
    find_col(cols, name) matches Some(ColumnData::I32(d)) && agree(v, d)
}

/// `v` is the `i8` column `name` as read.
pub open spec fn i8_col_ok(v: Seq<i8>, cols: Seq<(Seq<char>, ColumnData)>, name: Seq<char>) -> bool {
    find_col(cols, name) matches Some(ColumnData::I8(d)) && agree(v, d)
}

/// `v` is the flag column `name` as read.
pub open spec fn bool_col_ok(v: Seq<bool>, cols: Seq<(Seq<char>, ColumnData)>, name: Seq<char>) -> bool {
    find_col(cols, name) matches Some(ColumnData::Bool(d)) && agree(v, d)
}

/// `v` is the string column `name` as read.
pub open spec fn str_col_ok(v: Seq<Seq<char>>, cols: Seq<(Seq<char>, ColumnData)>, name: Seq<char>) -> bool {
    find_col(cols, name) matches Some(ColumnData::Str(d)) && v == strs_or_empty(d)
}

/// `v` is the `i32` list column `name` as read.
pub open spec fn int_lists_ok(v: Seq<Seq<i32>>, cols: Seq<(Seq<char>, ColumnData)>, name: Seq<char>) -> bool {
    find_col(cols, name) matches Some(ColumnData::List(d)) && v.len() == d.len()
        && forall|i: int| 0 <= i < d.len() ==> int_row(v[i], #[trigger] d[i])
}

/// `v` is the flag list column `name` as read.
pub open spec fn bool_lists_ok(v: Seq<Seq<bool>>, cols: Seq<(Seq<char>, ColumnData)>, name: Seq<char>) -> bool {
    find_col(cols, name) matches Some(ColumnData::List(d)) && v.len() == d.len()
        && forall|i: int| 0 <= i < d.len() ==> bool_row(v[i], #[trigger] d[i])
}

// ── trusted items: building ───────────────────────────────────

/// `Series::new` on `i32` values: an `i32` series of them, no nulls.
#[verifier::external_body]
fn i32_series(name: &str, v: &[i32]) -> (r: Series)
    ensures
        series_name(r) == name@,
        series_data(r) == ColumnData::I32(all_some(v@)),
{
    Series::new(name.into(), v)
}

/// `Series::new` on `i8` values: an `i8` series of them, no nulls.
#[verifier::external_body]
fn i8_series(name: &str, v: &[i8]) -> (r: Series)
    ensures
        series_name(r) == name@,
        series_data(r) == ColumnData::I8(all_some(v@)),
{
    Series::new(name.into(), v)
}

/// `Series::new` on flags: a boolean series of them, no nulls.
#[verifier::external_body]
fn bool_series(name: &str, v: &[bool]) -> (r: Series)
    ensures
        series_name(r) == name@,
        series_data(r) == ColumnData::Bool(all_some(v@)),
{
    Series::new(name.into(), v)
}

/// `Series::new` on strings: a string series of them, no nulls.
#[verifier::external_body]
fn str_series(name: &str, v: &[String]) -> (r: Series)
    ensures
        series_name(r) == name@,
        series_data(r) == str_data(strs(v@)),
{
    Series::new(name.into(), v)
}

/// `Series::new` on series: a list column, one row per series; on no
/// series, an empty series of the null type.  The series must all hold one
/// plain type (`i32`, `i8`, flags or strings): the list builder is made for
/// the first one's type and panics on another.
#[verifier::external_body]
fn list_series(name: &str, v: Vec<Series>) -> (r: Series)
    requires
        v@.len() > 0 ==> flat_kind(series_data(v@[0])),
        forall|i: int| 0 <= i < v@.len() ==> same_kind(#[trigger] series_data(v@[i]), series_data(v@[0])),
    ensures
        series_name(r) == name@,
        series_data(r) == (if v@.len() == 0 {
            ColumnData::Other(0)
        } else {
            ColumnData::List(v@.map_values(|t: Series| Some(series_data(t))))
        }),
{
    Series::new(name.into(), v)
}

/// `DataFrame::new` on the series, each made a column: it fails when two
/// names repeat or two lengths differ; the frame holds the series in order,
/// its height that of the first (0 for none).
#[verifier::external_body]
fn new_frame(cols: Vec<Series>) -> (r: Result<DataFrame, PolarsError>)
    ensures
        (r is Ok) == ((forall|i: int, k: int| 0 <= i < k < cols@.len()
            ==> series_name(#[trigger] cols@[i]) != series_name(#[trigger] cols@[k]))
            && (forall|i: int| 0 <= i < cols@.len()
            ==> data_len(series_data(#[trigger] cols@[i])) == data_len(series_data(cols@[0])))),
        r matches Ok(df) ==> frame_columns(df) == cols@.map_values(|t: Series| (series_name(t), series_data(t)))
            && frame_rows(df) == (if cols@.len() == 0 { 0 } else { data_len(series_data(cols@[0])) }),
{
    DataFrame::new(cols.into_iter().map(Column::from).collect())
}

/// The `Display` text of a Polars error.  Nothing is stated of the text:
/// Polars builds its error messages according to the environment
/// (`POLARS_BACKTRACE_IN_ERR=1` appends a backtrace), so the same error
/// value does not give the same text in every process.
#[verifier::external_body]
fn error_text(e: &PolarsError) -> String {
    e.to_string()
}

// ── trusted items: reading ────────────────────────────────────

/// `DataFrame::height`; every column of a frame has that many rows.
#[verifier::external_body]
fn frame_height(df: &DataFrame) -> (r: usize)
    ensures
        r == frame_rows(*df),
        forall|i: int| 0 <= i < frame_columns(*df).len() ==> data_len(#[trigger] frame_columns(*df)[i].1) == r,
{
    df.height()
}

/// `DataFrame::get_column_names`, each name as a `String`.
#[verifier::external_body]
fn column_names(df: &DataFrame) -> (r: Vec<String>)
    ensures
        strs(r@) == col_names(frame_columns(*df)),
{
    df.get_column_names().iter().map(|s| s.to_string()).collect()
}

/// `DataFrame::column`: the column named `name`, or the error for a
/// missing one.
/// With `POLARS_PANIC_ON_ERR=1` in the environment Polars panics where it
/// would return the error; the environment is outside any `requires`.
#[verifier::external_body]
fn column_of<'a>(df: &'a DataFrame, name: &str) -> (r: Result<&'a Column, PolarsError>)
    ensures
        match r {
            Ok(c) => find_col(frame_columns(*df), name@) == Some(column_data(*c)),
            Err(_) => find_col(frame_columns(*df), name@) is None,
        },
{
    df.column(name)
}

/// `Column::i32`, its values collected (nulls not expected).
/// With `POLARS_PANIC_ON_ERR=1` in the environment Polars panics where it
/// would return the error; the environment is outside any `requires`.
#[verifier::external_body]
fn i32_values(c: &Column) -> (r: Result<Vec<i32>, PolarsError>)
    ensures
        match column_data(*c) {
            ColumnData::I32(d) => r matches Ok(v) && agree(v@, d),
            _ => r is Err,
        },
{
    Ok(c.i32()?.into_no_null_iter().collect())
}

/// `Column::i8`, its values collected (nulls not expected).
/// With `POLARS_PANIC_ON_ERR=1` in the environment Polars panics where it
/// would return the error; the environment is outside any `requires`.
#[verifier::external_body]
fn i8_values(c: &Column) -> (r: Result<Vec<i8>, PolarsError>)
    ensures
        match column_data(*c) {
            ColumnData::I8(d) => r matches Ok(v) && agree(v@, d),
            _ => r is Err,
        },
{
    Ok(c.i8()?.into_no_null_iter().collect())
}

/// `Column::bool`, its values collected (nulls not expected).
/// With `POLARS_PANIC_ON_ERR=1` in the environment Polars panics where it
/// would return the error; the environment is outside any `requires`.
#[verifier::external_body]
fn bool_values(c: &Column) -> (r: Result<Vec<bool>, PolarsError>)
    ensures
        match column_data(*c) {
            ColumnData::Bool(d) => r matches Ok(v) && agree(v@, d),
            _ => r is Err,
        },
{
    Ok(c.bool()?.into_no_null_iter().collect())
}

/// `Column::str`, its values collected (`None` for nulls).
/// With `POLARS_PANIC_ON_ERR=1` in the environment Polars panics where it
/// would return the error; the environment is outside any `requires`.
#[verifier::external_body]
fn str_values(c: &Column) -> (r: Result<Vec<Option<String>>, PolarsError>)
    ensures
        match column_data(*c) {
            ColumnData::Str(d) => r matches Ok(v) && v@.len() == d.len() && forall|i: int| 0 <= i < d.len()
                ==> (#[trigger] d[i]) == (match v@[i] {
                    Some(t) => Some(t@),
                    None => None::<Seq<char>>,
                }),
            _ => r is Err,
        },
{
    Ok(c.str()?.into_iter().map(|o| o.map(|s| s.to_string())).collect())
}

/// `Column::list`, its rows collected (`None` for nulls).
/// With `POLARS_PANIC_ON_ERR=1` in the environment Polars panics where it
/// would return the error; the environment is outside any `requires`.
#[verifier::external_body]
fn list_rows(c: &Column) -> (r: Result<Vec<Option<Series>>, PolarsError>)
    ensures
        match column_data(*c) {
            ColumnData::List(d) => r matches Ok(v) && v@.len() == d.len() && forall|i: int| 0 <= i < d.len()
                ==> (#[trigger] d[i]) == (match v@[i] {
                    Some(t) => Some(series_data(t)),
                    None => None::<ColumnData>,
                }),
            _ => r is Err,
        },
{
    Ok(c.list()?.into_iter().collect())
}

/// `Series::i32`, its values collected; `None` when the series holds
/// another type.
#[verifier::external_body]
fn series_i32_values(s: &Series) -> (r: Option<Vec<i32>>)
    ensures
        match series_data(*s) {
            ColumnData::I32(d) => r matches Some(v) && agree(v@, d),
            _ => r is None,
        },
{
    match s.i32() {
        Ok(a) => Some(a.into_no_null_iter().collect()),
        Err(_) => None,
    }
}

/// `Series::bool`, its values collected; `None` when the series holds
/// another type.
#[verifier::external_body]
fn series_bool_values(s: &Series) -> (r: Option<Vec<bool>>)
    ensures
        match series_data(*s) {
            ColumnData::Bool(d) => r matches Some(v) && agree(v@, d),
            _ => r is None,
        },
{
    match s.bool() {
        Ok(a) => Some(a.into_no_null_iter().collect()),
        Err(_) => None,
    }
}

/// What `{:?}` writes for a list of strings.
pub uninterp spec fn debug_strings(v: Seq<Seq<char>>) -> Seq<char>;

/// The `Debug` text of the column names.
#[verifier::external_body]
fn debug_names(v: &Vec<String>) -> (r: String)
    ensures
        r@ == debug_strings(strs(v@)),
{
    format!("{v:?}")
}

// ── building ──────────────────────────────────────────────────

/// A list column of `i32` lists.
fn i32_list_series(name: &str, rows: &Vec<Vec<i32>>) -> (r: Series)
    ensures
        series_name(r) == name@,
        series_data(r) == int_lists(ints(rows@)),
{
    let mut inner: Vec<Series> = Vec::new();
    let mut i: usize = 0;
    while i < rows.len()
        invariant
            0 <= i <= rows.len(),
            inner@.len() == i,
            forall|k: int| 0 <= k < i ==> #[trigger] series_data(inner@[k]) == ColumnData::I32(all_some(rows@[k]@)),
        decreases rows.len() - i,
    {
        inner.push(i32_series("", rows[i].as_slice()));
        i = i + 1;
    }
    let r = list_series(name, inner);
    proof {
        if rows@.len() > 0 {
            assert(inner@.map_values(|t: Series| Some(series_data(t)))
                =~= ints(rows@).map_values(|x: Seq<i32>| Some(ColumnData::I32(all_some(x)))));
        }
    }
    r
}

/// A list column of flag lists.
fn bool_list_series(name: &str, rows: &Vec<Vec<bool>>) -> (r: Series)
    ensures
        series_name(r) == name@,
        series_data(r) == bool_lists(bools(rows@)),
{
    let mut inner: Vec<Series> = Vec::new();
    let mut i: usize = 0;
    while i < rows.len()
        invariant
            0 <= i <= rows.len(),
            inner@.len() == i,
            forall|k: int| 0 <= k < i ==> #[trigger] series_data(inner@[k]) == ColumnData::Bool(all_some(rows@[k]@)),
        decreases rows.len() - i,
    {
        inner.push(bool_series("", rows[i].as_slice()));
        i = i + 1;
    }
    let r = list_series(name, inner);
    proof {
        if rows@.len() > 0 {
            assert(inner@.map_values(|t: Series| Some(series_data(t)))
                =~= bools(rows@).map_values(|x: Seq<bool>| Some(ColumnData::Bool(all_some(x)))));
        }
    }
    r
}

/// The stored snapshot table, column by column in the stored order.
pub open spec fn table_frame(c: ColumnsView) -> Seq<(Seq<char>, ColumnData)> {
    seq![
        ("game_id"@, str_data(c.game_id)),
        ("seq"@, ColumnData::I32(all_some(c.seq))),
        ("honba"@, ColumnData::I32(all_some(c.honba))),
        ("oya"@, ColumnData::I8(all_some(c.oya))),
        ("turns"@, int_lists(c.turns)),
        ("actor"@, ColumnData::I8(all_some(c.actor))),
        ("hand_before_p0"@, int_lists(c.hand_before[0])),
        ("hand_before_p1"@, int_lists(c.hand_before[1])),
        ("hand_before_p2"@, int_lists(c.hand_before[2])),
        ("hand_before_p3"@, int_lists(c.hand_before[3])),
        ("river_p0"@, int_lists(c.river[0])),
        ("river_p1"@, int_lists(c.river[1])),
        ("river_p2"@, int_lists(c.river[2])),
        ("river_p3"@, int_lists(c.river[3])),
        ("river_tsumo_p0"@, bool_lists(c.river_tsumo[0])),
        ("river_tsumo_p1"@, bool_lists(c.river_tsumo[1])),
        ("river_tsumo_p2"@, bool_lists(c.river_tsumo[2])),
        ("river_tsumo_p3"@, bool_lists(c.river_tsumo[3])),
        ("melds_p0_json"@, str_data(c.melds_json[0])),
        ("melds_p1_json"@, str_data(c.melds_json[1])),
        ("melds_p2_json"@, str_data(c.melds_json[2])),
        ("melds_p3_json"@, str_data(c.melds_json[3])),
        ("scores"@, int_lists(c.scores)),
        ("riichi"@, bool_lists(c.riichi)),
        ("riichi_turn"@, int_lists(c.riichi_turn)),
        ("riichi_tile"@, int_lists(c.riichi_tile)),
        ("dora_indicators"@, int_lists(c.dora_indicators)),
        ("wall_remaining"@, ColumnData::I32(all_some(c.wall_remaining))),
        ("riichi_sticks"@, ColumnData::I32(all_some(c.riichi_sticks))),
        ("action_type"@, str_data(c.action_type)),
        ("drawn_tile"@, ColumnData::I32(all_some(c.drawn_tile))),
        ("called_tile"@, ColumnData::I32(all_some(c.called_tile))),
        ("discard_tile"@, ColumnData::I32(all_some(c.discard_tile))),
        ("is_tsumogiri"@, ColumnData::Bool(all_some(c.is_tsumogiri))),
        ("agari_han_ids"@, int_lists(c.agari_han_ids)),
        ("agari_han"@, ColumnData::I32(all_some(c.agari_han))),
        ("agari_fu"@, ColumnData::I32(all_some(c.agari_fu))),
        ("agari_points"@, ColumnData::I32(all_some(c.agari_points))),
        ("agari_from"@, ColumnData::I8(all_some(c.agari_from))),
        ("agari_ura_dora"@, int_lists(c.agari_ura_dora)),
        ("round_end_kind"@, ColumnData::I8(all_some(c.round_end_kind))),
        ("round_winner"@, ColumnData::I8(all_some(c.round_winner))),
        ("round_point_delta"@, int_lists(c.round_point_delta)),
        ("round_tenpai_count"@, ColumnData::I8(all_some(c.round_tenpai_count))),
    ]
}

proof fn lemma_table_lens(c: ColumnsView, n: int)
    requires
        shaped(c, n),
    ensures
        forall|i: int| 0 <= i < 44 ==> data_len(#[trigger] table_frame(c)[i].1) == n,
{
}

/// A number that tells the stored column names apart: the place of each
/// in the stored order, read off its length and a few of its characters.
pub open spec fn stored_index(s: Seq<char>) -> int {
    if s.len() == 7 {
        0
    } else if s.len() == 3 && s[0] == 's' {
        1
    } else if s.len() == 5 && s[0] == 'h' {
        2
    } else if s.len() == 3 && s[0] == 'o' {
        3
    } else if s.len() == 5 && s[0] == 't' {
        4
    } else if s.len() == 5 && s[0] == 'a' {
        5
    } else if s.len() == 14 && s[0] == 'h' && s[13] == '0' {
        6
    } else if s.len() == 14 && s[0] == 'h' && s[13] == '1' {
        7
    } else if s.len() == 14 && s[0] == 'h' && s[13] == '2' {
        8
    } else if s.len() == 14 && s[0] == 'h' && s[13] == '3' {
        9
    } else if s.len() == 8 && s[7] == '0' {
        10
    } else if s.len() == 8 && s[7] == '1' {
        11
    } else if s.len() == 8 && s[7] == '2' {
        12
    } else if s.len() == 8 && s[7] == '3' {
        13
    } else if s.len() == 14 && s[0] == 'r' && s[13] == '0' {
        14
    } else if s.len() == 14 && s[0] == 'r' && s[13] == '1' {
        15
    } else if s.len() == 14 && s[0] == 'r' && s[13] == '2' {
        16
    } else if s.len() == 14 && s[0] == 'r' && s[13] == '3' {
        17
    } else if s.len() == 13 && s[7] == '0' {
        18
    } else if s.len() == 13 && s[7] == '1' {
        19
    } else if s.len() == 13 && s[7] == '2' {
        20
    } else if s.len() == 13 && s[7] == '3' {
        21
    } else if s.len() == 6 && s[0] == 's' {
        22
    } else if s.len() == 6 && s[0] == 'r' {
        23
    } else if s.len() == 11 && s[8] == 'u' {
        24
    } else if s.len() == 11 && s[0] == 'r' && s[8] == 'i' {
        25
    } else if s.len() == 15 {
        26
    } else if s.len() == 14 && s[0] == 'w' {
        27
    } else if s.len() == 13 && s[0] == 'r' {
        28
    } else if s.len() == 11 && s[0] == 'a' {
        29
    } else if s.len() == 10 && s[0] == 'd' {
        30
    } else if s.len() == 11 && s[0] == 'c' {
        31
    } else if s.len() == 12 && s[0] == 'd' {
        32
    } else if s.len() == 12 && s[0] == 'i' {
        33
    } else if s.len() == 13 && s[0] == 'a' {
        34
    } else if s.len() == 9 {
        35
    } else if s.len() == 8 && s[0] == 'a' {
        36
    } else if s.len() == 12 && s[0] == 'a' {
        37
    } else if s.len() == 10 && s[0] == 'a' {
        38
    } else if s.len() == 14 && s[0] == 'a' {
        39
    } else if s.len() == 14 && s[1] == 'o' {
        40
    } else if s.len() == 12 && s[0] == 'r' {
        41
    } else if s.len() == 17 {
        42
    } else if s.len() == 18 {
        43
    } else {
        44
    }
}

#[verifier::rlimit(100)]
#[verifier::spinoff_prover]
proof fn lemma_table_names(c: ColumnsView)
    ensures
        table_frame(c).len() == 44,
        forall|i: int, k: int| 0 <= i < k < 44 ==> table_frame(c)[i].0 != table_frame(c)[k].0,
{
    reveal_strlit("game_id");
    reveal_strlit("seq");
    reveal_strlit("honba");
    reveal_strlit("oya");
    reveal_strlit("turns");
    reveal_strlit("actor");
    reveal_strlit("hand_before_p0");
    reveal_strlit("hand_before_p1");
    reveal_strlit("hand_before_p2");
    reveal_strlit("hand_before_p3");
    reveal_strlit("river_p0");
    reveal_strlit("river_p1");
    reveal_strlit("river_p2");
    reveal_strlit("river_p3");
    reveal_strlit("river_tsumo_p0");
    reveal_strlit("river_tsumo_p1");
    reveal_strlit("river_tsumo_p2");
    reveal_strlit("river_tsumo_p3");
    reveal_strlit("melds_p0_json");
    reveal_strlit("melds_p1_json");
    reveal_strlit("melds_p2_json");
    reveal_strlit("melds_p3_json");
    reveal_strlit("scores");
    reveal_strlit("riichi");
    reveal_strlit("riichi_turn");
    reveal_strlit("riichi_tile");
    reveal_strlit("dora_indicators");
    reveal_strlit("wall_remaining");
    reveal_strlit("riichi_sticks");
    reveal_strlit("action_type");
    reveal_strlit("drawn_tile");
    reveal_strlit("called_tile");
    reveal_strlit("discard_tile");
    reveal_strlit("is_tsumogiri");
    reveal_strlit("agari_han_ids");
    reveal_strlit("agari_han");
    reveal_strlit("agari_fu");
    reveal_strlit("agari_points");
    reveal_strlit("agari_from");
    reveal_strlit("agari_ura_dora");
    reveal_strlit("round_end_kind");
    reveal_strlit("round_winner");
    reveal_strlit("round_point_delta");
    reveal_strlit("round_tenpai_count");
    assert forall|i: int| 0 <= i < 44 implies stored_index(#[trigger] table_frame(c)[i].0) == i by {}
}

/// The 44-column snapshot table: the columns of [`snapshot_columns`] under
/// their stored names, in the stored order.
pub fn build_snapshot_df(snapshots: &Vec<Snapshot>) -> (r: Result<DataFrame, String>)
    ensures
        r matches Ok(df) && frame_columns(df) == table_frame(table_of(snap_views(snapshots@)))
            && frame_rows(df) == snapshots@.len(),
{
    let c = snapshot_columns(snapshots);
    let mut cols: Vec<Series> = Vec::new();
    cols.push(str_series("game_id", c.game_id.as_slice()));
    cols.push(i32_series("seq", c.seq.as_slice()));
    cols.push(i32_series("honba", c.honba.as_slice()));
    cols.push(i8_series("oya", c.oya.as_slice()));
    cols.push(i32_list_series("turns", &c.turns));
    cols.push(i8_series("actor", c.actor.as_slice()));
    cols.push(i32_list_series("hand_before_p0", &c.hand_before[0]));
    cols.push(i32_list_series("hand_before_p1", &c.hand_before[1]));
    cols.push(i32_list_series("hand_before_p2", &c.hand_before[2]));
    cols.push(i32_list_series("hand_before_p3", &c.hand_before[3]));
    cols.push(i32_list_series("river_p0", &c.river[0]));
    cols.push(i32_list_series("river_p1", &c.river[1]));
    cols.push(i32_list_series("river_p2", &c.river[2]));
    cols.push(i32_list_series("river_p3", &c.river[3]));
    cols.push(bool_list_series("river_tsumo_p0", &c.river_tsumo[0]));
    cols.push(bool_list_series("river_tsumo_p1", &c.river_tsumo[1]));
    cols.push(bool_list_series("river_tsumo_p2", &c.river_tsumo[2]));
    cols.push(bool_list_series("river_tsumo_p3", &c.river_tsumo[3]));
    cols.push(str_series("melds_p0_json", c.melds_json[0].as_slice()));
    cols.push(str_series("melds_p1_json", c.melds_json[1].as_slice()));
    cols.push(str_series("melds_p2_json", c.melds_json[2].as_slice()));
    cols.push(str_series("melds_p3_json", c.melds_json[3].as_slice()));
    cols.push(i32_list_series("scores", &c.scores));
    cols.push(bool_list_series("riichi", &c.riichi));
    cols.push(i32_list_series("riichi_turn", &c.riichi_turn));
    cols.push(i32_list_series("riichi_tile", &c.riichi_tile));
    cols.push(i32_list_series("dora_indicators", &c.dora_indicators));
    cols.push(i32_series("wall_remaining", c.wall_remaining.as_slice()));
    cols.push(i32_series("riichi_sticks", c.riichi_sticks.as_slice()));
    cols.push(str_series("action_type", c.action_type.as_slice()));
    cols.push(i32_series("drawn_tile", c.drawn_tile.as_slice()));
    cols.push(i32_series("called_tile", c.called_tile.as_slice()));
    cols.push(i32_series("discard_tile", c.discard_tile.as_slice()));
    cols.push(bool_series("is_tsumogiri", c.is_tsumogiri.as_slice()));
    cols.push(i32_list_series("agari_han_ids", &c.agari_han_ids));
    cols.push(i32_series("agari_han", c.agari_han.as_slice()));
    cols.push(i32_series("agari_fu", c.agari_fu.as_slice()));
    cols.push(i32_series("agari_points", c.agari_points.as_slice()));
    cols.push(i8_series("agari_from", c.agari_from.as_slice()));
    cols.push(i32_list_series("agari_ura_dora", &c.agari_ura_dora));
    cols.push(i8_series("round_end_kind", c.round_end_kind.as_slice()));
    cols.push(i8_series("round_winner", c.round_winner.as_slice()));
    cols.push(i32_list_series("round_point_delta", &c.round_point_delta));
    cols.push(i8_series("round_tenpai_count", c.round_tenpai_count.as_slice()));
    proof {
        let t = c@;
        let n = snapshots@.len() as int;
        assert(shaped(t, n));
        lemma_table_lens(t, n);
        lemma_table_names(t);
        let pairs = cols@.map_values(|x: Series| (series_name(x), series_data(x)));
        assert(pairs =~= table_frame(t));
        assert forall|i: int, k: int| 0 <= i < k < cols@.len()
            implies series_name(#[trigger] cols@[i]) != series_name(#[trigger] cols@[k]) by {
            assert(pairs[i].0 == table_frame(t)[i].0);
            assert(pairs[k].0 == table_frame(t)[k].0);
        }
        assert forall|i: int| 0 <= i < cols@.len()
            implies data_len(series_data(#[trigger] cols@[i])) == data_len(series_data(cols@[0])) by {
            assert(pairs[i].1 == table_frame(t)[i].1);
            assert(pairs[0].1 == table_frame(t)[0].1);
        }
    }
    match new_frame(cols) {
        Ok(df) => Ok(df),
        Err(e) => Err(error_text(&e)),
    }
}

/// What converting a log gives for the rows its events produce: the parse
/// error; `no snapshots produced from XML` for no rows; otherwise the
/// table of the rows, one frame row per snapshot.
pub open spec fn converted(run: Result<Seq<SnapView>, Seq<char>>, r: Result<DataFrame, String>) -> bool {
    match run {
        Err(m) => r matches Err(e) && e@ == m,
        Ok(rows) => if rows.len() == 0 {
            r matches Err(e) && e@ == "no snapshots produced from XML"@
        } else {
            r matches Ok(df) && frame_columns(df) == table_frame(table_of(rows)) && frame_rows(df) == rows.len()
        },
    }
}

/// The snapshot table of one mjlog XML text; an error when the log does
/// not parse or yields no snapshot.
pub fn convert_xml(xml: &str, game_id: &str) -> (r: Result<DataFrame, String>)
    ensures
        converted(run_items(init_view(game_id@), None, xml_items(xml@)), r),
{
    let snapshots = match parse_game_xml(xml, game_id) {
        Ok(s) => s,
        Err(e) => {
            return Err(e);
        },
    };
    if snapshots.len() == 0 {
        return Err("no snapshots produced from XML".to_string());
    }
    let r = build_snapshot_df(&snapshots);
    assert(snap_views(snapshots@).len() == snapshots@.len());
    r
}

// ── reading ───────────────────────────────────────────────────

/// The column `name` of `i32` values.
fn read_i32_col(df: &DataFrame, name: &str) -> (r: Result<Vec<i32>, String>)
    ensures
        match find_col(frame_columns(*df), name@) {
            Some(ColumnData::I32(_)) => r matches Ok(v) && i32_col_ok(v@, frame_columns(*df), name@),
            _ => r is Err,
        },
{
    match column_of(df, name) {
        Ok(c) => match i32_values(c) {
            Ok(v) => Ok(v),
            Err(e) => Err(error_text(&e)),
        },
        Err(e) => Err(error_text(&e)),
    }
}

/// The column `name` of `i8` values.
fn read_i8_col(df: &DataFrame, name: &str) -> (r: Result<Vec<i8>, String>)
    ensures
        match find_col(frame_columns(*df), name@) {
            Some(ColumnData::I8(_)) => r matches Ok(v) && i8_col_ok(v@, frame_columns(*df), name@),
            _ => r is Err,
        },
{
    match column_of(df, name) {
        Ok(c) => match i8_values(c) {
            Ok(v) => Ok(v),
            Err(e) => Err(error_text(&e)),
        },
        Err(e) => Err(error_text(&e)),
    }
}

/// The column `name` of flags.
fn read_bool_col(df: &DataFrame, name: &str) -> (r: Result<Vec<bool>, String>)
    ensures
        match find_col(frame_columns(*df), name@) {
            Some(ColumnData::Bool(_)) => r matches Ok(v) && bool_col_ok(v@, frame_columns(*df), name@),
            _ => r is Err,
        },
{
    match column_of(df, name) {
        Ok(c) => match bool_values(c) {
            Ok(v) => Ok(v),
            Err(e) => Err(error_text(&e)),
        },
        Err(e) => Err(error_text(&e)),
    }
}

/// The column `name` of strings, nulls read as empty strings.
fn read_str_col(df: &DataFrame, name: &str) -> (r: Result<Vec<String>, String>)
    ensures
        match find_col(frame_columns(*df), name@) {
            Some(ColumnData::Str(_)) => r matches Ok(v) && str_col_ok(strs(v@), frame_columns(*df), name@),
            _ => r is Err,
        },
{
    let c = match column_of(df, name) {
        Ok(c) => c,
        Err(e) => {
            return Err(error_text(&e));
        },
    };
    let vals = match str_values(c) {
        Ok(v) => v,
        Err(e) => {
            return Err(error_text(&e));
        },
    };
    let ghost d = match column_data(*c) {
        ColumnData::Str(d) => d,
        _ => Seq::empty(),
    };
    let mut out: Vec<String> = Vec::new();
    let mut i: usize = 0;
    while i < vals.len()
        invariant
            0 <= i <= vals.len(),
            out@.len() == i,
            forall|k: int| 0 <= k < i ==> #[trigger] out@[k]@ == (match vals@[k] {
                Some(t) => t@,
                None => Seq::<char>::empty(),
            }),
        decreases vals.len() - i,
    {
        match &vals[i] {
            Some(t) => out.push(t.clone()),
            None => out.push(String::new()),
        }
        i = i + 1;
    }
    proof {
        assert(strs(out@) =~= strs_or_empty(d));
    }
    Ok(out)
}

/// The list column `name` of `i32` lists; a null row, or a row of another
/// type, reads as an empty list.
fn read_i32_lists(df: &DataFrame, name: &str) -> (r: Result<Vec<Vec<i32>>, String>)
    ensures
        match find_col(frame_columns(*df), name@) {
            Some(ColumnData::List(_)) => r matches Ok(v) && int_lists_ok(ints(v@), frame_columns(*df), name@),
            _ => r is Err,
        },
{
    let c = match column_of(df, name) {
        Ok(c) => c,
        Err(e) => {
            return Err(error_text(&e));
        },
    };
    let rows = match list_rows(c) {
        Ok(v) => v,
        Err(e) => {
            return Err(error_text(&e));
        },
    };
    let ghost d = match column_data(*c) {
        ColumnData::List(d) => d,
        _ => Seq::empty(),
    };
    let mut out: Vec<Vec<i32>> = Vec::new();
    let mut i: usize = 0;
    while i < rows.len()
        invariant
            0 <= i <= rows.len(),
            rows@.len() == d.len(),
            forall|k: int| 0 <= k < d.len() ==> (#[trigger] d[k]) == (match rows@[k] {
                Some(t) => Some(series_data(t)),
                None => None::<ColumnData>,
            }),
            out@.len() == i,
            forall|k: int| 0 <= k < i ==> int_row(#[trigger] out@[k]@, d[k]),
        decreases rows.len() - i,
    {
        let vals = match &rows[i] {
            Some(t) => match series_i32_values(t) {
                Some(v) => v,
                None => Vec::new(),
            },
            None => Vec::new(),
        };
        assert(int_row(vals@, d[i as int]));
        out.push(vals);
        i = i + 1;
    }
    proof {
        let w = ints(out@);
        assert forall|k: int| 0 <= k < d.len() implies int_row(w[k], #[trigger] d[k]) by {
            assert(w[k] == out@[k]@);
        }
    }
    Ok(out)
}

/// The list column `name` of flag lists; a null row, or a row of another
/// type, reads as an empty list.
fn read_bool_lists(df: &DataFrame, name: &str) -> (r: Result<Vec<Vec<bool>>, String>)
    ensures
        match find_col(frame_columns(*df), name@) {
            Some(ColumnData::List(_)) => r matches Ok(v) && bool_lists_ok(bools(v@), frame_columns(*df), name@),
            _ => r is Err,
        },
{
    let c = match column_of(df, name) {
        Ok(c) => c,
        Err(e) => {
            return Err(error_text(&e));
        },
    };
    let rows = match list_rows(c) {
        Ok(v) => v,
        Err(e) => {
            return Err(error_text(&e));
        },
    };
    let ghost d = match column_data(*c) {
        ColumnData::List(d) => d,
        _ => Seq::empty(),
    };
    let mut out: Vec<Vec<bool>> = Vec::new();
    let mut i: usize = 0;
    while i < rows.len()
        invariant
            0 <= i <= rows.len(),
            rows@.len() == d.len(),
            forall|k: int| 0 <= k < d.len() ==> (#[trigger] d[k]) == (match rows@[k] {
                Some(t) => Some(series_data(t)),
                None => None::<ColumnData>,
            }),
            out@.len() == i,
            forall|k: int| 0 <= k < i ==> bool_row(#[trigger] out@[k]@, d[k]),
        decreases rows.len() - i,
    {
        let vals = match &rows[i] {
            Some(t) => match series_bool_values(t) {
                Some(v) => v,
                None => Vec::new(),
            },
            None => Vec::new(),
        };
        assert(bool_row(vals@, d[i as int]));
        out.push(vals);
        i = i + 1;
    }
    proof {
        let w = bools(out@);
        assert forall|k: int| 0 <= k < d.len() implies bool_row(w[k], #[trigger] d[k]) by {
            assert(w[k] == out@[k]@);
        }
    }
    Ok(out)
}

/// The frame holds every stored column with its stored type.
pub open spec fn frame_typed(cols: Seq<(Seq<char>, ColumnData)>) -> bool {
    &&& find_col(cols, "game_id"@) matches Some(ColumnData::Str(_))
    &&& find_col(cols, "seq"@) matches Some(ColumnData::I32(_))
    &&& find_col(cols, "honba"@) matches Some(ColumnData::I32(_))
    &&& find_col(cols, "oya"@) matches Some(ColumnData::I8(_))
    &&& find_col(cols, "turns"@) matches Some(ColumnData::List(_))
    &&& find_col(cols, "actor"@) matches Some(ColumnData::I8(_))
    &&& find_col(cols, "hand_before_p0"@) matches Some(ColumnData::List(_))
    &&& find_col(cols, "hand_before_p1"@) matches Some(ColumnData::List(_))
    &&& find_col(cols, "hand_before_p2"@) matches Some(ColumnData::List(_))
    &&& find_col(cols, "hand_before_p3"@) matches Some(ColumnData::List(_))
    &&& find_col(cols, "river_p0"@) matches Some(ColumnData::List(_))
    &&& find_col(cols, "river_p1"@) matches Some(ColumnData::List(_))
    &&& find_col(cols, "river_p2"@) matches Some(ColumnData::List(_))
    &&& find_col(cols, "river_p3"@) matches Some(ColumnData::List(_))
    &&& find_col(cols, "river_tsumo_p0"@) matches Some(ColumnData::List(_))
    &&& find_col(cols, "river_tsumo_p1"@) matches Some(ColumnData::List(_))
    &&& find_col(cols, "river_tsumo_p2"@) matches Some(ColumnData::List(_))
    &&& find_col(cols, "river_tsumo_p3"@) matches Some(ColumnData::List(_))
    &&& find_col(cols, "melds_p0_json"@) matches Some(ColumnData::Str(_))
    &&& find_col(cols, "melds_p1_json"@) matches Some(ColumnData::Str(_))
    &&& find_col(cols, "melds_p2_json"@) matches Some(ColumnData::Str(_))
    &&& find_col(cols, "melds_p3_json"@) matches Some(ColumnData::Str(_))
    &&& find_col(cols, "scores"@) matches Some(ColumnData::List(_))
    &&& find_col(cols, "riichi"@) matches Some(ColumnData::List(_))
    &&& find_col(cols, "riichi_turn"@) matches Some(ColumnData::List(_))
    &&& find_col(cols, "riichi_tile"@) matches Some(ColumnData::List(_))
    &&& find_col(cols, "dora_indicators"@) matches Some(ColumnData::List(_))
    &&& find_col(cols, "wall_remaining"@) matches Some(ColumnData::I32(_))
    &&& find_col(cols, "riichi_sticks"@) matches Some(ColumnData::I32(_))
    &&& find_col(cols, "action_type"@) matches Some(ColumnData::Str(_))
    &&& find_col(cols, "drawn_tile"@) matches Some(ColumnData::I32(_))
    &&& find_col(cols, "called_tile"@) matches Some(ColumnData::I32(_))
    &&& find_col(cols, "discard_tile"@) matches Some(ColumnData::I32(_))
    &&& find_col(cols, "is_tsumogiri"@) matches Some(ColumnData::Bool(_))
    &&& find_col(cols, "agari_han_ids"@) matches Some(ColumnData::List(_))
    &&& find_col(cols, "agari_han"@) matches Some(ColumnData::I32(_))
    &&& find_col(cols, "agari_fu"@) matches Some(ColumnData::I32(_))
    &&& find_col(cols, "agari_points"@) matches Some(ColumnData::I32(_))
    &&& find_col(cols, "agari_from"@) matches Some(ColumnData::I8(_))
    &&& find_col(cols, "agari_ura_dora"@) matches Some(ColumnData::List(_))
    &&& find_col(cols, "round_end_kind"@) matches Some(ColumnData::I8(_))
    &&& find_col(cols, "round_winner"@) matches Some(ColumnData::I8(_))
    &&& find_col(cols, "round_point_delta"@) matches Some(ColumnData::List(_))
    &&& find_col(cols, "round_tenpai_count"@) matches Some(ColumnData::I8(_))
}

/// The columns `c` are the stored columns of the frame as read: values
/// where the frame has no null, empty strings and lists for null rows and
/// for list rows of another type.
pub open spec fn frame_agrees(c: ColumnsView, cols: Seq<(Seq<char>, ColumnData)>) -> bool {
    &&& c.hand_before.len() == 4
    &&& c.river.len() == 4
    &&& c.river_tsumo.len() == 4
    &&& c.melds_json.len() == 4
    &&& str_col_ok(c.game_id, cols, "game_id"@)
    &&& i32_col_ok(c.seq, cols, "seq"@)
    &&& i32_col_ok(c.honba, cols, "honba"@)
    &&& i8_col_ok(c.oya, cols, "oya"@)
    &&& int_lists_ok(c.turns, cols, "turns"@)
    &&& i8_col_ok(c.actor, cols, "actor"@)
    &&& int_lists_ok(c.hand_before[0], cols, "hand_before_p0"@)
    &&& int_lists_ok(c.hand_before[1], cols, "hand_before_p1"@)
    &&& int_lists_ok(c.hand_before[2], cols, "hand_before_p2"@)
    &&& int_lists_ok(c.hand_before[3], cols, "hand_before_p3"@)
    &&& int_lists_ok(c.river[0], cols, "river_p0"@)
    &&& int_lists_ok(c.river[1], cols, "river_p1"@)
    &&& int_lists_ok(c.river[2], cols, "river_p2"@)
    &&& int_lists_ok(c.river[3], cols, "river_p3"@)
    &&& bool_lists_ok(c.river_tsumo[0], cols, "river_tsumo_p0"@)
    &&& bool_lists_ok(c.river_tsumo[1], cols, "river_tsumo_p1"@)
    &&& bool_lists_ok(c.river_tsumo[2], cols, "river_tsumo_p2"@)
    &&& bool_lists_ok(c.river_tsumo[3], cols, "river_tsumo_p3"@)
    &&& str_col_ok(c.melds_json[0], cols, "melds_p0_json"@)
    &&& str_col_ok(c.melds_json[1], cols, "melds_p1_json"@)
    &&& str_col_ok(c.melds_json[2], cols, "melds_p2_json"@)
    &&& str_col_ok(c.melds_json[3], cols, "melds_p3_json"@)
    &&& int_lists_ok(c.scores, cols, "scores"@)
    &&& bool_lists_ok(c.riichi, cols, "riichi"@)
    &&& int_lists_ok(c.riichi_turn, cols, "riichi_turn"@)
    &&& int_lists_ok(c.riichi_tile, cols, "riichi_tile"@)
    &&& int_lists_ok(c.dora_indicators, cols, "dora_indicators"@)
    &&& i32_col_ok(c.wall_remaining, cols, "wall_remaining"@)
    &&& i32_col_ok(c.riichi_sticks, cols, "riichi_sticks"@)
    &&& str_col_ok(c.action_type, cols, "action_type"@)
    &&& i32_col_ok(c.drawn_tile, cols, "drawn_tile"@)
    &&& i32_col_ok(c.called_tile, cols, "called_tile"@)
    &&& i32_col_ok(c.discard_tile, cols, "discard_tile"@)
    &&& bool_col_ok(c.is_tsumogiri, cols, "is_tsumogiri"@)
    &&& int_lists_ok(c.agari_han_ids, cols, "agari_han_ids"@)
    &&& i32_col_ok(c.agari_han, cols, "agari_han"@)
    &&& i32_col_ok(c.agari_fu, cols, "agari_fu"@)
    &&& i32_col_ok(c.agari_points, cols, "agari_points"@)
    &&& i8_col_ok(c.agari_from, cols, "agari_from"@)
    &&& int_lists_ok(c.agari_ura_dora, cols, "agari_ura_dora"@)
    &&& i8_col_ok(c.round_end_kind, cols, "round_end_kind"@)
    &&& i8_col_ok(c.round_winner, cols, "round_winner"@)
    &&& int_lists_ok(c.round_point_delta, cols, "round_point_delta"@)
    &&& i8_col_ok(c.round_tenpai_count, cols, "round_tenpai_count"@)
}

/// The stored name of the meld list column of a seat.
pub open spec fn meld_col_name(p: int) -> Seq<char> {
    if p == 0 {
        "melds_p0_json"@
    } else if p == 1 {
        "melds_p1_json"@
    } else if p == 2 {
        "melds_p2_json"@
    } else {
        "melds_p3_json"@
    }
}

/// The meld lists of a seat as the frame holds them.
pub open spec fn frame_melds(cols: Seq<(Seq<char>, ColumnData)>, p: int) -> Seq<Seq<char>> {
    match find_col(cols, meld_col_name(p)) {
        Some(ColumnData::Str(d)) => strs_or_empty(d),
        _ => Seq::empty(),
    }
}

/// Every meld list of the first `n` rows of the frame can be read.
pub open spec fn frame_melds_ok(cols: Seq<(Seq<char>, ColumnData)>, n: int) -> bool {
    forall|p: int, j: int| 0 <= p < 4 && 0 <= j < n ==> json_readable(#[trigger] frame_melds(cols, p)[j])
}

/// The frame has a column named `name`.
pub open spec fn has_col(cols: Seq<(Seq<char>, ColumnData)>, name: Seq<char>) -> bool {
    exists|i: int| 0 <= i < cols.len() && (#[trigger] cols[i]).0 == name
}

/// The message for a missing column of the frame.
pub open spec fn missing_text(name: Seq<char>, cols: Seq<(Seq<char>, ColumnData)>) -> Seq<char> {
    "Column '"@ + name + "' not found. Available: "@ + debug_strings(col_names(cols))
}

/// The names of the columns, in order.
pub open spec fn col_names(cols: Seq<(Seq<char>, ColumnData)>) -> Seq<Seq<char>> {
    cols.map_values(|c: (Seq<char>, ColumnData)| c.0)
}

proof fn lemma_find_len(cols: Seq<(Seq<char>, ColumnData)>, n: nat, name: Seq<char>)
    requires
        forall|i: int| 0 <= i < cols.len() ==> data_len(#[trigger] cols[i].1) == n,
    ensures
        find_col(cols, name) matches Some(d) ==> data_len(d) == n,
    decreases cols.len(),
{
    if cols.len() > 0 && cols[0].0 != name {
        let rest = cols.drop_first();
        assert forall|i: int| 0 <= i < rest.len() implies data_len(#[trigger] rest[i].1) == n by {
            assert(rest[i] == cols[i + 1]);
        }
        lemma_find_len(rest, n, name);
    }
}

proof fn lemma_find_col(cols: Seq<(Seq<char>, ColumnData)>, name: Seq<char>)
    ensures
        find_col(cols, name) is Some <==> has_col(cols, name),
        find_col(cols, name) matches Some(d) ==> exists|i: int| 0 <= i < cols.len() && #[trigger] cols[i] == (name, d),
    decreases cols.len(),
{
    if cols.len() > 0 {
        let rest = cols.drop_first();
        lemma_find_col(rest, name);
        if cols[0].0 != name {
            if has_col(cols, name) {
                let i = choose|i: int| 0 <= i < cols.len() && (#[trigger] cols[i]).0 == name;
                assert(rest[i - 1] == cols[i]);
            }
            if has_col(rest, name) {
                let i = choose|i: int| 0 <= i < rest.len() && (#[trigger] rest[i]).0 == name;
                assert(cols[i + 1] == rest[i]);
            }
            match find_col(rest, name) {
                Some(d) => {
                    let i = choose|i: int| 0 <= i < rest.len() && #[trigger] rest[i] == (name, d);
                    assert(cols[i + 1] == rest[i]);
                },
                None => {},
            }
        } else {
            assert(cols[0] == (name, cols[0].1));
        }
    }
}

/// Whether `names` holds the literal.
fn has_name(names: &Vec<String>, lit: &str) -> (r: bool)
    ensures
        r == exists|i: int| 0 <= i < names@.len() && names@[i]@ == lit@,
{
    let mut i: usize = 0;
    while i < names.len()
        invariant
            0 <= i <= names.len(),
            forall|k: int| 0 <= k < i ==> names@[k]@ != lit@,
        decreases names.len() - i,
    {
        if crate::text::eq_lit(&names[i], lit) {
            return true;
        }
        i = i + 1;
    }
    false
}

/// The message for a missing column: `Column '<name>' not found.
/// Available: <names>`.
fn missing_column(name: &str, names: &Vec<String>) -> (r: String)
    ensures
        r@ == "Column '"@ + name@ + "' not found. Available: "@ + debug_strings(strs(names@)),
{
    let mut v = chars_of("Column '");
    append_chars(&mut v, &chars_of(name));
    append_chars(&mut v, &chars_of("' not found. Available: "));
    let d = debug_names(names);
    append_chars(&mut v, &chars_of(d.as_str()));
    string_of(&v)
}

/// The snapshots stored in a table: an error when it has no row, lacks one
/// of `seq`, `actor`, `action_type`, holds a stored column missing or of
/// another type, or a meld list that cannot be read; otherwise one
/// snapshot per row, decoded by [`row_of`] from the columns as read.
/// The text of the error for a stored column missing or of another type is
/// Polars' own message for it, of which nothing is stated (see `error_text`).
pub fn snapshots_from_frame(df: &DataFrame) -> (r: Result<Vec<Snapshot>, String>)
    ensures
        frame_rows(*df) == 0 ==> (r matches Err(m) && m@ == "File has 0 rows."@),
        frame_rows(*df) > 0 && !has_col(frame_columns(*df), "seq"@)
            ==> (r matches Err(m) && m@ == missing_text("seq"@, frame_columns(*df))),
        frame_rows(*df) > 0 && has_col(frame_columns(*df), "seq"@) && !has_col(frame_columns(*df), "actor"@)
            ==> (r matches Err(m) && m@ == missing_text("actor"@, frame_columns(*df))),
        frame_rows(*df) > 0 && has_col(frame_columns(*df), "seq"@) && has_col(frame_columns(*df), "actor"@)
            && !has_col(frame_columns(*df), "action_type"@)
            ==> (r matches Err(m) && m@ == missing_text("action_type"@, frame_columns(*df))),
        frame_rows(*df) > 0 && !frame_typed(frame_columns(*df)) ==> r is Err,
        frame_rows(*df) > 0 && frame_typed(frame_columns(*df)) && !frame_melds_ok(frame_columns(*df), frame_rows(*df) as int)
            ==> (r matches Err(m) && m@ == "unreadable meld list"@),
        frame_rows(*df) > 0 && frame_typed(frame_columns(*df)) && frame_melds_ok(frame_columns(*df), frame_rows(*df) as int)
            ==> (r matches Ok(rows) && rows@.len() == frame_rows(*df) && exists|c: ColumnsView|
                #[trigger] frame_agrees(c, frame_columns(*df)) && snap_views(rows@) == Seq::new(rows@.len(), |j: int| row_of(c, j))),
{
    let ghost cols = frame_columns(*df);
    let len = frame_height(df);
    if len == 0 {
        return Err("File has 0 rows.".to_string());
    }
    let names = column_names(df);
    proof {
        assert(strs(names@).len() == cols.len());
        assert forall|i: int| 0 <= i < names@.len() implies (#[trigger] names@[i])@ == cols[i].0 by {
            assert(strs(names@)[i] == names@[i]@);
            assert(col_names(cols)[i] == cols[i].0);
        }
        lemma_find_col(cols, "seq"@);
        lemma_find_col(cols, "actor"@);
        lemma_find_col(cols, "action_type"@);
        if has_col(cols, "seq"@) {
            let i = choose|i: int| 0 <= i < cols.len() && (#[trigger] cols[i]).0 == "seq"@;
            assert(names@[i]@ == cols[i].0);
        }
        if has_col(cols, "actor"@) {
            let i = choose|i: int| 0 <= i < cols.len() && (#[trigger] cols[i]).0 == "actor"@;
            assert(names@[i]@ == cols[i].0);
        }
        if has_col(cols, "action_type"@) {
            let i = choose|i: int| 0 <= i < cols.len() && (#[trigger] cols[i]).0 == "action_type"@;
            assert(names@[i]@ == cols[i].0);
        }
    }
    if !has_name(&names, "seq") {
        return Err(missing_column("seq", &names));
    }
    if !has_name(&names, "actor") {
        return Err(missing_column("actor", &names));
    }
    if !has_name(&names, "action_type") {
        return Err(missing_column("action_type", &names));
    }
    let game_id = read_str_col(df, "game_id")?;
    let seq = read_i32_col(df, "seq")?;
    let honba = read_i32_col(df, "honba")?;
    let oya = read_i8_col(df, "oya")?;
    let actor = read_i8_col(df, "actor")?;
    let action_type = read_str_col(df, "action_type")?;
    let drawn_tile = read_i32_col(df, "drawn_tile")?;
    let called_tile = read_i32_col(df, "called_tile")?;
    let discard_tile = read_i32_col(df, "discard_tile")?;
    let is_tsumogiri = read_bool_col(df, "is_tsumogiri")?;
    let wall_remaining = read_i32_col(df, "wall_remaining")?;
    let riichi_sticks = read_i32_col(df, "riichi_sticks")?;
    let agari_han = read_i32_col(df, "agari_han")?;
    let agari_fu = read_i32_col(df, "agari_fu")?;
    let agari_points = read_i32_col(df, "agari_points")?;
    let agari_from = read_i8_col(df, "agari_from")?;
    let agari_ura_dora = read_i32_lists(df, "agari_ura_dora")?;
    let turns = read_i32_lists(df, "turns")?;
    let scores = read_i32_lists(df, "scores")?;
    let riichi_turn = read_i32_lists(df, "riichi_turn")?;
    let riichi_tile = read_i32_lists(df, "riichi_tile")?;
    let riichi = read_bool_lists(df, "riichi")?;
    let round_end_kind = read_i8_col(df, "round_end_kind")?;
    let round_winner = read_i8_col(df, "round_winner")?;
    let round_point_delta = read_i32_lists(df, "round_point_delta")?;
    let round_tenpai_count = read_i8_col(df, "round_tenpai_count")?;
    let hb0 = read_i32_lists(df, "hand_before_p0")?;
    let hb1 = read_i32_lists(df, "hand_before_p1")?;
    let hb2 = read_i32_lists(df, "hand_before_p2")?;
    let hb3 = read_i32_lists(df, "hand_before_p3")?;
    let rv0 = read_i32_lists(df, "river_p0")?;
    let rv1 = read_i32_lists(df, "river_p1")?;
    let rv2 = read_i32_lists(df, "river_p2")?;
    let rv3 = read_i32_lists(df, "river_p3")?;
    let rt0 = read_bool_lists(df, "river_tsumo_p0")?;
    let rt1 = read_bool_lists(df, "river_tsumo_p1")?;
    let rt2 = read_bool_lists(df, "river_tsumo_p2")?;
    let rt3 = read_bool_lists(df, "river_tsumo_p3")?;
    let dora_indicators = read_i32_lists(df, "dora_indicators")?;
    let agari_han_ids = read_i32_lists(df, "agari_han_ids")?;
    let md0 = read_str_col(df, "melds_p0_json")?;
    let md1 = read_str_col(df, "melds_p1_json")?;
    let md2 = read_str_col(df, "melds_p2_json")?;
    let md3 = read_str_col(df, "melds_p3_json")?;
    let c = SnapshotColumns {
        game_id,
        seq,
        honba,
        oya,
        turns,
        actor,
        hand_before: [hb0, hb1, hb2, hb3],
        river: [rv0, rv1, rv2, rv3],
        river_tsumo: [rt0, rt1, rt2, rt3],
        melds_json: [md0, md1, md2, md3],
        scores,
        riichi,
        riichi_turn,
        riichi_tile,
        dora_indicators,
        wall_remaining,
        riichi_sticks,
        action_type,
        drawn_tile,
        called_tile,
        discard_tile,
        is_tsumogiri,
        agari_han_ids,
        agari_han,
        agari_fu,
        agari_points,
        agari_from,
        agari_ura_dora,
        round_end_kind,
        round_winner,
        round_point_delta,
        round_tenpai_count,
    };
    proof {
        assert(frame_typed(cols));
        assert(frame_agrees(c@, cols));
        lemma_frame_shaped(c@, cols, len as nat);
        assert forall|p: int, j: int| 0 <= p < 4 && 0 <= j < len implies
            #[trigger] c@.melds_json[p][j] == frame_melds(cols, p)[j] by {
            assert(c@.melds_json[p] == frame_melds(cols, p));
        }
        assert(melds_readable(c@, len as int) == frame_melds_ok(cols, len as int));
    }
    if !columns_shaped(&c) {
        return Err("columns of different lengths".to_string());
    }
    let r = rows_from_columns(&c);
    proof {
        if let Ok(rows) = &r {
            assert(snap_views(rows@).len() == rows@.len());
            assert(rows@.len() == len);
        }
    }
    r
}

/// Columns read from a frame of `n` rows have `n` entries each.
proof fn lemma_frame_shaped(c: ColumnsView, cols: Seq<(Seq<char>, ColumnData)>, n: nat)
    requires
        frame_agrees(c, cols),
        forall|i: int| 0 <= i < cols.len() ==> data_len(#[trigger] cols[i].1) == n,
    ensures
        shaped(c, n as int),
{
    lemma_find_len(cols, n, "game_id"@);
    lemma_find_len(cols, n, "seq"@);
    lemma_find_len(cols, n, "honba"@);
    lemma_find_len(cols, n, "oya"@);
    lemma_find_len(cols, n, "turns"@);
    lemma_find_len(cols, n, "actor"@);
    lemma_find_len(cols, n, "hand_before_p0"@);
    lemma_find_len(cols, n, "hand_before_p1"@);
    lemma_find_len(cols, n, "hand_before_p2"@);
    lemma_find_len(cols, n, "hand_before_p3"@);
    lemma_find_len(cols, n, "river_p0"@);
    lemma_find_len(cols, n, "river_p1"@);
    lemma_find_len(cols, n, "river_p2"@);
    lemma_find_len(cols, n, "river_p3"@);
    lemma_find_len(cols, n, "river_tsumo_p0"@);
    lemma_find_len(cols, n, "river_tsumo_p1"@);
    lemma_find_len(cols, n, "river_tsumo_p2"@);
    lemma_find_len(cols, n, "river_tsumo_p3"@);
    lemma_find_len(cols, n, "melds_p0_json"@);
    lemma_find_len(cols, n, "melds_p1_json"@);
    lemma_find_len(cols, n, "melds_p2_json"@);
    lemma_find_len(cols, n, "melds_p3_json"@);
    lemma_find_len(cols, n, "scores"@);
    lemma_find_len(cols, n, "riichi"@);
    lemma_find_len(cols, n, "riichi_turn"@);
    lemma_find_len(cols, n, "riichi_tile"@);
    lemma_find_len(cols, n, "dora_indicators"@);
    lemma_find_len(cols, n, "wall_remaining"@);
    lemma_find_len(cols, n, "riichi_sticks"@);
    lemma_find_len(cols, n, "action_type"@);
    lemma_find_len(cols, n, "drawn_tile"@);
    lemma_find_len(cols, n, "called_tile"@);
    lemma_find_len(cols, n, "discard_tile"@);
    lemma_find_len(cols, n, "is_tsumogiri"@);
    lemma_find_len(cols, n, "agari_han_ids"@);
    lemma_find_len(cols, n, "agari_han"@);
    lemma_find_len(cols, n, "agari_fu"@);
    lemma_find_len(cols, n, "agari_points"@);
    lemma_find_len(cols, n, "agari_from"@);
    lemma_find_len(cols, n, "agari_ura_dora"@);
    lemma_find_len(cols, n, "round_end_kind"@);
    lemma_find_len(cols, n, "round_winner"@);
    lemma_find_len(cols, n, "round_point_delta"@);
    lemma_find_len(cols, n, "round_tenpai_count"@);
}

/// Whether every column has as many rows as `seq`.
fn columns_shaped(c: &SnapshotColumns) -> (r: bool)
    ensures
        r == shaped(c@, c.seq.len() as int),
{
    let n = c.seq.len();
    c.game_id.len() == n && c.honba.len() == n && c.oya.len() == n && c.turns.len() == n
        && c.actor.len() == n && c.hand_before[0].len() == n && c.hand_before[1].len() == n
        && c.hand_before[2].len() == n && c.hand_before[3].len() == n && c.river[0].len() == n
        && c.river[1].len() == n && c.river[2].len() == n && c.river[3].len() == n
        && c.river_tsumo[0].len() == n && c.river_tsumo[1].len() == n && c.river_tsumo[2].len() == n
        && c.river_tsumo[3].len() == n && c.melds_json[0].len() == n && c.melds_json[1].len() == n
        && c.melds_json[2].len() == n && c.melds_json[3].len() == n && c.scores.len() == n
        && c.riichi.len() == n && c.riichi_turn.len() == n && c.riichi_tile.len() == n
        && c.dora_indicators.len() == n && c.wall_remaining.len() == n && c.riichi_sticks.len() == n
        && c.action_type.len() == n && c.drawn_tile.len() == n && c.called_tile.len() == n
        && c.discard_tile.len() == n && c.is_tsumogiri.len() == n && c.agari_han_ids.len() == n
        && c.agari_han.len() == n && c.agari_fu.len() == n && c.agari_points.len() == n
        && c.agari_from.len() == n && c.agari_ura_dora.len() == n && c.round_end_kind.len() == n
        && c.round_winner.len() == n && c.round_point_delta.len() == n && c.round_tenpai_count.len() == n
}

proof fn lemma_find_distinct(cols: Seq<(Seq<char>, ColumnData)>, i: int)
    requires
        0 <= i < cols.len(),
        forall|a: int, b: int| 0 <= a < b < cols.len() ==> cols[a].0 != cols[b].0,
    ensures
        find_col(cols, cols[i].0) == Some(cols[i].1),
    decreases i,
{
    if i > 0 {
        let rest = cols.drop_first();
        assert forall|a: int, b: int| 0 <= a < b < rest.len() implies rest[a].0 != rest[b].0 by {
            assert(rest[a] == cols[a + 1] && rest[b] == cols[b + 1]);
        }
        lemma_find_distinct(rest, i - 1);
        assert(rest[i - 1] == cols[i]);
        assert(cols[0].0 != cols[i].0);
    }
}

proof fn lemma_agree_back<T>(v: Seq<T>, x: Seq<T>)
    requires
        agree(v, all_some(x)),
    ensures
        v == x,
{
    assert forall|i: int| 0 <= i < x.len() implies v[i] == x[i] by {
        assert(all_some(x)[i] == Some(x[i]));
    }
    assert(v =~= x);
}

proof fn lemma_strs_back(x: Seq<Seq<char>>)
    ensures
        strs_or_empty(all_some(x)) == x,
{
    assert(strs_or_empty(all_some(x)) =~= x);
}

proof fn lemma_int_lists_back(v: Seq<Seq<i32>>, x: Seq<Seq<i32>>)
    requires
        x.len() > 0,
        int_lists(x) matches ColumnData::List(d) && v.len() == d.len()
            && forall|i: int| 0 <= i < d.len() ==> int_row(v[i], #[trigger] d[i]),
    ensures
        v == x,
{
    let d = x.map_values(|r: Seq<i32>| Some(ColumnData::I32(all_some(r))));
    assert forall|i: int| 0 <= i < x.len() implies v[i] == x[i] by {
        assert(d[i] == Some(ColumnData::I32(all_some(x[i]))));
        assert(int_row(v[i], d[i]));
        lemma_agree_back(v[i], x[i]);
    }
    assert(v =~= x);
}

proof fn lemma_bool_lists_back(v: Seq<Seq<bool>>, x: Seq<Seq<bool>>)
    requires
        x.len() > 0,
        bool_lists(x) matches ColumnData::List(d) && v.len() == d.len()
            && forall|i: int| 0 <= i < d.len() ==> bool_row(v[i], #[trigger] d[i]),
    ensures
        v == x,
{
    let d = x.map_values(|r: Seq<bool>| Some(ColumnData::Bool(all_some(r))));
    assert forall|i: int| 0 <= i < x.len() implies v[i] == x[i] by {
        assert(d[i] == Some(ColumnData::Bool(all_some(x[i]))));
        assert(bool_row(v[i], d[i]));
        lemma_agree_back(v[i], x[i]);
    }
    assert(v =~= x);
}

/// Columns that agree with a written table are that table.
#[verifier::rlimit(100)]
#[verifier::spinoff_prover]
proof fn lemma_agrees_table(t: ColumnsView, c: ColumnsView, n: int)
    requires
        n > 0,
        shaped(t, n),
        frame_agrees(c, table_frame(t)),
    ensures
        c == t,
{
    let tf = table_frame(t);
    lemma_table_names(t);
    lemma_find_distinct(tf, 0);
    lemma_strs_back(t.game_id);
    lemma_find_distinct(tf, 1);
    lemma_agree_back(c.seq, t.seq);
    lemma_find_distinct(tf, 2);
    lemma_agree_back(c.honba, t.honba);
    lemma_find_distinct(tf, 3);
    lemma_agree_back(c.oya, t.oya);
    lemma_find_distinct(tf, 4);
    lemma_int_lists_back(c.turns, t.turns);
    lemma_find_distinct(tf, 5);
    lemma_agree_back(c.actor, t.actor);
    lemma_find_distinct(tf, 6);
    lemma_int_lists_back(c.hand_before[0], t.hand_before[0]);
    lemma_find_distinct(tf, 7);
    lemma_int_lists_back(c.hand_before[1], t.hand_before[1]);
    lemma_find_distinct(tf, 8);
    lemma_int_lists_back(c.hand_before[2], t.hand_before[2]);
    lemma_find_distinct(tf, 9);
    lemma_int_lists_back(c.hand_before[3], t.hand_before[3]);
    lemma_find_distinct(tf, 10);
    lemma_int_lists_back(c.river[0], t.river[0]);
    lemma_find_distinct(tf, 11);
    lemma_int_lists_back(c.river[1], t.river[1]);
    lemma_find_distinct(tf, 12);
    lemma_int_lists_back(c.river[2], t.river[2]);
    lemma_find_distinct(tf, 13);
    lemma_int_lists_back(c.river[3], t.river[3]);
    lemma_find_distinct(tf, 14);
    lemma_bool_lists_back(c.river_tsumo[0], t.river_tsumo[0]);
    lemma_find_distinct(tf, 15);
    lemma_bool_lists_back(c.river_tsumo[1], t.river_tsumo[1]);
    lemma_find_distinct(tf, 16);
    lemma_bool_lists_back(c.river_tsumo[2], t.river_tsumo[2]);
    lemma_find_distinct(tf, 17);
    lemma_bool_lists_back(c.river_tsumo[3], t.river_tsumo[3]);
    lemma_find_distinct(tf, 18);
    lemma_strs_back(t.melds_json[0]);
    lemma_find_distinct(tf, 19);
    lemma_strs_back(t.melds_json[1]);
    lemma_find_distinct(tf, 20);
    lemma_strs_back(t.melds_json[2]);
    lemma_find_distinct(tf, 21);
    lemma_strs_back(t.melds_json[3]);
    lemma_find_distinct(tf, 22);
    lemma_int_lists_back(c.scores, t.scores);
    lemma_find_distinct(tf, 23);
    lemma_bool_lists_back(c.riichi, t.riichi);
    lemma_find_distinct(tf, 24);
    lemma_int_lists_back(c.riichi_turn, t.riichi_turn);
    lemma_find_distinct(tf, 25);
    lemma_int_lists_back(c.riichi_tile, t.riichi_tile);
    lemma_find_distinct(tf, 26);
    lemma_int_lists_back(c.dora_indicators, t.dora_indicators);
    lemma_find_distinct(tf, 27);
    lemma_agree_back(c.wall_remaining, t.wall_remaining);
    lemma_find_distinct(tf, 28);
    lemma_agree_back(c.riichi_sticks, t.riichi_sticks);
    lemma_find_distinct(tf, 29);
    lemma_strs_back(t.action_type);
    lemma_find_distinct(tf, 30);
    lemma_agree_back(c.drawn_tile, t.drawn_tile);
    lemma_find_distinct(tf, 31);
    lemma_agree_back(c.called_tile, t.called_tile);
    lemma_find_distinct(tf, 32);
    lemma_agree_back(c.discard_tile, t.discard_tile);
    lemma_find_distinct(tf, 33);
    lemma_agree_back(c.is_tsumogiri, t.is_tsumogiri);
    lemma_find_distinct(tf, 34);
    lemma_int_lists_back(c.agari_han_ids, t.agari_han_ids);
    lemma_find_distinct(tf, 35);
    lemma_agree_back(c.agari_han, t.agari_han);
    lemma_find_distinct(tf, 36);
    lemma_agree_back(c.agari_fu, t.agari_fu);
    lemma_find_distinct(tf, 37);
    lemma_agree_back(c.agari_points, t.agari_points);
    lemma_find_distinct(tf, 38);
    lemma_agree_back(c.agari_from, t.agari_from);
    lemma_find_distinct(tf, 39);
    lemma_int_lists_back(c.agari_ura_dora, t.agari_ura_dora);
    lemma_find_distinct(tf, 40);
    lemma_agree_back(c.round_end_kind, t.round_end_kind);
    lemma_find_distinct(tf, 41);
    lemma_agree_back(c.round_winner, t.round_winner);
    lemma_find_distinct(tf, 42);
    lemma_int_lists_back(c.round_point_delta, t.round_point_delta);
    lemma_find_distinct(tf, 43);
    lemma_agree_back(c.round_tenpai_count, t.round_tenpai_count);
    assert(c.hand_before =~= t.hand_before);
    assert(c.river =~= t.river);
    assert(c.river_tsumo =~= t.river_tsumo);
    assert(c.melds_json =~= t.melds_json);
}

/// A table built from snapshots reads back as those snapshots: it holds
/// every stored column with its stored type, every meld list can be read,
/// and any columns read from it decode, row by row, to the snapshots.  This
/// holds where there is at least one snapshot (an empty table has no row to
/// read) and every meld has a type free of JSON punctuation and no one-tile array.
pub proof fn law_frame_round_trip(snaps: Seq<Snapshot>)
    requires
        snaps.len() > 0,
        forall|j: int| 0 <= j < snaps.len() ==> plain_melds(#[trigger] snaps[j]),
    ensures
        frame_typed(table_frame(table_of(snap_views(snaps)))),
        frame_melds_ok(table_frame(table_of(snap_views(snaps))), snaps.len() as int),
        forall|c: ColumnsView, j: int| frame_agrees(c, table_frame(table_of(snap_views(snaps)))) && 0 <= j < snaps.len()
            ==> #[trigger] row_of(c, j) == snaps[j]@,
{
    let t = table_of(snap_views(snaps));
    let tf = table_frame(t);
    let n = snaps.len() as int;
    law_storage_round_trip(snaps);
    lemma_table_names(t);
    lemma_find_distinct(tf, 0);
    lemma_find_distinct(tf, 1);
    lemma_find_distinct(tf, 2);
    lemma_find_distinct(tf, 3);
    lemma_find_distinct(tf, 4);
    lemma_find_distinct(tf, 5);
    lemma_find_distinct(tf, 6);
    lemma_find_distinct(tf, 7);
    lemma_find_distinct(tf, 8);
    lemma_find_distinct(tf, 9);
    lemma_find_distinct(tf, 10);
    lemma_find_distinct(tf, 11);
    lemma_find_distinct(tf, 12);
    lemma_find_distinct(tf, 13);
    lemma_find_distinct(tf, 14);
    lemma_find_distinct(tf, 15);
    lemma_find_distinct(tf, 16);
    lemma_find_distinct(tf, 17);
    lemma_find_distinct(tf, 18);
    lemma_find_distinct(tf, 19);
    lemma_find_distinct(tf, 20);
    lemma_find_distinct(tf, 21);
    lemma_find_distinct(tf, 22);
    lemma_find_distinct(tf, 23);
    lemma_find_distinct(tf, 24);
    lemma_find_distinct(tf, 25);
    lemma_find_distinct(tf, 26);
    lemma_find_distinct(tf, 27);
    lemma_find_distinct(tf, 28);
    lemma_find_distinct(tf, 29);
    lemma_find_distinct(tf, 30);
    lemma_find_distinct(tf, 31);
    lemma_find_distinct(tf, 32);
    lemma_find_distinct(tf, 33);
    lemma_find_distinct(tf, 34);
    lemma_find_distinct(tf, 35);
    lemma_find_distinct(tf, 36);
    lemma_find_distinct(tf, 37);
    lemma_find_distinct(tf, 38);
    lemma_find_distinct(tf, 39);
    lemma_find_distinct(tf, 40);
    lemma_find_distinct(tf, 41);
    lemma_find_distinct(tf, 42);
    lemma_find_distinct(tf, 43);
    assert(frame_typed(tf));
    assert forall|p: int, j: int| 0 <= p < 4 && 0 <= j < n implies json_readable(#[trigger] frame_melds(tf, p)[j]) by {
        lemma_strs_back(t.melds_json[p]);
        assert(frame_melds(tf, p) == t.melds_json[p]);
    }
    assert forall|c: ColumnsView, j: int| frame_agrees(c, tf) && 0 <= j < n implies #[trigger] row_of(c, j) == snaps[j]@ by {
        lemma_agrees_table(t, c, n);
    }
}

/// The rows a log yields, when there is at least one, read back from the
/// table built of them.
pub proof fn law_log_frame_round_trip(game_id: Seq<char>, evs: Seq<XmlEvent>, snaps: Seq<Snapshot>)
    requires
        run_spec(init_view(game_id), None, evs) == Ok::<Seq<SnapView>, Seq<char>>(snap_views(snaps)),
        snaps.len() > 0,
    ensures
        frame_typed(table_frame(table_of(snap_views(snaps)))),
        frame_melds_ok(table_frame(table_of(snap_views(snaps))), snaps.len() as int),
        forall|c: ColumnsView, j: int| frame_agrees(c, table_frame(table_of(snap_views(snaps)))) && 0 <= j < snaps.len()
            ==> #[trigger] row_of(c, j) == snaps[j]@,
{
    lemma_log_rows_plain(game_id, evs, snaps);
    law_frame_round_trip(snaps);
}

} // verus!
