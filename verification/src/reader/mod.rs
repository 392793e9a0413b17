//! Projection of the raw rows of one file into unified rows, and the reading of
//! files by kind.

use vstd::prelude::*;
use crate::amount::amount_of;
use crate::amount::amount_value;
use crate::cell::field;
use crate::cell::lookup;
use crate::cell::Cell;
use crate::cell::RawTable;
use crate::cell::Value;
use crate::conf::paired;
use crate::conf::Config;
use crate::conf::Entity;
use crate::conf::Trans;
use crate::datetime::resolve_time;
use crate::datetime::resolved_time;
use crate::dedup::keep_first;
use crate::dedup::lemma_keep_first_step;
use crate::dedup::seen_before;
use crate::error::Error;
use crate::error::Failure;

pub mod csv;
pub mod xlsx;

verus! {

/// Type of a column of the unified table.
#[derive(Clone, Copy, PartialEq, Eq, Debug)]
pub enum DataType {
    /// Text.
    String,
    /// Milliseconds since the Unix epoch, without a time zone.
    Datetime,
    /// A decimal of 38 digits, two of them fractional.
    Decimal,
}

/// Name of the `i`-th column of the unified table.
pub fn gen_column(i: usize) -> (name: &'static str)
    requires
        i < 10,
    ensures
        name@ == unified_columns()[i as int],
{
    if i == 0 {
        "_config_name"
    } else if i == 1 {
        "_datetime"
    } else if i == 2 {
        "_amount"
    } else if i == 3 {
        "_from_id"
    } else if i == 4 {
        "_from_bank_id"
    } else if i == 5 {
        "_from_name"
    } else if i == 6 {
        "_to_id"
    } else if i == 7 {
        "_to_bank_id"
    } else if i == 8 {
        "_to_name"
    } else {
        "_file_path"
    }
}

/// The ten column names of the unified table, in their fixed order.
pub open spec fn unified_columns() -> Seq<Seq<char>> {
    seq![
        "_config_name"@,
        "_datetime"@,
        "_amount"@,
        "_from_id"@,
        "_from_bank_id"@,
        "_from_name"@,
        "_to_id"@,
        "_to_bank_id"@,
        "_to_name"@,
        "_file_path"@,
    ]
}

/// The ten column types of the unified table, in the order of the columns.
pub open spec fn unified_types() -> Seq<DataType> {
    seq![
        DataType::String,
        DataType::Datetime,
        DataType::Decimal,
        DataType::String,
        DataType::String,
        DataType::String,
        DataType::String,
        DataType::String,
        DataType::String,
        DataType::String,
    ]
}

/// Type of the `i`-th column of the unified table.
fn gen_type(i: usize) -> (r: DataType)
    requires
        i < 10,
    ensures
        r == unified_types()[i as int],
{
    if i == 1 {
        DataType::Datetime
    } else if i == 2 {
        DataType::Decimal
    } else {
        DataType::String
    }
}

/// The schema of the unified table: its ten columns with their types.
pub fn gen_schema() -> (schema: Vec<(&'static str, DataType)>)
    ensures
        schema@.len() == 10,
        forall|i: int|
            0 <= i < 10 ==> (#[trigger] schema@[i]).0@ == unified_columns()[i] && schema@[i].1
                == unified_types()[i],
{
    let mut schema: Vec<(&'static str, DataType)> = Vec::new();
    let mut i: usize = 0;
    while i < 10
        invariant
            i <= 10,
            schema@.len() == i,
            forall|k: int|
                0 <= k < i ==> (#[trigger] schema@[k]).0@ == unified_columns()[k] && schema@[k].1
                    == unified_types()[k],
        decreases 10 - i,
    {
        schema.push((gen_column(i), gen_type(i)));
        i += 1;
    }
    schema
}

/// One row of the unified table. The six participant fields hold the cells as the
/// file gave them; a table of the aggregate accepts only text and null there.
#[derive(PartialEq, Eq, Debug)]
pub struct CanonicalRow {
    pub config_name: String,
    /// Milliseconds since the Unix epoch.
    pub datetime: Option<i64>,
    /// Hundredths, never negative.
    pub amount: Option<i128>,
    pub from_id: Cell,
    pub from_bank_id: Cell,
    pub from_name: Cell,
    pub to_id: Cell,
    pub to_bank_id: Cell,
    pub to_name: Cell,
    pub file_path: String,
}

/// Mathematical value of a [`CanonicalRow`].
pub ghost struct RowView {
    pub config_name: Seq<char>,
    pub datetime: Option<i64>,
    pub amount: Option<i128>,
    pub from_id: Value,
    pub from_bank_id: Value,
    pub from_name: Value,
    pub to_id: Value,
    pub to_bank_id: Value,
    pub to_name: Value,
    pub file_path: Seq<char>,
}

impl View for CanonicalRow {
    type V = RowView;

    open spec fn view(&self) -> RowView {
        RowView {
            config_name: self.config_name@,
            datetime: self.datetime,
            amount: self.amount,
            from_id: self.from_id@,
            from_bank_id: self.from_bank_id@,
            from_name: self.from_name@,
            to_id: self.to_id@,
            to_bank_id: self.to_bank_id@,
            to_name: self.to_name@,
            file_path: self.file_path@,
        }
    }
}

impl DeepView for CanonicalRow {
    type V = RowView;

    open spec fn deep_view(&self) -> RowView {
        self@
    }
}

impl Clone for CanonicalRow {
    fn clone(&self) -> (r: CanonicalRow)
        ensures
            r@ == self@,
    {
        CanonicalRow {
            config_name: self.config_name.clone(),
            datetime: self.datetime,
            amount: self.amount,
            from_id: self.from_id.clone(),
            from_bank_id: self.from_bank_id.clone(),
            from_name: self.from_name.clone(),
            to_id: self.to_id.clone(),
            to_bank_id: self.to_bank_id.clone(),
            to_name: self.to_name.clone(),
            file_path: self.file_path.clone(),
        }
    }
}

/// A statement file that has been opened: where it lies, what its header holds, and
/// how to turn it into unified rows.
pub trait GenericFile {
    /// The path of the file.
    fn path(&self) -> String;

    /// The column names of the file, by which its layout is known.
    fn signature(&self) -> &[String];

    /// The unified rows of the file.
    fn into_dataframe(self) -> Result<Vec<CanonicalRow>, Error>;
}

/// Whether money leaves the requested account on this row: always in a simple shape,
/// whose payer is fixed; in a directed shape exactly where the direction cell is the
/// text of the outbound marker.
pub open spec fn outbound(trans: Trans, names: Seq<Seq<char>>, row: Seq<Value>) -> bool {
    match trans {
        Trans::Simple { col_amount, from, to, prime_id } => true,
        Trans::Directed { col_amount, one, other, col_direct, value_out, one_is_prime } => field(
            names,
            row,
            col_direct@,
        ) == Value::Str(value_out@),
    }
}

/// The participant that pays on this row.
pub open spec fn payer(trans: Trans, names: Seq<Seq<char>>, row: Seq<Value>) -> Entity {
    match trans {
        Trans::Simple { col_amount, from, to, prime_id } => from,
        Trans::Directed { col_amount, one, other, col_direct, value_out, one_is_prime } => {
            if outbound(trans, names, row) {
                one
            } else {
                other
            }
        },
    }
}

/// The participant that is paid on this row.
pub open spec fn payee(trans: Trans, names: Seq<Seq<char>>, row: Seq<Value>) -> Entity {
    match trans {
        Trans::Simple { col_amount, from, to, prime_id } => to,
        Trans::Directed { col_amount, one, other, col_direct, value_out, one_is_prime } => {
            if outbound(trans, names, row) {
                other
            } else {
                one
            }
        },
    }
}

/// The unified row of one raw row, given the time already read from its time cell.
pub open spec fn assembled_row(
    config: Config,
    path: Seq<char>,
    names: Seq<Seq<char>>,
    row: Seq<Value>,
    datetime: Option<i64>,
) -> RowView {
    let from = payer(config.trans, names, row);
    let to = payee(config.trans, names, row);
    RowView {
        config_name: config.name@,
        datetime,
        amount: amount_value(field(names, row, config.trans.amount_column())),
        from_id: from.id_rule().value(names, row),
        from_bank_id: from.bank_id_rule().value(names, row),
        from_name: from.name_rule().value(names, row),
        to_id: to.id_rule().value(names, row),
        to_bank_id: to.bank_id_rule().value(names, row),
        to_name: to.name_rule().value(names, row),
        file_path: path,
    }
}

/// The unified row of one raw row.
pub open spec fn canonical_row(
    config: Config,
    path: Seq<char>,
    names: Seq<Seq<char>>,
    row: Seq<Value>,
) -> RowView {
    assembled_row(
        config,
        path,
        names,
        row,
        resolved_time(field(names, row, config.time.col@), config.time),
    )
}

/// In a directed layout the direction cell alone decides the sides. On a row whose
/// direction cell is the outbound marker, the three payer fields are those of `one`
/// and the three payee fields those of `other`; on every other row, a null or
/// non-text direction cell included, they are exchanged. The flag `one_is_prime`
/// plays no part.
pub proof fn lemma_directed_swap(
    config: Config,
    path: Seq<char>,
    names: Seq<Seq<char>>,
    row: Seq<Value>,
)
    requires
        config.trans is Directed,
    ensures
        match config.trans {
            Trans::Directed { col_amount, one, other, col_direct, value_out, one_is_prime } => {
                let unified = canonical_row(config, path, names, row);
                let from = if field(names, row, col_direct@) == Value::Str(value_out@) {
                    one
                } else {
                    other
                };
                let to = if field(names, row, col_direct@) == Value::Str(value_out@) {
                    other
                } else {
                    one
                };
                &&& unified.from_id == from.id_rule().value(names, row)
                &&& unified.from_bank_id == from.bank_id_rule().value(names, row)
                &&& unified.from_name == from.name_rule().value(names, row)
                &&& unified.to_id == to.id_rule().value(names, row)
                &&& unified.to_bank_id == to.bank_id_rule().value(names, row)
                &&& unified.to_name == to.name_rule().value(names, row)
            },
            Trans::Simple { col_amount, from, to, prime_id } => true,
        },
{
}

/// What a participant's three expressions give on a row: the id is the id cell, or
/// the alternate id cell where one is configured and the id cell is null; the bank id
/// and the name are their cells, and null where the participant has no such column.
pub proof fn lemma_participant_fields(entity: Entity, names: Seq<Seq<char>>, row: Seq<Value>)
    ensures
        entity.id_rule().value(names, row) == match entity.col_id_alter {
            Some(alter) => if field(names, row, entity.col_id@) is Null {
                field(names, row, alter@)
            } else {
                field(names, row, entity.col_id@)
            },
            None => field(names, row, entity.col_id@),
        },
        entity.bank_id_rule().value(names, row) == match entity.col_bank_id {
            Some(column) => field(names, row, column@),
            None => Value::Null,
        },
        entity.name_rule().value(names, row) == match entity.col_name {
            Some(column) => field(names, row, column@),
            None => Value::Null,
        },
{
}

/// Whether the direction cell of a directed row is the outbound marker.
fn is_outbound(header: &[String], row: &[Cell], col_direct: &str, value_out: &str) -> (r: bool)
    ensures
        r == (field(header.deep_view(), row.deep_view(), col_direct@) == Value::Str(value_out@)),
{
    match lookup(header, row, col_direct) {
        Cell::Str(direction) => direction == value_out.to_owned(),
        _ => false,
    }
}

/// Assembles the unified row of one raw row from the layout, the file's path and the
/// time read from the row's time cell: the amount, the participants by the shape's
/// rule, and the two stamps.
pub fn project_row(
    config: &Config,
    path: &str,
    header: &[String],
    row: &[Cell],
    datetime: Option<i64>,
) -> (r: CanonicalRow)
    ensures
        r@ == assembled_row(*config, path@, header.deep_view(), row.deep_view(), datetime),
        r.amount matches Some(a) ==> 0 <= a <= crate::amount::MAX_UNSCALED,
{
    let (col_amount, from, to) = match config.trans {
        Trans::Simple { col_amount, from, to, prime_id: _ } => (col_amount, from, to),
        Trans::Directed { col_amount, one, other, col_direct, value_out, one_is_prime: _ } => {
            if is_outbound(header, row, col_direct, value_out) {
                (col_amount, one, other)
            } else {
                (col_amount, other, one)
            }
        },
    };
    CanonicalRow {
        config_name: config.name.to_owned(),
        datetime,
        amount: amount_of(&lookup(header, row, col_amount)),
        from_id: from.id_expr().eval(header, row),
        from_bank_id: from.bank_id_expr().eval(header, row),
        from_name: from.name_expr().eval(header, row),
        to_id: to.id_expr().eval(header, row),
        to_bank_id: to.bank_id_expr().eval(header, row),
        to_name: to.name_expr().eval(header, row),
        file_path: path.to_owned(),
    }
}

/// The key of a raw row under a duplicate-key column: the cell of that column.
pub open spec fn key_by_column(names: Seq<Seq<char>>, column: Seq<char>) -> spec_fn(
    Seq<Value>,
) -> Value {
    |row: Seq<Value>| field(names, row, column)
}

/// The raw rows that normalization projects: all of them, or, under a duplicate-key
/// column, the first row of each key.
pub open spec fn kept_rows(names: Seq<Seq<char>>, rows: Seq<Seq<Value>>, config: Config) -> Seq<
    Seq<Value>,
> {
    match config.col_id {
        Some(column) => keep_first(rows, key_by_column(names, column@)),
        None => rows,
    }
}

/// The projection of raw rows under a layout, as a function of one row.
pub open spec fn row_maker(config: Config, path: Seq<char>, names: Seq<Seq<char>>) -> spec_fn(
    Seq<Value>,
) -> RowView {
    |row: Seq<Value>| canonical_row(config, path, names, row)
}

/// The unified rows of a file: the projection of each kept raw row, in file order.
pub open spec fn normalized(
    names: Seq<Seq<char>>,
    rows: Seq<Seq<Value>>,
    path: Seq<char>,
    config: Config,
) -> Seq<RowView> {
    kept_rows(names, rows, config).map_values(row_maker(config, path, names))
}

/// What normalization gives for a file under a layout: the unified rows, or the
/// failure. The layout must be the one that detection gives for the header, else the
/// pairing is refused; the header must hold the duplicate-key column where the layout
/// has one.
pub open spec fn fmt_outcome(
    names: Seq<Seq<char>>,
    rows: Seq<Seq<Value>>,
    path: Seq<char>,
    config: Config,
) -> Result<Seq<RowView>, Failure> {
    if !paired(names, config) {
        Err(Failure::LayoutMismatch)
    } else if config.col_id is Some && !names.contains(config.col_id->0@) {
        Err(Failure::MissingColumn(config.col_id->0@))
    } else {
        Ok(normalized(names, rows, path, config))
    }
}

/// Mathematical value of the result of reading one file.
pub open spec fn outcome(r: Result<Vec<CanonicalRow>, Error>) -> Result<Seq<RowView>, Failure> {
    match r {
        Ok(rows) => Ok(rows.deep_view()),
        Err(e) => Err(e@),
    }
}

/// One more raw row adds its projection to the unified rows, unless its key was seen.
proof fn lemma_normalized_step(
    names: Seq<Seq<char>>,
    rows: Seq<Seq<Value>>,
    path: Seq<char>,
    config: Config,
    n: int,
)
    requires
        0 <= n < rows.len(),
    ensures
        normalized(names, rows.take(n + 1), path, config) == if config.col_id is Some
            && seen_before(rows, key_by_column(names, config.col_id->0@), n) {
            normalized(names, rows.take(n), path, config)
        } else {
            normalized(names, rows.take(n), path, config).push(
                canonical_row(config, path, names, rows[n]),
            )
        },
{
    let make = row_maker(config, path, names);
    match config.col_id {
        Some(column) => {
            let key = key_by_column(names, column@);
            lemma_keep_first_step(rows, key, n);
            let before = keep_first(rows.take(n), key);
            if !seen_before(rows, key, n) {
                assert(before.push(rows[n]).map_values(make) =~= before.map_values(make).push(
                    make(rows[n]),
                ));
            }
        },
        None => {
            assert(rows.take(n + 1) =~= rows.take(n).push(rows[n]));
            assert(rows.take(n).push(rows[n]).map_values(make) =~= rows.take(n).map_values(
                make,
            ).push(make(rows[n])));
        },
    }
}

/// Whether a row before the `i`-th has the `i`-th row's cell under `column`.
fn key_seen_before(header: &[String], rows: &Vec<Vec<Cell>>, column: &str, i: usize) -> (r: bool)
    requires
        i < rows@.len(),
    ensures
        r == seen_before(rows.deep_view(), key_by_column(header.deep_view(), column@), i as int),
{
    let ghost names = header.deep_view();
    let ghost key = key_by_column(names, column@);
    let ghost all = rows.deep_view();
    let current: &[Cell] = rows[i].as_slice();
    assert(current.deep_view() =~= all[i as int]);
    let wanted = lookup(header, current, column);
    let mut j: usize = 0;
    while j < i
        invariant
            j <= i < rows@.len(),
            names == header.deep_view(),
            key == key_by_column(names, column@),
            all == rows.deep_view(),
            wanted@ == key(all[i as int]),
            forall|k: int| 0 <= k < j ==> #[trigger] key(all[k]) != key(all[i as int]),
        decreases i - j,
    {
        let earlier: &[Cell] = rows[j].as_slice();
        assert(earlier.deep_view() =~= all[j as int]);
        let other = lookup(header, earlier, column);
        if other.same(&wanted) {
            assert(key(all[j as int]) == key(all[i as int]));
            return true;
        }
        j += 1;
    }
    false
}

/// Turns the raw rows of a file into unified rows under a layout.
///
/// Fails where the layout is not the one that detection gives for the header, or
/// the header lacks the layout's duplicate-key column. Otherwise: under a duplicate-key column, of the rows that
/// share a cell there only the first is taken; each row taken gives one unified row,
/// in file order, with the layout's name, the time parsed from the time cell, the
/// amount in hundredths, the participants by the shape's rule, and the path.
/// A cell that does not parse gives a null, never a failure.
pub fn fmt_df(df: &RawTable, path: &str, config: &Config) -> (r: Result<Vec<CanonicalRow>, Error>)
    ensures
        outcome(r) == fmt_outcome(df.header.deep_view(), df.rows.deep_view(), path@, *config),
        r matches Ok(rows) ==> forall|i: int|
            0 <= i < rows@.len() ==> ((#[trigger] rows@[i]).amount matches Some(a) ==> 0 <= a
                <= crate::amount::MAX_UNSCALED),
{
    let header: &[String] = df.header.as_slice();
    let ghost names = df.header.deep_view();
    let ghost all = df.rows.deep_view();
    assert(header.deep_view() =~= names);
    let is_paired = match Config::auto_detect(header) {
        Ok(found) => found.same(config),
        Err(_) => false,
    };
    if !is_paired {
        return Err(Error::LayoutMismatch);
    }
    if let Some(column) = config.col_id {
        proof {
            names.index_of_first_ensures(column@);
        }
        if crate::cell::column_index(header, column).is_none() {
            return Err(Error::MissingColumn(column));
        }
    }
    let mut out: Vec<CanonicalRow> = Vec::new();
    let mut i: usize = 0;
    assert(all.take(0) =~= Seq::<Seq<Value>>::empty());
    assert(out.deep_view() =~= normalized(names, all.take(0), path@, *config));
    while i < df.rows.len()
        invariant
            i <= df.rows@.len(),
            names == df.header.deep_view(),
            names == header.deep_view(),
            all == df.rows.deep_view(),
            all.len() == df.rows@.len(),
            out.deep_view() == normalized(names, all.take(i as int), path@, *config),
            paired(names, *config),
            config.col_id is Some ==> names.contains(config.col_id->0@),
            forall|k: int|
                0 <= k < out@.len() ==> ((#[trigger] out@[k]).amount matches Some(a) ==> 0 <= a
                    <= crate::amount::MAX_UNSCALED),
        decreases df.rows@.len() - i,
    {
        let duplicate = match config.col_id {
            Some(column) => key_seen_before(header, &df.rows, column, i),
            None => false,
        };
        proof {
            lemma_normalized_step(names, all, path@, *config, i as int);
        }
        if !duplicate {
            let row: &[Cell] = df.rows[i].as_slice();
            assert(row.deep_view() =~= all[i as int]);
            let time_cell = lookup(header, row, config.time.col);
            let datetime = resolve_time(&time_cell, &config.time);
            let unified = project_row(config, path, header, row, datetime);
            let ghost before = out.deep_view();
            out.push(unified);
            assert(out.deep_view() =~= before.push(unified@));
        }
        i += 1;
    }
    assert(all.take(all.len() as int) =~= all);
    Ok(out)
}

/// Where the file name of a path starts: behind its last slash.
pub open spec fn file_name_start(path: Seq<char>) -> int {
    match path.index_of_last('/') {
        Some(i) => i + 1,
        None => 0,
    }
}

/// The extension of a path: what follows the last dot of its file name. A file name
/// without a dot, or whose only dot is its first character, has none, and neither
/// has the name `..`.
pub open spec fn extension_of(path: Seq<char>) -> Option<Seq<char>> {
    let name = path.skip(file_name_start(path));
    match name.index_of_last('.') {
        Some(dot) => if dot == 0 || name == seq!['.', '.'] {
            None
        } else {
            Some(name.skip(dot + 1))
        },
        None => None,
    }
}

/// The extension of a path.
pub fn extension(path: &str) -> (r: Option<String>)
    ensures
        match r {
            Some(ext) => extension_of(path@) == Some(ext@),
            None => extension_of(path@) is None,
        },
{
    let n = path.unicode_len();
    let mut name_start: usize = 0;
    let mut dot: Option<usize> = None;
    let mut i: usize = 0;
    while i < n
        invariant
            name_start <= i <= n == path@.len(),
            name_start > 0 ==> path@[name_start - 1] == '/',
            forall|k: int| name_start <= k < i ==> path@[k] != '/',
            match dot {
                Some(d) => name_start <= d < i && path@[d as int] == '.' && forall|k: int|
                    d < k < i ==> path@[k] != '.',
                None => forall|k: int| name_start <= k < i ==> path@[k] != '.',
            },
        decreases n - i,
    {
        let c = path.get_char(i);
        if c == '/' {
            name_start = i + 1;
            dot = None;
        } else if c == '.' {
            dot = Some(i);
        }
        i += 1;
    }
    let ghost name = path@.skip(name_start as int);
    proof {
        path@.index_of_last_ensures('/');
        if name_start > 0 {
            assert(path@.contains('/'));
        }
        assert(file_name_start(path@) == name_start);
        name.index_of_last_ensures('.');
        assert(forall|k: int| 0 <= k < name.len() ==> name[k] == path@[name_start + k]);
    }
    match dot {
        Some(d) => {
            proof {
                assert(name[d - name_start] == '.');
                assert(name.contains('.'));
                assert(name.index_of_last('.') == Some(d - name_start));
            }
            if d == name_start {
                return None;
            }
            if n - name_start == 2 && path.get_char(name_start) == '.' {
                assert(name =~= seq!['.', '.']);
                return None;
            }
            proof {
                if name == seq!['.', '.'] {
                    assert(name.len() == 2);
                    assert(name[0] == '.');
                }
                assert(name.skip(d - name_start + 1) =~= path@.subrange(d + 1, n as int));
            }
            Some(path.substring_char(d + 1, n).to_owned())
        },
        None => {
            proof {
                assert(!name.contains('.'));
            }
            None
        },
    }
}

/// The kinds of file that can be decoded.
#[derive(Clone, Copy, PartialEq, Eq, Debug)]
pub enum FileKind {
    Xlsx,
    Csv,
}

/// The kind of file that a path names, by its extension: `xlsx` or `csv`, in these
/// letters. A path without extension, or with another, names none; the failure
/// keeps the extension, empty where there is none.
pub open spec fn kind_of(path: Seq<char>) -> Result<FileKind, Failure> {
    match extension_of(path) {
        None => Err(Failure::UnsupportedFormat(Seq::empty())),
        Some(ext) => if ext == "xlsx"@ {
            Ok(FileKind::Xlsx)
        } else if ext == "csv"@ {
            Ok(FileKind::Csv)
        } else {
            Err(Failure::UnsupportedFormat(ext))
        },
    }
}

/// Tells which decoder a path asks for.
pub fn file_kind(path: &str) -> (r: Result<FileKind, Error>)
    ensures
        match r {
            Ok(kind) => kind_of(path@) == Ok::<FileKind, Failure>(kind),
            Err(e) => kind_of(path@) == Err::<FileKind, Failure>(e@),
        },
{
    let ext = match extension(path) {
        Some(ext) => ext,
        None => {
            return Err(Error::UnsupportedFormat(String::new()));
        },
    };
    if ext == "xlsx".to_owned() {
        Ok(FileKind::Xlsx)
    } else if ext == "csv".to_owned() {
        Ok(FileKind::Csv)
    } else {
        Err(Error::UnsupportedFormat(ext))
    }
}

/// What a decoder read from one file.
pub enum FileContent {
    /// A comma-separated file: its first line, with or without the line break at its
    /// end, and its decoded table.
    Csv(String, RawTable),
    /// A workbook: its first sheet.
    Xlsx(xlsx::Sheet),
    /// The file could not be opened or decoded.
    Unreadable,
}

/// A file of a batch: its path and what was read from it.
pub struct SourceFile {
    pub path: String,
    pub content: FileContent,
}

/// The header texts of a sheet, as values.
pub open spec fn header_texts(headers: Option<Vec<String>>) -> Option<Seq<Seq<char>>> {
    match headers {
        Some(sig) => Some(sig.deep_view()),
        None => None,
    }
}

/// What reading a file gives. The path picks the decoder by its kind, and a path of
/// no kind is refused. Content that could not be read, or that was decoded for the
/// other kind, is refused; else the file is opened and normalized as its kind says.
pub open spec fn read_outcome(path: Seq<char>, content: FileContent) -> Result<
    Seq<RowView>,
    Failure,
> {
    match kind_of(path) {
        Err(failure) => Err(failure),
        Ok(FileKind::Xlsx) => match content {
            FileContent::Xlsx(sheet) => xlsx::xlsx_outcome(
                path,
                header_texts(sheet.headers),
                sheet.rows.deep_view(),
            ),
            FileContent::Csv(first_line, table) => Err(Failure::ContentMismatch),
            FileContent::Unreadable => Err(Failure::Unreadable),
        },
        Ok(FileKind::Csv) => match content {
            FileContent::Csv(first_line, table) => csv::csv_outcome(
                path,
                first_line@,
                table.header.deep_view(),
                table.rows.deep_view(),
            ),
            FileContent::Xlsx(sheet) => Err(Failure::ContentMismatch),
            FileContent::Unreadable => Err(Failure::Unreadable),
        },
    }
}

/// Turns one file into unified rows, whatever its kind.
pub fn read(path: &str, content: FileContent) -> (r: Result<Vec<CanonicalRow>, Error>)
    ensures
        outcome(r) == read_outcome(path@, content),
{
    let kind = match file_kind(path) {
        Ok(kind) => kind,
        Err(e) => {
            return Err(e);
        },
    };
    match kind {
        FileKind::Xlsx => match content {
            FileContent::Xlsx(sheet) => {
                match xlsx::XlsxData::new(path, sheet) {
                    Ok(file) => file.into_dataframe(),
                    Err(e) => Err(e),
                }
            },
            FileContent::Csv(_, _) => Err(Error::ContentMismatch),
            FileContent::Unreadable => Err(Error::Unreadable),
        },
        FileKind::Csv => match content {
            FileContent::Csv(first_line, table) => {
                match csv::CsvData::new(path, first_line.as_str(), table) {
                    Ok(file) => file.into_dataframe(),
                    Err(e) => Err(e),
                }
            },
            FileContent::Xlsx(_) => Err(Error::ContentMismatch),
            FileContent::Unreadable => Err(Error::Unreadable),
        },
    }
}

/// One entry that a walk of a folder met.
pub struct WalkEntry {
    pub path: String,
    /// Whether the entry is a regular file.
    pub is_file: bool,
}

/// The paths of the regular files among the entries of a walk, in the order of the
/// walk. An entry that the walk could not read is `None` and is passed over.
pub open spec fn walked(entries: Seq<Option<WalkEntry>>) -> Seq<Seq<char>>
    decreases entries.len(),
{
    if entries.len() == 0 {
        Seq::empty()
    } else {
        let before = walked(entries.drop_last());
        match entries.last() {
            Some(entry) => if entry.is_file {
                before.push(entry.path@)
            } else {
                before
            },
            None => before,
        }
    }
}

/// The tables of the files of a batch that could be read, in the order of the batch.
pub open spec fn read_batches(files: Seq<SourceFile>) -> Seq<Seq<RowView>>
    decreases files.len(),
{
    if files.len() == 0 {
        Seq::empty()
    } else {
        (match read_outcome(files.first().path@, files.first().content) {
            Ok(rows) => seq![rows],
            Err(_) => Seq::empty(),
        }) + read_batches(files.drop_first())
    }
}

/// The opening of all the files of one folder.
pub struct BatchOpen {
    pub folder: String,
}

impl BatchOpen {
    /// A batch over the files of `folder`.
    pub fn new(folder: &str) -> (r: BatchOpen)
        ensures
            r.folder@ == folder@,
    {
        BatchOpen { folder: folder.to_owned() }
    }

    /// The paths of the files to read, from the entries that a walk of the folder met.
    pub fn walk(&self, entries: &[Option<WalkEntry>]) -> (r: Vec<String>)
        ensures
            r.deep_view() == walked(entries@),
    {
        let mut ret: Vec<String> = Vec::new();
        let mut i: usize = 0;
        assert(entries@.take(0) =~= Seq::<Option<WalkEntry>>::empty());
        assert(ret.deep_view() =~= walked(entries@.take(0)));
        while i < entries.len()
            invariant
                i <= entries@.len(),
                ret.deep_view() == walked(entries@.take(i as int)),
            decreases entries@.len() - i,
        {
            proof {
                let next = entries@.take(i + 1);
                assert(next.drop_last() =~= entries@.take(i as int));
                assert(next.last() == entries@[i as int]);
            }
            if let Some(entry) = &entries[i] {
                if entry.is_file {
                    let ghost before = ret.deep_view();
                    ret.push(entry.path.clone());
                    assert(ret.deep_view() =~= before.push(entry.path@));
                }
            }
            i += 1;
        }
        assert(entries@.take(entries@.len() as int) =~= entries@);
        ret
    }

    /// Reads every file of the batch and gives the tables of those that could be
    /// read; a file that fails is passed over.
    pub fn read_all(&self, files: Vec<SourceFile>) -> (r: Vec<Vec<CanonicalRow>>)
        ensures
            r.deep_view() == read_batches(files@),
    {
        let mut files = files;
        let ghost all = files@;
        let mut tables: Vec<Vec<CanonicalRow>> = Vec::new();
        assert(tables.deep_view() =~= Seq::<Seq<RowView>>::empty());
        while files.len() > 0
            invariant
                read_batches(all) == tables.deep_view() + read_batches(files@),
            decreases files@.len(),
        {
            let ghost rest = files@;
            let file = files.remove(0);
            assert(files@ =~= rest.drop_first());
            assert(file == rest.first());
            let ghost before = tables.deep_view();
            let SourceFile { path, content } = file;
            match read(path.as_str(), content) {
                Ok(rows) => {
                    tables.push(rows);
                    assert(tables.deep_view() =~= before.push(rows.deep_view()));
                    assert(before.push(rows.deep_view()) + read_batches(files@) =~= before + (
                    seq![rows.deep_view()] + read_batches(files@)));
                },
                Err(_) => {
                    assert(before + (Seq::<Seq<RowView>>::empty() + read_batches(files@))
                        =~= before + read_batches(files@));
                },
            }
        }
        assert(tables.deep_view() + Seq::<Seq<RowView>>::empty() =~= tables.deep_view());
        tables
    }
}

} // verus!
