//! The SQL handler: what it is configured with, and how it reads its
//! arguments.

use crate::errors::{AncymonError, BuildError, ConfigError, RuntimeError};
use crate::values::{array_view, Value, ValueView};
use vstd::prelude::*;
use vstd::string::StringExecFns;

verus! {

/// What [`SqlArguments`] denote.
pub struct SqlArgumentsView {
    pub query: Seq<char>,
    pub fetch_many: bool,
    pub bind_one: bool,
    pub bind_many: bool,
}

/// The arguments of one call of the SQL handler.
#[derive(Debug)]
pub struct SqlArguments {
    pub query: String,
    pub fetch_many: bool,
    pub bind_one: bool,
    pub bind_many: bool,
}

impl View for SqlArguments {
    type V = SqlArgumentsView;

    open spec fn view(&self) -> SqlArgumentsView {
        SqlArgumentsView {
            query: self.query@,
            fetch_many: self.fetch_many,
            bind_one: self.bind_one,
            bind_many: self.bind_many,
        }
    }
}

/// What is wrong with a value that is to be read as SQL arguments.
pub enum SqlFault {
    /// The value is no table.
    NotTable,
    /// The table has no `query`.
    NoQuery,
    /// The `query` is no string.
    QueryNotString,
    /// A flag is no boolean.
    FlagNotBool,
}

/// A flag of the table `m`: `false` where the table lacks it; nothing where
/// it is no boolean.
pub open spec fn flag(m: Map<Seq<char>, ValueView>, key: Seq<char>) -> Option<bool> {
    if m.contains_key(key) {
        match m[key] {
            ValueView::Bool(b) => Some(b),
            _ => None,
        }
    } else {
        Some(false)
    }
}

/// The first thing wrong with a value that is to be read as SQL arguments,
/// in the order: the value itself, `query`, `fetch-many`, `bind-one`,
/// `bind-many`.
pub open spec fn sql_fault(value: ValueView) -> Option<SqlFault> {
    match value {
        ValueView::Table(m) => if !m.contains_key("query"@) {
            Some(SqlFault::NoQuery)
        } else if !(m["query"@] is String) {
            Some(SqlFault::QueryNotString)
        } else if flag(m, "fetch-many"@) is None || flag(m, "bind-one"@) is None || flag(
            m,
            "bind-many"@,
        ) is None {
            Some(SqlFault::FlagNotBool)
        } else {
            None
        },
        _ => Some(SqlFault::NotTable),
    }
}

/// The SQL arguments that a value without fault holds.
pub open spec fn sql_arguments(value: ValueView) -> SqlArgumentsView {
    let m = value->Table_0;
    SqlArgumentsView {
        query: m["query"@]->String_0,
        fetch_many: flag(m, "fetch-many"@).unwrap(),
        bind_one: flag(m, "bind-one"@).unwrap(),
        bind_many: flag(m, "bind-many"@).unwrap(),
    }
}

/// The error that reports a fault.
pub open spec fn is_sql_error(e: AncymonError, fault: SqlFault) -> bool {
    match fault {
        SqlFault::NotTable => e matches AncymonError::ConfigError(
            ConfigError::InvalidValueType(text),
        ) && text@ == "Expected map"@,
        SqlFault::NoQuery => e matches AncymonError::ConfigError(ConfigError::MissingValue(text))
            && text@ == "Field `query` is required"@,
        SqlFault::QueryNotString => e matches AncymonError::ConfigError(
            ConfigError::InvalidValueType(text),
        ) && text@ == "Expected string"@,
        SqlFault::FlagNotBool => e matches AncymonError::ConfigError(
            ConfigError::InvalidValueType(text),
        ) && text@ == "Expected bool"@,
    }
}

/// Reads a flag of a table.
fn read_flag(value: &Value, key: &str) -> (r: Result<bool, AncymonError>)
    requires
        value@ is Table,
    ensures
        match flag(value@->Table_0, key@) {
            Some(b) => r == Ok::<bool, AncymonError>(b),
            None => r matches Err(e) && is_sql_error(e, SqlFault::FlagNotBool),
        },
{
    match value.get(key) {
        Some(v) => match v.as_bool() {
            Some(b) => Ok(b),
            None => Err(
                AncymonError::ConfigError(
                    ConfigError::InvalidValueType(String::from_str("Expected bool")),
                ),
            ),
        },
        None => Ok(false),
    }
}

impl SqlArguments {
    /// Reads SQL arguments from a value.
    ///
    /// Succeeds where the value is a table with a string `query` and with
    /// no flag that is not a boolean; a flag that the table lacks is
    /// `false`. Otherwise the error reports the first fault.
    pub fn try_from(value: Value) -> (r: Result<Self, AncymonError>)
        ensures
            match sql_fault(value@) {
                None => r matches Ok(arguments) && arguments@ == sql_arguments(value@),
                Some(fault) => r matches Err(e) && is_sql_error(e, fault),
            },
    {
        if value.as_map().is_none() {
            return Err(
                AncymonError::ConfigError(
                    ConfigError::InvalidValueType(String::from_str("Expected map")),
                ),
            );
        }
        let query = match value.get("query") {
            None => {
                return Err(
                    AncymonError::ConfigError(
                        ConfigError::MissingValue(String::from_str("Field `query` is required")),
                    ),
                );
            },
            Some(v) => match v.as_str() {
                None => {
                    return Err(
                        AncymonError::ConfigError(
                            ConfigError::InvalidValueType(String::from_str("Expected string")),
                        ),
                    );
                },
                Some(text) => text.to_owned(),
            },
        };
        let fetch_many = match read_flag(&value, "fetch-many") {
            Ok(b) => b,
            Err(e) => {
                return Err(e);
            },
        };
        let bind_one = match read_flag(&value, "bind-one") {
            Ok(b) => b,
            Err(e) => {
                return Err(e);
            },
        };
        let bind_many = match read_flag(&value, "bind-many") {
            Ok(b) => b,
            Err(e) => {
                return Err(e);
            },
        };
        Ok(SqlArguments { query, fetch_many, bind_one, bind_many })
    }
}

/// The connection string that a handler's configuration table names under
/// the key `connection-string`, where it names one as a string.
pub open spec fn connection_string(config: ValueView) -> Option<Seq<char>> {
    match config {
        ValueView::Table(m) => if m.contains_key("connection-string"@) {
            match m["connection-string"@] {
                ValueView::String(s) => Some(s),
                _ => None,
            }
        } else {
            None
        },
        _ => None,
    }
}

/// What the SQL handler is to do for one call: where to connect, what to
/// ask, and whether all rows are wanted or the first one.
#[derive(Debug)]
pub struct SqlRequest {
    pub connection_string: String,
    pub query: String,
    pub fetch_many: bool,
}

/// A handler that runs a query on a database.
#[derive(Debug)]
pub struct SqlHandler {
    connection_string: String,
}

impl Default for SqlHandler {
    fn default() -> (r: Self)
        ensures
            r.connection()@.len() == 0,
    {
        SqlHandler { connection_string: String::new() }
    }
}

impl SqlHandler {
    /// The connection string that the handler is configured with.
    pub closed spec fn connection(self) -> String {
        self.connection_string
    }

    /// Configures the handler from its configuration table.
    ///
    /// Succeeds where the table names a connection string; the handler then
    /// holds it. Otherwise the error is a `BuildError::Handler`, and the
    /// handler is left as it was.
    pub fn init(&mut self, config: &Value) -> (r: Result<(), AncymonError>)
        ensures
            match connection_string(config@) {
                Some(s) => r is Ok && final(self).connection()@ == s,
                None => {
                    &&& r matches Err(AncymonError::BuildError(BuildError::Handler(text)))
                    &&& text@ == "missing or invalid field `connection-string`"@
                    &&& *final(self) == *old(self)
                },
            },
    {
        let found = match config.get("connection-string") {
            Some(v) => v.as_str(),
            None => None,
        };
        match found {
            Some(s) => {
                self.connection_string = s.to_owned();
                Ok(())
            },
            None => Err(
                AncymonError::BuildError(
                    BuildError::Handler(
                        String::from_str("missing or invalid field `connection-string`"),
                    ),
                ),
            ),
        }
    }

    /// Reads the arguments of one call: what the handler is to ask of which
    /// database. Fails as [`SqlArguments::try_from`] does.
    pub fn request(&self, arguments: &Value) -> (r: Result<SqlRequest, AncymonError>)
        ensures
            match sql_fault(arguments@) {
                None => {
                    &&& r matches Ok(request)
                    &&& request.connection_string@ == self.connection()@
                    &&& request.query@ == sql_arguments(arguments@).query
                    &&& request.fetch_many == sql_arguments(arguments@).fetch_many
                },
                Some(fault) => r matches Err(e) && is_sql_error(e, fault),
            },
    {
        match SqlArguments::try_from(arguments.clone()) {
            Ok(read) => Ok(
                SqlRequest {
                    connection_string: self.connection_string.clone(),
                    query: read.query,
                    fetch_many: read.fetch_many,
                },
            ),
            Err(e) => Err(e),
        }
    }
}

/// The digit that stands for a number below ten.
pub open spec fn digit(d: nat) -> char {
    if d == 0 {
        '0'
    } else if d == 1 {
        '1'
    } else if d == 2 {
        '2'
    } else if d == 3 {
        '3'
    } else if d == 4 {
        '4'
    } else if d == 5 {
        '5'
    } else if d == 6 {
        '6'
    } else if d == 7 {
        '7'
    } else if d == 8 {
        '8'
    } else {
        '9'
    }
}

/// A number written in decimal, without leading zeros.
pub open spec fn decimal(n: nat) -> Seq<char>
    decreases n,
{
    if n < 10 {
        seq![digit(n)]
    } else {
        decimal(n / 10).push(digit(n % 10))
    }
}

fn digit_text(d: usize) -> (r: &'static str)
    requires
        d < 10,
    ensures
        r@ == seq![digit(d as nat)],
{
    proof {
        reveal_strlit("0");
        reveal_strlit("1");
        reveal_strlit("2");
        reveal_strlit("3");
        reveal_strlit("4");
        reveal_strlit("5");
        reveal_strlit("6");
        reveal_strlit("7");
        reveal_strlit("8");
        reveal_strlit("9");
    }
    let r = if d == 0 {
        "0"
    } else if d == 1 {
        "1"
    } else if d == 2 {
        "2"
    } else if d == 3 {
        "3"
    } else if d == 4 {
        "4"
    } else if d == 5 {
        "5"
    } else if d == 6 {
        "6"
    } else if d == 7 {
        "7"
    } else if d == 8 {
        "8"
    } else {
        "9"
    };
    assert(r@ =~= seq![digit(d as nat)]);
    r
}

/// Writes a number in decimal.
pub fn decimal_text(n: usize) -> (r: String)
    ensures
        r@ == decimal(n as nat),
    decreases n,
{
    if n < 10 {
        String::from_str(digit_text(n))
    } else {
        let head = decimal_text(n / 10);
        let r = head.concat(digit_text(n % 10));
        assert(r@ =~= decimal(n as nat));
        r
    }
}

/// The type that a column has in the database.
#[derive(Clone, Copy, Debug, PartialEq, Eq, Structural)]
pub enum ColumnKind {
    Null,
    Bool,
    SmallInt,
    Integer,
    BigInt,
    Real,
    Double,
    Text,
    Blob,
}

/// One cell of a row: the kind of its column, and what was read from it.
/// A cell that holds no value reads as `Null`; a cell that could not be
/// read holds the text that says why.
#[derive(Debug)]
pub struct Cell {
    pub kind: ColumnKind,
    pub content: Result<Value, String>,
}

/// Whether a value is one that a column of this kind holds.
pub open spec fn kind_holds(kind: ColumnKind, value: ValueView) -> bool {
    match kind {
        ColumnKind::Bool => value is Bool,
        ColumnKind::SmallInt | ColumnKind::Integer | ColumnKind::BigInt => value is Integer,
        ColumnKind::Real | ColumnKind::Double => value is Float,
        ColumnKind::Text => value is String,
        _ => false,
    }
}

/// What is wrong with the cell at a position of a row.
pub enum CellFault {
    /// The row has no such column.
    NoColumn,
    /// The column holds binary data.
    Blob,
    /// The cell could not be read, for the reason given.
    Unread(Seq<char>),
    /// The cell holds a value that its column's kind does not hold.
    WrongKind,
}

/// The value of the cell at position `idx` of a row, or what is wrong with
/// it.
pub open spec fn cell_value(row: Seq<Cell>, idx: int) -> Result<ValueView, CellFault> {
    if !(0 <= idx < row.len()) {
        Err(CellFault::NoColumn)
    } else {
        match row[idx].kind {
            ColumnKind::Null => Ok(ValueView::Null),
            ColumnKind::Blob => Err(CellFault::Blob),
            kind => match row[idx].content {
                Err(reason) => Err(CellFault::Unread(reason@)),
                Ok(value) => if value@ is Null || kind_holds(kind, value@) {
                    Ok(value@)
                } else {
                    Err(CellFault::WrongKind)
                },
            },
        }
    }
}

/// The error that reports a fault of the cell at position `idx`.
pub open spec fn is_cell_error(e: AncymonError, fault: CellFault, idx: int) -> bool {
    match fault {
        CellFault::NoColumn => e matches AncymonError::RuntimeError(RuntimeError::Handler(text))
            && text@ == "Column at index "@ + decimal(idx as nat) + " not found"@,
        CellFault::Blob => e matches AncymonError::RuntimeError(
            RuntimeError::InvalidArgumentType(text),
        ) && text@ == "Blobs are not supported"@,
        CellFault::Unread(reason) => e matches AncymonError::RuntimeError(
            RuntimeError::Handler(text),
        ) && text@ == "Invalid type for column at index "@ + decimal(idx as nat) + ". "@
            + reason,
        CellFault::WrongKind => e matches AncymonError::RuntimeError(RuntimeError::Handler(text))
            && text@ == "Invalid type for column at index "@ + decimal(idx as nat) + ". "@
            + "mismatched types"@,
    }
}

fn holds(kind: ColumnKind, value: &Value) -> (r: bool)
    ensures
        r == kind_holds(kind, value@),
{
    match kind {
        ColumnKind::Bool => value.as_bool().is_some(),
        ColumnKind::SmallInt | ColumnKind::Integer | ColumnKind::BigInt => value.as_int().is_some(),
        ColumnKind::Real | ColumnKind::Double => value.as_float().is_some(),
        ColumnKind::Text => value.as_str().is_some(),
        _ => false,
    }
}

fn unread(idx: usize, reason: &str) -> (e: AncymonError)
    ensures
        e matches AncymonError::RuntimeError(RuntimeError::Handler(text)) && text@
            == "Invalid type for column at index "@ + decimal(idx as nat) + ". "@ + reason@,
{
    let text = String::from_str("Invalid type for column at index ").concat(
        decimal_text(idx).as_str(),
    ).concat(". ").concat(reason);
    AncymonError::RuntimeError(RuntimeError::Handler(text))
}

/// The value of the cell at position `idx` of a row.
///
/// A column of kind `Null` reads as `Null`, and so does a cell that holds
/// no value; any other cell reads as the value it holds. A position outside
/// the row, a column of binary data, a cell that could not be read and a
/// value of another kind than its column's are errors.
pub fn map_db_value(row: &Vec<Cell>, idx: usize) -> (r: Result<Value, AncymonError>)
    ensures
        match cell_value(row@, idx as int) {
            Ok(value) => r matches Ok(v) && v@ == value,
            Err(fault) => r matches Err(e) && is_cell_error(e, fault, idx as int),
        },
{
    if idx >= row.len() {
        let text = String::from_str("Column at index ").concat(decimal_text(idx).as_str()).concat(
            " not found",
        );
        return Err(AncymonError::RuntimeError(RuntimeError::Handler(text)));
    }
    let cell = &row[idx];
    match cell.kind {
        ColumnKind::Null => Ok(Value::Null),
        ColumnKind::Blob => Err(
            AncymonError::RuntimeError(
                RuntimeError::InvalidArgumentType(String::from_str("Blobs are not supported")),
            ),
        ),
        kind => match &cell.content {
            Err(reason) => Err(unread(idx, reason.as_str())),
            Ok(value) => {
                if value.is_null() || holds(kind, value) {
                    Ok(value.clone())
                } else {
                    Err(unread(idx, "mismatched types"))
                }
            },
        },
    }
}

/// `idx` is the first position of a row at which something is wrong.
pub open spec fn first_bad_cell(row: Seq<Cell>, idx: int) -> bool {
    &&& 0 <= idx < row.len()
    &&& forall|j: int| 0 <= j < idx ==> (#[trigger] cell_value(row, j)) is Ok
    &&& cell_value(row, idx) is Err
}

/// Every cell of the row has a value.
pub open spec fn row_readable(row: Seq<Cell>) -> bool {
    forall|j: int| 0 <= j < row.len() ==> (#[trigger] cell_value(row, j)) is Ok
}

/// The value of a readable row: `Null` for a row without columns, the
/// cell's value for a row with one column, and else the array of the cells'
/// values in order.
pub open spec fn row_value(row: Seq<Cell>) -> ValueView {
    if row.len() == 0 {
        ValueView::Null
    } else if row.len() == 1 {
        cell_value(row, 0)->Ok_0
    } else {
        ValueView::Array(Seq::new(row.len(), |j: int| cell_value(row, j)->Ok_0))
    }
}

/// The value of a row. Where a cell has none, the error is that of the
/// first such cell.
pub fn map_row(row: &Vec<Cell>) -> (r: Result<Value, AncymonError>)
    ensures
        row_readable(row@) ==> (r matches Ok(v) && v@ == row_value(row@)),
        !row_readable(row@) ==> (r matches Err(e) && exists|idx: int| #[trigger]
            first_bad_cell(row@, idx) && is_cell_error(e, cell_value(row@, idx)->Err_0, idx)),
{
    if row.len() == 0 {
        return Ok(Value::Null);
    }
    if row.len() == 1 {
        let r = map_db_value(row, 0);
        proof {
            if cell_value(row@, 0) is Err {
                assert(first_bad_cell(row@, 0));
            }
        }
        return r;
    }
    let mut out: Vec<Value> = Vec::new();
    let mut i: usize = 0;
    while i < row.len()
        invariant
            i <= row.len(),
            out.len() == i,
            forall|j: int| 0 <= j < i ==> (#[trigger] cell_value(row@, j)) is Ok,
            forall|j: int| 0 <= j < i ==> (#[trigger] out[j])@ == cell_value(row@, j)->Ok_0,
        decreases row.len() - i,
    {
        match map_db_value(row, i) {
            Ok(v) => {
                out.push(v);
            },
            Err(e) => {
                assert(first_bad_cell(row@, i as int));
                return Err(e);
            },
        }
        i += 1;
    }
    proof {
        Value::lemma_array_view(out);
        assert(array_view(out@) =~= row_value(row@)->Array_0);
    }
    Ok(Value::Array(out))
}

/// `at` is the first position among `rows` of a row that is not readable.
pub open spec fn first_bad_row(rows: Seq<Vec<Cell>>, at: int) -> bool {
    &&& 0 <= at < rows.len()
    &&& forall|j: int| 0 <= j < at ==> row_readable((#[trigger] rows[j])@)
    &&& !row_readable(rows[at]@)
}

/// The value of a list of rows: the array of the rows' values, in order.
/// Where a row has none, the error is that of the first such row.
pub fn map_rows(rows: &Vec<Vec<Cell>>) -> (r: Result<Value, AncymonError>)
    ensures
        match r {
            Ok(v) => {
                &&& forall|j: int| 0 <= j < rows.len() ==> row_readable((#[trigger] rows[j])@)
                &&& v@ == ValueView::Array(Seq::new(rows@.len(), |j: int| row_value(rows[j]@)))
            },
            Err(e) => exists|at: int, idx: int|
                {
                    &&& #[trigger] first_bad_row(rows@, at)
                    &&& #[trigger] first_bad_cell(rows[at]@, idx)
                    &&& is_cell_error(e, cell_value(rows[at]@, idx)->Err_0, idx)
                },
        },
{
    let mut out: Vec<Value> = Vec::new();
    let mut i: usize = 0;
    while i < rows.len()
        invariant
            i <= rows.len(),
            out.len() == i,
            forall|j: int| 0 <= j < i ==> row_readable((#[trigger] rows[j])@),
            forall|j: int| 0 <= j < i ==> (#[trigger] out[j])@ == row_value(rows[j]@),
        decreases rows.len() - i,
    {
        match map_row(&rows[i]) {
            Ok(v) => {
                out.push(v);
            },
            Err(e) => {
                assert(first_bad_row(rows@, i as int));
                return Err(e);
            },
        }
        i += 1;
    }
    proof {
        Value::lemma_array_view(out);
        assert(array_view(out@) =~= Seq::new(rows@.len(), |j: int| row_value(rows[j]@)));
    }
    Ok(Value::Array(out))
}

/// Builds [`SqlHandler`]s.
#[derive(Debug)]
pub struct SqlBuilder;

impl SqlBuilder {
    /// A new handler, not yet configured. Building one never fails.
    pub fn build(&self) -> (r: Result<SqlHandler, AncymonError>)
        ensures
            r matches Ok(handler) && handler.connection()@.len() == 0,
    {
        Ok(SqlHandler::default())
    }
}

} // verus!
