//! What the test servers are told: slots for those that may run at once, names of
//! databases, and the commands that fill tables.
use crate::iceberg_landing::Primitive;
use crate::key::str_same;
use crate::text::{
    chars_of, concat, concat3, concat4, join, joined, nat_text, texts, u64_text, usize_text,
};
use crate::words::small;
use vstd::prelude::*;
use vstd::string::StringExecFns;

verus! {

/// Bounds how many servers run at once: each holds one of the marker files `slot-0`,
/// `slot-1` and so on of a directory.
#[derive(Debug)]
pub struct BootThrottle {
    pub dir: String,
    pub slots: usize,
}

/// What the search for a free slot does next.
#[derive(Debug)]
pub enum SlotStep {
    /// Try to lock the file of this name in the directory.
    Try { file: String },
    /// All are taken: wait so many milliseconds, then start over.
    Wait { millis: u64 },
    /// Give up, with this message.
    GiveUp { message: String },
}

/// How long a search for a free slot goes on, in milliseconds.
pub const SLOT_DEADLINE: u64 = 120_000;

/// How long is waited between two searches, in milliseconds.
pub const SLOT_PAUSE: u64 = 25;

impl BootThrottle {
    /// A throttle of so many slots, but at least one.
    pub fn new(dir: String, slots: usize) -> (r: Self)
        ensures
            r.dir == dir,
            r.slots == (if slots >= 1 {
                slots
            } else {
                1
            }),
    {
        BootThrottle {
            dir,
            slots: if slots >= 1 {
                slots
            } else {
                1
            },
        }
    }

    /// What the search does next: `slot` is the next to try, where those before it are
    /// taken, and `elapsed` how many milliseconds the search has gone on.
    pub fn acquire(&self, slot: usize, elapsed: u64) -> (r: SlotStep)
        ensures
            match r {
                SlotStep::Try { file } => slot < self.slots && file@ == "slot-"@ + nat_text(
                    slot as nat,
                ),
                SlotStep::Wait { millis } => slot >= self.slots && elapsed < SLOT_DEADLINE && millis
                    == SLOT_PAUSE,
                SlotStep::GiveUp { message } => slot >= self.slots && elapsed >= SLOT_DEADLINE
                    && message@
                    == "could not acquire a pg fixture boot slot within 120s (LOOM_PG_FIXTURE_SLOTS too low, or slots leaked?)"@,
            },
    {
        if slot < self.slots {
            SlotStep::Try { file: concat("slot-", usize_text(slot).as_str()) }
        } else if elapsed >= SLOT_DEADLINE {
            SlotStep::GiveUp {
                message:
                    "could not acquire a pg fixture boot slot within 120s (LOOM_PG_FIXTURE_SLOTS too low, or slots leaked?)".to_owned(),
            }
        } else {
            SlotStep::Wait { millis: SLOT_PAUSE }
        }
    }
}

/// How many slots there are where nothing is said.
pub const DEFAULT_SLOTS: usize = 8;

/// The throttle of all test servers of a machine, from what the environment says of
/// it. A number that cannot be read, or is zero, counts as nothing said.
pub fn boot_throttle(slots: Option<usize>, dir: Option<String>) -> (r: BootThrottle)
    ensures
        r.slots == (match slots {
            Some(n) => if n > 0 {
                n
            } else {
                DEFAULT_SLOTS
            },
            None => DEFAULT_SLOTS,
        }),
        match dir {
            Some(d) => r.dir == d,
            None => r.dir@ == "/tmp/loom-pg-fixture-slots"@,
        },
{
    let slots: usize = match slots {
        Some(n) => if n > 0 {
            n
        } else {
            DEFAULT_SLOTS
        },
        None => DEFAULT_SLOTS,
    };
    let dir: String = match dir {
        Some(d) => d,
        None => "/tmp/loom-pg-fixture-slots".to_owned(),
    };
    BootThrottle::new(dir, slots)
}

/// The address of a database of a server that listens in a directory.
pub fn pg_dsn(db: &str, socket_dir: &str) -> (r: String)
    ensures
        r@ == "postgres://postgres@localhost/"@ + db@ + "?host="@ + socket_dir@,
{
    concat4("postgres://postgres@localhost/", db, "?host=", socket_dir)
}

/// The name of the `n`-th database of a process.
pub fn database_name(process: u32, n: u64) -> (r: String)
    ensures
        r@ == "loom_test_"@ + nat_text(process as nat) + "_"@ + nat_text(n as nat),
{
    concat4("loom_test_", u64_text(process as u64).as_str(), "_", u64_text(n).as_str())
}

/// A column of a table to fill: its name, its type, and whether it may be null.
#[derive(Debug)]
pub struct SeedColumn {
    pub name: String,
    pub ty: String,
    pub nullable: bool,
}

/// Where the catalog of a test is: the extensions, the database, the directory that
/// its server listens in, and the directory of the data.
#[derive(Debug)]
pub struct Lake {
    pub extension_dir: String,
    pub db: String,
    pub socket: String,
    pub data_dir: String,
}

/// The commands that open the catalog of a test.
pub open spec fn opening(lake: Lake) -> Seq<char> {
    "SET extension_directory='"@ + lake.extension_dir@
        + "';\nLOAD ducklake;\nLOAD postgres_scanner;\nATTACH 'ducklake:postgres:dbname="@ + lake.db@
        + " host="@ + lake.socket@ + " user=postgres' AS lake (DATA_PATH '"@ + lake.data_dir@
        + "/', DATA_INLINING_ROW_LIMIT 0);\n"@
}

/// The commands that open the catalog of a test.
pub fn preamble(lake: &Lake) -> (r: String)
    ensures
        r@ == opening(*lake),
{
    let mut s: String = "SET extension_directory='".to_owned();
    s.append(lake.extension_dir.as_str());
    s.append("';\nLOAD ducklake;\nLOAD postgres_scanner;\nATTACH 'ducklake:postgres:dbname=");
    s.append(lake.db.as_str());
    s.append(" host=");
    s.append(lake.socket.as_str());
    s.append(" user=postgres' AS lake (DATA_PATH '");
    s.append(lake.data_dir.as_str());
    s.append("/', DATA_INLINING_ROW_LIMIT 0);\n");
    s
}

/// `int` stands at this place of a text, in letters of either case.
pub open spec fn int_at(t: Seq<char>, i: int) -> bool {
    0 <= i && i + 2 < t.len() && small(t[i]) == 'i' && small(t[i + 1]) == 'n' && small(t[i + 2]) == 't'
}

/// `int` stands somewhere in a text, in letters of either case.
pub open spec fn mentions_int(t: Seq<char>) -> bool {
    exists|i: int| #[trigger] int_at(t, i)
}

/// What a row holds in a column: a count for a type that mentions integers, else a
/// fixed value made to fit.
pub open spec fn row_expr(ty: Seq<char>) -> Seq<char> {
    if mentions_int(ty) {
        "i"@
    } else {
        "CAST('x' AS "@ + ty + ")"@
    }
}

fn has_int(ty: &str) -> (r: bool)
    ensures
        r == mentions_int(ty@),
{
    let chars: Vec<char> = chars_of(ty);
    let n: usize = chars.len();
    let mut i: usize = 0;
    while i < n && n - i > 2
        invariant
            n == chars@.len(),
            chars@ == ty@,
            i <= n,
            forall|j: int| 0 <= j < i ==> !#[trigger] int_at(ty@, j),
        decreases n - i,
    {
        let a: char = chars[i];
        let b: char = chars[i + 1];
        let c: char = chars[i + 2];
        if (a == 'i' || a == 'I') && (b == 'n' || b == 'N') && (c == 't' || c == 'T') {
            assert(int_at(ty@, i as int));
            return true;
        }
        proof {
            assert(small(a) == 'i' <==> (a == 'i' || a == 'I'));
            assert(small(b) == 'n' <==> (b == 'n' || b == 'N'));
            assert(small(c) == 't' <==> (c == 't' || c == 'T'));
            assert(!int_at(ty@, i as int));
        }
        i = i + 1;
    }
    false
}

/// What a row holds, column by column.
pub open spec fn row_texts(columns: Seq<SeedColumn>) -> Seq<Seq<char>> {
    Seq::new(columns.len(), |i: int| row_expr(columns[i].ty@))
}

/// What a row holds, column by column.
pub fn row_exprs(columns: &Vec<SeedColumn>) -> (r: String)
    ensures
        r@ == joined(row_texts(columns@), ", "@),
{
    let mut parts: Vec<String> = Vec::new();
    let mut i: usize = 0;
    while i < columns.len()
        invariant
            i <= columns@.len(),
            parts@.len() == i,
            forall|j: int| 0 <= j < i ==> #[trigger] parts@[j]@ == row_expr(columns@[j].ty@),
        decreases columns@.len() - i,
    {
        let ty: &str = columns[i].ty.as_str();
        if has_int(ty) {
            parts.push("i".to_owned());
        } else {
            parts.push(concat3("CAST('x' AS ", ty, ")"));
        }
        i = i + 1;
    }
    assert(texts(parts@) =~= row_texts(columns@));
    join(&parts, ", ")
}

/// How a column is declared.
pub open spec fn column_def(c: SeedColumn) -> Seq<char> {
    c.name@ + " "@ + c.ty@ + (if c.nullable {
        Seq::empty()
    } else {
        " NOT NULL"@
    })
}

/// How columns are declared.
pub open spec fn column_defs(columns: Seq<SeedColumn>) -> Seq<Seq<char>> {
    Seq::new(columns.len(), |i: int| column_def(columns[i]))
}

fn define_columns(columns: &Vec<SeedColumn>) -> (r: String)
    ensures
        r@ == joined(column_defs(columns@), ", "@),
{
    let mut parts: Vec<String> = Vec::new();
    let mut i: usize = 0;
    while i < columns.len()
        invariant
            i <= columns@.len(),
            parts@.len() == i,
            forall|j: int| 0 <= j < i ==> #[trigger] parts@[j]@ == column_def(columns@[j]),
        decreases columns@.len() - i,
    {
        let c: &SeedColumn = &columns[i];
        let mut s: String = concat3(c.name.as_str(), " ", c.ty.as_str());
        if !c.nullable {
            s.append(" NOT NULL");
        }
        assert(s@ =~= column_def(*c));
        parts.push(s);
        i = i + 1;
    }
    assert(texts(parts@) =~= column_defs(columns@));
    join(&parts, ", ")
}

/// The command that adds a file of `n` rows.
pub open spec fn insert_rows(
    schema: Seq<char>,
    table: Seq<char>,
    columns: Seq<SeedColumn>,
    n: nat,
) -> Seq<char> {
    "INSERT INTO lake."@ + schema + "."@ + table + " SELECT "@ + joined(row_texts(columns), ", "@)
        + " FROM range("@ + nat_text(n) + ") t(i);\n"@
}

/// The commands that add files of so many rows each.
pub open spec fn insert_batches(
    schema: Seq<char>,
    table: Seq<char>,
    columns: Seq<SeedColumn>,
    batches: Seq<usize>,
) -> Seq<char>
    decreases batches.len(),
{
    if batches.len() == 0 {
        Seq::empty()
    } else {
        insert_batches(schema, table, columns, batches.drop_last()) + insert_rows(
            schema,
            table,
            columns,
            batches.last() as nat,
        )
    }
}

/// The commands that create a table where it is missing and add a file for each
/// number of rows.
pub fn seed(
    lake: &Lake,
    schema: &str,
    table: &str,
    columns: &Vec<SeedColumn>,
    batches: &Vec<usize>,
) -> (r: String)
    ensures
        r@ == opening(*lake) + "CREATE TABLE IF NOT EXISTS lake."@ + schema@ + "."@ + table@ + " ("@
            + joined(column_defs(columns@), ", "@) + ");\n"@ + insert_batches(
            schema@,
            table@,
            columns@,
            batches@,
        ),
{
    let mut s: String = preamble(lake);
    s.append("CREATE TABLE IF NOT EXISTS lake.");
    s.append(schema);
    s.append(".");
    s.append(table);
    s.append(" (");
    s.append(define_columns(columns).as_str());
    s.append(");\n");
    let ghost head = s@;
    let exprs: String = row_exprs(columns);
    let mut i: usize = 0;
    assert(batches@.take(0) =~= Seq::empty());
    assert(s@ =~= head + insert_batches(schema@, table@, columns@, batches@.take(0)));
    while i < batches.len()
        invariant
            i <= batches@.len(),
            exprs@ == joined(row_texts(columns@), ", "@),
            s@ == head + insert_batches(schema@, table@, columns@, batches@.take(i as int)),
        decreases batches@.len() - i,
    {
        let ghost before = s@;
        let mut one: String = "INSERT INTO lake.".to_owned();
        one.append(schema);
        one.append(".");
        one.append(table);
        one.append(" SELECT ");
        one.append(exprs.as_str());
        one.append(" FROM range(");
        one.append(usize_text(batches[i]).as_str());
        one.append(") t(i);\n");
        s.append(one.as_str());
        assert(batches@.take(i + 1).drop_last() =~= batches@.take(i as int));
        assert(s@ =~= head + insert_batches(schema@, table@, columns@, batches@.take(i + 1)));
        i = i + 1;
    }
    assert(batches@.take(i as int) =~= batches@);
    s
}

/// The commands that drop a table.
pub fn drop_sql(lake: &Lake, schema: &str, table: &str) -> (r: String)
    ensures
        r@ == opening(*lake) + "DROP TABLE lake."@ + schema@ + "."@ + table@ + ";\n"@,
{
    let mut s: String = preamble(lake);
    s.append("DROP TABLE lake.");
    s.append(schema);
    s.append(".");
    s.append(table);
    s.append(";\n");
    s
}

/// The values of a column to fill.
#[derive(Debug)]
pub enum SeedCol {
    /// Whole numbers.
    Long(Vec<i64>),
    /// Whole numbers, some of them missing.
    NullableLong(Vec<Option<i64>>),
    /// Texts.
    Str(Vec<String>),
}

impl SeedCol {
    /// How many values there are.
    pub open spec fn count(&self) -> nat {
        match self {
            SeedCol::Long(v) => v@.len(),
            SeedCol::NullableLong(v) => v@.len(),
            SeedCol::Str(v) => v@.len(),
        }
    }

    /// How many values there are.
    pub fn len(&self) -> (r: usize)
        ensures
            r == self.count(),
    {
        match self {
            SeedCol::Long(v) => v.len(),
            SeedCol::NullableLong(v) => v.len(),
            SeedCol::Str(v) => v.len(),
        }
    }
}

/// The primitive type of a logical type name, where there is one.
pub fn iceberg_type(logical: &str) -> (r: Option<Primitive>)
    ensures
        r == (if logical@ == "long"@ {
            Some(Primitive::Long)
        } else if logical@ == "integer"@ {
            Some(Primitive::Int)
        } else if logical@ == "double"@ {
            Some(Primitive::Double)
        } else if logical@ == "boolean"@ {
            Some(Primitive::Boolean)
        } else if logical@ == "string"@ {
            Some(Primitive::String)
        } else if logical@ == "date"@ {
            Some(Primitive::Date)
        } else if logical@ == "timestamp"@ {
            Some(Primitive::Timestamp)
        } else {
            None
        }),
{
    if str_same(logical, "long") {
        Some(Primitive::Long)
    } else if str_same(logical, "integer") {
        Some(Primitive::Int)
    } else if str_same(logical, "double") {
        Some(Primitive::Double)
    } else if str_same(logical, "boolean") {
        Some(Primitive::Boolean)
    } else if str_same(logical, "string") {
        Some(Primitive::String)
    } else if str_same(logical, "date") {
        Some(Primitive::Date)
    } else if str_same(logical, "timestamp") {
        Some(Primitive::Timestamp)
    } else {
        None
    }
}

/// The values of a generated column of `rows` rows: numbers count up from 0, texts
/// number the rows. Other types are not generated.
pub fn column_array(ty: Primitive, rows: usize) -> (r: Option<SeedCol>)
    requires
        rows <= i64::MAX,
    ensures
        match ty {
            Primitive::Long => r matches Some(SeedCol::Long(v)) && v@.len() == rows && forall|i: int|
                0 <= i < rows ==> #[trigger] v@[i] == i,
            Primitive::String => r matches Some(SeedCol::Str(v)) && v@.len() == rows && forall|i: int|
                0 <= i < rows ==> (#[trigger] v@[i])@ == "row"@ + nat_text(i as nat),
            _ => r is None,
        },
{
    match ty {
        Primitive::Long => {
            let mut v: Vec<i64> = Vec::new();
            let mut i: usize = 0;
            while i < rows
                invariant
                    i <= rows <= i64::MAX,
                    v@.len() == i,
                    forall|j: int| 0 <= j < i ==> #[trigger] v@[j] == j,
                decreases rows - i,
            {
                v.push(i as i64);
                i = i + 1;
            }
            Some(SeedCol::Long(v))
        },
        Primitive::String => {
            let mut v: Vec<String> = Vec::new();
            let mut i: usize = 0;
            while i < rows
                invariant
                    i <= rows,
                    v@.len() == i,
                    forall|j: int|
                        0 <= j < i ==> (#[trigger] v@[j])@ == "row"@ + nat_text(j as nat),
                decreases rows - i,
            {
                v.push(concat("row", usize_text(i).as_str()));
                i = i + 1;
            }
            Some(SeedCol::Str(v))
        },
        _ => None,
    }
}

/// Where a table of a warehouse directory is kept.
pub fn warehouse_location(warehouse: &str, namespace: &str, name: &str) -> (r: String)
    ensures
        r@ == "file://"@ + warehouse@ + "/"@ + namespace@ + "/"@ + name@,
{
    let mut s: String = "file://".to_owned();
    s.append(warehouse);
    s.append("/");
    s.append(namespace);
    s.append("/");
    s.append(name);
    s
}

} // verus!
