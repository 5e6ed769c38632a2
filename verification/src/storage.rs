//! The statements that store a frame: one table per pair, one row per frame.
use vstd::prelude::*;
use crate::decimal::{decimal, decimal_text, signed_decimal};
use crate::frame::Frame;
use crate::record::{CryptoFiat, arrange_vec, row_spec, row_text};

verus! {

/// What comes before the table's name in the statement that creates a pair's table.
pub const CREATE_HEAD: &'static str = "CREATE TABLE IF NOT EXISTS ";

/// What comes before the table's name in the statement that adds a row.
pub const INSERT_HEAD: &'static str = "INSERT INTO ";

/// What opens the list of columns after the table's name.
pub const LIST_OPEN: &'static str = " (\n";

/// What starts the line of a column.
pub const COLUMN_INDENT: &'static str = "                    ";

/// What starts the line of a parameter, up to its number.
pub const PARAM_INDENT: &'static str = "                        ?";

/// What ends the line of a column or parameter that another follows.
pub const MORE: &'static str = ",\n";

/// What ends the line of the last column or parameter.
pub const LAST: &'static str = "\n";

/// What closes the list of columns of the statement that creates a table.
pub const CREATE_CLOSE: &'static str = "                  )";

/// What closes the list of columns and opens the list of values of the
/// statement that adds a row.
pub const VALUES_OPEN: &'static str = "                    ) VALUES (\n";

/// What closes the list of values of the statement that adds a row.
pub const INSERT_CLOSE: &'static str = "                    )";

/// The columns of a pair's table, in order: each name, and what declares its
/// type after the name.
pub open spec fn column_defs() -> Seq<(Seq<char>, Seq<char>)> {
    seq![
        ("timestamp"@, "              INTERGER NOT NULL"@),
        ("last_update"@, "            INTEGER NOT NULL"@),
        ("price"@, "    REAL NOT NULL"@),
        ("last_market"@, "    TEXT NOT NULL"@),
        ("last_volume_crypto"@, "    REAL NOT NULL"@),
        ("volume_hour_crypto"@, "    REAL NOT NULL"@),
        ("volume_day_crypto"@, "    REAL NOT NULL"@),
        ("volume_24_hour_crypto"@, "    REAL NOT NULL"@),
        ("total_volume_24_hour_crypto"@, " REAL NOT NULL"@),
        ("last_volume_fiat"@, "    REAL NOT NULL"@),
        ("volume_hour_fiat"@, "    REAL NOT NULL"@),
        ("volume_day_fiat"@, "    REAL NOT NULL"@),
        ("volume_24_hour_fiat"@, "    REAL NOT NULL"@),
        ("total_volume_24_hour_fiat"@, "    REAL NOT NULL"@),
        ("change_day"@, "    REAL NOT NULL"@),
        ("change_pct_day"@, "    REAL NOT NULL"@),
        ("change_24_hour"@, "    REAL NOT NULL"@),
        ("change_pct_24_hour"@, "    REAL NOT NULL"@),
        ("supply"@, "    REAL NOT NULL"@),
        ("market_cap"@, "    REAL NOT NULL"@),
        ("open_hour"@, "    REAL NOT NULL"@),
        ("high_hour"@, "    REAL NOT NULL"@),
        ("low_hour"@, "    REAL NOT NULL"@),
        ("open_day"@, "    REAL NOT NULL"@),
        ("high_day"@, "    REAL NOT NULL"@),
        ("low_day"@, "    REAL NOT NULL"@),
        ("open_24_hour"@, "    REAL NOT NULL"@),
        ("high_24_hour"@, "    REAL NOT NULL"@),
        ("low_24_hour"@, "    REAL NOT NULL"@)
    ]
}

/// The names of the columns of a pair's table, in order.
pub open spec fn column_names() -> Seq<Seq<char>> {
    column_defs().map_values(|d: (Seq<char>, Seq<char>)| d.0)
}

/// The value that goes into the column called `name` for quote `q` taken at
/// `timestamp`: the text of the quote's field of that name (the timestamp for
/// `timestamp`); none for a name that no column has.
pub open spec fn column_value(name: Seq<char>, q: CryptoFiat, timestamp: u64) -> Option<Seq<char>> {
    if false {
        None
    } else if name == "timestamp"@ {
        Some(decimal(timestamp as nat))
    } else if name == "last_update"@ {
        Some(signed_decimal(q.last_update as int))
    } else if name == "price"@ {
        Some(q.price@)
    } else if name == "last_market"@ {
        Some(q.last_market@)
    } else if name == "last_volume_crypto"@ {
        Some(q.last_volume_crypto@)
    } else if name == "volume_hour_crypto"@ {
        Some(q.volume_hour_crypto@)
    } else if name == "volume_day_crypto"@ {
        Some(q.volume_day_crypto@)
    } else if name == "volume_24_hour_crypto"@ {
        Some(q.volume_24_hour_crypto@)
    } else if name == "total_volume_24_hour_crypto"@ {
        Some(q.total_volume_24_hour_crypto@)
    } else if name == "last_volume_fiat"@ {
        Some(q.last_volume_fiat@)
    } else if name == "volume_hour_fiat"@ {
        Some(q.volume_hour_fiat@)
    } else if name == "volume_day_fiat"@ {
        Some(q.volume_day_fiat@)
    } else if name == "volume_24_hour_fiat"@ {
        Some(q.volume_24_hour_fiat@)
    } else if name == "total_volume_24_hour_fiat"@ {
        Some(q.total_volume_24_hour_fiat@)
    } else if name == "change_day"@ {
        Some(q.change_day@)
    } else if name == "change_pct_day"@ {
        Some(q.change_pct_day@)
    } else if name == "change_24_hour"@ {
        Some(q.change_24_hour@)
    } else if name == "change_pct_24_hour"@ {
        Some(q.change_pct_24_hour@)
    } else if name == "supply"@ {
        Some(q.supply@)
    } else if name == "market_cap"@ {
        Some(q.market_cap@)
    } else if name == "open_hour"@ {
        Some(q.open_hour@)
    } else if name == "high_hour"@ {
        Some(q.high_hour@)
    } else if name == "low_hour"@ {
        Some(q.low_hour@)
    } else if name == "open_day"@ {
        Some(q.open_day@)
    } else if name == "high_day"@ {
        Some(q.high_day@)
    } else if name == "low_day"@ {
        Some(q.low_day@)
    } else if name == "open_24_hour"@ {
        Some(q.open_24_hour@)
    } else if name == "high_24_hour"@ {
        Some(q.high_24_hour@)
    } else if name == "low_24_hour"@ {
        Some(q.low_24_hour@)
    } else {
        None
    }
}

/// What ends line `i` of a list of `n` lines.
pub open spec fn line_end(i: int, n: int) -> Seq<char> {
    if i + 1 < n {
        MORE@
    } else {
        LAST@
    }
}

/// The first `k` column declarations of a table, one per line.
pub open spec fn declarations(defs: Seq<(Seq<char>, Seq<char>)>, k: nat) -> Seq<char>
    decreases k,
{
    if k == 0 {
        Seq::empty()
    } else {
        declarations(defs, (k - 1) as nat) + COLUMN_INDENT@ + defs[k - 1].0 + defs[k - 1].1
            + line_end(k - 1, defs.len() as int)
    }
}

/// The first `k` column names of a list, one per line.
pub open spec fn column_list(names: Seq<Seq<char>>, k: nat) -> Seq<char>
    decreases k,
{
    if k == 0 {
        Seq::empty()
    } else {
        column_list(names, (k - 1) as nat) + COLUMN_INDENT@ + names[k - 1] + line_end(
            k - 1,
            names.len() as int,
        )
    }
}

/// The parameters `?1` to `?k` of a list of `n`, one per line.
pub open spec fn parameter_list(n: nat, k: nat) -> Seq<char>
    decreases k,
{
    if k == 0 {
        Seq::empty()
    } else {
        parameter_list(n, (k - 1) as nat) + PARAM_INDENT@ + decimal(k) + line_end(k - 1, n as int)
    }
}

/// The statement that creates the table of a pair unless it exists: it
/// declares the columns of `column_defs`, in order.
pub open spec fn create_table_sql(table: Seq<char>) -> Seq<char> {
    CREATE_HEAD@ + table + LIST_OPEN@ + declarations(column_defs(), column_defs().len())
        + CREATE_CLOSE@
}

/// The statement that adds one row to the table of a pair: it names the
/// columns of `column_names`, in order, and binds the `i`-th of them to the
/// parameter `?i`, that is, to the `i`-th value of the row.
pub open spec fn insert_row_sql(table: Seq<char>) -> Seq<char> {
    INSERT_HEAD@ + table + LIST_OPEN@ + column_list(column_names(), column_names().len())
        + VALUES_OPEN@ + parameter_list(column_names().len(), column_names().len()) + INSERT_CLOSE@
}

/// The columns of a pair's table, as literals.
fn column_def_list() -> (r: Vec<(&'static str, &'static str)>)
    ensures
        r@.map_values(|d: (&'static str, &'static str)| (d.0@, d.1@)) == column_defs(),
{
    let mut defs: Vec<(&'static str, &'static str)> = Vec::new();
    defs.push(("timestamp", "              INTERGER NOT NULL"));
    defs.push(("last_update", "            INTEGER NOT NULL"));
    defs.push(("price", "    REAL NOT NULL"));
    defs.push(("last_market", "    TEXT NOT NULL"));
    defs.push(("last_volume_crypto", "    REAL NOT NULL"));
    defs.push(("volume_hour_crypto", "    REAL NOT NULL"));
    defs.push(("volume_day_crypto", "    REAL NOT NULL"));
    defs.push(("volume_24_hour_crypto", "    REAL NOT NULL"));
    defs.push(("total_volume_24_hour_crypto", " REAL NOT NULL"));
    defs.push(("last_volume_fiat", "    REAL NOT NULL"));
    defs.push(("volume_hour_fiat", "    REAL NOT NULL"));
    defs.push(("volume_day_fiat", "    REAL NOT NULL"));
    defs.push(("volume_24_hour_fiat", "    REAL NOT NULL"));
    defs.push(("total_volume_24_hour_fiat", "    REAL NOT NULL"));
    defs.push(("change_day", "    REAL NOT NULL"));
    defs.push(("change_pct_day", "    REAL NOT NULL"));
    defs.push(("change_24_hour", "    REAL NOT NULL"));
    defs.push(("change_pct_24_hour", "    REAL NOT NULL"));
    defs.push(("supply", "    REAL NOT NULL"));
    defs.push(("market_cap", "    REAL NOT NULL"));
    defs.push(("open_hour", "    REAL NOT NULL"));
    defs.push(("high_hour", "    REAL NOT NULL"));
    defs.push(("low_hour", "    REAL NOT NULL"));
    defs.push(("open_day", "    REAL NOT NULL"));
    defs.push(("high_day", "    REAL NOT NULL"));
    defs.push(("low_day", "    REAL NOT NULL"));
    defs.push(("open_24_hour", "    REAL NOT NULL"));
    defs.push(("high_24_hour", "    REAL NOT NULL"));
    defs.push(("low_24_hour", "    REAL NOT NULL"));
    assert(defs@.map_values(|d: (&'static str, &'static str)| (d.0@, d.1@)) =~= column_defs());
    defs
}

/// The statement that creates the table `table` unless it exists.
pub fn create_table_statement(table: &str) -> (r: String)
    ensures
        r@ == create_table_sql(table@),
{
    let defs = column_def_list();
    let ghost dv = defs@.map_values(|d: (&'static str, &'static str)| (d.0@, d.1@));
    let n = defs.len();
    let mut r = String::from_str(CREATE_HEAD);
    r.append(table);
    r.append(LIST_OPEN);
    let ghost start = r@;
    let mut i: usize = 0;
    while i < n
        invariant
            n == defs@.len(),
            dv == defs@.map_values(|d: (&'static str, &'static str)| (d.0@, d.1@)),
            i <= n,
            r@ == start + declarations(dv, i as nat),
        decreases n - i,
    {
        let ghost before = r@;
        r.append(COLUMN_INDENT);
        r.append(defs[i].0);
        r.append(defs[i].1);
        if i + 1 < n {
            r.append(MORE);
        } else {
            r.append(LAST);
        }
        assert(dv[i as int] == (defs@[i as int].0@, defs@[i as int].1@));
        assert(r@ =~= start + declarations(dv, (i + 1) as nat));
        i = i + 1;
    }
    r.append(CREATE_CLOSE);
    r
}

/// The statement that adds one row to the table `table`.
pub fn insert_row_statement(table: &str) -> (r: String)
    ensures
        r@ == insert_row_sql(table@),
{
    let defs = column_def_list();
    let ghost dv = defs@.map_values(|d: (&'static str, &'static str)| (d.0@, d.1@));
    let ghost names = column_names();
    assert(names.len() == defs@.len());
    let n = defs.len();
    let mut r = String::from_str(INSERT_HEAD);
    r.append(table);
    r.append(LIST_OPEN);
    let ghost start = r@;
    let mut i: usize = 0;
    while i < n
        invariant
            n == defs@.len(),
            dv == defs@.map_values(|d: (&'static str, &'static str)| (d.0@, d.1@)),
            dv == column_defs(),
            names == column_names(),
            i <= n,
            r@ == start + column_list(names, i as nat),
        decreases n - i,
    {
        r.append(COLUMN_INDENT);
        r.append(defs[i].0);
        if i + 1 < n {
            r.append(MORE);
        } else {
            r.append(LAST);
        }
        assert(dv[i as int] == (defs@[i as int].0@, defs@[i as int].1@));
        assert(names[i as int] == dv[i as int].0);
        assert(r@ =~= start + column_list(names, (i + 1) as nat));
        i = i + 1;
    }
    r.append(VALUES_OPEN);
    let ghost middle = r@;
    let mut k: usize = 0;
    while k < n
        invariant
            n == names.len(),
            n <= 29,
            k <= n,
            r@ == middle + parameter_list(n as nat, k as nat),
        decreases n - k,
    {
        r.append(PARAM_INDENT);
        let number = decimal_text((k + 1) as u64);
        r.append(number.as_str());
        if k + 1 < n {
            r.append(MORE);
        } else {
            r.append(LAST);
        }
        assert(r@ =~= middle + parameter_list(n as nat, (k + 1) as nat));
        k = k + 1;
    }
    r.append(INSERT_CLOSE);
    r
}

/// Each value of a pair's row goes into the column named after the quote's
/// field that it holds: the `i`-th value of `arrange_vec`'s row is the value of
/// the `i`-th column that the statement adding the row names (and binds to
/// `?i`), and the table declares these same columns in the same order, each
/// once.
pub proof fn law_row_fills_named_columns(q: CryptoFiat, timestamp: u64, table: Seq<char>)
    ensures
        column_names().len() == row_spec(q, timestamp).len(),
        column_names().no_duplicates(),
        forall|i: int|
            0 <= i < column_names().len() ==> column_value(#[trigger] column_names()[i], q, timestamp)
                == Some(row_spec(q, timestamp)[i]),
        forall|i: int|
            0 <= i < column_defs().len() ==> (#[trigger] column_defs()[i]).0 == column_names()[i],
        insert_row_sql(table) == INSERT_HEAD@ + table + LIST_OPEN@ + column_list(
            column_names(),
            column_names().len(),
        ) + VALUES_OPEN@ + parameter_list(column_names().len(), column_names().len())
            + INSERT_CLOSE@,
        create_table_sql(table) == CREATE_HEAD@ + table + LIST_OPEN@ + declarations(
            column_defs(),
            column_defs().len(),
        ) + CREATE_CLOSE@,
{
        reveal_strlit("timestamp");
        reveal_strlit("last_update");
        reveal_strlit("price");
        reveal_strlit("last_market");
        reveal_strlit("last_volume_crypto");
        reveal_strlit("volume_hour_crypto");
        reveal_strlit("volume_day_crypto");
        reveal_strlit("volume_24_hour_crypto");
        reveal_strlit("total_volume_24_hour_crypto");
        reveal_strlit("last_volume_fiat");
        reveal_strlit("volume_hour_fiat");
        reveal_strlit("volume_day_fiat");
        reveal_strlit("volume_24_hour_fiat");
        reveal_strlit("total_volume_24_hour_fiat");
        reveal_strlit("change_day");
        reveal_strlit("change_pct_day");
        reveal_strlit("change_24_hour");
        reveal_strlit("change_pct_24_hour");
        reveal_strlit("supply");
        reveal_strlit("market_cap");
        reveal_strlit("open_hour");
        reveal_strlit("high_hour");
        reveal_strlit("low_hour");
        reveal_strlit("open_day");
        reveal_strlit("high_day");
        reveal_strlit("low_day");
        reveal_strlit("open_24_hour");
        reveal_strlit("high_24_hour");
        reveal_strlit("low_24_hour");
    let names = column_names();
    let row = row_spec(q, timestamp);
    assert(names[0] == "timestamp"@ && names[0].len() == 9);
    assert(names[0][0] == 't');
    assert(names[0][5] == 't');
    assert(names[0][7] == 'm');
    assert(names[1] == "last_update"@ && names[1].len() == 11);
    assert(names[1][0] == 'l');
    assert(names[1][5] == 'u');
    assert(names[1][7] == 'd');
    assert(names[2] == "price"@ && names[2].len() == 5);
    assert(names[2][0] == 'p');
    assert(names[3] == "last_market"@ && names[3].len() == 11);
    assert(names[3][0] == 'l');
    assert(names[3][5] == 'm');
    assert(names[3][7] == 'r');
    assert(names[4] == "last_volume_crypto"@ && names[4].len() == 18);
    assert(names[4][0] == 'l');
    assert(names[4][5] == 'v');
    assert(names[4][7] == 'l');
    assert(names[5] == "volume_hour_crypto"@ && names[5].len() == 18);
    assert(names[5][0] == 'v');
    assert(names[5][5] == 'e');
    assert(names[5][7] == 'h');
    assert(names[6] == "volume_day_crypto"@ && names[6].len() == 17);
    assert(names[6][0] == 'v');
    assert(names[6][5] == 'e');
    assert(names[6][7] == 'd');
    assert(names[7] == "volume_24_hour_crypto"@ && names[7].len() == 21);
    assert(names[7][0] == 'v');
    assert(names[7][5] == 'e');
    assert(names[7][7] == '2');
    assert(names[8] == "total_volume_24_hour_crypto"@ && names[8].len() == 27);
    assert(names[8][0] == 't');
    assert(names[8][5] == '_');
    assert(names[8][7] == 'o');
    assert(names[9] == "last_volume_fiat"@ && names[9].len() == 16);
    assert(names[9][0] == 'l');
    assert(names[9][5] == 'v');
    assert(names[9][7] == 'l');
    assert(names[10] == "volume_hour_fiat"@ && names[10].len() == 16);
    assert(names[10][0] == 'v');
    assert(names[10][5] == 'e');
    assert(names[10][7] == 'h');
    assert(names[11] == "volume_day_fiat"@ && names[11].len() == 15);
    assert(names[11][0] == 'v');
    assert(names[11][5] == 'e');
    assert(names[11][7] == 'd');
    assert(names[12] == "volume_24_hour_fiat"@ && names[12].len() == 19);
    assert(names[12][0] == 'v');
    assert(names[12][5] == 'e');
    assert(names[12][7] == '2');
    assert(names[13] == "total_volume_24_hour_fiat"@ && names[13].len() == 25);
    assert(names[13][0] == 't');
    assert(names[13][5] == '_');
    assert(names[13][7] == 'o');
    assert(names[14] == "change_day"@ && names[14].len() == 10);
    assert(names[14][0] == 'c');
    assert(names[14][5] == 'e');
    assert(names[14][7] == 'd');
    assert(names[15] == "change_pct_day"@ && names[15].len() == 14);
    assert(names[15][0] == 'c');
    assert(names[15][5] == 'e');
    assert(names[15][7] == 'p');
    assert(names[16] == "change_24_hour"@ && names[16].len() == 14);
    assert(names[16][0] == 'c');
    assert(names[16][5] == 'e');
    assert(names[16][7] == '2');
    assert(names[17] == "change_pct_24_hour"@ && names[17].len() == 18);
    assert(names[17][0] == 'c');
    assert(names[17][5] == 'e');
    assert(names[17][7] == 'p');
    assert(names[18] == "supply"@ && names[18].len() == 6);
    assert(names[18][0] == 's');
    assert(names[18][5] == 'y');
    assert(names[19] == "market_cap"@ && names[19].len() == 10);
    assert(names[19][0] == 'm');
    assert(names[19][5] == 't');
    assert(names[19][7] == 'c');
    assert(names[20] == "open_hour"@ && names[20].len() == 9);
    assert(names[20][0] == 'o');
    assert(names[20][5] == 'h');
    assert(names[20][7] == 'u');
    assert(names[21] == "high_hour"@ && names[21].len() == 9);
    assert(names[21][0] == 'h');
    assert(names[21][5] == 'h');
    assert(names[21][7] == 'u');
    assert(names[22] == "low_hour"@ && names[22].len() == 8);
    assert(names[22][0] == 'l');
    assert(names[22][5] == 'o');
    assert(names[22][7] == 'r');
    assert(names[23] == "open_day"@ && names[23].len() == 8);
    assert(names[23][0] == 'o');
    assert(names[23][5] == 'd');
    assert(names[23][7] == 'y');
    assert(names[24] == "high_day"@ && names[24].len() == 8);
    assert(names[24][0] == 'h');
    assert(names[24][5] == 'd');
    assert(names[24][7] == 'y');
    assert(names[25] == "low_day"@ && names[25].len() == 7);
    assert(names[25][0] == 'l');
    assert(names[25][5] == 'a');
    assert(names[26] == "open_24_hour"@ && names[26].len() == 12);
    assert(names[26][0] == 'o');
    assert(names[26][5] == '2');
    assert(names[26][7] == '_');
    assert(names[27] == "high_24_hour"@ && names[27].len() == 12);
    assert(names[27][0] == 'h');
    assert(names[27][5] == '2');
    assert(names[27][7] == '_');
    assert(names[28] == "low_24_hour"@ && names[28].len() == 11);
    assert(names[28][0] == 'l');
    assert(names[28][5] == '4');
    assert(names[28][7] == 'h');
    assert(column_value(names[0], q, timestamp) == Some(row[0]));
    assert(column_value(names[1], q, timestamp) == Some(row[1]));
    assert(column_value(names[2], q, timestamp) == Some(row[2]));
    assert(column_value(names[3], q, timestamp) == Some(row[3]));
    assert(column_value(names[4], q, timestamp) == Some(row[4]));
    assert(column_value(names[5], q, timestamp) == Some(row[5]));
    assert(column_value(names[6], q, timestamp) == Some(row[6]));
    assert(column_value(names[7], q, timestamp) == Some(row[7]));
    assert(column_value(names[8], q, timestamp) == Some(row[8]));
    assert(column_value(names[9], q, timestamp) == Some(row[9]));
    assert(column_value(names[10], q, timestamp) == Some(row[10]));
    assert(column_value(names[11], q, timestamp) == Some(row[11]));
    assert(column_value(names[12], q, timestamp) == Some(row[12]));
    assert(column_value(names[13], q, timestamp) == Some(row[13]));
    assert(column_value(names[14], q, timestamp) == Some(row[14]));
    assert(column_value(names[15], q, timestamp) == Some(row[15]));
    assert(column_value(names[16], q, timestamp) == Some(row[16]));
    assert(column_value(names[17], q, timestamp) == Some(row[17]));
    assert(column_value(names[18], q, timestamp) == Some(row[18]));
    assert(column_value(names[19], q, timestamp) == Some(row[19]));
    assert(column_value(names[20], q, timestamp) == Some(row[20]));
    assert(column_value(names[21], q, timestamp) == Some(row[21]));
    assert(column_value(names[22], q, timestamp) == Some(row[22]));
    assert(column_value(names[23], q, timestamp) == Some(row[23]));
    assert(column_value(names[24], q, timestamp) == Some(row[24]));
    assert(column_value(names[25], q, timestamp) == Some(row[25]));
    assert(column_value(names[26], q, timestamp) == Some(row[26]));
    assert(column_value(names[27], q, timestamp) == Some(row[27]));
    assert(column_value(names[28], q, timestamp) == Some(row[28]));
}

/// One statement to run, with the values of its parameters.
pub struct Statement {
    pub sql: String,
    pub params: Vec<String>,
}

/// The statements that store `frame`, taken at `timestamp`, in the order in
/// which they run: first the table of each pair is created where it is
/// missing, then each pair's row is added to its table. Pairs come in the order
/// of `frame.keys()`.
pub fn write_plan(frame: &Frame, timestamp: &u64) -> (r: Vec<Statement>)
    ensures
        r@.len() == 2 * frame.key_order().len(),
        forall|i: int|
            0 <= i < frame.key_order().len() ==> (#[trigger] r@[i]).sql@ == create_table_sql(
                frame.key_order()[i],
            ) && r@[i].params@.len() == 0,
        forall|i: int|
            #![trigger r@[frame.key_order().len() + i]]
            0 <= i < frame.key_order().len() ==> r@[frame.key_order().len() + i].sql@
                == insert_row_sql(frame.key_order()[i]) && row_text(
                r@[frame.key_order().len() + i].params@,
            ) == row_spec(frame@[frame.key_order()[i]], *timestamp),
        frame.key_order().no_duplicates(),
        forall|k: Seq<char>| #[trigger] frame@.contains_key(k) <==> frame.key_order().contains(k),
{
    let keys = frame.keys();
    let ghost order = frame.key_order();
    let n = keys.len();
    let mut r: Vec<Statement> = Vec::new();
    let mut i: usize = 0;
    while i < n
        invariant
            n == keys@.len(),
            keys@.map_values(|s: String| s@) == order,
            i <= n,
            r@.len() == i,
            forall|j: int|
                0 <= j < i ==> (#[trigger] r@[j]).sql@ == create_table_sql(order[j])
                    && r@[j].params@.len() == 0,
        decreases n - i,
    {
        assert(keys@[i as int]@ == order[i as int]);
        let sql = create_table_statement(keys[i].as_str());
        r.push(Statement { sql, params: Vec::new() });
        i = i + 1;
    }
    let mut i: usize = 0;
    while i < n
        invariant
            n == keys@.len(),
            keys@.map_values(|s: String| s@) == order,
            forall|k: Seq<char>| #[trigger] frame@.contains_key(k) <==> order.contains(k),
            i <= n,
            r@.len() == n + i,
            forall|j: int|
                0 <= j < n ==> (#[trigger] r@[j]).sql@ == create_table_sql(order[j])
                    && r@[j].params@.len() == 0,
            forall|j: int|
                #![trigger r@[n + j]]
                0 <= j < i ==> r@[n + j].sql@ == insert_row_sql(order[j]) && row_text(
                    r@[n + j].params@,
                ) == row_spec(frame@[order[j]], *timestamp),
        decreases n - i,
    {
        assert(keys@[i as int]@ == order[i as int]);
        assert(frame@.contains_key(order[i as int]));
        let quote = frame.quote(keys[i].as_str());
        let sql = insert_row_statement(keys[i].as_str());
        let params = arrange_vec(quote, timestamp);
        let ghost before = r@;
        r.push(Statement { sql, params });
        assert forall|j: int| 0 <= j < n implies (#[trigger] r@[j]).sql@ == create_table_sql(order[j])
            && r@[j].params@.len() == 0 by {
            assert(r@[j] == before[j]);
        }
        assert forall|j: int|
            #![trigger r@[n + j]]
            0 <= j < i + 1 implies r@[n + j].sql@ == insert_row_sql(order[j]) && row_text(
            r@[n + j].params@,
        ) == row_spec(frame@[order[j]], *timestamp) by {
            if j < i {
                assert(r@[n + j] == before[n + j]);
            }
        }
        i = i + 1;
    }
    r
}

} // verus!
