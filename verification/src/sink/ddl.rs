//! The statements that make the table, and that bring an older one up to date.

use vstd::prelude::*;
use vstd::string::*;

use crate::text::{blanks, byte_len, join, joined, opt_view, push_blanks, same, texts_view};

verus! {

/// The columns of every table, but for the time.
pub open spec fn base_columns() -> Seq<(Seq<char>, Seq<char>)> {
    seq![
        ("level"@, "LowCardinality(String)"@),
        ("trace_id"@, "String"@),
        ("span_id"@, "String"@),
        ("thread"@, "String"@),
        ("logger"@, "String"@),
        ("message"@, "String"@),
        ("file"@, "String"@),
        ("host"@, "LowCardinality(String)"@),
    ]
}

/// Logs are looked up by trace id without a range of time, for which the order
/// of the table is of no use; the index skips most of it.
pub const TRACE_ID_INDEX: &'static str = "`idx_trace_id` `trace_id` TYPE bloom_filter GRANULARITY 4";

/// A list of columns, as it is seen.
pub open spec fn columns_view(columns: Seq<(String, String)>) -> Seq<(Seq<char>, Seq<char>)> {
    columns.map_values(|c: (String, String)| (c.0@, c.1@))
}

/// Whether a list has a column of this name.
pub open spec fn has_column(columns: Seq<(Seq<char>, Seq<char>)>, name: Seq<char>) -> bool {
    exists|i: int| 0 <= i < columns.len() && #[trigger] columns[i].0 == name
}

/// `columns` with those of `extra` that are not there yet; the time is always
/// there.
pub open spec fn with_columns(
    columns: Seq<(Seq<char>, Seq<char>)>,
    extra: Seq<(Seq<char>, Seq<char>)>,
) -> Seq<(Seq<char>, Seq<char>)>
    decreases extra.len(),
{
    if extra.len() == 0 {
        columns
    } else {
        let before = with_columns(columns, extra.drop_last());
        if extra.last().0 == "timestamp"@ || has_column(before, extra.last().0) {
            before
        } else {
            before.push(extra.last())
        }
    }
}

/// The bytes of the longest name, at least those of `timestamp`.
pub open spec fn name_width(columns: Seq<(Seq<char>, Seq<char>)>) -> nat
    decreases columns.len(),
{
    if columns.len() == 0 {
        9
    } else {
        let w = name_width(columns.drop_last());
        let n = byte_len(columns.last().0);
        if n > w {
            n
        } else {
            w
        }
    }
}

/// The line of a column, its type behind the longest name.
pub open spec fn column_line(name: Seq<char>, ty: Seq<char>, width: nat) -> Seq<char> {
    "    `"@ + name + "`"@ + blanks((width - byte_len(name)) as nat) + " "@ + ty
}

/// The lines of all columns and of the index.
pub open spec fn table_lines(
    stamp_type: Seq<char>,
    columns: Seq<(Seq<char>, Seq<char>)>,
) -> Seq<Seq<char>> {
    let width = name_width(columns);
    seq![column_line("timestamp"@, stamp_type, width)] + columns.map_values(
        |c: (Seq<char>, Seq<char>)| column_line(c.0, c.1, width),
    ) + seq!["    INDEX "@ + TRACE_ID_INDEX@]
}

/// What is between the brackets of the statement that makes the table.
pub open spec fn table_body(
    stamp_type: Seq<char>,
    columns: Seq<(Seq<char>, Seq<char>)>,
) -> Seq<char> {
    joined(table_lines(stamp_type, columns), ",\n"@)
}

/// How the table is laid out.
pub const LAYOUT: &'static str = "PARTITION BY toYYYYMMDD(`timestamp`)\nORDER BY (`timestamp`, `level`, `trace_id`)\nTTL toDateTime(`timestamp`) + INTERVAL 30 DAY";

/// The changes that bring a table up to date; all of them can be made again.
pub open spec fn alter_actions(
    columns: Seq<(Seq<char>, Seq<char>)>,
    with_index: bool,
    zone_type: Option<Seq<char>>,
) -> Seq<Seq<char>> {
    columns.map_values(
        |c: (Seq<char>, Seq<char>)| "ADD COLUMN IF NOT EXISTS `"@ + c.0 + "` "@ + c.1,
    ) + (if with_index {
        seq!["ADD INDEX IF NOT EXISTS "@ + TRACE_ID_INDEX@]
    } else {
        Seq::empty()
    }) + (match zone_type {
        Some(ty) => seq!["MODIFY COLUMN `timestamp` "@ + ty],
        None => Seq::empty(),
    })
}

/// The statement that brings a table up to date.
pub open spec fn alter_text(
    db: Seq<char>,
    target: Seq<char>,
    on_cluster: Seq<char>,
    actions: Seq<Seq<char>>,
) -> Seq<char> {
    "ALTER TABLE `"@ + db + "`.`"@ + target + "`"@ + on_cluster + "\n    "@ + joined(
        actions,
        ",\n    "@,
    )
}

/// The statements for a table on one server.
pub open spec fn single_ddl(
    db: Seq<char>,
    table: Seq<char>,
    body: Seq<char>,
    alter: Seq<char>,
) -> Seq<char> {
    "CREATE TABLE IF NOT EXISTS `"@ + db + "`.`"@ + table + "`\n(\n"@ + body
        + "\n)\nENGINE = MergeTree\n"@ + LAYOUT@ + ";\n\n"@ + alter
}

/// The statements for a table on a cluster: one that holds the data on each
/// server, and one over them that is written to. `{shard}` and `{replica}` are
/// filled in by each server.
pub open spec fn cluster_ddl(
    db: Seq<char>,
    table: Seq<char>,
    local: Seq<char>,
    cluster: Seq<char>,
    body: Seq<char>,
    alter_local: Seq<char>,
    alter_table: Seq<char>,
) -> Seq<char> {
    "CREATE TABLE IF NOT EXISTS `"@ + db + "`.`"@ + local + "`"@ + on_cluster(cluster) + "\n(\n"@
        + body + "\n)\nENGINE = ReplicatedMergeTree('/clickhouse/tables/{shard}/"@ + db + "/"@
        + local + "', '{replica}')\n"@ + LAYOUT@ + ";\n\nCREATE TABLE IF NOT EXISTS `"@ + db
        + "`.`"@ + table + "`"@ + on_cluster(cluster) + "\nAS `"@ + db + "`.`"@ + local
        + "`\nENGINE = Distributed(`"@ + cluster + "`, `"@ + db + "`, `"@ + local
        + "`, rand());\n\n"@ + alter_local + ";\n\n"@ + alter_table
}

/// Where a statement for all servers of a cluster says so.
pub open spec fn on_cluster(cluster: Seq<char>) -> Seq<char> {
    " ON CLUSTER `"@ + cluster + "`"@
}

/// The type of the time's column.
pub open spec fn stamp_type(zone: Option<Seq<char>>) -> Seq<char> {
    match zone {
        Some(zone) => "DateTime64(3, '"@ + zone + "')"@,
        None => "DateTime64(3)"@,
    }
}

/// All statements, for a table with these columns beside the usual ones.
pub open spec fn ddl_text(
    db: Seq<char>,
    table: Seq<char>,
    cluster: Option<Seq<char>>,
    zone: Option<Seq<char>>,
    extra: Seq<(Seq<char>, Seq<char>)>,
) -> Seq<char> {
    let columns = with_columns(base_columns(), extra);
    let ty = stamp_type(zone);
    let zone_type = match zone {
        Some(_) => Some(ty),
        None => None,
    };
    let body = table_body(ty, columns);
    match cluster {
        None => single_ddl(
            db,
            table,
            body,
            alter_text(db, table, Seq::empty(), alter_actions(columns, true, zone_type)),
        ),
        Some(cluster) => cluster_ddl(
            db,
            table,
            table + "_local"@,
            cluster,
            body,
            alter_text(
                db,
                table + "_local"@,
                on_cluster(cluster),
                alter_actions(columns, true, zone_type),
            ),
            alter_text(
                db,
                table,
                on_cluster(cluster),
                alter_actions(columns, false, zone_type),
            ),
        ),
    }
}

fn column(name: &str, ty: &str) -> (r: (String, String))
    ensures
        r.0@ == name@,
        r.1@ == ty@,
{
    (name.to_owned(), ty.to_owned())
}

/// The columns of every table, but for the time.
pub fn base_column_list() -> (r: Vec<(String, String)>)
    ensures
        columns_view(r@) == base_columns(),
{
    let mut out: Vec<(String, String)> = Vec::new();
    out.push(column("level", "LowCardinality(String)"));
    out.push(column("trace_id", "String"));
    out.push(column("span_id", "String"));
    out.push(column("thread", "String"));
    out.push(column("logger", "String"));
    out.push(column("message", "String"));
    out.push(column("file", "String"));
    out.push(column("host", "LowCardinality(String)"));
    proof {
        assert(columns_view(out@) =~= base_columns());
    }
    out
}

fn is_column(columns: &Vec<(String, String)>, name: &str) -> (r: bool)
    ensures
        r == has_column(columns_view(columns@), name@),
{
    for i in 0..columns.len()
        invariant
            forall|k: int| 0 <= k < i ==> (#[trigger] columns_view(columns@)[k]).0 != name@,
    {
        if same(columns[i].0.as_str(), name) {
            proof {
                assert(columns_view(columns@)[i as int].0 == name@);
            }
            return true;
        }
    }
    false
}

fn all_columns(extra: &Vec<(String, String)>) -> (r: Vec<(String, String)>)
    ensures
        columns_view(r@) == with_columns(base_columns(), columns_view(extra@)),
{
    let mut out = base_column_list();
    let ghost views = columns_view(extra@);
    proof {
        assert(with_columns(base_columns(), views.take(0)) =~= base_columns());
    }
    for i in 0..extra.len()
        invariant
            views == columns_view(extra@),
            columns_view(out@) == with_columns(base_columns(), views.take(i as int)),
    {
        let ghost before = out@;
        proof {
            assert(views.take(i + 1).drop_last() =~= views.take(i as int));
        }
        let name = extra[i].0.as_str();
        if !same(name, "timestamp") && !is_column(&out, name) {
            out.push(column(name, extra[i].1.as_str()));
            proof {
                assert(columns_view(out@) =~= columns_view(before).push(views[i as int]));
            }
        }
    }
    proof {
        assert(views.take(extra@.len() as int) =~= views);
    }
    out
}

fn widest(columns: &Vec<(String, String)>) -> (r: usize)
    ensures
        r == name_width(columns_view(columns@)),
        forall|i: int|
            0 <= i < columns@.len() ==> byte_len((#[trigger] columns@[i]).0@) <= r,
        r >= 9,
{
    let ghost views = columns_view(columns@);
    let mut width: usize = 9;
    for i in 0..columns.len()
        invariant
            views == columns_view(columns@),
            width == name_width(views.take(i as int)),
            width >= 9,
            forall|k: int| 0 <= k < i ==> byte_len((#[trigger] columns@[k]).0@) <= width,
    {
        proof {
            assert(views.take(i + 1).drop_last() =~= views.take(i as int));
        }
        let n: usize = columns[i].0.as_str().as_bytes().len();
        if n > width {
            width = n;
        }
    }
    proof {
        assert(views.take(columns@.len() as int) =~= views);
    }
    width
}

fn write_column(name: &str, ty: &str, width: usize) -> (r: String)
    requires
        byte_len(name@) <= width,
    ensures
        r@ == column_line(name@, ty@, width as nat),
{
    let mut out = "    `".to_owned();
    out.append(name);
    out.append("`");
    push_blanks(&mut out, width - name.as_bytes().len());
    out.append(" ");
    out.append(ty);
    out
}

fn write_body(stamp: &str, columns: &Vec<(String, String)>) -> (r: String)
    ensures
        r@ == table_body(stamp@, columns_view(columns@)),
{
    let ghost views = columns_view(columns@);
    let width: usize = widest(columns);
    let mut lines: Vec<String> = Vec::new();
    proof {
        reveal_strlit("timestamp");
        is_ascii_word("timestamp"@);
    }
    lines.push(write_column("timestamp", stamp, width));
    let ghost first = seq![column_line("timestamp"@, stamp@, width as nat)];
    let ghost rest = views.map_values(
        |c: (Seq<char>, Seq<char>)| column_line(c.0, c.1, width as nat),
    );
    proof {
        assert(texts_view(lines@) =~= first + rest.take(0));
    }
    for i in 0..columns.len()
        invariant
            views == columns_view(columns@),
            rest == views.map_values(
                |c: (Seq<char>, Seq<char>)| column_line(c.0, c.1, width as nat),
            ),
            forall|k: int|
                0 <= k < columns@.len() ==> byte_len((#[trigger] columns@[k]).0@) <= width,
            texts_view(lines@) == first + rest.take(i as int),
    {
        let ghost before = lines@;
        let c = &columns[i];
        lines.push(write_column(c.0.as_str(), c.1.as_str(), width));
        proof {
            assert(rest.take(i + 1) =~= rest.take(i as int).push(rest[i as int]));
            assert(texts_view(lines@) =~= texts_view(before).push(rest[i as int]));
            assert(texts_view(lines@) =~= first + rest.take(i + 1));
        }
    }
    let mut index = "    INDEX ".to_owned();
    index.append(TRACE_ID_INDEX);
    let ghost before = lines@;
    lines.push(index);
    proof {
        assert(rest.take(columns@.len() as int) =~= rest);
        assert(texts_view(lines@) =~= table_lines(stamp@, views));
    }
    join(&lines, ",\n")
}

proof fn is_ascii_word(s: Seq<char>)
    requires
        vstd::utf8::is_ascii_chars(s),
    ensures
        byte_len(s) == s.len(),
{
    vstd::utf8::is_ascii_chars_encode_utf8(s);
}

fn write_alter(
    db: &str,
    target: &str,
    on: &str,
    columns: &Vec<(String, String)>,
    with_index: bool,
    zone_type: Option<&str>,
) -> (r: String)
    ensures
        r@ == alter_text(
            db@,
            target@,
            on@,
            alter_actions(
                columns_view(columns@),
                with_index,
                opt_view(zone_type),
            ),
        ),
{
    let ghost views = columns_view(columns@);
    let ghost adds = views.map_values(
        |c: (Seq<char>, Seq<char>)| "ADD COLUMN IF NOT EXISTS `"@ + c.0 + "` "@ + c.1,
    );
    let mut actions: Vec<String> = Vec::new();
    proof {
        assert(texts_view(actions@) =~= adds.take(0));
    }
    for i in 0..columns.len()
        invariant
            views == columns_view(columns@),
            adds == views.map_values(
                |c: (Seq<char>, Seq<char>)| "ADD COLUMN IF NOT EXISTS `"@ + c.0 + "` "@ + c.1,
            ),
            texts_view(actions@) == adds.take(i as int),
    {
        let ghost before = actions@;
        let c = &columns[i];
        let mut action = "ADD COLUMN IF NOT EXISTS `".to_owned();
        action.append(c.0.as_str());
        action.append("` ");
        action.append(c.1.as_str());
        actions.push(action);
        proof {
            assert(texts_view(actions@) =~= texts_view(before).push(adds[i as int]));
            assert(adds.take(i + 1) =~= adds.take(i as int).push(adds[i as int]));
        }
    }
    proof {
        assert(adds.take(columns@.len() as int) =~= adds);
    }
    if with_index {
        let mut action = "ADD INDEX IF NOT EXISTS ".to_owned();
        action.append(TRACE_ID_INDEX);
        actions.push(action);
    }
    if let Some(ty) = zone_type {
        let mut action = "MODIFY COLUMN `timestamp` ".to_owned();
        action.append(ty);
        actions.push(action);
    }
    proof {
        assert(texts_view(actions@) =~= alter_actions(
            views,
            with_index,
            opt_view(zone_type),
        ));
    }
    let mut out = "ALTER TABLE `".to_owned();
    out.append(db);
    out.append("`.`");
    out.append(target);
    out.append("`");
    out.append(on);
    out.append("\n    ");
    let list = join(&actions, ",\n    ");
    out.append(list.as_str());
    out
}

/// Writes all statements.
pub fn write_ddl(
    db: &str,
    table: &str,
    cluster: Option<&str>,
    zone: Option<&str>,
    extra: &Vec<(String, String)>,
) -> (r: String)
    ensures
        r@ == ddl_text(
            db@,
            table@,
            opt_view(cluster),
            opt_view(zone),
            columns_view(extra@),
        ),
{
    let columns = all_columns(extra);
    let ty = match zone {
        Some(zone) => {
            let mut ty = "DateTime64(3, '".to_owned();
            ty.append(zone);
            ty.append("')");
            ty
        },
        None => "DateTime64(3)".to_owned(),
    };
    let zone_type: Option<&str> = match zone {
        Some(_) => Some(ty.as_str()),
        None => None,
    };
    let body = write_body(ty.as_str(), &columns);
    let cluster = match cluster {
        None => {
            proof {
                reveal_strlit("");
                assert(""@ =~= Seq::<char>::empty());
            }
            let alter = write_alter(db, table, "", &columns, true, zone_type);
            let mut out = "CREATE TABLE IF NOT EXISTS `".to_owned();
            out.append(db);
            out.append("`.`");
            out.append(table);
            out.append("`\n(\n");
            out.append(body.as_str());
            out.append("\n)\nENGINE = MergeTree\n");
            out.append(LAYOUT);
            out.append(";\n\n");
            out.append(alter.as_str());
            return out;
        },
        Some(cluster) => cluster,
    };
    let mut local = table.to_owned();
    local.append("_local");
    let mut on = " ON CLUSTER `".to_owned();
    on.append(cluster);
    on.append("`");
    let alter_local = write_alter(db, local.as_str(), on.as_str(), &columns, true, zone_type);
    let alter_table = write_alter(db, table, on.as_str(), &columns, false, zone_type);
    let mut out = "CREATE TABLE IF NOT EXISTS `".to_owned();
    out.append(db);
    out.append("`.`");
    out.append(local.as_str());
    out.append("`");
    out.append(on.as_str());
    out.append("\n(\n");
    out.append(body.as_str());
    out.append("\n)\nENGINE = ReplicatedMergeTree('/clickhouse/tables/{shard}/");
    out.append(db);
    out.append("/");
    out.append(local.as_str());
    out.append("', '{replica}')\n");
    out.append(LAYOUT);
    out.append(";\n\nCREATE TABLE IF NOT EXISTS `");
    out.append(db);
    out.append("`.`");
    out.append(table);
    out.append("`");
    out.append(on.as_str());
    out.append("\nAS `");
    out.append(db);
    out.append("`.`");
    out.append(local.as_str());
    out.append("`\nENGINE = Distributed(`");
    out.append(cluster);
    out.append("`, `");
    out.append(db);
    out.append("`, `");
    out.append(local.as_str());
    out.append("`, rand());\n\n");
    out.append(alter_local.as_str());
    out.append(";\n\n");
    out.append(alter_table.as_str());
    out
}

} // verus!
