//! The table that events are stored in: the statements that make it, the look whether it
//! is fit, and the requests that write to it.

use vstd::prelude::*;

use crate::config::{column_type_of, Config, SinkConfig, SourceConfig};
use crate::error::{Error, ErrorView};
use crate::laws::choosing::{distinct, law_columns_are_distinct};
use crate::sink::clickhouse::{escape_literal, escaped, expected_names, gzip_bytes, lists_name};
use crate::sink::clickhouse::{missing_names, read_reply, zone_view, ClickhouseSink, HealthStep};
use crate::sink::clickhouse::Request;
use crate::sink::ddl::{alter_actions, alter_text, base_columns, column_line, columns_view};
use crate::sink::ddl::{ddl_text, has_column, name_width, stamp_type, table_body, table_lines, with_columns};
use crate::sink::ddl::TRACE_ID_INDEX;
use crate::text::{blanks, byte_len, joined, lemma_scan_unique, lemma_splits, opt_string_view};
use crate::text::{splits, texts_view, trimmed, trimmed_end_char, Stop};
use crate::value::{NumberView, Value, ValueView};

verus! {

/// How a table is laid out: a part for each day, ordered by time, level and trace, and kept for
/// thirty days.
pub open spec fn laid_out() -> Seq<char> {
    "PARTITION BY toYYYYMMDD(`timestamp`)\nORDER BY (`timestamp`, `level`, `trace_id`)\nTTL toDateTime(`timestamp`) + INTERVAL 30 DAY"@
}

/// Texts one behind the other, with another between each two of them.
pub open spec fn chained(list: Seq<Seq<char>>, sep: Seq<char>) -> Seq<char>
    decreases list.len(),
{
    if list.len() == 0 {
        Seq::empty()
    } else if list.len() == 1 {
        list[0]
    } else {
        list[0] + sep + chained(list.drop_first(), sep)
    }
}

proof fn lemma_chained_push(list: Seq<Seq<char>>, last: Seq<char>, sep: Seq<char>)
    ensures
        chained(list.push(last), sep) == if list.len() == 0 {
            last
        } else {
            chained(list, sep) + sep + last
        },
    decreases list.len(),
{
    let all = list.push(last);
    if list.len() > 0 {
        let rest = list.drop_first();
        lemma_chained_push(rest, last, sep);
        assert(all.drop_first() =~= rest.push(last));
        assert(all[0] == list[0]);
        assert(chained(all, sep) =~= chained(list, sep) + sep + last);
    }
}

proof fn lemma_chained(list: Seq<Seq<char>>, sep: Seq<char>)
    ensures
        joined(list, sep) == chained(list, sep),
    decreases list.len(),
{
    if list.len() > 1 {
        lemma_chained(list.drop_last(), sep);
        lemma_chained_push(list.drop_last(), list.last(), sep);
        assert(list.drop_last().push(list.last()) =~= list);
    }
}

/// The columns of every table beside the time, with their types.
pub open spec fn usual_columns() -> Seq<(Seq<char>, Seq<char>)> {
    seq![
        ("level"@, "LowCardinality(String)"@),
        ("trace_id"@, "String"@),
        ("span_id"@, "String"@),
        ("thread"@, "String"@),
        ("logger"@, "String"@),
        ("message"@, "String"@),
        ("file"@, "String"@),
        ("host"@, "LowCardinality(String)"@),
    ]
}

/// Whether columns are the usual ones and, behind them, all that are asked for: each name
/// once, with the type that it is first asked for with, and the time not among them.
pub open spec fn are_columns(
    columns: Seq<(Seq<char>, Seq<char>)>,
    extra: Seq<(Seq<char>, Seq<char>)>,
) -> bool {
    &&& columns.len() >= 8 && columns.take(8) == usual_columns()
    &&& distinct(columns)
    &&& forall|k: int|
        8 <= k < columns.len() ==> (#[trigger] columns[k]).0 != "timestamp"@ && is_first_of(
            extra,
            columns[k],
        )
    &&& forall|i: int|
        0 <= i < extra.len() && (#[trigger] extra[i]).0 != "timestamp"@ ==> names_column(
            columns,
            extra[i].0,
        )
}

/// Whether a column is the first of its name in a list.
pub open spec fn is_first_of(
    list: Seq<(Seq<char>, Seq<char>)>,
    column: (Seq<char>, Seq<char>),
) -> bool {
    exists|i: int|
        0 <= i < list.len() && #[trigger] list[i] == column && forall|j: int|
            0 <= j < i ==> (#[trigger] list[j]).0 != column.0
}

/// Whether there is a column of this name.
pub open spec fn names_column(columns: Seq<(Seq<char>, Seq<char>)>, name: Seq<char>) -> bool {
    exists|k: int| 0 <= k < columns.len() && (#[trigger] columns[k]).0 == name
}

proof fn lemma_are_columns(extra: Seq<(Seq<char>, Seq<char>)>)
    ensures
        are_columns(with_columns(base_columns(), extra), extra),
    decreases extra.len(),
{
    let all = with_columns(base_columns(), extra);
    law_columns_are_distinct(extra);
    assert(base_columns() =~= usual_columns());
    assert(all.take(8) =~= usual_columns());
    assert forall|i: int|
        0 <= i < extra.len() && (#[trigger] extra[i]).0 != "timestamp"@ implies names_column(
        all,
        extra[i].0,
    ) by {
        assert(has_column(all, extra[i].0));
        let k = choose|k: int| 0 <= k < all.len() && #[trigger] all[k].0 == extra[i].0;
        assert(all[k].0 == extra[i].0);
    }
    if extra.len() > 0 {
        let before = extra.drop_last();
        let had = with_columns(base_columns(), before);
        lemma_are_columns(before);
        assert forall|k: int| 8 <= k < all.len() implies (#[trigger] all[k]).0 != "timestamp"@
            && is_first_of(extra, all[k]) by {
            assert(!has_column(all, "timestamp"@));
            if k < had.len() {
                assert(all[k] == had[k]);
                let i = choose|i: int|
                    0 <= i < before.len() && #[trigger] before[i] == had[k] && forall|j: int|
                        0 <= j < i ==> (#[trigger] before[j]).0 != had[k].0;
                assert(extra[i] == before[i]);
                assert forall|j: int| 0 <= j < i implies (#[trigger] extra[j]).0 != all[k].0 by {
                    assert(before[j] == extra[j]);
                }
            } else {
                let last = extra.last();
                assert(all[k] == last);
                assert(extra[extra.len() - 1] == last);
                assert forall|j: int| 0 <= j < extra.len() - 1 implies (#[trigger] extra[j]).0
                    != last.0 by {
                    assert(before[j] == extra[j]);
                    if extra[j].0 == last.0 {
                        assert(names_column(had, before[j].0));
                        let m = choose|m: int|
                            0 <= m < had.len() && (#[trigger] had[m]).0 == before[j].0;
                        assert(had[m].0 == last.0);
                        assert(has_column(had, last.0));
                    }
                }
            }
        }
    }
}

/// Whether a line of a statement makes a column: its name, some blanks, its type.
pub open spec fn is_line_of(line: Seq<char>, name: Seq<char>, ty: Seq<char>) -> bool {
    exists|n: nat|
        n >= 1 && line == "    `"@ + name + "`"@ + #[trigger] blanks(n) + ty
}

/// Whether a text makes the time and some columns, and the index of the trace id.
pub open spec fn makes_columns(
    body: Seq<char>,
    time_type: Seq<char>,
    columns: Seq<(Seq<char>, Seq<char>)>,
) -> bool {
    exists|lines: Seq<Seq<char>>|
        {
            &&& body == #[trigger] chained(lines, ",\n"@)
            &&& lines.len() == columns.len() + 2
            &&& is_line_of(lines[0], "timestamp"@, time_type)
            &&& forall|i: int|
                1 <= i <= columns.len() ==> is_line_of(
                    #[trigger] lines[i],
                    columns[i - 1].0,
                    columns[i - 1].1,
                )
            &&& lines.last()
                == "    INDEX `idx_trace_id` `trace_id` TYPE bloom_filter GRANULARITY 4"@
        }
}

/// Whether a statement adds some columns to a table, the index where there is one, and
/// gives the time its type where a zone asks for one.
pub open spec fn adds_columns(
    alter: Seq<char>,
    head: Seq<char>,
    columns: Seq<(Seq<char>, Seq<char>)>,
    index: bool,
    time_type: Option<Seq<char>>,
) -> bool {
    exists|actions: Seq<Seq<char>>|
        {
            let n = columns.len() as int;
            &&& alter == head + "\n    "@ + #[trigger] chained(actions, ",\n    "@)
            &&& actions.len() == n + (if index {
                1int
            } else {
                0
            }) + (if time_type is Some {
                1int
            } else {
                0
            })
            &&& forall|i: int|
                0 <= i < n ==> #[trigger] actions[i] == "ADD COLUMN IF NOT EXISTS `"@
                    + columns[i].0 + "` "@ + columns[i].1
            &&& index ==> actions[n]
                == "ADD INDEX IF NOT EXISTS `idx_trace_id` `trace_id` TYPE bloom_filter GRANULARITY 4"@
            &&& time_type matches Some(ty) ==> actions.last() == "MODIFY COLUMN `timestamp` "@ + ty
        }
}

/// A table's name in a statement.
pub open spec fn table_name(db: Seq<char>, table: Seq<char>) -> Seq<char> {
    "`"@ + db + "`.`"@ + table + "`"@
}

/// The type of the time where a zone is known, and where none is.
pub open spec fn time_type(zone: Option<Seq<char>>) -> Seq<char> {
    match zone {
        Some(zone) => "DateTime64(3, '"@ + zone + "')"@,
        None => "DateTime64(3)"@,
    }
}

/// The type that the time is to be given in a table that is there already.
pub open spec fn new_time_type(zone: Option<Seq<char>>) -> Option<Seq<char>> {
    match zone {
        Some(_) => Some(time_type(zone)),
        None => None,
    }
}

/// Whether a text is the statements for a table with some columns on one server: one
/// makes it, the other brings an older one up to date.
pub open spec fn is_single(
    text: Seq<char>,
    db: Seq<char>,
    table: Seq<char>,
    zone: Option<Seq<char>>,
    columns: Seq<(Seq<char>, Seq<char>)>,
) -> bool {
    exists|body: Seq<char>, alter: Seq<char>|
        {
            &&& text == "CREATE TABLE IF NOT EXISTS "@ + table_name(db, table) + "\n(\n"@ + body
                + "\n)\nENGINE = MergeTree\n"@ + laid_out() + ";\n\n"@ + alter
            &&& #[trigger] makes_columns(body, time_type(zone), columns)
            &&& #[trigger] adds_columns(
                alter,
                "ALTER TABLE "@ + table_name(db, table),
                columns,
                true,
                new_time_type(zone),
            )
        }
}

/// Whether a text is the statements for a table with some columns on a cluster: two make
/// the table that holds the data and the one over it that is written to, and two bring
/// both up to date.
pub open spec fn is_clustered(
    text: Seq<char>,
    db: Seq<char>,
    table: Seq<char>,
    cluster: Seq<char>,
    zone: Option<Seq<char>>,
    columns: Seq<(Seq<char>, Seq<char>)>,
) -> bool {
    let local = table + "_local"@;
    let on = " ON CLUSTER `"@ + cluster + "`"@;
    exists|body: Seq<char>, first: Seq<char>, second: Seq<char>|
        {
            &&& text == "CREATE TABLE IF NOT EXISTS "@ + table_name(db, local) + on + "\n(\n"@
                + body + "\n)\nENGINE = ReplicatedMergeTree('/clickhouse/tables/{shard}/"@ + db
                + "/"@ + local + "', '{replica}')\n"@ + laid_out()
                + ";\n\nCREATE TABLE IF NOT EXISTS "@ + table_name(db, table) + on + "\nAS "@
                + table_name(db, local) + "\nENGINE = Distributed(`"@ + cluster + "`, `"@ + db
                + "`, `"@ + local + "`, rand());\n\n"@ + first + ";\n\n"@ + second
            &&& #[trigger] makes_columns(body, time_type(zone), columns)
            &&& #[trigger] adds_columns(
                first,
                "ALTER TABLE "@ + table_name(db, local) + on,
                columns,
                true,
                new_time_type(zone),
            )
            &&& #[trigger] adds_columns(
                second,
                "ALTER TABLE "@ + table_name(db, table) + on,
                columns,
                false,
                new_time_type(zone),
            )
        }
}

/// Whether a text is the statements for a table with some columns.
pub open spec fn is_ddl(
    text: Seq<char>,
    db: Seq<char>,
    table: Seq<char>,
    cluster: Option<Seq<char>>,
    zone: Option<Seq<char>>,
    columns: Seq<(Seq<char>, Seq<char>)>,
) -> bool {
    match cluster {
        None => is_single(text, db, table, zone, columns),
        Some(cluster) => is_clustered(text, db, table, cluster, zone, columns),
    }
}

proof fn lemma_width(columns: Seq<(Seq<char>, Seq<char>)>, k: int)
    requires
        0 <= k < columns.len(),
    ensures
        byte_len(columns[k].0) <= name_width(columns),
    decreases columns.len(),
{
    if k < columns.len() - 1 {
        lemma_width(columns.drop_last(), k);
    }
}

proof fn lemma_width_least(columns: Seq<(Seq<char>, Seq<char>)>)
    ensures
        name_width(columns) >= 9,
    decreases columns.len(),
{
    if columns.len() > 0 {
        lemma_width_least(columns.drop_last());
    }
}

proof fn lemma_line_of(name: Seq<char>, ty: Seq<char>, width: nat)
    requires
        byte_len(name) <= width,
    ensures
        is_line_of(column_line(name, ty, width), name, ty),
{
    reveal_strlit(" ");
    let n = (width - byte_len(name)) as nat;
    assert(column_line(name, ty, width) =~= "    `"@ + name + "`"@ + blanks(n + 1) + ty);
}

proof fn lemma_makes_columns(time: Seq<char>, columns: Seq<(Seq<char>, Seq<char>)>)
    ensures
        makes_columns(table_body(time, columns), time, columns),
{
    let lines = table_lines(time, columns);
    let width = name_width(columns);
    lemma_chained(lines, ",\n"@);
    lemma_width_least(columns);
    reveal_strlit("timestamp");
    assert(vstd::utf8::is_ascii_chars("timestamp"@));
    vstd::utf8::is_ascii_chars_encode_utf8("timestamp"@);
    lemma_line_of("timestamp"@, time, width);
    assert forall|i: int| 1 <= i <= columns.len() implies is_line_of(
        #[trigger] lines[i],
        columns[i - 1].0,
        columns[i - 1].1,
    ) by {
        lemma_width(columns, i - 1);
        lemma_line_of(columns[i - 1].0, columns[i - 1].1, width);
    }
    lemma_index_words();
}

proof fn lemma_index_words()
    ensures
        "    INDEX "@ + TRACE_ID_INDEX@
            == "    INDEX `idx_trace_id` `trace_id` TYPE bloom_filter GRANULARITY 4"@,
        "ADD INDEX IF NOT EXISTS "@ + TRACE_ID_INDEX@
            == "ADD INDEX IF NOT EXISTS `idx_trace_id` `trace_id` TYPE bloom_filter GRANULARITY 4"@,
{
    reveal_strlit("    INDEX ");
    reveal_strlit("ADD INDEX IF NOT EXISTS ");
    reveal_strlit("`idx_trace_id` `trace_id` TYPE bloom_filter GRANULARITY 4");
    reveal_strlit("    INDEX `idx_trace_id` `trace_id` TYPE bloom_filter GRANULARITY 4");
    reveal_strlit(
        "ADD INDEX IF NOT EXISTS `idx_trace_id` `trace_id` TYPE bloom_filter GRANULARITY 4",
    );
    assert("    INDEX "@ + TRACE_ID_INDEX@
        =~= "    INDEX `idx_trace_id` `trace_id` TYPE bloom_filter GRANULARITY 4"@);
    assert("ADD INDEX IF NOT EXISTS "@ + TRACE_ID_INDEX@
        =~= "ADD INDEX IF NOT EXISTS `idx_trace_id` `trace_id` TYPE bloom_filter GRANULARITY 4"@);
}

proof fn lemma_adds_columns(
    head: Seq<char>,
    columns: Seq<(Seq<char>, Seq<char>)>,
    index: bool,
    ty: Option<Seq<char>>,
)
    ensures
        adds_columns(
            head + "\n    "@ + joined(alter_actions(columns, index, ty), ",\n    "@),
            head,
            columns,
            index,
            ty,
        ),
{
    let actions = alter_actions(columns, index, ty);
    lemma_chained(actions, ",\n    "@);
    lemma_index_words();
    assert forall|i: int| 0 <= i < columns.len() implies #[trigger] actions[i]
        == "ADD COLUMN IF NOT EXISTS `"@ + columns[i].0 + "` "@ + columns[i].1 by {}
}

proof fn lemma_names(db: Seq<char>, table: Seq<char>)
    ensures
        "CREATE TABLE IF NOT EXISTS `"@ + db + "`.`"@ + table == "CREATE TABLE IF NOT EXISTS "@
            + "`"@ + db + "`.`"@ + table,
        "ALTER TABLE `"@ + db + "`.`"@ + table + "`"@ == "ALTER TABLE "@ + table_name(db, table),
{
    reveal_strlit("CREATE TABLE IF NOT EXISTS `");
    reveal_strlit("CREATE TABLE IF NOT EXISTS ");
    reveal_strlit("ALTER TABLE `");
    reveal_strlit("ALTER TABLE ");
    reveal_strlit("`");
    assert("CREATE TABLE IF NOT EXISTS `"@ =~= "CREATE TABLE IF NOT EXISTS "@ + "`"@);
    assert("ALTER TABLE `"@ =~= "ALTER TABLE "@ + "`"@);
    assert("ALTER TABLE `"@ + db + "`.`"@ + table + "`"@ =~= "ALTER TABLE "@ + table_name(
        db,
        table,
    ));
}

proof fn lemma_opening(db: Seq<char>, table: Seq<char>, on: Seq<char>)
    ensures
        "CREATE TABLE IF NOT EXISTS `"@ + db + "`.`"@ + table + "`\n(\n"@
            == "CREATE TABLE IF NOT EXISTS "@ + table_name(db, table) + "\n(\n"@,
        "CREATE TABLE IF NOT EXISTS `"@ + db + "`.`"@ + table + "`"@ + on
            == "CREATE TABLE IF NOT EXISTS "@ + table_name(db, table) + on,
{
    reveal_strlit("CREATE TABLE IF NOT EXISTS `");
    reveal_strlit("CREATE TABLE IF NOT EXISTS ");
    reveal_strlit("`");
    reveal_strlit("\n(\n");
    reveal_strlit("`\n(\n");
    assert("CREATE TABLE IF NOT EXISTS `"@ =~= "CREATE TABLE IF NOT EXISTS "@ + "`"@);
    assert("`\n(\n"@ =~= "`"@ + "\n(\n"@);
    assert("CREATE TABLE IF NOT EXISTS `"@ + db + "`.`"@ + table + "`\n(\n"@
        =~= "CREATE TABLE IF NOT EXISTS "@ + table_name(db, table) + "\n(\n"@);
    assert("CREATE TABLE IF NOT EXISTS `"@ + db + "`.`"@ + table + "`"@ + on
        =~= "CREATE TABLE IF NOT EXISTS "@ + table_name(db, table) + on);
}

proof fn lemma_middle(x: Seq<char>, db: Seq<char>, table: Seq<char>, local: Seq<char>, on: Seq<char>)
    ensures
        x + ";\n\nCREATE TABLE IF NOT EXISTS `"@ + db + "`.`"@ + table + "`"@ + on + "\nAS `"@ + db
            + "`.`"@ + local + "`\nENGINE = Distributed(`"@ == x
            + ";\n\nCREATE TABLE IF NOT EXISTS "@ + table_name(db, table) + on + "\nAS "@
            + table_name(db, local) + "\nENGINE = Distributed(`"@,
{
    reveal_strlit(";\n\nCREATE TABLE IF NOT EXISTS `");
    reveal_strlit(";\n\nCREATE TABLE IF NOT EXISTS ");
    reveal_strlit("\nAS `");
    reveal_strlit("\nAS ");
    reveal_strlit("`\nENGINE = Distributed(`");
    reveal_strlit("\nENGINE = Distributed(`");
    reveal_strlit("`");
    assert(";\n\nCREATE TABLE IF NOT EXISTS `"@ =~= ";\n\nCREATE TABLE IF NOT EXISTS "@ + "`"@);
    assert("\nAS `"@ =~= "\nAS "@ + "`"@);
    assert("`\nENGINE = Distributed(`"@ =~= "`"@ + "\nENGINE = Distributed(`"@);
    let a = x + ";\n\nCREATE TABLE IF NOT EXISTS "@;
    assert(x + ";\n\nCREATE TABLE IF NOT EXISTS `"@ + db + "`.`"@ + table + "`"@ =~= a
        + table_name(db, table));
    let b = a + table_name(db, table) + on + "\nAS "@;
    assert(a + table_name(db, table) + on + "\nAS `"@ + db + "`.`"@ + local
        + "`\nENGINE = Distributed(`"@ =~= b + table_name(db, local) + "\nENGINE = Distributed(`"@);
}

/// The statements for a table make a column for the time, for every usual part of an
/// event and for everything that is asked for beside them, and add each of them to an
/// older table, on one server as on a cluster, there to both tables.
pub proof fn law_statements_have_all_columns(
    sink: &ClickhouseSink,
    extra: &Vec<(String, String)>,
    r: String,
)
    requires
        call_ensures(ClickhouseSink::create_table_ddl_with, (sink, extra), r),
    ensures
        exists|columns: Seq<(Seq<char>, Seq<char>)>|
            are_columns(columns, columns_view(extra@)) && #[trigger] is_ddl(
                r@,
                sink.database@,
                sink.table@,
                opt_string_view(sink.cluster),
                zone_view(sink.timezone),
                columns,
            ),
{
    let columns = with_columns(base_columns(), columns_view(extra@));
    lemma_are_columns(columns_view(extra@));
    lemma_ddl(
        sink.database@,
        sink.table@,
        opt_string_view(sink.cluster),
        zone_view(sink.timezone),
        columns_view(extra@),
    );
    assert(is_ddl(
        r@,
        sink.database@,
        sink.table@,
        opt_string_view(sink.cluster),
        zone_view(sink.timezone),
        columns,
    ));
}

proof fn lemma_ddl(
    db: Seq<char>,
    table: Seq<char>,
    cluster: Option<Seq<char>>,
    zone: Option<Seq<char>>,
    extra: Seq<(Seq<char>, Seq<char>)>,
)
    ensures
        is_ddl(
            ddl_text(db, table, cluster, zone, extra),
            db,
            table,
            cluster,
            zone,
            with_columns(base_columns(), extra),
        ),
{
    let columns = with_columns(base_columns(), extra);
    let ty = time_type(zone);
    let new_ty = new_time_type(zone);
    assert(stamp_type(zone) == ty);
    let body = table_body(ty, columns);
    lemma_makes_columns(ty, columns);
    match cluster {
        None => {
            let none = Seq::<char>::empty();
            let head = "ALTER TABLE "@ + table_name(db, table);
            let alter = head + "\n    "@ + joined(alter_actions(columns, true, new_ty), ",\n    "@);
            lemma_opening(db, table, none);
            lemma_names(db, table);
            assert(head + none =~= head);
            assert(alter_text(db, table, none, alter_actions(columns, true, new_ty)) == alter);
            lemma_adds_columns(head, columns, true, new_ty);
            assert(makes_columns(body, ty, columns));
            assert(adds_columns(alter, head, columns, true, new_ty));
            assert(is_single(ddl_text(db, table, cluster, zone, extra), db, table, zone, columns));
        },
        Some(name) => {
            let local = table + "_local"@;
            let on = " ON CLUSTER `"@ + name + "`"@;
            let head1 = "ALTER TABLE "@ + table_name(db, local) + on;
            let head2 = "ALTER TABLE "@ + table_name(db, table) + on;
            let first = head1 + "\n    "@ + joined(alter_actions(columns, true, new_ty), ",\n    "@);
            let second = head2 + "\n    "@ + joined(
                alter_actions(columns, false, new_ty),
                ",\n    "@,
            );
            lemma_opening(db, local, on);
            lemma_names(db, local);
            lemma_names(db, table);
            let x = "CREATE TABLE IF NOT EXISTS "@ + table_name(db, local) + on + "\n(\n"@ + body
                + "\n)\nENGINE = ReplicatedMergeTree('/clickhouse/tables/{shard}/"@ + db + "/"@
                + local + "', '{replica}')\n"@ + laid_out();
            lemma_middle(x, db, table, local, on);
            lemma_adds_columns(head1, columns, true, new_ty);
            lemma_adds_columns(head2, columns, false, new_ty);
            assert(alter_text(db, local, on, alter_actions(columns, true, new_ty)) == first);
            assert(alter_text(db, table, on, alter_actions(columns, false, new_ty)) == second);
            assert(makes_columns(body, ty, columns));
            assert(adds_columns(first, head1, columns, true, new_ty));
            assert(adds_columns(second, head2, columns, false, new_ty));
            assert(is_clustered(
                ddl_text(db, table, cluster, zone, extra),
                db,
                table,
                name,
                zone,
                columns,
            ));
        },
    }
}

/// The statements of a sink are those for its own columns.
pub proof fn law_a_sink_prints_its_own_columns(sink: &ClickhouseSink, r: String)
    requires
        call_ensures(ClickhouseSink::create_table_ddl, (sink,), r),
    ensures
        exists|columns: Seq<(Seq<char>, Seq<char>)>|
            are_columns(columns, columns_view(sink.extra_columns@)) && #[trigger] is_ddl(
                r@,
                sink.database@,
                sink.table@,
                opt_string_view(sink.cluster),
                zone_view(sink.timezone),
                columns,
            ),
{
    let columns = with_columns(base_columns(), columns_view(sink.extra_columns@));
    lemma_are_columns(columns_view(sink.extra_columns@));
    lemma_ddl(
        sink.database@,
        sink.table@,
        opt_string_view(sink.cluster),
        zone_view(sink.timezone),
        columns_view(sink.extra_columns@),
    );
    assert(is_ddl(
        r@,
        sink.database@,
        sink.table@,
        opt_string_view(sink.cluster),
        zone_view(sink.timezone),
        columns,
    ));
}

/// The look whether a table is fit expects just the columns that the statements make.
pub proof fn law_the_look_expects_what_is_made(
    sink: &ClickhouseSink,
    r: Vec<String>,
    columns: Seq<(Seq<char>, Seq<char>)>,
    name: Seq<char>,
)
    requires
        call_ensures(ClickhouseSink::expected_columns, (sink,), r),
        are_columns(columns, columns_view(sink.extra_columns@)),
    ensures
        texts_view(r@).contains(name) <==> name == "timestamp"@ || names_column(columns, name),
{
    let extra = columns_view(sink.extra_columns@);
    let names = texts_view(r@);
    assert(names == expected_names(extra));
    assert(names[0] == "timestamp"@);
    let usual = usual_columns();
    assert(base_columns() =~= usual);
    if names.contains(name) {
        let i = names.index_of(name);
        if 1 <= i < 9 {
            assert(names[i] == usual[i - 1].0);
            assert(columns.take(8)[i - 1] == columns[i - 1]);
            assert(columns[i - 1].0 == name);
        } else if i >= 9 {
            assert(names[i] == extra[i - 9].0);
            if name != "timestamp"@ {
                assert(names_column(columns, extra[i - 9].0));
            }
        }
    }
    if names_column(columns, name) {
        let k = choose|k: int| 0 <= k < columns.len() && (#[trigger] columns[k]).0 == name;
        if k < 8 {
            assert(columns.take(8)[k] == columns[k]);
            assert(names[k + 1] == name);
        } else {
            let i = choose|i: int|
                0 <= i < extra.len() && #[trigger] extra[i] == columns[k] && forall|j: int|
                    0 <= j < i ==> (#[trigger] extra[j]).0 != columns[k].0;
            assert(names[9 + i] == name);
        }
    }
}

/// Whether a type is the one for a field: for a truth, a number with a fraction, a whole
/// number, and anything else.
pub open spec fn is_type_for(ty: Seq<char>, value: ValueView) -> bool {
    match value {
        ValueView::Bool(_) => ty == "UInt8"@,
        ValueView::Number(NumberView::Decimal(_)) => ty == "Float64"@,
        ValueView::Number(_) => ty == "Int64"@,
        _ => ty == "LowCardinality(String)"@,
    }
}

/// The column of a field has the type for its value.
pub proof fn law_fields_have_types(value: &Value, r: String)
    requires
        call_ensures(column_type_of, (value,), r),
    ensures
        is_type_for(r@, value@),
{
}

/// The columns that containers bring along.
pub open spec fn container_columns() -> Seq<(Seq<char>, Seq<char>)> {
    seq![
        ("stream"@, "LowCardinality(String)"@),
        ("namespace"@, "LowCardinality(String)"@),
        ("pod"@, "String"@),
        ("container"@, "LowCardinality(String)"@),
    ]
}

/// Whether a source reads the logs of containers.
pub open spec fn reads_containers(source: SourceConfig) -> bool {
    match source {
        SourceConfig::Kubernetes(_) => true,
        SourceConfig::File(file) => file.container_format is Cri,
    }
}

/// Whether columns are those that a configuration asks for beside the usual ones: those of
/// containers where there are any, and one for each field, with its type.
pub open spec fn are_asked_for(c: &Config, extra: Seq<(Seq<char>, Seq<char>)>) -> bool {
    let n: int = if reads_containers(c.source) {
        4
    } else {
        0
    };
    &&& extra.len() == n + c.fields.list().len()
    &&& n == 4 ==> extra.take(4) == container_columns()
    &&& forall|i: int|
        n <= i < extra.len() ==> (#[trigger] extra[i]).0 == c.fields.list()[i - n].0
            && is_type_for(extra[i].1, c.fields.list()[i - n].1@)
}

/// The statements of a configuration have the columns of containers where it reads their
/// logs, and a column for each of its fields, whether the table is on a cluster or not.
/// The console has no statements.
pub proof fn law_configured_columns_are_printed(
    c: &Config,
    r: Result<String, Error>,
    extra: Vec<(String, String)>,
)
    requires
        call_ensures(Config::ddl, (c,), r),
        call_ensures(Config::extra_columns, (c,), extra),
    ensures
        are_asked_for(c, columns_view(extra@)),
        match c.sink {
            SinkConfig::Clickhouse { database, table, cluster, .. } => r is Ok && exists|
                columns: Seq<(Seq<char>, Seq<char>)>,
            |
                are_columns(columns, columns_view(extra@)) && #[trigger] is_ddl(
                    r->Ok_0@,
                    database@,
                    table@,
                    opt_string_view(cluster),
                    None,
                    columns,
                ),
            SinkConfig::Console { .. } => r is Err,
        },
{
    let more = columns_view(extra@);
    assert(more == c.more_columns());
    if reads_containers(c.source) {
        assert(more.take(4) =~= container_columns());
    }
    let columns = with_columns(base_columns(), more);
    lemma_are_columns(more);
    if let SinkConfig::Clickhouse { database, table, cluster, .. } = c.sink {
        lemma_ddl(database@, table@, opt_string_view(cluster), None, more);
        assert(is_ddl(r->Ok_0@, database@, table@, opt_string_view(cluster), None, columns));
    }
}

/// A row of lines, each of which is one.
pub open spec fn are_lines(lines: Seq<Seq<char>>) -> bool {
    forall|i: int, j: int|
        0 <= i < lines.len() && 0 <= j < lines[i].len() ==> #[trigger] lines[i][j] != '\n'
}

proof fn lemma_lines_split(lines: Seq<Seq<char>>)
    requires
        lines.len() > 0,
        are_lines(lines),
    ensures
        splits(chained(lines, seq!['\n']), '\n') == lines,
    decreases lines.len(),
{
    let first = lines[0];
    assert forall|j: int| 0 <= j < first.len() implies !Stop::Char('\n').hit(#[trigger] first[j]) by {
        assert(lines[0][j] != '\n');
    }
    lemma_scan_unique(first, Stop::Char('\n'), first.len() as int);
    assert(splits(first, '\n') =~= seq![first]);
    if lines.len() == 1 {
        assert(lines =~= seq![first]);
    } else {
        let rest = lines.drop_first();
        assert(are_lines(rest)) by {
            assert forall|i: int, j: int| 0 <= i < rest.len() && 0 <= j < rest[i].len() implies
                #[trigger] rest[i][j] != '\n' by {
                assert(rest[i] == lines[i + 1]);
                assert(lines[i + 1][j] != '\n');
            }
        }
        lemma_lines_split(rest);
        let tail = chained(rest, seq!['\n']);
        assert(chained(lines, seq!['\n']) =~= first.push('\n') + tail);
        lemma_splits(first, tail, '\n');
        assert(seq![first] + rest =~= lines);
    }
}

proof fn lemma_missing(expected: Seq<Seq<char>>, reply: Seq<char>)
    ensures
        missing_names(expected, reply).len() == 0 <==> forall|i: int|
            0 <= i < expected.len() ==> lists_name(reply, #[trigger] expected[i]),
    decreases expected.len(),
{
    if expected.len() > 0 {
        let before = expected.drop_last();
        lemma_missing(before, reply);
        let n = expected.len() - 1;
        if missing_names(expected, reply).len() == 0 {
            assert forall|i: int| 0 <= i < expected.len() implies lists_name(
                reply,
                #[trigger] expected[i],
            ) by {
                if i < n {
                    assert(before[i] == expected[i]);
                }
            }
        }
        if forall|i: int| 0 <= i < expected.len() ==> lists_name(reply, #[trigger] expected[i]) {
            assert(lists_name(reply, expected[n]));
            assert forall|i: int| 0 <= i < before.len() implies lists_name(
                reply,
                #[trigger] before[i],
            ) by {
                assert(expected[i] == before[i]);
            }
        }
    }
}

/// Whether a name stands in a line of its own.
pub open spec fn has_line(lines: Seq<Seq<char>>, name: Seq<char>) -> bool {
    exists|i: int| 0 <= i < lines.len() && trimmed(#[trigger] lines[i]) == name
}

/// A table is found fit if and only if it is there and its columns, one in each line of
/// the server's reply, are all that are expected; else the first that fails is an error.
pub proof fn law_fit_tables_have_all_columns(
    sink: &ClickhouseSink,
    lines: Seq<Seq<char>>,
    reply: &str,
    step: HealthStep,
    r: Result<HealthStep, Error>,
)
    requires
        lines.len() > 0,
        are_lines(lines),
        reply@ == chained(lines, seq!['\n']),
        call_ensures(ClickhouseSink::health_reply, (sink, step, reply), r),
        forall|i: int| 0 <= i < sink.extra_columns@.len()
            ==> (#[trigger] sink.extra_columns@[i]).0@.len() > 0,
    ensures
        step is Ping ==> r == Ok::<HealthStep, Error>(HealthStep::Exists),
        step is Exists ==> (r is Ok <==> trimmed(reply@) == seq!['1']),
        step is Exists && r is Ok ==> r->Ok_0 is Columns,
        step is Columns ==> (r is Ok <==> {
            &&& has_line(lines, "timestamp"@)
            &&& forall|i: int|
                0 <= i < usual_columns().len() ==> has_line(lines, (#[trigger] usual_columns()[i]).0)
            &&& forall|i: int|
                0 <= i < sink.extra_columns@.len() ==> has_line(
                    lines,
                    (#[trigger] sink.extra_columns@[i]).0@,
                )
        }),
        step is Columns && r is Ok ==> r->Ok_0 is Done,
        r matches Err(e) ==> e@ is Sink,
{
    let extra = columns_view(sink.extra_columns@);
    let expected = expected_names(extra);
    let usual = usual_columns();
    reveal_strlit("1");
    assert("1"@ =~= seq!['1']);
    lemma_lines_split(lines);
    lemma_missing(expected, reply@);
    assert(base_columns() =~= usual);
    lemma_usual_named();
    assert forall|name: Seq<char>| name.len() > 0 implies #[trigger] lists_name(reply@, name)
        == has_line(lines, name) by {
        if has_line(lines, name) {
            let i = choose|i: int| 0 <= i < lines.len() && trimmed(#[trigger] lines[i]) == name;
            assert(trimmed(splits(reply@, '\n')[i]) == name);
        }
        if lists_name(reply@, name) {
            let i = choose|i: int|
                0 <= i < splits(reply@, '\n').len() && trimmed(
                    #[trigger] splits(reply@, '\n')[i],
                ) == name;
            assert(trimmed(lines[i]) == name);
        }
    }
    assert(expected[0] == "timestamp"@);
    assert forall|i: int| 0 <= i < 8 implies expected[i + 1] == (#[trigger] usual[i]).0 by {}
    assert forall|i: int| 0 <= i < sink.extra_columns@.len() implies expected[i + 9] == (
    #[trigger] sink.extra_columns@[i]).0@ by {
        assert(extra[i].0 == sink.extra_columns@[i].0@);
    }
    let fit = {
        &&& has_line(lines, "timestamp"@)
        &&& forall|i: int| 0 <= i < usual.len() ==> has_line(lines, (#[trigger] usual[i]).0)
        &&& forall|i: int|
            0 <= i < sink.extra_columns@.len() ==> has_line(
                lines,
                (#[trigger] sink.extra_columns@[i]).0@,
            )
    };
    if fit {
        assert forall|i: int| 0 <= i < expected.len() implies lists_name(
            reply@,
            #[trigger] expected[i],
        ) by {
            if 1 <= i < 9 {
                assert(expected[i] == usual[i - 1].0);
            } else if i >= 9 {
                assert(expected[i] == sink.extra_columns@[i - 9].0@);
            }
        }
    }
    if forall|i: int| 0 <= i < expected.len() ==> lists_name(reply@, #[trigger] expected[i]) {
        assert(lists_name(reply@, expected[0]));
        assert forall|i: int| 0 <= i < usual.len() implies has_line(lines, (#[trigger] usual[i]).0) by {
            assert(lists_name(reply@, expected[i + 1]));
        }
        assert forall|i: int| 0 <= i < sink.extra_columns@.len() implies has_line(
            lines,
            (#[trigger] sink.extra_columns@[i]).0@,
        ) by {
            assert(lists_name(reply@, expected[i + 9]));
        }
    }
}

proof fn lemma_usual_named()
    ensures
        "timestamp"@.len() > 0,
        forall|i: int| 0 <= i < usual_columns().len() ==> (#[trigger] usual_columns()[i]).0.len() > 0,
{
    reveal_strlit("timestamp");
    reveal_strlit("level");
    reveal_strlit("trace_id");
    reveal_strlit("span_id");
    reveal_strlit("thread");
    reveal_strlit("logger");
    reveal_strlit("message");
    reveal_strlit("file");
    reveal_strlit("host");
}

/// What the server is asked is about the table that is written to.
pub proof fn law_the_look_asks_for_the_table(
    sink: &ClickhouseSink,
    step: HealthStep,
    r: Option<String>,
)
    requires
        call_ensures(ClickhouseSink::health_query, (sink, step), r),
    ensures
        opt_string_view(r) == match step {
            HealthStep::Ping => Some("SELECT 1"@),
            HealthStep::Exists => Some("EXISTS TABLE `"@ + sink.database@ + "`.`"@ + sink.table@ + "`"@),
            HealthStep::Columns => Some(
                "SELECT name FROM system.columns WHERE database = '"@ + escaped(sink.database@)
                    + "' AND table = '"@ + escaped(sink.table@) + "' FORMAT TSV"@,
            ),
            HealthStep::Done => None,
        },
{
}

/// The text of a literal of SQL that ends at the next quote, and what follows it. A
/// backslash stands in front of a character that is meant as it is.
pub open spec fn unliteral(s: Seq<char>) -> Option<(Seq<char>, Seq<char>)>
    decreases s.len(),
{
    if s.len() == 0 {
        None
    } else if s[0] == '\'' {
        Some((Seq::empty(), s.skip(1)))
    } else if s[0] == '\\' {
        if s.len() < 2 {
            None
        } else {
            match unliteral(s.skip(2)) {
                Some((text, rest)) => Some((seq![s[1]] + text, rest)),
                None => None,
            }
        }
    } else {
        match unliteral(s.skip(1)) {
            Some((text, rest)) => Some((seq![s[0]] + text, rest)),
            None => None,
        }
    }
}

proof fn lemma_escaped_first(c: char, s: Seq<char>)
    ensures
        escaped(seq![c] + s) == (if c == '\\' || c == '\'' {
            seq!['\\', c]
        } else {
            seq![c]
        }) + escaped(s),
    decreases s.len(),
{
    let all = seq![c] + s;
    let e = if c == '\\' || c == '\'' {
        seq!['\\', c]
    } else {
        seq![c]
    };
    if s.len() == 0 {
        assert(all.drop_last() =~= Seq::<char>::empty());
        assert(all.last() == c);
        assert(escaped(all.drop_last()) =~= Seq::<char>::empty());
        assert(escaped(all) =~= e + escaped(s));
    } else {
        lemma_escaped_first(c, s.drop_last());
        assert(all.drop_last() =~= seq![c] + s.drop_last());
        assert(all.last() == s.last());
        assert(escaped(all) =~= e + escaped(s));
    }
}

/// A text in a literal of SQL is read back as that text, and the literal ends where it
/// should, whatever is in it.
pub proof fn law_literals_are_read_back(raw: &str, r: String, rest: Seq<char>)
    requires
        call_ensures(escape_literal, (raw,), r),
    ensures
        unliteral(r@ + seq!['\''] + rest) == Some((raw@, rest)),
{
    lemma_unliteral(raw@, rest);
}

proof fn lemma_unliteral(s: Seq<char>, rest: Seq<char>)
    ensures
        unliteral(escaped(s) + seq!['\''] + rest) == Some((s, rest)),
    decreases s.len(),
{
    let all = escaped(s) + seq!['\''] + rest;
    if s.len() == 0 {
        assert(s =~= Seq::<char>::empty());
        assert(all.skip(1) =~= rest);
    } else {
        let c = s[0];
        let t = s.drop_first();
        lemma_unliteral(t, rest);
        assert(seq![c] + t =~= s);
        lemma_escaped_first(c, t);
        let more = escaped(t) + seq!['\''] + rest;
        if c == '\\' || c == '\'' {
            assert(all =~= seq!['\\', c] + more);
            assert(all.skip(2) =~= more);
        } else {
            assert(all =~= seq![c] + more);
            assert(all.skip(1) =~= more);
        }
    }
}

/// A request asks for the statement that it is made of, at the sink's address, for the
/// sink's user and within its time; its body is what it was given, compressed only where
/// that is asked for and there is something to compress.
pub proof fn law_requests_say_what_is_asked(
    sink: &ClickhouseSink,
    sql: &str,
    body: Vec<u8>,
    r: Result<Request, Error>,
)
    requires
        call_ensures(ClickhouseSink::request, (sink, sql, body), r),
    ensures
        !sink.compress || body@.len() == 0 ==> r is Ok,
        r is Err ==> gzip_bytes(body@, 1) is Err,
        match r {
            Ok(q) => {
                let settings = columns_view(q.settings@);
                &&& q.endpoint@ == sink.endpoint@
                &&& q.timeout_ms == sink.timeout_ms
                &&& settings[0] == ("query"@, sql@)
                &&& settings[1] == ("date_time_input_format"@, "best_effort"@)
                &&& settings[2] == ("input_format_skip_unknown_fields"@, "1"@)
                &&& if sink.async_insert {
                    &&& settings.len() == 5
                    &&& settings[3] == ("async_insert"@, "1"@)
                    &&& settings[4] == ("wait_for_async_insert"@, "1"@)
                } else {
                    settings.len() == 3
                }
                &&& q.compressed == (sink.compress && body@.len() > 0)
                &&& if q.compressed {
                    gzip_bytes(body@, 1) == Ok::<Seq<u8>, Seq<char>>(q.body@)
                } else {
                    q.body@ == body@
                }
                &&& q.auth is Some <==> sink.user is Some && sink.password is Some
                &&& q.auth matches Some(auth) ==> auth.0@ == sink.user->0@ && auth.1@
                    == sink.password->0@
            },
            Err(e) => e@ is Io,
        },
{
}

/// A reply counts only if it says that all went well; else its words are the error.
pub proof fn law_only_success_is_a_reply(
    status: u16,
    status_text: &str,
    text: String,
    r: Result<String, Error>,
)
    requires
        call_ensures(read_reply, (status, status_text, text), r),
    ensures
        200 <= status < 300 ==> r is Ok && r->Ok_0@ == text@,
        status < 200 || status >= 300 ==> r is Err && r->Err_0@ == ErrorView::Sink(
            "ClickHouse 返回 "@ + status_text@ + ": "@ + trimmed(text@),
        ),
{
}

/// A sink is for the table that it is made for, and has what it is given; unless it is
/// asked for otherwise, bodies are compressed, a request may take half a minute, and the
/// server does not gather.
pub proof fn law_sinks_are_as_they_are_asked_for(
    endpoint: &str,
    database: &str,
    table: &str,
    s: ClickhouseSink,
    user: &str,
    password: &str,
    a: ClickhouseSink,
    ms: u64,
    t: ClickhouseSink,
    on: bool,
    g: ClickhouseSink,
    c: ClickhouseSink,
)
    requires
        call_ensures(ClickhouseSink::new, (endpoint, database, table), s),
        call_ensures(ClickhouseSink::auth, (s, user, password), a),
        call_ensures(ClickhouseSink::timeout, (s, ms), t),
        call_ensures(ClickhouseSink::async_insert, (s, on), g),
        call_ensures(ClickhouseSink::compress, (s, on), c),
    ensures
        s.endpoint@ == trimmed_end_char(endpoint@, '/'),
        s.database@ == database@ && s.table@ == table@,
        s.cluster is None && s.timezone is None && s.extra_columns@.len() == 0,
        s.user is None && s.password is None,
        s.compress && !s.async_insert && s.timeout_ms == 30_000,
        a.user is Some && a.user->0@ == user@ && a.password is Some && a.password->0@ == password@,
        t.timeout_ms == ms && g.async_insert == on && c.compress == on,
        a.database == s.database && t.database == s.database && g.database == s.database
            && c.database == s.database,
{
}

} // verus!
