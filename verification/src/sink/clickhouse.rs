//! Storing events in ClickHouse, over HTTP.

use std::io::Write;

use vstd::prelude::*;
use vstd::string::*;

use crate::error::{Error, ErrorView};
use crate::event::{timestamp_text, LogEvent};
use crate::json::object_text;
use crate::sink::ddl::{base_column_list, base_columns, columns_view, ddl_text, write_ddl};
use crate::sink::zone::{offset_at, offset_text, push_offset, stored_offset, tz_name};
use crate::sink::zone::{zone_local_offset, zone_name, zone_utc_offset};
use crate::text::{has_text, join, joined, lemma_scan, opt_string_view, same, split_once, splits};
use crate::text::{texts_view, trim, trim_end_char, trimmed, trimmed_end_char, Stop};
use crate::time::{wall_clock, Timestamp};

verus! {

/// A table of ClickHouse, and how it is written to.
pub struct ClickhouseSink {
    pub endpoint: String,
    pub database: String,
    pub table: String,
    /// The cluster, where the table is on one.
    pub cluster: Option<String>,
    /// The zone of the clock that the log's times are of.
    pub timezone: Option<chrono_tz::Tz>,
    /// Columns beside the usual ones.
    pub extra_columns: Vec<(String, String)>,
    pub user: Option<String>,
    pub password: Option<String>,
    /// How long a request may take, in milliseconds.
    pub timeout_ms: u64,
    /// Whether the server gathers batches too.
    pub async_insert: bool,
    /// Whether the body of a request is compressed.
    pub compress: bool,
}

/// The name of a zone that may be missing.
pub open spec fn zone_view(tz: Option<chrono_tz::Tz>) -> Option<Seq<char>> {
    match tz {
        Some(tz) => Some(tz_name(tz)),
        None => None,
    }
}

/// A time as it is stored: with the offset of the zone, where there is one. The
/// moment does not depend on the table's zone then.
pub open spec fn stored_stamp(zone: Option<Seq<char>>, ts: Timestamp) -> Seq<char> {
    match zone {
        Some(zone) => wall_clock(ts) + offset_text(
            stored_offset(zone_local_offset(zone, ts), zone_utc_offset(zone, ts)) as int,
        ),
        None => wall_clock(ts),
    }
}

/// The rows of a batch: a line of JSON for each event.
pub open spec fn rows_text(zone: Option<Seq<char>>, events: Seq<LogEvent>) -> Seq<char>
    decreases events.len(),
{
    if events.len() == 0 {
        Seq::empty()
    } else {
        let e = events.last();
        (rows_text(zone, events.drop_last()) + object_text(
            e.json_entries(stored_stamp(zone, e.timestamp)),
        )).push('\n')
    }
}

/// A text in a literal of SQL: quotes and backslashes are escaped.
pub open spec fn escaped(s: Seq<char>) -> Seq<char>
    decreases s.len(),
{
    if s.len() == 0 {
        Seq::empty()
    } else if s.last() == '\\' || s.last() == '\'' {
        escaped(s.drop_last()).push('\\').push(s.last())
    } else {
        escaped(s.drop_last()).push(s.last())
    }
}

/// What gzip makes of bytes at a level of compression, or what it says where it
/// fails.
pub uninterp spec fn gzip_bytes(body: Seq<u8>, level: u32) -> Result<Seq<u8>, Seq<char>>;

/// What compressing came to.
pub open spec fn packed_view(r: Result<Vec<u8>, String>) -> Result<Seq<u8>, Seq<char>> {
    match r {
        Ok(bytes) => Ok(bytes@),
        Err(e) => Err(e@),
    }
}

/// Compresses bytes with `GzEncoder`, which writes no time and no name into its
/// header, so that what comes out depends on the bytes and the level alone. Levels
/// go up to 9. What the bytes are is left unsaid.
#[verifier::external_body]
fn gzip(body: &[u8], level: u32) -> (r: Result<Vec<u8>, String>)
    requires
        level <= 9,
    ensures
        packed_view(r) == gzip_bytes(body@, level),
{
    let level = flate2::Compression::new(level);
    let mut encoder = flate2::write::GzEncoder::new(Vec::new(), level);
    encoder.write_all(body).map_err(|e| e.to_string())?;
    encoder.finish().map_err(|e| e.to_string())
}

/// The level at which bodies are compressed: the fastest. More would cost far
/// more time than it would save room.
pub const GZIP_LEVEL: u32 = 1;

/// A request that is ready to be sent.
pub struct Request {
    pub endpoint: String,
    /// What goes into the query of the address.
    pub settings: Vec<(String, String)>,
    pub body: Vec<u8>,
    /// Whether the body is compressed.
    pub compressed: bool,
    /// User and password.
    pub auth: Option<(String, String)>,
    pub timeout_ms: u64,
}

/// The settings of a request.
pub open spec fn request_settings(sql: Seq<char>, async_insert: bool) -> Seq<
    (Seq<char>, Seq<char>),
> {
    seq![
        ("query"@, sql),
        ("date_time_input_format"@, "best_effort"@),
        ("input_format_skip_unknown_fields"@, "1"@),
    ] + (if async_insert {
        seq![("async_insert"@, "1"@), ("wait_for_async_insert"@, "1"@)]
    } else {
        Seq::empty()
    })
}

/// Looking whether a table is fit to be written to, step by step.
#[derive(Clone, Copy, Debug, PartialEq, Eq, Structural)]
pub enum HealthStep {
    /// Does the server answer?
    Ping,
    /// Is there the table?
    Exists,
    /// Does it have the columns?
    Columns,
    /// It is fit.
    Done,
}

/// The names that a table's columns are to have.
pub open spec fn expected_names(extra: Seq<(Seq<char>, Seq<char>)>) -> Seq<Seq<char>> {
    seq!["timestamp"@] + base_columns().map_values(|c: (Seq<char>, Seq<char>)| c.0)
        + extra.map_values(|c: (Seq<char>, Seq<char>)| c.0)
}

/// Whether a reply, one name a line, has a name.
pub open spec fn lists_name(reply: Seq<char>, name: Seq<char>) -> bool {
    name.len() > 0 && exists|i: int|
        0 <= i < splits(reply, '\n').len() && trimmed(#[trigger] splits(reply, '\n')[i]) == name
}

/// The names that a reply does not have.
pub open spec fn missing_names(expected: Seq<Seq<char>>, reply: Seq<char>) -> Seq<Seq<char>>
    decreases expected.len(),
{
    if expected.len() == 0 {
        Seq::empty()
    } else {
        let before = missing_names(expected.drop_last(), reply);
        if lists_name(reply, expected.last()) {
            before
        } else {
            before.push(expected.last())
        }
    }
}

impl ClickhouseSink {
    /// A table at an address like `http://127.0.0.1:8123`.
    pub fn new(endpoint: &str, database: &str, table: &str) -> (r: Self)
        ensures
            r.endpoint@ == trimmed_end_char(endpoint@, '/'),
            r.database@ == database@,
            r.table@ == table@,
            r.cluster is None,
            r.timezone is None,
            r.extra_columns@ == Seq::<(String, String)>::empty(),
            r.user is None,
            r.password is None,
            r.timeout_ms == 30_000,
            !r.async_insert,
            r.compress,
    {
        ClickhouseSink {
            endpoint: trim_end_char(endpoint, '/').to_owned(),
            database: database.to_owned(),
            table: table.to_owned(),
            cluster: None,
            timezone: None,
            extra_columns: Vec::new(),
            user: None,
            password: None,
            timeout_ms: 30_000,
            async_insert: false,
            compress: true,
        }
    }

    /// Puts the table on a cluster.
    pub fn cluster(self, cluster: &str) -> (r: Self)
        ensures
            opt_string_view(r.cluster) == Some(cluster@),
            r == (ClickhouseSink { cluster: r.cluster, ..self }),
    {
        let mut sink = self;
        sink.cluster = Some(cluster.to_owned());
        sink
    }

    /// Sets the zone of the clock that the log's times are of.
    pub fn timezone(self, timezone: chrono_tz::Tz) -> (r: Self)
        ensures
            r == (ClickhouseSink { timezone: Some(timezone), ..self }),
    {
        let mut sink = self;
        sink.timezone = Some(timezone);
        sink
    }

    /// Sets the columns beside the usual ones.
    pub fn extra_columns(self, columns: Vec<(String, String)>) -> (r: Self)
        ensures
            r == (ClickhouseSink { extra_columns: columns, ..self }),
    {
        let mut sink = self;
        sink.extra_columns = columns;
        sink
    }

    /// Sets user and password.
    pub fn auth(self, user: &str, password: &str) -> (r: Self)
        ensures
            opt_string_view(r.user) == Some(user@),
            opt_string_view(r.password) == Some(password@),
            r == (ClickhouseSink { user: r.user, password: r.password, ..self }),
    {
        let mut sink = self;
        sink.user = Some(user.to_owned());
        sink.password = Some(password.to_owned());
        sink
    }

    /// Sets how long a request may take.
    pub fn timeout(self, timeout_ms: u64) -> (r: Self)
        ensures
            r == (ClickhouseSink { timeout_ms, ..self }),
    {
        let mut sink = self;
        sink.timeout_ms = timeout_ms;
        sink
    }

    /// Has the server gather batches too.
    pub fn async_insert(self, enabled: bool) -> (r: Self)
        ensures
            r == (ClickhouseSink { async_insert: enabled, ..self }),
    {
        let mut sink = self;
        sink.async_insert = enabled;
        sink
    }

    /// Sets whether the body of a request is compressed.
    pub fn compress(self, enabled: bool) -> (r: Self)
        ensures
            r == (ClickhouseSink { compress: enabled, ..self }),
    {
        let mut sink = self;
        sink.compress = enabled;
        sink
    }

    /// The statements that make the table, and that bring an older one up to
    /// date. They can be run again.
    pub fn create_table_ddl(&self) -> (r: String)
        ensures
            r@ == ddl_text(
                self.database@,
                self.table@,
                opt_string_view(self.cluster),
                zone_view(self.timezone),
                columns_view(self.extra_columns@),
            ),
    {
        self.create_table_ddl_with(&self.extra_columns)
    }

    /// The same with other columns beside the usual ones.
    pub fn create_table_ddl_with(&self, extra: &Vec<(String, String)>) -> (r: String)
        ensures
            r@ == ddl_text(
                self.database@,
                self.table@,
                opt_string_view(self.cluster),
                zone_view(self.timezone),
                columns_view(extra@),
            ),
    {
        let cluster: Option<&str> = match &self.cluster {
            Some(cluster) => Some(cluster.as_str()),
            None => None,
        };
        match &self.timezone {
            Some(tz) => {
                let zone = zone_name(tz);
                write_ddl(
                    self.database.as_str(),
                    self.table.as_str(),
                    cluster,
                    Some(zone.as_str()),
                    extra,
                )
            },
            None => write_ddl(
                self.database.as_str(),
                self.table.as_str(),
                cluster,
                None,
                extra,
            ),
        }
    }

    /// The table that holds the data on each server of a cluster.
    pub fn local_table(&self) -> (r: String)
        ensures
            r@ == self.table@ + "_local"@,
    {
        let mut out = self.table.clone();
        out.append("_local");
        out
    }

    /// The names that the table's columns are to have.
    pub fn expected_columns(&self) -> (r: Vec<String>)
        ensures
            texts_view(r@) == expected_names(columns_view(self.extra_columns@)),
    {
        let ghost extra = columns_view(self.extra_columns@);
        let ghost base = base_columns().map_values(|c: (Seq<char>, Seq<char>)| c.0);
        let ghost more = extra.map_values(|c: (Seq<char>, Seq<char>)| c.0);
        let mut out: Vec<String> = Vec::new();
        out.push("timestamp".to_owned());
        let columns = base_column_list();
        proof {
            assert(texts_view(out@) =~= seq!["timestamp"@] + base.take(0));
        }
        for i in 0..columns.len()
            invariant
                columns_view(columns@) == base_columns(),
                base == base_columns().map_values(|c: (Seq<char>, Seq<char>)| c.0),
                texts_view(out@) == seq!["timestamp"@] + base.take(i as int),
        {
            let ghost before = out@;
            out.push(columns[i].0.clone());
            proof {
                assert(columns_view(columns@)[i as int].0 == base[i as int]);
                assert(texts_view(out@) =~= texts_view(before).push(base[i as int]));
                assert(base.take(i + 1) =~= base.take(i as int).push(base[i as int]));
                assert(texts_view(out@) =~= seq!["timestamp"@] + base.take(i + 1));
            }
        }
        proof {
            assert(columns@.len() == columns_view(columns@).len());
            assert(base.take(columns@.len() as int) =~= base);
            assert(texts_view(out@) =~= seq!["timestamp"@] + base + more.take(0));
        }
        for i in 0..self.extra_columns.len()
            invariant
                extra == columns_view(self.extra_columns@),
                more == extra.map_values(|c: (Seq<char>, Seq<char>)| c.0),
                texts_view(out@) == seq!["timestamp"@] + base + more.take(i as int),
        {
            let ghost before = out@;
            out.push(self.extra_columns[i].0.clone());
            proof {
                assert(texts_view(out@) =~= texts_view(before).push(more[i as int]));
                assert(more.take(i + 1) =~= more.take(i as int).push(more[i as int]));
                assert(texts_view(out@) =~= seq!["timestamp"@] + base + more.take(i + 1));
            }
        }
        proof {
            assert(more.take(self.extra_columns@.len() as int) =~= more);
        }
        out
    }

    /// The statement that a batch is written with.
    pub fn insert_sql(&self) -> (r: String)
        ensures
            r@ == "INSERT INTO `"@ + self.database@ + "`.`"@ + self.table@
                + "` FORMAT JSONEachRow"@,
    {
        let mut sql = "INSERT INTO `".to_owned();
        sql.append(self.database.as_str());
        sql.append("`.`");
        sql.append(self.table.as_str());
        sql.append("` FORMAT JSONEachRow");
        sql
    }

    /// The rows of a batch.
    pub fn insert_rows(&self, events: &Vec<LogEvent>) -> (r: String)
        requires
            forall|i: int| 0 <= i < events@.len() ==> (#[trigger] events@[i]).wf(),
        ensures
            r@ == rows_text(zone_view(self.timezone), events@),
    {
        let mut out = String::new();
        for i in 0..events.len()
            invariant
                forall|i: int| 0 <= i < events@.len() ==> (#[trigger] events@[i]).wf(),
                out@ == rows_text(zone_view(self.timezone), events@.take(i as int)),
        {
            let event = &events[i];
            proof {
                assert(events@.take(i + 1).drop_last() =~= events@.take(i as int));
            }
            let mut stamp = timestamp_text(&event.timestamp);
            if let Some(tz) = &self.timezone {
                push_offset(&mut stamp, offset_at(tz, &event.timestamp));
            }
            let row = event.to_json_with(stamp);
            out.append(row.as_str());
            out.push('\n');
        }
        proof {
            assert(events@.take(events@.len() as int) =~= events@);
        }
        out
    }

    /// Whether a request asks for a statement with a body that may be compressed.
    pub open spec fn is_request(
        &self,
        request: &Request,
        sql: Seq<char>,
        body: Seq<u8>,
        compressed: bool,
    ) -> bool {
        &&& request.endpoint@ == self.endpoint@
        &&& columns_view(request.settings@) == request_settings(sql, self.async_insert)
        &&& request.body@ == body
        &&& request.compressed == compressed
        &&& match (request.auth, self.user, self.password) {
            (Some(auth), Some(user), Some(password)) => auth.0@ == user@ && auth.1@ == password@,
            (Some(_), _, _) => false,
            (None, Some(_), Some(_)) => false,
            (None, _, _) => true,
        }
        &&& request.timeout_ms == self.timeout_ms
    }

    /// What comes of a statement and a body: an empty body is never compressed, as
    /// gzip would only add to it. `packed` is the body as gzip makes it.
    pub open spec fn requested(
        &self,
        r: Result<Request, Error>,
        sql: Seq<char>,
        body: Seq<u8>,
        packed: Result<Seq<u8>, Seq<char>>,
    ) -> bool {
        if !self.compress || body.len() == 0 {
            r matches Ok(request) && self.is_request(&request, sql, body, false)
        } else {
            match packed {
                Ok(bytes) => r matches Ok(request) && self.is_request(&request, sql, bytes, true),
                Err(cause) => r matches Err(e) && e@ == (ErrorView::Io {
                    context: "压缩 ClickHouse 请求体失败"@,
                    cause,
                }),
            }
        }
    }

    /// Makes a request of a statement and a body.
    pub fn request(&self, sql: &str, body: Vec<u8>) -> (r: Result<Request, Error>)
        ensures
            self.requested(r, sql@, body@, gzip_bytes(body@, GZIP_LEVEL)),
    {
        if !self.compress || body.len() == 0 {
            return Ok(self.plain_request(sql, body, false));
        }
        let packed = gzip(body.as_slice(), GZIP_LEVEL);
        self.packed_request(sql, packed)
    }

    /// Makes a request of a statement and what compressing its body came to.
    pub fn packed_request(&self, sql: &str, packed: Result<Vec<u8>, String>) -> (r: Result<
        Request,
        Error,
    >)
        ensures
            match packed_view(packed) {
                Ok(bytes) => r matches Ok(request) && self.is_request(&request, sql@, bytes, true),
                Err(cause) => r matches Err(e) && e@ == (ErrorView::Io {
                    context: "压缩 ClickHouse 请求体失败"@,
                    cause,
                }),
            },
    {
        match packed {
            Ok(bytes) => Ok(self.plain_request(sql, bytes, true)),
            Err(cause) => Err(Error::io("压缩 ClickHouse 请求体失败", cause.as_str())),
        }
    }

    fn plain_request(&self, sql: &str, body: Vec<u8>, compressed: bool) -> (r: Request)
        ensures
            self.is_request(&r, sql@, body@, compressed),
    {
        let mut settings: Vec<(String, String)> = Vec::new();
        settings.push(("query".to_owned(), sql.to_owned()));
        settings.push(("date_time_input_format".to_owned(), "best_effort".to_owned()));
        settings.push(("input_format_skip_unknown_fields".to_owned(), "1".to_owned()));
        if self.async_insert {
            settings.push(("async_insert".to_owned(), "1".to_owned()));
            settings.push(("wait_for_async_insert".to_owned(), "1".to_owned()));
        }
        proof {
            assert(columns_view(settings@) =~= request_settings(sql@, self.async_insert));
        }
        let auth = match (&self.user, &self.password) {
            (Some(user), Some(password)) => Some((user.clone(), password.clone())),
            _ => None,
        };
        Request {
            endpoint: self.endpoint.clone(),
            settings,
            body,
            compressed,
            auth,
            timeout_ms: self.timeout_ms,
        }
    }

    /// What the server is asked at a step of the look whether the table is fit.
    pub open spec fn health_text(&self, step: HealthStep) -> Option<Seq<char>> {
        match step {
            HealthStep::Ping => Some("SELECT 1"@),
            HealthStep::Exists => Some(
                "EXISTS TABLE `"@ + self.database@ + "`.`"@ + self.table@ + "`"@,
            ),
            HealthStep::Columns => Some(
                "SELECT name FROM system.columns WHERE database = '"@ + escaped(self.database@)
                    + "' AND table = '"@ + escaped(self.table@) + "' FORMAT TSV"@,
            ),
            HealthStep::Done => None,
        }
    }

    /// The statement to ask the server next, until there is nothing more to ask.
    pub fn health_query(&self, step: HealthStep) -> (r: Option<String>)
        ensures
            opt_string_view(r) == self.health_text(step),
    {
        match step {
            HealthStep::Ping => Some("SELECT 1".to_owned()),
            HealthStep::Exists => {
                let mut sql = "EXISTS TABLE `".to_owned();
                sql.append(self.database.as_str());
                sql.append("`.`");
                sql.append(self.table.as_str());
                sql.append("`");
                Some(sql)
            },
            HealthStep::Columns => {
                let mut sql = "SELECT name FROM system.columns WHERE database = '".to_owned();
                let database = escape_literal(self.database.as_str());
                sql.append(database.as_str());
                sql.append("' AND table = '");
                let table = escape_literal(self.table.as_str());
                sql.append(table.as_str());
                sql.append("' FORMAT TSV");
                Some(sql)
            },
            HealthStep::Done => None,
        }
    }

    /// What is wrong by a reply at a step.
    pub open spec fn health_fault(&self, step: HealthStep, reply: Seq<char>) -> Option<ErrorView> {
        let missing = missing_names(expected_names(columns_view(self.extra_columns@)), reply);
        match step {
            HealthStep::Exists => if trimmed(reply) != "1"@ {
                Some(
                    ErrorView::Sink(
                        "表 "@ + self.database@ + "."@ + self.table@
                            + " 不存在，执行 `logpipe --ddl` 输出的语句建表"@,
                    ),
                )
            } else {
                None
            },
            HealthStep::Columns => if missing.len() > 0 {
                Some(
                    ErrorView::Sink(
                        "表 "@ + self.database@ + "."@ + self.table@ + " 缺列 "@ + joined(
                            missing,
                            ", "@,
                        )
                            + "：表结构没跟上配置，这些字段插入时会被静默丢掉。重跑 `logpipe --ddl` 输出的语句（ddl Job）即可补齐"@,
                    ),
                )
            } else {
                None
            },
            _ => None,
        }
    }

    /// Goes on with the look by the server's reply.
    ///
    /// The columns are looked at too: fields without a column are left out by the
    /// server without a word.
    pub fn health_reply(&self, step: HealthStep, reply: &str) -> (r: Result<HealthStep, Error>)
        ensures
            r is Ok <==> self.health_fault(step, reply@) is None,
            r matches Ok(next) ==> next == (match step {
                HealthStep::Ping => HealthStep::Exists,
                HealthStep::Exists => HealthStep::Columns,
                HealthStep::Columns => HealthStep::Done,
                HealthStep::Done => HealthStep::Done,
            }),
            r matches Err(e) ==> self.health_fault(step, reply@) == Some(e@),
    {
        match step {
            HealthStep::Ping => Ok(HealthStep::Exists),
            HealthStep::Exists => {
                if !same(trim(reply), "1") {
                    let mut message = "表 ".to_owned();
                    message.append(self.database.as_str());
                    message.append(".");
                    message.append(self.table.as_str());
                    message.append(" 不存在，执行 `logpipe --ddl` 输出的语句建表");
                    return Err(Error::Sink(message));
                }
                Ok(HealthStep::Columns)
            },
            HealthStep::Columns => {
                let missing = self.missing_columns(reply);
                if missing.len() > 0 {
                    let mut message = "表 ".to_owned();
                    message.append(self.database.as_str());
                    message.append(".");
                    message.append(self.table.as_str());
                    message.append(" 缺列 ");
                    let names = join(&missing, ", ");
                    message.append(names.as_str());
                    message.append(
                        "：表结构没跟上配置，这些字段插入时会被静默丢掉。重跑 `logpipe --ddl` 输出的语句（ddl Job）即可补齐",
                    );
                    return Err(Error::Sink(message));
                }
                Ok(HealthStep::Done)
            },
            HealthStep::Done => Ok(HealthStep::Done),
        }
    }

    /// The names of the columns that a reply, one name a line, does not have.
    fn missing_columns(&self, reply: &str) -> (r: Vec<String>)
        ensures
            texts_view(r@) == missing_names(
                expected_names(columns_view(self.extra_columns@)),
                reply@,
            ),
            r@.len() == texts_view(r@).len(),
    {
        let expected = self.expected_columns();
        let ghost names = texts_view(expected@);
        let present = trimmed_lines(reply);
        let mut out: Vec<String> = Vec::new();
        proof {
            assert(texts_view(out@) =~= missing_names(names.take(0), reply@));
        }
        for i in 0..expected.len()
            invariant
                names == texts_view(expected@),
                forall|name: Seq<char>| #[trigger]
                    texts_view(present@).contains(name) <==> lists_name(reply@, name),
                texts_view(out@) == missing_names(names.take(i as int), reply@),
        {
            let ghost before = out@;
            proof {
                assert(names.take(i + 1).drop_last() =~= names.take(i as int));
            }
            if !has_text(&present, expected[i].as_str()) {
                out.push(expected[i].clone());
                proof {
                    assert(texts_view(out@) =~= texts_view(before).push(names[i as int]));
                }
            }
        }
        proof {
            assert(names.take(expected@.len() as int) =~= names);
        }
        out
    }
}

/// The lines of a reply without the white space around them, but for the empty
/// ones.
fn trimmed_lines(reply: &str) -> (r: Vec<String>)
    ensures
        forall|name: Seq<char>| #[trigger]
            texts_view(r@).contains(name) <==> lists_name(reply@, name),
{
    let ghost all = splits(reply@, '\n');
    let mut out: Vec<String> = Vec::new();
    let mut rest = reply;
    let ghost mut n: int = 0;
    proof {
        assert(all.skip(0) =~= all);
        lemma_splits_nonempty(reply@, '\n');
    }
    loop
        invariant
            all == splits(reply@, '\n'),
            0 <= n < all.len(),
            all.skip(n) == splits(rest@, '\n'),
            forall|name: Seq<char>| #[trigger]
                texts_view(out@).contains(name) <==> listed_before(all, n, name),
        decreases rest@.len(),
    {
        let (line, next) = match split_once(rest, '\n') {
            Some((line, next)) => (line, Some(next)),
            None => (rest, None),
        };
        proof {
            lemma_scan(rest@, Stop::Char('\n'));
            assert(splits(rest@, '\n')[0] == line@);
            assert(all.skip(n)[0] == all[n]);
        }
        let word = trim(line);
        let ghost before = out@;
        if !word.is_empty() {
            out.push(word.to_owned());
            proof {
                assert(texts_view(out@) =~= texts_view(before).push(word@));
            }
        }
        proof {
            lemma_listed_step(all, n, texts_view(before), texts_view(out@));
        }
        match next {
            Some(next) => {
                proof {
                    assert(splits(rest@, '\n').drop_first() =~= splits(next@, '\n'));
                    assert(all.skip(n).drop_first() =~= all.skip(n + 1));
                    lemma_splits_nonempty(next@, '\n');
                    n = n + 1;
                }
                rest = next;
            },
            None => {
                proof {
                    assert(splits(rest@, '\n').len() == 1);
                    assert(all.len() == n + 1);
                    assert forall|name: Seq<char>| #[trigger]
                        texts_view(out@).contains(name) <==> lists_name(reply@, name) by {
                        assert(listed_before(all, n + 1, name) == lists_name(reply@, name));
                    }
                }
                return out;
            },
        }
    }
}

spec fn listed_before(all: Seq<Seq<char>>, n: int, name: Seq<char>) -> bool {
    name.len() > 0 && exists|i: int| 0 <= i < n && trimmed(#[trigger] all[i]) == name
}

proof fn lemma_splits_nonempty(s: Seq<char>, c: char)
    ensures
        splits(s, c).len() > 0,
{
}

proof fn lemma_listed_step(
    all: Seq<Seq<char>>,
    n: int,
    before: Seq<Seq<char>>,
    after: Seq<Seq<char>>,
)
    requires
        0 <= n < all.len(),
        forall|name: Seq<char>| #[trigger] before.contains(name) <==> listed_before(all, n, name),
        after == (if trimmed(all[n]).len() > 0 {
            before.push(trimmed(all[n]))
        } else {
            before
        }),
    ensures
        forall|name: Seq<char>| #[trigger]
            after.contains(name) <==> listed_before(all, n + 1, name),
{
    assert forall|name: Seq<char>| #[trigger] after.contains(name) <==> listed_before(
        all,
        n + 1,
        name,
    ) by {
        if after.contains(name) {
            let i = after.index_of(name);
            if i < before.len() {
                assert(before[i] == name);
                assert(before.contains(name));
                let k = choose|k: int| 0 <= k < n && trimmed(#[trigger] all[k]) == name;
                assert(trimmed(all[k]) == name);
            } else {
                assert(trimmed(all[n]) == name);
            }
        }
        if listed_before(all, n + 1, name) {
            let k = choose|k: int| 0 <= k < n + 1 && trimmed(#[trigger] all[k]) == name;
            if k < n {
                assert(listed_before(all, n, name));
                assert(before.contains(name));
                let i = before.index_of(name);
                assert(after[i] == name);
            } else {
                assert(after[before.len() as int] == name);
            }
        }
    }
}

/// Puts a text into a literal of SQL.
pub fn escape_literal(raw: &str) -> (r: String)
    ensures
        r@ == escaped(raw@),
{
    let mut out = String::new();
    let mut chars = raw.chars();
    let ghost mut k: int = 0;
    proof {
        assert(raw@.skip(0) =~= raw@);
    }
    loop
        invariant
            0 <= k <= raw@.len(),
            vstd::std_specs::iter::IteratorSpec::obeys_prophetic_iter_laws(&chars),
            vstd::std_specs::iter::IteratorSpec::remaining(&chars) == raw@.skip(k),
            out@ == escaped(raw@.take(k)),
        ensures
            k == raw@.len(),
        decreases raw@.len() - k,
    {
        match chars.next() {
            None => {
                break ;
            },
            Some(c) => {
                proof {
                    assert(raw@.skip(k)[0] == raw@[k]);
                    assert(raw@.skip(k).drop_first() =~= raw@.skip(k + 1));
                    assert(raw@.take(k + 1).drop_last() =~= raw@.take(k));
                }
                if c == '\\' || c == '\'' {
                    out.push('\\');
                }
                out.push(c);
                proof {
                    k = k + 1;
                }
            },
        }
    }
    proof {
        assert(raw@.take(k) =~= raw@);
    }
    out
}

/// Reads the server's reply: anything but success is an error.
pub fn read_reply(status: u16, status_text: &str, text: String) -> (r: Result<String, Error>)
    ensures
        r is Ok <==> 200 <= status <= 299,
        r matches Ok(reply) ==> reply@ == text@,
        r matches Err(e) ==> e@ == ErrorView::Sink(
            "ClickHouse 返回 "@ + status_text@ + ": "@ + trimmed(text@),
        ),
{
    if status < 200 || status > 299 {
        let mut message = "ClickHouse 返回 ".to_owned();
        message.append(status_text);
        message.append(": ");
        message.append(trim(text.as_str()));
        return Err(Error::Sink(message));
    }
    Ok(text)
}

} // verus!
