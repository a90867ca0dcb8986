//! The decisions of the ClickHouse add-in for 1C, apart from the network:
//! whether the component is ready, the query text and reply of
//! `Execute`, what `BulkInsert` does with the cache and what it sends or
//! answers, and the statements that a manual flush sends.

use vstd::prelude::*;
use vstd::utf8::{decode_utf8, valid_utf8};
use crate::cache::{
    add_flushes, batches, buffer_of, distinct_tables, cache_add, cache_return, cache_take, flushed_buffers,
    all_picks, expire_picks, expired_buffers, pending, timeout_reached, timeouts, AddInCache, CacheStatus, CacheView,
};
use crate::json::{values_view, JsonValue, ValueV};
use crate::text::{
    chars_of, str_concat, string_of, trim, trim_chars, trim_end_by, trim_end_chars,
    CharClass,
};
use crate::utils::{
    build_insert_query, insert_sql, parse_tsv_to_json, tsv_rows, utf8_decode, utf8_error_text,
};

verus! {

broadcast use vstd::string::group_string_axioms;

// ---------------------------------------------------------------------
// Readiness
// ---------------------------------------------------------------------

pub open spec fn msg_no_client() -> Seq<char> {
    "Ошибка компоненты: Клиент ClickHouse не инициализирован"@
}

pub open spec fn msg_no_runtime() -> Seq<char> {
    "Ошибка компоненты: Tokio Runtime не инициализирован"@
}

/// What `get_client_and_rt` decides: the client must be set up, then the
/// runtime.
pub fn client_and_runtime_check(has_client: bool, has_runtime: bool) -> (r: Result<(), String>)
    ensures
        match r {
            Ok(_) => has_client && has_runtime,
            Err(e) => if !has_client {
                e@ == msg_no_client()
            } else {
                !has_runtime && e@ == msg_no_runtime()
            },
        },
{
    if !has_client {
        return Err("Ошибка компоненты: Клиент ClickHouse не инициализирован".to_string());
    }
    if !has_runtime {
        return Err("Ошибка компоненты: Tokio Runtime не инициализирован".to_string());
    }
    Ok(())
}

// ---------------------------------------------------------------------
// Execute
// ---------------------------------------------------------------------

/// The query that `execute` sends: without trailing semicolons, trimmed,
/// asking for JSON.
pub open spec fn json_query_text(query: Seq<char>) -> Seq<char> {
    trim(trim_end_by(query, CharClass::Exactly(';'))) + " FORMAT JSON"@
}

pub open spec fn empty_result_json() -> Seq<char> {
    "{\"meta\": [], \"data\": [], \"rows\": 0}"@
}

/// What `execute` answers for the bytes that came back, or for the text of
/// the error that the query met.
pub open spec fn execute_reply_text(fetched: Result<Seq<u8>, Seq<char>>) -> Seq<char> {
    match fetched {
        Ok(bytes) => if valid_utf8(bytes) {
            let clean = trim(trim_end_by(decode_utf8(bytes), CharClass::Exactly('\0')));
            if clean.len() == 0 {
                empty_result_json()
            } else {
                clean
            }
        } else {
            "{\"error\": \"Ошибка декодирования UTF-8: "@ + utf8_error_text(bytes) + "\"}"@
        },
        Err(e) => "{\"error\": \"Ошибка ClickHouse: "@ + e + "\"}"@,
    }
}

/// The query text that `execute` sends for `query`.
pub fn json_query(query: &str) -> (q: String)
    ensures
        q@ == json_query_text(query@),
{
    let cs = chars_of(query);
    let a = trim_end_chars(cs.as_slice(), &CharClass::Exactly(';'));
    let b = trim_chars(a.as_slice(), &CharClass::Whitespace);
    str_concat(string_of(b.as_slice()).as_str(), " FORMAT JSON")
}

/// What `execute` answers: the JSON text that came back, without trailing
/// NUL characters and trimmed, or an empty result where nothing is left;
/// an error object where the bytes are no UTF-8 or the query failed.
pub fn execute_reply(fetched: Result<Vec<u8>, String>) -> (r: String)
    ensures
        r@ == execute_reply_text(
            match fetched {
                Ok(b) => Ok::<Seq<u8>, Seq<char>>(b@),
                Err(e) => Err::<Seq<u8>, Seq<char>>(e@),
            },
        ),
{
    match fetched {
        Ok(bytes) => {
            match utf8_decode(bytes) {
                Ok(json_text) => {
                    let cs = chars_of(json_text.as_str());
                    let a = trim_end_chars(cs.as_slice(), &CharClass::Exactly('\0'));
                    let clean = trim_chars(a.as_slice(), &CharClass::Whitespace);
                    if clean.len() == 0 {
                        "{\"meta\": [], \"data\": [], \"rows\": 0}".to_string()
                    } else {
                        string_of(clean.as_slice())
                    }
                },
                Err(e) => {
                    let a = str_concat("{\"error\": \"Ошибка декодирования UTF-8: ", e.as_str());
                    str_concat(a.as_str(), "\"}")
                },
            }
        },
        Err(e) => {
            let a = str_concat("{\"error\": \"Ошибка ClickHouse: ", e.as_str());
            str_concat(a.as_str(), "\"}")
        },
    }
}

// ---------------------------------------------------------------------
// BulkInsert
// ---------------------------------------------------------------------

/// What `bulk_insert` answers after asking whether the table exists:
/// nothing where it does, so that the insert goes on.
pub open spec fn table_check_text(table: Seq<char>, exists: Result<bool, Seq<char>>) -> Option<
    Seq<char>,
> {
    match exists {
        Ok(true) => None,
        Ok(false) => Some(
            "Ошибка: Таблица '"@ + table + "' не существует в ClickHouse"@,
        ),
        Err(e) => Some("Ошибка сети при проверке существования таблицы: "@ + e),
    }
}

/// The answer of `bulk_insert` for the outcome of `check_table_exists`,
/// given as its result or the text of its error.
pub fn table_check_reply(table: &str, exists: Result<bool, String>) -> (r: Option<String>)
    ensures
        match r {
            Some(t) => table_check_text(
                table@,
                match exists {
                    Ok(b) => Ok::<bool, Seq<char>>(b),
                    Err(e) => Err::<bool, Seq<char>>(e@),
                },
            ) == Some(t@),
            None => table_check_text(
                table@,
                match exists {
                    Ok(b) => Ok::<bool, Seq<char>>(b),
                    Err(e) => Err::<bool, Seq<char>>(e@),
                },
            ) is None,
        },
{
    match exists {
        Ok(true) => None,
        Ok(false) => {
            let a = str_concat("Ошибка: Таблица '", table);
            Some(str_concat(a.as_str(), "' не существует в ClickHouse"))
        },
        Err(e) => Some(str_concat("Ошибка сети при проверке существования таблицы: ", e.as_str())),
    }
}

/// What `bulk_insert` does next with the cache.
#[derive(Debug)]
pub enum InsertPlan {
    /// Answer the caller with this text.
    Reply(String),
    /// No rows came: send each batch that `flush_expired` sets aside, then
    /// answer `Ok`.
    FlushExpired,
    /// Send the statement for the batch of rows taken from `table`, then
    /// finish with `finish_bulk_insert`.
    SendBatch { table: String, sql: String, data: Vec<JsonValue> },
}

pub enum PlanV {
    Reply(Seq<char>),
    FlushExpired,
    SendBatch(Seq<char>, Seq<char>, Seq<ValueV>),
}

impl View for InsertPlan {
    type V = PlanV;

    open spec fn view(&self) -> PlanV {
        match self {
            InsertPlan::Reply(s) => PlanV::Reply(s@),
            InsertPlan::FlushExpired => PlanV::FlushExpired,
            InsertPlan::SendBatch { table, sql, data } => PlanV::SendBatch(
                table@,
                sql@,
                values_view(data@),
            ),
        }
    }
}

pub open spec fn msg_tsv_error(e: Seq<char>) -> Seq<char> {
    "Ошибка при разборе TSV данных из 1С: "@ + e
}

pub open spec fn msg_sql_error(e: Seq<char>) -> Seq<char> {
    "Ошибка при построении SQL запроса для вставки: "@ + e
}

pub open spec fn msg_ok() -> Seq<char> {
    "OK"@
}

/// The cache after `bulk_insert` has worked on it, and what it does next,
/// given whether the table's timeout had passed and the clock's `now`:
/// the rows of the TSV text are added; where that sets a batch aside, the
/// batch is taken from the cache and its statement is to be sent.
pub open spec fn insert_outcome(
    c: CacheView,
    table: Seq<char>,
    tsv: Seq<char>,
    timed_out: bool,
    now: std::time::Instant,
) -> (
    CacheView,
    PlanV,
) {
    match tsv_rows(tsv) {
        Err(e) => (c, PlanV::Reply(msg_tsv_error(e))),
        Ok(rows) => if rows.len() == 0 {
            (c, PlanV::FlushExpired)
        } else {
            let c1 = cache_add(c, table, rows, timed_out, now);
            if !add_flushes(buffer_of(c.buffers, table, now), rows, c.max_rows, timed_out) {
                (c1, PlanV::Reply(msg_ok()))
            } else {
                let c2 = cache_take(c1, table);
                match pending(c1, table) {
                    None => (c2, PlanV::Reply(msg_ok())),
                    Some(d) => if d.len() == 0 {
                        (c2, PlanV::Reply(msg_ok()))
                    } else {
                        match insert_sql(table, d) {
                            Err(e) => (c2, PlanV::Reply(msg_sql_error(e))),
                            Ok(sql) => (c2, PlanV::SendBatch(table, sql, d)),
                        }
                    },
                }
            }
        },
    }
}

/// What `bulk_insert` does with the cache for the TSV text, `timed_out`
/// telling whether the table's timeout has passed; the clock gives `now`.
pub fn plan_bulk_insert_with_timeout(
    cache: &mut AddInCache,
    table: String,
    tsv_data: &str,
    timed_out: bool,
) -> (plan: InsertPlan)
    ensures
        distinct_tables(final(cache)@.buffers),
        exists|now: std::time::Instant|
            (final(cache)@, plan@) == insert_outcome(old(cache)@, table@, tsv_data@, timed_out, now),
{
    proof {
        use_type_invariant(&*cache);
        AddInCache::lemma_well_formed(&*cache);
    }
    let ghost c0 = cache@;
    let ghost t = table@;
    let ghost mut now: std::time::Instant = vstd::pervasive::arbitrary();
    let plan = match parse_tsv_to_json(tsv_data) {
        Err(e) => InsertPlan::Reply(str_concat("Ошибка при разборе TSV данных из 1С: ", e.as_str())),
        Ok(rows) => {
            if rows.len() == 0 {
                InsertPlan::FlushExpired
            } else {
                let ghost rv = values_view(rows@);
                let status = cache.add_with_timeout(table, rows, timed_out);
                proof {
                    now = choose|now: std::time::Instant|
                        {
                            &&& cache@ == cache_add(c0, t, rv, timed_out, now)
                            &&& status.flushed_table() == if add_flushes(
                                buffer_of(c0.buffers, t, now),
                                rv,
                                c0.max_rows,
                                timed_out,
                            ) {
                                Some(t)
                            } else {
                                None::<Seq<char>>
                            }
                        };
                }
                match status {
                    CacheStatus::Stored => InsertPlan::Reply("OK".to_string()),
                    CacheStatus::NeedsNetworkFlush(table_to_flush) => {
                        match cache.take_flush_data(table_to_flush.as_str()) {
                            None => InsertPlan::Reply("OK".to_string()),
                            Some(flush_data) => {
                                if flush_data.len() == 0 {
                                    InsertPlan::Reply("OK".to_string())
                                } else {
                                    match build_insert_query(
                                        table_to_flush.as_str(),
                                        flush_data.as_slice(),
                                    ) {
                                        Err(e) => InsertPlan::Reply(
                                            str_concat(
                                                "Ошибка при построении SQL запроса для вставки: ",
                                                e.as_str(),
                                            ),
                                        ),
                                        Ok(sql) => InsertPlan::SendBatch {
                                            table: table_to_flush,
                                            sql,
                                            data: flush_data,
                                        },
                                    }
                                }
                            },
                        }
                    },
                }
            }
        },
    };
    assert((cache@, plan@) == insert_outcome(c0, t, tsv_data@, timed_out, now));
    plan
}

/// `bulk_insert`'s work on the cache, the clock telling whether the
/// table's timeout has passed: it has where the nanoseconds since the
/// table's timer started reach the timeout.
pub fn plan_bulk_insert(cache: &mut AddInCache, table: String, tsv_data: &str) -> (plan: InsertPlan)
    ensures
        distinct_tables(final(cache)@.buffers),
        exists|elapsed: nat, now: std::time::Instant|
            (final(cache)@, plan@) == insert_outcome(
                old(cache)@,
                table@,
                tsv_data@,
                timeout_reached(elapsed as int, old(cache)@.timeout_secs),
                now,
            ),
{
    proof {
        use_type_invariant(&*cache);
        AddInCache::lemma_well_formed(&*cache);
    }
    let ghost c0 = cache@;
    let ghost tv = table@;
    let t = cache.timed_out(&table);
    let ghost elapsed = choose|elapsed: nat| t == timeout_reached(elapsed as int, cache@.timeout_secs);
    let plan = plan_bulk_insert_with_timeout(cache, table, tsv_data, t);
    let ghost now = choose|now: std::time::Instant|
        (cache@, plan@) == insert_outcome(c0, tv, tsv_data@, t, now);
    assert((cache@, plan@) == insert_outcome(
        c0,
        tv,
        tsv_data@,
        timeout_reached(elapsed as int, c0.timeout_secs),
        now,
    ));
    plan
}

pub open spec fn msg_send_error(e: Seq<char>) -> Seq<char> {
    "Ошибка отправки кэша в ClickHouse: "@ + e
}

/// The end of `bulk_insert` after the batch of `table` was sent, given as
/// success or the text of the error: on an error the batch goes back to
/// the cache.
pub fn finish_bulk_insert(
    cache: &mut AddInCache,
    table: String,
    data: Vec<JsonValue>,
    sent: Result<(), String>,
) -> (r: String)
    ensures
        distinct_tables(final(cache)@.buffers),
        match sent {
            Ok(_) => final(cache)@ == old(cache)@ && r@ == msg_ok(),
            Err(e) => final(cache)@ == cache_return(old(cache)@, table@, values_view(data@))
                && r@ == msg_send_error(e@),
        },
{
    proof {
        use_type_invariant(&*cache);
        AddInCache::lemma_well_formed(&*cache);
    }
    match sent {
        Ok(_) => "OK".to_string(),
        Err(e) => {
            cache.return_to_flush(table.as_str(), data);
            str_concat("Ошибка отправки кэша в ClickHouse: ", e.as_str())
        },
    }
}

// ---------------------------------------------------------------------
// Manual flush
// ---------------------------------------------------------------------

/// The statements of the batches, one for each batch whose statement can
/// be built, in order.
pub open spec fn batch_statements(bs: Seq<(Seq<char>, Seq<ValueV>)>) -> Seq<Seq<char>>
    decreases bs.len(),
{
    if bs.len() == 0 {
        Seq::empty()
    } else {
        let prev = batch_statements(bs.drop_last());
        match insert_sql(bs.last().0, bs.last().1) {
            Ok(sql) => prev.push(sql),
            Err(_) => prev,
        }
    }
}

/// What `flush_cache_manually` does with the cache: every table's active
/// rows are set aside, and the statements of those batches are to be
/// sent.
pub fn flush_all_statements(cache: &mut AddInCache) -> (stmts: Vec<String>)
    ensures
        distinct_tables(final(cache)@.buffers),
        exists|nows: Seq<std::time::Instant>|
            {
                &&& nows.len() == old(cache)@.buffers.len()
                &&& final(cache)@ == (CacheView {
                    buffers: #[trigger] flushed_buffers(old(cache)@.buffers, nows),
                    ..old(cache)@
                })
            },
        stmts@.map_values(|s: String| s@) == batch_statements(
            batches(old(cache)@.buffers, all_picks(old(cache)@.buffers)),
        ),
{
    proof {
        use_type_invariant(&*cache);
        AddInCache::lemma_well_formed(&*cache);
    }
    let all_batches = cache.flush_all();
    statements_of(&all_batches)
}

pub open spec fn msg_expired_ok() -> Seq<char> {
    "Ok"@
}

/// What `bulk_insert` does with the cache when no rows came: each table
/// whose timeout has passed by the clock has its active rows set aside,
/// the statements of those batches are to be sent, and the answer is
/// `Ok`. Whatever the clock said, the cache changes as `flush_expired`
/// says for some elapsed time per table.
pub fn flush_expired_statements(cache: &mut AddInCache) -> (out: (Vec<String>, String))
    ensures
        distinct_tables(final(cache)@.buffers),
        exists|elapsed: Seq<nat>, nows: Seq<std::time::Instant>|
            {
                &&& elapsed.len() == old(cache)@.buffers.len()
                &&& nows.len() == old(cache)@.buffers.len()
                &&& final(cache)@ == (CacheView {
                    buffers: #[trigger] expired_buffers(
                        old(cache)@.buffers,
                        timeouts(elapsed, old(cache)@.timeout_secs),
                        nows,
                    ),
                    ..old(cache)@
                })
                &&& out.0@.map_values(|s: String| s@) == batch_statements(
                    batches(
                        old(cache)@.buffers,
                        expire_picks(old(cache)@.buffers, timeouts(elapsed, old(cache)@.timeout_secs)),
                    ),
                )
            },
        out.1@ == msg_expired_ok(),
{
    proof {
        use_type_invariant(&*cache);
        AddInCache::lemma_well_formed(&*cache);
    }
    let expired = cache.flush_expired();
    let stmts = statements_of(&expired);
    (stmts, "Ok".to_string())
}

/// The statements of the batches, one for each batch whose statement can
/// be built, in order.
fn statements_of(all_batches: &Vec<(String, Vec<JsonValue>)>) -> (stmts: Vec<String>)
    ensures
        stmts@.map_values(|s: String| s@) == batch_statements(
            crate::cache::batches_view(all_batches@),
        ),
{
    let ghost bv = crate::cache::batches_view(all_batches@);
    let mut stmts: Vec<String> = Vec::new();
    let mut i: usize = 0;
    assert(bv.take(0) =~= Seq::<(Seq<char>, Seq<ValueV>)>::empty());
    while i < all_batches.len()
        invariant
            i <= all_batches@.len(),
            bv == crate::cache::batches_view(all_batches@),
            stmts@.map_values(|s: String| s@) == batch_statements(bv.take(i as int)),
        decreases all_batches@.len() - i,
    {
        assert(bv.take(i + 1).drop_last() =~= bv.take(i as int));
        let ghost before = stmts@.map_values(|s: String| s@);
        match build_insert_query(all_batches[i].0.as_str(), all_batches[i].1.as_slice()) {
            Ok(sql) => {
                stmts.push(sql);
                assert(stmts@.map_values(|s: String| s@) =~= before.push(sql@));
            },
            Err(_) => {},
        }
        i = i + 1;
    }
    assert(bv.take(all_batches@.len() as int) =~= bv);
    stmts
}

} // verus!
