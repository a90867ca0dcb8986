//! Properties that relate the operations of the library to one another.

use vstd::prelude::*;
use crate::cache::{
    add_flushes, buffer_of, cache_add, lemma_position_bounds, cache_return, cache_take, distinct_tables,
    flushed_buffers, pending, position, with_buffer, added, batches, expire_picks,
    expired_buffers, timeouts,
    BufferView, CacheView,
};
use crate::json::{entries_get, entries_insert, LeafV, ValueV};
use crate::metrics::clean_field;
use crate::number::field_value;
use crate::text::{
    all_digits, digit_char, digit_value, digits_value, int_text, is_digit, is_negative,
    nat_digits, parse_i64, replace_char, unsigned_part,
};
use crate::utils::{cell_value, insert_sql, row_object, tsv_rows};
use crate::click_house_component::{insert_outcome, msg_ok, msg_sql_error, PlanV};

verus! {

/// All rows a table holds: the batch set aside, then the active rows.
pub open spec fn held_rows(b: BufferView) -> Seq<ValueV> {
    match b.flush {
        Some(f) => f.0 + b.active,
        None => b.active,
    }
}

proof fn lemma_position_found(bs: Seq<BufferView>, t: Seq<char>, i: int)
    requires
        distinct_tables(bs),
        0 <= i < bs.len(),
        bs[i].table == t,
    ensures
        position(bs, t) == i,
    decreases bs.len(),
{
    if i > 0 {
        assert(bs[0].table != bs[i].table);
        let rest = bs.drop_first();
        assert(rest[i - 1] == bs[i]);
        assert(distinct_tables(rest)) by {
            assert forall|a: int, b: int|
                0 <= a < rest.len() && 0 <= b < rest.len() && a != b implies #[trigger] rest[a].table
                != #[trigger] rest[b].table by {
                assert(rest[a] == bs[a + 1]);
                assert(rest[b] == bs[b + 1]);
            }
        };
        lemma_position_found(rest, t, i - 1);
    }
}

proof fn lemma_position_absent(bs: Seq<BufferView>, t: Seq<char>)
    requires
        forall|i: int| 0 <= i < bs.len() ==> #[trigger] bs[i].table != t,
    ensures
        position(bs, t) == bs.len(),
    decreases bs.len(),
{
    if bs.len() > 0 {
        let rest = bs.drop_first();
        assert forall|i: int| 0 <= i < rest.len() implies #[trigger] rest[i].table != t by {
            assert(rest[i] == bs[i + 1]);
        }
        lemma_position_absent(rest, t);
    }
}

/// The tables after `add` on table `t`: the table is there, no table twice,
/// and every other table as before, in its place.
pub proof fn law_add_touches_only_its_table(c: CacheView, t: Seq<char>, rows: Seq<ValueV>, timed_out: bool, now: std::time::Instant)
    requires
        distinct_tables(c.buffers),
    ensures
        ({
            let bs2 = cache_add(c, t, rows, timed_out, now).buffers;
            &&& distinct_tables(bs2)
            &&& position(bs2, t) < bs2.len()
            &&& bs2.len() >= c.buffers.len()
            &&& forall|i: int|
                0 <= i < c.buffers.len() && c.buffers[i].table != t ==> #[trigger] bs2[i]
                    == c.buffers[i]
        }),
{
    let bs = c.buffers;
    let nb = added(buffer_of(bs, t, now), rows, c.max_rows, timed_out, now);
    let bs2 = with_buffer(bs, nb);
    lemma_position_bounds(bs, t);
    assert(nb.table == t);
    if position(bs, t) < bs.len() {
        assert(distinct_tables(bs2)) by {
            assert forall|a: int, b: int|
                0 <= a < bs2.len() && 0 <= b < bs2.len() && a != b implies #[trigger] bs2[a].table
                != #[trigger] bs2[b].table by {
                assert(bs2[a].table == bs[a].table);
                assert(bs2[b].table == bs[b].table);
            }
        };
        lemma_position_found(bs2, t, position(bs, t));
    } else {
        assert(forall|i: int| 0 <= i < bs.len() ==> #[trigger] bs[i].table != t) by {
            if exists|i: int| 0 <= i < bs.len() && #[trigger] bs[i].table == t {
                let i = choose|i: int| 0 <= i < bs.len() && #[trigger] bs[i].table == t;
                lemma_position_found(bs, t, i);
            }
        };
        assert(distinct_tables(bs2)) by {
            assert forall|a: int, b: int|
                0 <= a < bs2.len() && 0 <= b < bs2.len() && a != b implies #[trigger] bs2[a].table
                != #[trigger] bs2[b].table by {
                if a < bs.len() && b < bs.len() {
                    assert(bs2[a] == bs[a] && bs2[b] == bs[b]);
                } else if a < bs.len() {
                    assert(bs2[a] == bs[a]);
                } else if b < bs.len() {
                    assert(bs2[b] == bs[b]);
                }
            }
        };
        lemma_position_found(bs2, t, bs.len() as int);
    }
}

/// `add` keeps every row: the rows that table `t` holds afterwards are
/// those it held before, followed by the new rows.
pub proof fn law_add_keeps_rows(c: CacheView, t: Seq<char>, rows: Seq<ValueV>, timed_out: bool, now: std::time::Instant)
    requires
        distinct_tables(c.buffers),
    ensures
        held_rows(buffer_of(cache_add(c, t, rows, timed_out, now).buffers, t, now)) == held_rows(
            buffer_of(c.buffers, t, now),
        ) + rows,
{
    let bs = c.buffers;
    let b = buffer_of(bs, t, now);
    let nb = added(b, rows, c.max_rows, timed_out, now);
    let bs2 = cache_add(c, t, rows, timed_out, now).buffers;
    law_add_touches_only_its_table(c, t, rows, timed_out, now);
    lemma_position_bounds(bs, t);
    lemma_position_bounds(bs2, t);
    if position(bs, t) < bs.len() {
        lemma_position_found(bs2, t, position(bs, t));
    } else {
        lemma_position_found(bs2, t, bs.len() as int);
    }
    assert(buffer_of(bs2, t, now) == nb);
    if add_flushes(b, rows, c.max_rows, timed_out) {
        assert(held_rows(nb) =~= held_rows(b) + rows);
    } else {
        match b.flush {
            Some(f) => assert(held_rows(nb) =~= held_rows(b) + rows),
            None => assert(held_rows(nb) =~= held_rows(b) + rows),
        }
    }
}

/// When `add` sets a batch aside for table `t`, that batch is the rows the
/// table had, followed by the new rows: taking it gives exactly them.
pub proof fn law_flushed_batch_is_all_rows(c: CacheView, t: Seq<char>, rows: Seq<ValueV>, timed_out: bool, now: std::time::Instant)
    requires
        distinct_tables(c.buffers),
        add_flushes(buffer_of(c.buffers, t, now), rows, c.max_rows, timed_out),
    ensures
        pending(cache_add(c, t, rows, timed_out, now), t) == Some(buffer_of(c.buffers, t, now).active + rows),
        buffer_of(cache_add(c, t, rows, timed_out, now).buffers, t, now).active.len() == 0,
{
    let bs = c.buffers;
    let bs2 = cache_add(c, t, rows, timed_out, now).buffers;
    law_add_touches_only_its_table(c, t, rows, timed_out, now);
    lemma_position_bounds(bs, t);
    if position(bs, t) < bs.len() {
        lemma_position_found(bs2, t, position(bs, t));
    } else {
        lemma_position_found(bs2, t, bs.len() as int);
    }
}

/// What `bulk_insert` does with parsed rows: where adding them sets a
/// batch aside, it sends exactly that batch, every row the table held
/// followed by the new rows, with its `INSERT` statement, and leaves no
/// batch of the table behind; otherwise it keeps the rows and answers
/// `OK`.
pub proof fn law_bulk_insert_sends_all_held_rows(
    c: CacheView,
    table: Seq<char>,
    tsv: Seq<char>,
    timed_out: bool,
    now: std::time::Instant,
)
    requires
        distinct_tables(c.buffers),
        tsv_rows(tsv) is Ok,
        tsv_rows(tsv)->Ok_0.len() > 0,
    ensures
        ({
            let rows = tsv_rows(tsv)->Ok_0;
            let b = buffer_of(c.buffers, table, now);
            let out = insert_outcome(c, table, tsv, timed_out, now);
            &&& add_flushes(b, rows, c.max_rows, timed_out) ==> {
                &&& pending(out.0, table) is None
                &&& match insert_sql(table, held_rows(b) + rows) {
                    Ok(sql) => out.1 == PlanV::SendBatch(table, sql, held_rows(b) + rows),
                    Err(e) => out.1 == PlanV::Reply(msg_sql_error(e)),
                }
            }
            &&& !add_flushes(b, rows, c.max_rows, timed_out) ==> {
                &&& out.1 == PlanV::Reply(msg_ok())
                &&& held_rows(buffer_of(out.0.buffers, table, now)) == held_rows(b) + rows
            }
        }),
{
    let rows = tsv_rows(tsv)->Ok_0;
    let b = buffer_of(c.buffers, table, now);
    if add_flushes(b, rows, c.max_rows, timed_out) {
        law_flushed_batch_is_all_rows(c, table, rows, timed_out, now);
        let c1 = cache_add(c, table, rows, timed_out, now);
        law_add_touches_only_its_table(c, table, rows, timed_out, now);
        law_take_empties(c1, table);
        assert(held_rows(b) == b.active);
        assert((b.active + rows).len() > 0);
    } else {
        law_add_keeps_rows(c, table, rows, timed_out, now);
    }
}

/// A table whose timer started fewer nanoseconds ago than its timeout is
/// neither set aside nor given back by `flush_expired`.
pub proof fn law_unexpired_table_is_kept(
    bs: Seq<BufferView>,
    elapsed: Seq<nat>,
    secs: nat,
    nows: Seq<std::time::Instant>,
    i: int,
)
    requires
        elapsed.len() == bs.len(),
        0 <= i < bs.len(),
        elapsed[i] < secs * 1_000_000_000,
    ensures
        !expire_picks(bs, timeouts(elapsed, secs))[i],
        expired_buffers(bs, timeouts(elapsed, secs), nows)[i] == bs[i],
{
}

/// Rows added below the row limit, before the table's timeout has passed,
/// are only stored.
pub proof fn law_add_before_timeout_stores(
    b: BufferView,
    rows: Seq<ValueV>,
    max_rows: nat,
    elapsed: nat,
    secs: nat,
)
    requires
        elapsed < secs * 1_000_000_000,
        (b.active + rows).len() < max_rows,
    ensures
        !add_flushes(b, rows, max_rows, crate::cache::timeout_reached(elapsed as int, secs)),
{
}

/// `add` keeps a table's timer where it only stores rows, and restarts it
/// at `now` where it sets a batch aside.
pub proof fn law_add_timer(
    c: CacheView,
    t: Seq<char>,
    rows: Seq<ValueV>,
    timed_out: bool,
    now: std::time::Instant,
)
    requires
        distinct_tables(c.buffers),
    ensures
        buffer_of(cache_add(c, t, rows, timed_out, now).buffers, t, now).last_flush == if add_flushes(
            buffer_of(c.buffers, t, now),
            rows,
            c.max_rows,
            timed_out,
        ) {
            now
        } else {
            buffer_of(c.buffers, t, now).last_flush
        },
{
    let bs = c.buffers;
    let bs2 = cache_add(c, t, rows, timed_out, now).buffers;
    law_add_touches_only_its_table(c, t, rows, timed_out, now);
    lemma_position_bounds(bs, t);
    if position(bs, t) < bs.len() {
        lemma_position_found(bs2, t, position(bs, t));
    } else {
        lemma_position_found(bs2, t, bs.len() as int);
    }
}

/// Rows that reach the row limit of a table with no batch set aside are
/// always set aside, whatever the clock says.
pub proof fn law_row_limit_flushes(b: BufferView, rows: Seq<ValueV>, max_rows: nat, timed_out: bool)
    requires
        b.flush is None,
        (b.active + rows).len() >= max_rows,
        (b.active + rows).len() > 0,
    ensures
        add_flushes(b, rows, max_rows, timed_out),
{
}

/// After a batch was taken, there is none for that table until one is set
/// aside again.
pub proof fn law_take_empties(c: CacheView, t: Seq<char>)
    requires
        distinct_tables(c.buffers),
    ensures
        pending(cache_take(c, t), t) is None,
{
    lemma_position_bounds(c.buffers, t);
    let bs2 = cache_take(c, t).buffers;
    if position(c.buffers, t) < c.buffers.len() {
        assert(distinct_tables(bs2)) by {
            assert forall|a: int, b: int|
                0 <= a < bs2.len() && 0 <= b < bs2.len() && a != b implies #[trigger] bs2[a].table
                != #[trigger] bs2[b].table by {
                assert(bs2[a].table == c.buffers[a].table);
                assert(bs2[b].table == c.buffers[b].table);
            }
        };
        lemma_position_found(bs2, t, position(c.buffers, t));
    }
}

/// A batch that was taken and comes back unsent is set aside again as it
/// was, now with retry count 1; nothing else changes.
pub proof fn law_return_restores(c: CacheView, t: Seq<char>, d: Seq<ValueV>)
    requires
        distinct_tables(c.buffers),
        pending(c, t) == Some(d),
    ensures
        ({
            let p = position(c.buffers, t);
            cache_return(cache_take(c, t), t, d) == (CacheView {
                buffers: c.buffers.update(p, BufferView { flush: Some((d, 1u32)), ..c.buffers[p] }),
                ..c
            })
        }),
        pending(cache_return(cache_take(c, t), t, d), t) == Some(d),
{
    let p = position(c.buffers, t);
    lemma_position_bounds(c.buffers, t);
    let c1 = cache_take(c, t);
    let bs1 = c1.buffers;
    assert(distinct_tables(bs1)) by {
        assert forall|a: int, b: int|
            0 <= a < bs1.len() && 0 <= b < bs1.len() && a != b implies #[trigger] bs1[a].table
            != #[trigger] bs1[b].table by {
            assert(bs1[a].table == c.buffers[a].table);
            assert(bs1[b].table == c.buffers[b].table);
        }
    };
    lemma_position_found(bs1, t, p);
    let c2 = cache_return(c1, t, d);
    assert(c2.buffers =~= c.buffers.update(p, BufferView { flush: Some((d, 1u32)), ..c.buffers[p] }));
    let bs2 = c2.buffers;
    assert(distinct_tables(bs2)) by {
        assert forall|a: int, b: int|
            0 <= a < bs2.len() && 0 <= b < bs2.len() && a != b implies #[trigger] bs2[a].table
            != #[trigger] bs2[b].table by {
            assert(bs2[a].table == c.buffers[a].table);
            assert(bs2[b].table == c.buffers[b].table);
        }
    };
    lemma_position_found(bs2, t, p);
}

/// After `flush_all` no table has active rows, and each table that had
/// some has exactly them set aside.
pub proof fn law_flush_all_sets_everything_aside(c: CacheView, nows: Seq<std::time::Instant>)
    requires
        distinct_tables(c.buffers),
    ensures
        ({
            let c2 = CacheView { buffers: flushed_buffers(c.buffers, nows), ..c };
            &&& forall|i: int| 0 <= i < c2.buffers.len() ==> (#[trigger] c2.buffers[i]).active.len() == 0
            &&& forall|i: int|
                0 <= i < c.buffers.len() && (#[trigger] c.buffers[i]).active.len() > 0 ==> pending(
                    c2,
                    c.buffers[i].table,
                ) == Some(c.buffers[i].active)
        }),
{
    let bs = c.buffers;
    let bs2 = flushed_buffers(bs, nows);
    assert(distinct_tables(bs2)) by {
        assert forall|a: int, b: int|
            0 <= a < bs2.len() && 0 <= b < bs2.len() && a != b implies #[trigger] bs2[a].table
            != #[trigger] bs2[b].table by {
            assert(bs2[a].table == bs[a].table);
            assert(bs2[b].table == bs[b].table);
        }
    };
    assert forall|i: int|
        0 <= i < bs.len() && (#[trigger] bs[i]).active.len() > 0 implies pending(
        CacheView { buffers: bs2, ..c },
        bs[i].table,
    ) == Some(bs[i].active) by {
        lemma_position_found(bs2, bs[i].table, i);
    }
}

/// The batch that a table gives: its name and its active rows.
pub open spec fn batch_of(b: BufferView) -> (Seq<char>, Seq<ValueV>) {
    (b.table, b.active)
}


/// Where batch `k` of the picked tables comes from.
proof fn lemma_batch_source(bs: Seq<BufferView>, picks: Seq<bool>, k: int) -> (i: int)
    requires
        picks.len() == bs.len(),
        0 <= k < batches(bs, picks).len(),
    ensures
        0 <= i < bs.len(),
        picks[i],
        batches(bs, picks)[k] == batch_of(bs[i]),
        forall|k2: int| 0 <= k2 < k ==> #[trigger] batches(bs, picks)[k2].0 != bs[i].table || !distinct_tables(bs),
    decreases bs.len(),
{
    let init = bs.drop_last();
    let pinit = picks.drop_last();
    let n = bs.len() - 1;
    let r0 = batches(init, pinit);
    let r = batches(bs, picks);
    if k < r0.len() {
        assert(r[k] == r0[k]);
        let i = lemma_batch_source(init, pinit, k);
        assert(init[i] == bs[i] && pinit[i] == picks[i]);
        assert forall|k2: int| 0 <= k2 < k implies #[trigger] r[k2].0 != bs[i].table || !distinct_tables(bs) by {
            assert(r[k2] == r0[k2]);
            if distinct_tables(bs) {
                assert(distinct_tables(init)) by {
                    assert forall|a: int, b: int|
                        0 <= a < init.len() && 0 <= b < init.len() && a != b implies #[trigger] init[a].table
                        != #[trigger] init[b].table by {
                        assert(init[a] == bs[a] && init[b] == bs[b]);
                    }
                };
                assert(r0[k2].0 != init[i].table);
            }
        }
        i
    } else {
        assert(picks[n]);
        assert forall|k2: int| 0 <= k2 < k implies #[trigger] r[k2].0 != bs[n].table || !distinct_tables(bs) by {
            assert(r[k2] == r0[k2]);
            let j = lemma_batch_source(init, pinit, k2);
            assert(init[j] == bs[j]);
        }
        n
    }
}

/// Where the batch of picked table `i` stands among the batches.
proof fn lemma_batch_place(bs: Seq<BufferView>, picks: Seq<bool>, i: int) -> (k: int)
    requires
        picks.len() == bs.len(),
        0 <= i < bs.len(),
        picks[i],
    ensures
        0 <= k < batches(bs, picks).len(),
        batches(bs, picks)[k] == batch_of(bs[i]),
    decreases bs.len(),
{
    let init = bs.drop_last();
    let pinit = picks.drop_last();
    let n = bs.len() - 1;
    let r0 = batches(init, pinit);
    if i < n {
        assert(init[i] == bs[i] && pinit[i] == picks[i]);
        let k = lemma_batch_place(init, pinit, i);
        if picks[n] {
            assert(batches(bs, picks)[k] == r0[k]);
        }
        k
    } else {
        r0.len() as int
    }
}

/// Each batch given back for the tables picked (as `flush_all` and
/// `flush_expired` pick them) is the active rows of a picked table.
pub proof fn law_batch_comes_from_a_picked_table(bs: Seq<BufferView>, picks: Seq<bool>, k: int) -> (i: int)
    requires
        picks.len() == bs.len(),
        0 <= k < batches(bs, picks).len(),
    ensures
        0 <= i < bs.len(),
        picks[i],
        batches(bs, picks)[k] == batch_of(bs[i]),
{
    lemma_batch_source(bs, picks, k)
}

/// Each picked table has its active rows given back as a batch.
pub proof fn law_picked_table_has_its_batch(bs: Seq<BufferView>, picks: Seq<bool>, i: int) -> (k: int)
    requires
        picks.len() == bs.len(),
        0 <= i < bs.len(),
        picks[i],
    ensures
        0 <= k < batches(bs, picks).len(),
        batches(bs, picks)[k] == batch_of(bs[i]),
{
    lemma_batch_place(bs, picks, i)
}

/// No table is given back twice among the batches.
pub proof fn law_no_table_batched_twice(bs: Seq<BufferView>, picks: Seq<bool>, k1: int, k2: int)
    requires
        distinct_tables(bs),
        picks.len() == bs.len(),
        0 <= k1 < k2 < batches(bs, picks).len(),
    ensures
        batches(bs, picks)[k1].0 != batches(bs, picks)[k2].0,
{
    let i = lemma_batch_source(bs, picks, k2);
    let j = lemma_batch_source(bs, picks, k1);
}

/// Rows parsed from TSV always make an `INSERT` statement: each is an
/// object, so only an empty batch is refused.
pub proof fn law_parsed_rows_make_a_statement(text: Seq<char>, table: Seq<char>)
    requires
        tsv_rows(text) is Ok,
        tsv_rows(text)->Ok_0.len() > 0,
    ensures
        insert_sql(table, tsv_rows(text)->Ok_0) is Ok,
{
    let rows = tsv_rows(text)->Ok_0;
    assert forall|i: int| 0 <= i < rows.len() implies !(#[trigger] rows[i] is Leaf) by {}
}

/// Reading a field of an object gives back what was last written there;
/// writing one field leaves the others as they were.
pub proof fn law_object_get_after_insert(
    es: Seq<(Seq<char>, LeafV)>,
    k: Seq<char>,
    v: LeafV,
    other: Seq<char>,
)
    ensures
        entries_get(entries_insert(es, k, v), k) == Some(v),
        other != k ==> entries_get(entries_insert(es, k, v), other) == entries_get(es, other),
    decreases es.len(),
{
    if es.len() > 0 && es[0].0 != k && !crate::json::chars_lt(k, es[0].0) {
        law_object_get_after_insert(es.drop_first(), k, v, other);
        let ins = entries_insert(es, k, v);
        assert(ins.drop_first() =~= entries_insert(es.drop_first(), k, v));
        assert(ins[0] == es[0]);
        assert(ins.len() > 0);
        if other != k && es[0].0 != other {
            assert(entries_get(ins, other) == entries_get(ins.drop_first(), other));
            assert(entries_get(ins, other) == entries_get(es, other));
        }
    } else if es.len() > 0 && es[0].0 == k {
        let ins = entries_insert(es, k, v);
        assert(ins.drop_first() =~= es.drop_first());
        assert(ins[0] == (k, v));
        assert(ins.len() > 0);
        if other != k {
            assert(entries_get(ins, other) == entries_get(ins.drop_first(), other));
            assert(entries_get(ins, other) == entries_get(es, other));
        }
    } else if es.len() > 0 {
        let ins = entries_insert(es, k, v);
        assert(ins.drop_first() =~= es);
        assert(ins[0] == (k, v));
        assert(ins.len() > 0);
        if other != k {
            assert(entries_get(ins, other) == entries_get(ins.drop_first(), other));
            assert(entries_get(ins, other) == entries_get(es, other));
        }
    } else {
        let ins = entries_insert(es, k, v);
        assert(ins.drop_first() =~= Seq::<(Seq<char>, LeafV)>::empty());
        assert(ins[0] == (k, v));
        assert(ins.len() > 0);
        if other != k {
            assert(entries_get(ins, other) == entries_get(ins.drop_first(), other));
            assert(entries_get(ins, other) == entries_get(es, other));
        }
    }
}

/// The last place where column `c` stands among `cols`, or -1 where it
/// stands nowhere.
pub open spec fn last_column(cols: Seq<Seq<char>>, c: Seq<char>) -> int
    decreases cols.len(),
{
    if cols.len() == 0 {
        -1
    } else if cols.last() == c {
        cols.len() - 1
    } else {
        last_column(cols.drop_last(), c)
    }
}

/// A parsed row holds, under each column name, the value of the field in
/// that column; where two columns share a name, the field of the later
/// one; a name that no column has is absent from the row.
pub proof fn law_row_reads_its_fields(cols: Seq<Seq<char>>, fields: Seq<Seq<char>>, c: Seq<char>)
    requires
        c.len() > 0,
    ensures
        entries_get(row_object(cols, fields), c) == if last_column(cols, c) >= 0 {
            Some(cell_value(fields, last_column(cols, c)))
        } else {
            None::<LeafV>
        },
    decreases cols.len(),
{
    if cols.len() > 0 {
        law_row_reads_its_fields(cols.drop_last(), fields, c);
        let i = cols.len() - 1;
        if cols[i].len() > 0 {
            law_object_get_after_insert(
                row_object(cols.drop_last(), fields),
                cols[i],
                cell_value(fields, i),
                c,
            );
        }
    }
}

pub(crate) proof fn lemma_nat_digits(m: nat)
    ensures
        nat_digits(m).len() > 0,
        all_digits(nat_digits(m)),
        digits_value(nat_digits(m)) == m,
    decreases m,
{
    let d = (m % 10) as int;
    assert(digit_value(digit_char(d)) == d && is_digit(digit_char(d))) by {
        assert(0 <= d < 10);
        assert((d + 48) as char as u32 == d + 48);
    };
    if m >= 10 {
        lemma_nat_digits(m / 10);
        vstd::arithmetic::div_mod::lemma_fundamental_div_mod(m as int, 10);
        let s = nat_digits(m);
        assert(s.drop_last() =~= nat_digits(m / 10));
        assert(s.last() == digit_char(d));
        assert(digits_value(s) == digits_value(nat_digits(m / 10)) * 10 + digit_value(s.last()));
        assert(digits_value(s) == m);
        assert(all_digits(s)) by {
            assert forall|i: int| 0 <= i < s.len() implies is_digit(#[trigger] s[i]) by {
                if i < s.len() - 1 {
                    assert(s[i] == nat_digits(m / 10)[i]);
                }
            }
        };
    } else {
        assert(m % 10 == m);
        assert(nat_digits(m).drop_last() =~= Seq::<char>::empty());
        assert(digits_value(nat_digits(m)) == digits_value(Seq::<char>::empty()) * 10 + digit_value(digit_char(d)));
    }
}

/// An integer written as `Display` writes it is read back from a TSV field
/// as that same integer.
pub proof fn law_integer_field_roundtrip(n: i64)
    ensures
        parse_i64(int_text(n as int)) == Some(n as int),
        field_value(int_text(n as int)) == LeafV::Number(int_text(n as int)),
{
    let t = int_text(n as int);
    if n < 0 {
        let m = (-n) as nat;
        lemma_nat_digits(m);
        assert(unsigned_part(t) =~= nat_digits(m));
        assert(is_negative(t));
    } else {
        let m = n as nat;
        lemma_nat_digits(m);
        assert(is_digit(t[0]));
        assert(unsigned_part(t) =~= t);
        assert(!is_negative(t));
    }
}

pub(crate) proof fn lemma_replace_excludes(s: Seq<char>, c: char, w: Seq<char>, x: char)
    requires
        x == c || !s.contains(x),
        !w.contains(x),
    ensures
        !replace_char(s, c, w).contains(x),
    decreases s.len(),
{
    if s.len() > 0 {
        if x != c {
            assert(!s.drop_last().contains(x)) by {
                if s.drop_last().contains(x) {
                    let i = choose|i: int| 0 <= i < s.drop_last().len() && s.drop_last()[i] == x;
                    assert(s[i] == x);
                }
            };
        }
        lemma_replace_excludes(s.drop_last(), c, w, x);
        let prev = replace_char(s.drop_last(), c, w);
        let piece = if s.last() == c {
            w
        } else {
            seq![s.last()]
        };
        assert(replace_char(s, c, w) == prev + piece);
        if (prev + piece).contains(x) {
            let i = choose|i: int| 0 <= i < (prev + piece).len() && (prev + piece)[i] == x;
            if i < prev.len() {
                assert(prev[i] == x);
            } else {
                assert(piece[i - prev.len()] == x);
                if s.last() != c {
                    assert(s[s.len() - 1] == x);
                }
            }
        }
    }
}

/// The fields of a metric line hold no tab and no line feed, so that they
/// cannot break the TSV line.
pub proof fn law_clean_field_has_no_separators(s: Seq<char>)
    ensures
        !clean_field(s).contains('\t'),
        !clean_field(s).contains('\n'),
{
    let a = replace_char(s, '\t', seq![' ']);
    assert(!seq![' '].contains('\t')) by {
        if seq![' '].contains('\t') {
            assert(seq![' '][0] == ' ');
        }
    };
    assert(!seq![' '].contains('\n')) by {
        if seq![' '].contains('\n') {
            assert(seq![' '][0] == ' ');
        }
    };
    lemma_replace_excludes(s, '\t', seq![' '], '\t');
    lemma_replace_excludes(a, '\n', seq![' '], '\t');
    lemma_replace_excludes(a, '\n', seq![' '], '\n');
}

} // verus!
