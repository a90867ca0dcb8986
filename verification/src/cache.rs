//! The add-in's cache: rows waiting to be written, per table. Each table
//! has an active batch that `add` grows and at most one batch set aside
//! for sending. A batch is set aside when the active batch reaches the
//! row limit or has waited for the timeout; the caller takes it, sends
//! it, and may put it back when sending failed.

use vstd::prelude::*;
use crate::json::{copy_values, values_view, JsonValue, ValueV};

verus! {

broadcast use vstd::string::group_string_axioms;

#[verifier::external_type_specification]
#[verifier::external_body]
pub struct ExInstant(std::time::Instant);

/// `std::time::Instant::now`. It reads the clock: nothing is stated of it.
#[verifier::external_body]
fn instant_now() -> std::time::Instant {
    std::time::Instant::now()
}

/// `std::time::Instant::elapsed` of `t`, as `Duration::as_nanos` counts
/// it. It reads the clock: nothing is stated of it.
#[verifier::external_body]
fn nanos_since(t: &std::time::Instant) -> u128 {
    t.elapsed().as_nanos()
}

/// The batch set aside for sending.
struct FlushBuffer {
    data: Vec<JsonValue>,
    retry_count: u32,
}

/// The rows of one table.
struct TableBuffer {
    table: String,
    active: Vec<JsonValue>,
    flush: Option<FlushBuffer>,
    last_flush_time: std::time::Instant,
}

/// What `add` asks of its caller.
#[derive(Debug)]
pub enum CacheStatus {
    /// The rows were kept.
    Stored,
    /// A batch of this table was set aside: take it and send it.
    NeedsNetworkFlush(String),
}

/// The row limit of the add-in's cache.
pub const ADD_IN_MAX_ROWS: usize = 50000;

/// The timeout of the add-in's cache, in seconds.
pub const ADD_IN_TIMEOUT_SECS: u64 = 5;

/// The rows that the add-in holds, per table.
pub struct AddInCache {
    buffers: Vec<TableBuffer>,
    max_rows: usize,
    secs_timeout: u64,
}

/// The mathematical state of one table.
pub struct BufferView {
    pub table: Seq<char>,
    pub active: Seq<ValueV>,
    /// The batch set aside, with its retry count.
    pub flush: Option<(Seq<ValueV>, u32)>,
    /// When the table's timer last started: when the table was first seen
    /// or a batch of it was last set aside.
    pub last_flush: std::time::Instant,
}

/// The mathematical state of the cache: the tables in the order they were
/// first seen, the row limit and the timeout in seconds.
pub struct CacheView {
    pub buffers: Seq<BufferView>,
    pub max_rows: nat,
    pub timeout_secs: nat,
}

impl CacheStatus {
    pub open spec fn flushed_table(self) -> Option<Seq<char>> {
        match self {
            CacheStatus::Stored => None,
            CacheStatus::NeedsNetworkFlush(t) => Some(t@),
        }
    }
}

spec fn flush_view(f: Option<FlushBuffer>) -> Option<(Seq<ValueV>, u32)> {
    match f {
        Some(fb) => Some((values_view(fb.data@), fb.retry_count)),
        None => None,
    }
}

impl View for TableBuffer {
    type V = BufferView;

    closed spec fn view(&self) -> BufferView {
        BufferView {
            table: self.table@,
            active: values_view(self.active@),
            flush: flush_view(self.flush),
            last_flush: self.last_flush_time,
        }
    }
}

spec fn buffers_view(bs: Seq<TableBuffer>) -> Seq<BufferView> {
    bs.map_values(|b: TableBuffer| b@)
}

impl View for AddInCache {
    type V = CacheView;

    closed spec fn view(&self) -> CacheView {
        CacheView {
            buffers: buffers_view(self.buffers@),
            max_rows: self.max_rows as nat,
            timeout_secs: self.secs_timeout as nat,
        }
    }
}

// ---------------------------------------------------------------------
// Specification of the operations
// ---------------------------------------------------------------------

/// No table appears twice.
pub open spec fn distinct_tables(bs: Seq<BufferView>) -> bool {
    forall|i: int, j: int|
        0 <= i < bs.len() && 0 <= j < bs.len() && i != j ==> #[trigger] bs[i].table
            != #[trigger] bs[j].table
}

/// Where table `t` stands, or the number of tables when it is absent.
pub open spec fn position(bs: Seq<BufferView>, t: Seq<char>) -> int
    decreases bs.len(),
{
    if bs.len() == 0 {
        0
    } else if bs[0].table == t {
        0
    } else {
        1 + position(bs.drop_first(), t)
    }
}

/// A table first seen at `now`.
pub open spec fn empty_buffer(t: Seq<char>, now: std::time::Instant) -> BufferView {
    BufferView { table: t, active: Seq::empty(), flush: None, last_flush: now }
}

/// The state of table `t`; a table not yet seen has nothing, its timer
/// starting at `now`.
pub open spec fn buffer_of(bs: Seq<BufferView>, t: Seq<char>, now: std::time::Instant) -> BufferView {
    let p = position(bs, t);
    if p < bs.len() {
        bs[p]
    } else {
        empty_buffer(t, now)
    }
}

/// The tables with `nb` as the state of table `nb.table`, a new table
/// going last.
pub open spec fn with_buffer(bs: Seq<BufferView>, nb: BufferView) -> Seq<BufferView> {
    let p = position(bs, nb.table);
    if p < bs.len() {
        bs.update(p, nb)
    } else {
        bs.push(nb)
    }
}

/// Whether adding `rows` sets a batch aside: the rows reach the limit or
/// the timeout has passed, there are rows, and no batch is set aside yet.
pub open spec fn add_flushes(b: BufferView, rows: Seq<ValueV>, max_rows: nat, timed_out: bool) -> bool {
    let active = b.active + rows;
    &&& active.len() >= max_rows || timed_out
    &&& active.len() > 0
    &&& b.flush is None
}

/// The state of a table after `rows` were added at `now`: where a batch
/// is set aside its timer restarts at `now`, else the timer is kept.
pub open spec fn added(
    b: BufferView,
    rows: Seq<ValueV>,
    max_rows: nat,
    timed_out: bool,
    now: std::time::Instant,
) -> BufferView {
    if add_flushes(b, rows, max_rows, timed_out) {
        BufferView {
            table: b.table,
            active: Seq::empty(),
            flush: Some((b.active + rows, 0)),
            last_flush: now,
        }
    } else {
        BufferView { table: b.table, active: b.active + rows, flush: b.flush, last_flush: b.last_flush }
    }
}

/// The cache after `rows` were added to table `t` at `now`, `timed_out`
/// telling whether the table's timeout had passed.
pub open spec fn cache_add(
    c: CacheView,
    t: Seq<char>,
    rows: Seq<ValueV>,
    timed_out: bool,
    now: std::time::Instant,
) -> CacheView {
    CacheView {
        buffers: with_buffer(
            c.buffers,
            added(buffer_of(c.buffers, t, now), rows, c.max_rows, timed_out, now),
        ),
        ..c
    }
}

/// Whether the timeout of `secs` seconds has passed after `elapsed_nanos`
/// nanoseconds.
pub open spec fn timeout_reached(elapsed_nanos: int, secs: nat) -> bool {
    elapsed_nanos >= secs * 1_000_000_000
}

/// For each table, whether its timeout of `secs` seconds has passed after
/// the nanoseconds in `elapsed`.
pub open spec fn timeouts(elapsed: Seq<nat>, secs: nat) -> Seq<bool> {
    Seq::new(elapsed.len(), |i: int| timeout_reached(elapsed[i] as int, secs))
}

/// The batch set aside for table `t`, if any.
pub open spec fn pending(c: CacheView, t: Seq<char>) -> Option<Seq<ValueV>> {
    let p = position(c.buffers, t);
    if p < c.buffers.len() {
        match c.buffers[p].flush {
            Some(f) => Some(f.0),
            None => None,
        }
    } else {
        None
    }
}

/// The cache after the batch of table `t` was taken.
pub open spec fn cache_take(c: CacheView, t: Seq<char>) -> CacheView {
    let p = position(c.buffers, t);
    if p < c.buffers.len() {
        CacheView {
            buffers: c.buffers.update(p, BufferView { flush: None, ..c.buffers[p] }),
            ..c
        }
    } else {
        c
    }
}

/// The cache after a batch that could not be sent came back: it is set
/// aside again, with retry count 1, where table `t` is known and has no
/// batch set aside; elsewhere it is dropped.
pub open spec fn cache_return(c: CacheView, t: Seq<char>, data: Seq<ValueV>) -> CacheView {
    let p = position(c.buffers, t);
    if p < c.buffers.len() && c.buffers[p].flush is None {
        CacheView {
            buffers: c.buffers.update(p, BufferView { flush: Some((data, 1)), ..c.buffers[p] }),
            ..c
        }
    } else {
        c
    }
}

/// A table's active rows set aside as a new batch at `now`, which
/// restarts its timer.
pub open spec fn set_aside(b: BufferView, now: std::time::Instant) -> BufferView {
    BufferView { table: b.table, active: Seq::empty(), flush: Some((b.active, 0)), last_flush: now }
}

/// `(table, rows)` for each table whose `pick` is true, in table order.
pub open spec fn batches(bs: Seq<BufferView>, pick: Seq<bool>) -> Seq<(Seq<char>, Seq<ValueV>)>
    decreases bs.len(),
{
    if bs.len() == 0 {
        Seq::empty()
    } else if pick[bs.len() - 1] {
        batches(bs.drop_last(), pick.drop_last()).push((bs.last().table, bs.last().active))
    } else {
        batches(bs.drop_last(), pick.drop_last())
    }
}

/// Whether `flush_expired` sets the active rows of a table aside, given
/// whether its timeout had passed.
pub open spec fn expires(b: BufferView, timed_out: bool) -> bool {
    b.active.len() > 0 && timed_out && b.flush is None
}

pub open spec fn expire_picks(bs: Seq<BufferView>, timed_out: Seq<bool>) -> Seq<bool> {
    Seq::new(bs.len(), |i: int| expires(bs[i], timed_out[i]))
}

/// The tables after `flush_expired`, `timed_out` telling for each table
/// whether its timeout had passed and `nows` when its rows were set aside.
pub open spec fn expired_buffers(
    bs: Seq<BufferView>,
    timed_out: Seq<bool>,
    nows: Seq<std::time::Instant>,
) -> Seq<BufferView> {
    Seq::new(
        bs.len(),
        |i: int|
            if expires(bs[i], timed_out[i]) {
                set_aside(bs[i], nows[i])
            } else {
                bs[i]
            },
    )
}

/// The tables with the active rows of each table whose `picks` is true
/// set aside at its `nows`.
pub open spec fn picked_buffers(
    bs: Seq<BufferView>,
    picks: Seq<bool>,
    nows: Seq<std::time::Instant>,
) -> Seq<BufferView> {
    Seq::new(
        bs.len(),
        |i: int|
            if picks[i] {
                set_aside(bs[i], nows[i])
            } else {
                bs[i]
            },
    )
}

pub open spec fn all_picks(bs: Seq<BufferView>) -> Seq<bool> {
    Seq::new(bs.len(), |i: int| bs[i].active.len() > 0)
}

/// The tables after `flush_all`: every table with active rows has them
/// set aside at its `nows`, in place of any batch set aside before.
pub open spec fn flushed_buffers(bs: Seq<BufferView>, nows: Seq<std::time::Instant>) -> Seq<BufferView> {
    Seq::new(
        bs.len(),
        |i: int|
            if bs[i].active.len() > 0 {
                set_aside(bs[i], nows[i])
            } else {
                bs[i]
            },
    )
}

pub open spec fn batches_view(v: Seq<(String, Vec<JsonValue>)>) -> Seq<(Seq<char>, Seq<ValueV>)> {
    v.map_values(|e: (String, Vec<JsonValue>)| (e.0@, values_view(e.1@)))
}

// ---------------------------------------------------------------------
// Implementation
// ---------------------------------------------------------------------

pub proof fn lemma_position_bounds(bs: Seq<BufferView>, t: Seq<char>)
    ensures
        0 <= position(bs, t) <= bs.len(),
        position(bs, t) < bs.len() ==> bs[position(bs, t)].table == t,
        position(bs, t) == bs.len() ==> forall|i: int| 0 <= i < bs.len() ==> #[trigger] bs[i].table != t,
    decreases bs.len(),
{
    if bs.len() > 0 {
        lemma_position_bounds(bs.drop_first(), t);
        if bs[0].table != t && position(bs, t) == bs.len() {
            assert forall|i: int| 0 <= i < bs.len() implies #[trigger] bs[i].table != t by {
                if i > 0 {
                    assert(bs[i] == bs.drop_first()[i - 1]);
                }
            }
        }
    }
}

impl AddInCache {
    #[verifier::type_invariant]
    pub(crate) closed spec fn well_formed(self) -> bool {
        distinct_tables(buffers_view(self.buffers@))
    }

    /// What the cache's invariant says of its view: no table twice.
    pub(crate) proof fn lemma_well_formed(c: &AddInCache)
        requires
            c.well_formed(),
        ensures
            distinct_tables(c@.buffers),
    {
    }

    /// `new`: a cache with no tables, the row limit `max_rows` and the
    /// timeout `secs_timeout` seconds.
    pub fn new(max_rows: usize, secs_timeout: u64) -> (c: AddInCache)
        ensures
            distinct_tables(c@.buffers),
            c@.buffers == Seq::<BufferView>::empty(),
            c@.max_rows == max_rows,
            c@.timeout_secs == secs_timeout,
    {
        let c = AddInCache { buffers: Vec::new(), max_rows, secs_timeout };
        assert(buffers_view(c.buffers@) =~= Seq::<BufferView>::empty());
        c
    }

    /// Where table `t` stands, or the number of tables when it is absent.
    fn find(&self, t: &String) -> (p: usize)
        ensures
            p == position(self@.buffers, t@),
            p <= self@.buffers.len(),
    {
        let ghost bs = self@.buffers;
        let n = self.buffers.len();
        let mut i: usize = 0;
        assert(bs.skip(0) =~= bs);
        while i < n && !(self.buffers[i].table == *t)
            invariant
                bs == buffers_view(self.buffers@),
                i <= n == bs.len(),
                position(bs, t@) == i + position(bs.skip(i as int), t@),
            decreases n - i,
        {
            assert(bs.skip(i as int).drop_first() =~= bs.skip(i + 1));
            assert(bs.skip(i as int)[0] == bs[i as int]);
            i = i + 1;
        }
        if i < n {
            assert(bs.skip(i as int)[0] == bs[i as int]);
        }
        i
    }

    /// Whether the timeout of table `t` has passed, by the clock; for a
    /// table not yet seen, counted from now. Whatever the clock said, the
    /// answer is `timeout_reached` of some elapsed time.
    pub(crate) fn timed_out(&self, t: &String) -> (r: bool)
        ensures
            exists|elapsed: nat| r == timeout_reached(elapsed as int, self@.timeout_secs),
            self@.timeout_secs == 0 ==> r,
    {
        let p = self.find(t);
        let elapsed = if p < self.buffers.len() {
            nanos_since(&self.buffers[p].last_flush_time)
        } else {
            nanos_since(&instant_now())
        };
        let r = timeout_passed(elapsed, self.secs_timeout);
        let ghost e: nat = elapsed as nat;
        assert(r == timeout_reached(e as int, self@.timeout_secs));
        r
    }

    /// Adds `new_raws` to table `table`, `timed_out` telling whether the
    /// table's timeout has passed; a table not yet seen starts empty. The
    /// clock gives `now`: the start of a new table's timer, and the
    /// restart of the timer where a batch is set aside; otherwise the
    /// table's timer is kept.
    pub fn add_with_timeout(&mut self, table: String, new_raws: Vec<JsonValue>, timed_out: bool) -> (status:
        CacheStatus)
        ensures
            distinct_tables(final(self)@.buffers),
            exists|now: std::time::Instant|
                {
                    &&& final(self)@ == cache_add(
                        old(self)@,
                        table@,
                        values_view(new_raws@),
                        timed_out,
                        now,
                    )
                    &&& status.flushed_table() == if add_flushes(
                        buffer_of(old(self)@.buffers, table@, now),
                        values_view(new_raws@),
                        old(self)@.max_rows,
                        timed_out,
                    ) {
                        Some(table@)
                    } else {
                        None::<Seq<char>>
                    }
                },
    {
        proof {
            use_type_invariant(&*self);
        }
        let ghost c0 = self@;
        let ghost bs = c0.buffers;
        let ghost rows = values_view(new_raws@);
        let p = self.find(&table);
        proof {
            lemma_position_bounds(bs, table@);
        }
        let mut buffers: Vec<TableBuffer> = Vec::new();
        std::mem::swap(&mut buffers, &mut self.buffers);
        if p == buffers.len() {
            let nb = TableBuffer {
                table: table.clone(),
                active: Vec::new(),
                flush: None,
                last_flush_time: instant_now(),
            };
            let ghost started = nb.last_flush_time;
            buffers.push(nb);
            assert(buffers_view(buffers@) =~= bs.push(empty_buffer(table@, started))) by {
                assert(values_view(Seq::<JsonValue>::empty()) =~= Seq::<ValueV>::empty());
            };
        }
        let ghost bs1 = buffers_view(buffers@);
        let ghost mut now = bs1[p as int].last_flush;
        assert(bs1[p as int] == buffer_of(bs, table@, now));
        let mut rows_in = new_raws;
        let b = &mut buffers[p];
        b.active.append(&mut rows_in);
        assert(values_view(b.active@) =~= buffer_of(bs, table@, now).active + rows);
        let flushes = (b.active.len() >= self.max_rows || timed_out) && b.active.len() > 0
            && b.flush.is_none();
        if flushes {
            let mut raw_data: Vec<JsonValue> = Vec::new();
            std::mem::swap(&mut raw_data, &mut b.active);
            b.flush = Some(FlushBuffer { data: raw_data, retry_count: 0 });
            b.last_flush_time = instant_now();
            proof {
                now = b.last_flush_time;
            }
            assert(values_view(b.active@) =~= Seq::<ValueV>::empty());
        }
        let ghost b0 = buffer_of(bs, table@, now);
        assert(b0.active == bs1[p as int].active && b0.flush == bs1[p as int].flush && b0.table
            == table@);
        let ghost nb = added(b0, rows, c0.max_rows, timed_out, now);
        assert(buffers_view(buffers@) =~= with_buffer(bs, nb)) by {
            assert(buffers_view(buffers@) =~= bs1.update(p as int, nb));
        };
        assert(distinct_tables(buffers_view(buffers@))) by {
            let nbs = buffers_view(buffers@);
            assert forall|i: int, j: int|
                0 <= i < nbs.len() && 0 <= j < nbs.len() && i != j implies #[trigger] nbs[i].table
                != #[trigger] nbs[j].table by {
                if i < bs.len() && j < bs.len() {
                    assert(nbs[i].table == bs[i].table);
                    assert(nbs[j].table == bs[j].table);
                }
            }
        };
        self.buffers = buffers;
        assert(self@ == cache_add(c0, table@, rows, timed_out, now));
        if flushes {
            CacheStatus::NeedsNetworkFlush(table)
        } else {
            CacheStatus::Stored
        }
    }

    /// `add`: adds `new_raws` to table `table`, the clock telling whether
    /// the table's timeout has passed: it has where the nanoseconds since
    /// the table's timer started reach the timeout. Whatever the clock
    /// said, the cache changes as `add_with_timeout` says for some elapsed
    /// time and some `now`.
    pub fn add(&mut self, table: String, new_raws: Vec<JsonValue>) -> (status: CacheStatus)
        ensures
            distinct_tables(final(self)@.buffers),
            exists|elapsed: nat, now: std::time::Instant|
                {
                    &&& final(self)@ == cache_add(
                        old(self)@,
                        table@,
                        values_view(new_raws@),
                        timeout_reached(elapsed as int, old(self)@.timeout_secs),
                        now,
                    )
                    &&& status.flushed_table() == if add_flushes(
                        buffer_of(old(self)@.buffers, table@, now),
                        values_view(new_raws@),
                        old(self)@.max_rows,
                        timeout_reached(elapsed as int, old(self)@.timeout_secs),
                    ) {
                        Some(table@)
                    } else {
                        None::<Seq<char>>
                    }
                },
    {
        let ghost c0 = self@;
        let ghost tv = table@;
        let ghost rv = values_view(new_raws@);
        let t = self.timed_out(&table);
        let ghost elapsed = choose|elapsed: nat| t == timeout_reached(elapsed as int, self@.timeout_secs);
        let status = self.add_with_timeout(table, new_raws, t);
        let ghost now = choose|now: std::time::Instant|
            {
                &&& self@ == cache_add(c0, tv, rv, t, now)
                &&& status.flushed_table() == if add_flushes(
                    buffer_of(c0.buffers, tv, now),
                    rv,
                    c0.max_rows,
                    t,
                ) {
                    Some(tv)
                } else {
                    None::<Seq<char>>
                }
            };
        assert(self@ == cache_add(c0, tv, rv, timeout_reached(elapsed as int, c0.timeout_secs), now));
        status
    }

    /// `take_flush_data`: takes the batch set aside for table `table`.
    pub fn take_flush_data(&mut self, table: &str) -> (r: Option<Vec<JsonValue>>)
        ensures
            distinct_tables(final(self)@.buffers),
            final(self)@ == cache_take(old(self)@, table@),
            match r {
                Some(d) => pending(old(self)@, table@) == Some(values_view(d@)),
                None => pending(old(self)@, table@) is None,
            },
    {
        proof {
            use_type_invariant(&*self);
        }
        let ghost bs = self@.buffers;
        let key = table.to_owned();
        let p = self.find(&key);
        if p == self.buffers.len() {
            return None;
        }
        let mut buffers: Vec<TableBuffer> = Vec::new();
        std::mem::swap(&mut buffers, &mut self.buffers);
        let b = &mut buffers[p];
        let mut taken: Option<FlushBuffer> = None;
        std::mem::swap(&mut taken, &mut b.flush);
        assert(buffers_view(buffers@) =~= bs.update(p as int, BufferView { flush: None, ..bs[p as int] }));
        assert(distinct_tables(buffers_view(buffers@))) by {
            let nbs = buffers_view(buffers@);
            assert forall|i: int, j: int|
                0 <= i < nbs.len() && 0 <= j < nbs.len() && i != j implies #[trigger] nbs[i].table
                != #[trigger] nbs[j].table by {
                assert(nbs[i].table == bs[i].table);
                assert(nbs[j].table == bs[j].table);
            }
        };
        self.buffers = buffers;
        match taken {
            Some(f) => Some(f.data),
            None => None,
        }
    }

    /// `return_to_flush`: puts back a batch that could not be sent.
    pub fn return_to_flush(&mut self, table: &str, data: Vec<JsonValue>)
        ensures
            distinct_tables(final(self)@.buffers),
            final(self)@ == cache_return(old(self)@, table@, values_view(data@)),
    {
        proof {
            use_type_invariant(&*self);
        }
        let ghost bs = self@.buffers;
        let key = table.to_owned();
        let p = self.find(&key);
        if p == self.buffers.len() {
            return;
        }
        if self.buffers[p].flush.is_some() {
            return;
        }
        let mut buffers: Vec<TableBuffer> = Vec::new();
        std::mem::swap(&mut buffers, &mut self.buffers);
        let ghost dv = values_view(data@);
        let b = &mut buffers[p];
        b.flush = Some(FlushBuffer { data, retry_count: 1 });
        assert(buffers_view(buffers@) =~= bs.update(
            p as int,
            BufferView { flush: Some((dv, 1)), ..bs[p as int] },
        ));
        assert(distinct_tables(buffers_view(buffers@))) by {
            let nbs = buffers_view(buffers@);
            assert forall|i: int, j: int|
                0 <= i < nbs.len() && 0 <= j < nbs.len() && i != j implies #[trigger] nbs[i].table
                != #[trigger] nbs[j].table by {
                assert(nbs[i].table == bs[i].table);
                assert(nbs[j].table == bs[j].table);
            }
        };
        self.buffers = buffers;
    }

    /// Sets aside the active rows of each table whose `picks` is true, in
    /// place of any batch set aside before, restarting its timer at a time
    /// the clock gives, and gives those rows back.
    fn set_aside_picked(&mut self, picks: &Vec<bool>) -> (r: Vec<(String, Vec<JsonValue>)>)
        requires
            picks@.len() == old(self)@.buffers.len(),
        ensures
            distinct_tables(final(self)@.buffers),
            exists|nows: Seq<std::time::Instant>|
                {
                    &&& nows.len() == old(self)@.buffers.len()
                    &&& final(self)@ == (CacheView {
                        buffers: #[trigger] picked_buffers(old(self)@.buffers, picks@, nows),
                        ..old(self)@
                    })
                },
            batches_view(r@) == batches(old(self)@.buffers, picks@),
    {
        proof {
            use_type_invariant(&*self);
        }
        let ghost bs = self@.buffers;
        let ghost mut nows: Seq<std::time::Instant> = bs.map_values(|b: BufferView| b.last_flush);
        let mut buffers: Vec<TableBuffer> = Vec::new();
        std::mem::swap(&mut buffers, &mut self.buffers);
        let mut out: Vec<(String, Vec<JsonValue>)> = Vec::new();
        let n = buffers.len();
        let mut i: usize = 0;
        assert(bs.take(0) =~= Seq::<BufferView>::empty());
        while i < n
            invariant
                n == bs.len() == picks@.len() == nows.len(),
                i <= n,
                buffers@.len() == n,
                forall|j: int|
                    0 <= j < i ==> #[trigger] buffers_view(buffers@)[j] == if picks@[j] {
                        set_aside(bs[j], nows[j])
                    } else {
                        bs[j]
                    },
                forall|j: int| i <= j < n ==> #[trigger] buffers_view(buffers@)[j] == bs[j],
                batches_view(out@) == batches(bs.take(i as int), picks@.take(i as int)),
            decreases n - i,
        {
            let ghost before = buffers_view(buffers@);
            let ghost nows0 = nows;
            let ghost out0 = batches_view(out@);
            assert(bs.take(i + 1).drop_last() =~= bs.take(i as int));
            assert(picks@.take(i + 1).drop_last() =~= picks@.take(i as int));
            if picks[i] {
                let ghost bi = before[i as int];
                assert(bi == bs[i as int]);
                let b = &mut buffers[i];
                let mut data: Vec<JsonValue> = Vec::new();
                std::mem::swap(&mut data, &mut b.active);
                assert(values_view(data@) == bi.active);
                let kept = copy_values(&data);
                b.flush = Some(FlushBuffer { data: kept, retry_count: 0 });
                b.last_flush_time = instant_now();
                proof {
                    nows = nows.update(i as int, b.last_flush_time);
                }
                let t = b.table.clone();
                assert(t@ == bi.table);
                assert(values_view(b.active@) =~= Seq::<ValueV>::empty());
                assert(b@ == set_aside(bi, nows[i as int]));
                out.push((t, data));
                assert(batches_view(out@) =~= out0.push((bi.table, bi.active)));
                assert(buffers_view(buffers@)[i as int] == set_aside(bi, nows[i as int]));
            }
            assert forall|j: int| 0 <= j < i + 1 implies #[trigger] buffers_view(buffers@)[j]
                == if picks@[j] {
                set_aside(bs[j], nows[j])
            } else {
                bs[j]
            } by {
                if j < i {
                    assert(buffers_view(buffers@)[j] == before[j]);
                    assert(nows[j] == nows0[j]);
                } else if !picks@[i as int] {
                    assert(buffers_view(buffers@)[j] == before[j]);
                }
            }
            assert forall|j: int| i + 1 <= j < n implies #[trigger] buffers_view(buffers@)[j]
                == bs[j] by {
                assert(buffers_view(buffers@)[j] == before[j]);
            }
            i = i + 1;
        }
        assert(bs.take(n as int) =~= bs);
        assert(picks@.take(n as int) =~= picks@);
        let ghost target = picked_buffers(bs, picks@, nows);
        assert(buffers_view(buffers@) =~= target);
        assert(distinct_tables(target)) by {
            assert forall|a: int, b: int|
                0 <= a < target.len() && 0 <= b < target.len() && a != b implies #[trigger] target[a].table
                != #[trigger] target[b].table by {
                assert(target[a].table == bs[a].table);
                assert(target[b].table == bs[b].table);
            }
        };
        self.buffers = buffers;
        assert(self@ == (CacheView { buffers: target, ..old(self)@ }));
        out
    }

    /// `flush_all`: sets aside the active rows of every table that has
    /// some, in place of any batch set aside before, restarting the timers
    /// of those tables, and gives the rows back with their table, in table
    /// order.
    pub fn flush_all(&mut self) -> (r: Vec<(String, Vec<JsonValue>)>)
        ensures
            distinct_tables(final(self)@.buffers),
            exists|nows: Seq<std::time::Instant>|
                {
                    &&& nows.len() == old(self)@.buffers.len()
                    &&& final(self)@ == (CacheView {
                        buffers: #[trigger] flushed_buffers(old(self)@.buffers, nows),
                        ..old(self)@
                    })
                },
            batches_view(r@) == batches(old(self)@.buffers, all_picks(old(self)@.buffers)),
    {
        let ghost c0 = self@;
        let ghost bs = self@.buffers;
        let mut picks: Vec<bool> = Vec::new();
        let mut i: usize = 0;
        while i < self.buffers.len()
            invariant
                bs == self@.buffers,
                i <= bs.len(),
                picks@ == all_picks(bs).take(i as int),
            decreases bs.len() - i,
        {
            picks.push(self.buffers[i].active.len() > 0);
            assert(picks@ =~= all_picks(bs).take(i + 1));
            i = i + 1;
        }
        assert(picks@ =~= all_picks(bs));
        let r = self.set_aside_picked(&picks);
        let ghost nows = choose|nows: Seq<std::time::Instant>|
            {
                &&& nows.len() == bs.len()
                &&& self@ == (CacheView { buffers: picked_buffers(bs, picks@, nows), ..c0 })
            };
        assert(self@.buffers =~= flushed_buffers(bs, nows));
        r
    }

    /// Sets aside the active rows of each table that has some, no batch
    /// set aside, and whose `timed_out` is true, restarting its timer;
    /// gives those rows back.
    pub fn flush_expired_with(&mut self, timed_out: &Vec<bool>) -> (r: Vec<(String, Vec<JsonValue>)>)
        requires
            timed_out@.len() == old(self)@.buffers.len(),
        ensures
            distinct_tables(final(self)@.buffers),
            exists|nows: Seq<std::time::Instant>|
                {
                    &&& nows.len() == old(self)@.buffers.len()
                    &&& final(self)@ == (CacheView {
                        buffers: #[trigger] expired_buffers(old(self)@.buffers, timed_out@, nows),
                        ..old(self)@
                    })
                },
            batches_view(r@) == batches(
                old(self)@.buffers,
                expire_picks(old(self)@.buffers, timed_out@),
            ),
    {
        let ghost c0 = self@;
        let ghost bs = self@.buffers;
        let mut picks: Vec<bool> = Vec::new();
        let mut i: usize = 0;
        while i < self.buffers.len()
            invariant
                bs == self@.buffers,
                timed_out@.len() == bs.len(),
                i <= bs.len(),
                picks@ == expire_picks(bs, timed_out@).take(i as int),
            decreases bs.len() - i,
        {
            let b = &self.buffers[i];
            picks.push(b.active.len() > 0 && timed_out[i] && b.flush.is_none());
            assert(picks@ =~= expire_picks(bs, timed_out@).take(i + 1));
            i = i + 1;
        }
        assert(picks@ =~= expire_picks(bs, timed_out@));
        let r = self.set_aside_picked(&picks);
        let ghost nows = choose|nows: Seq<std::time::Instant>|
            {
                &&& nows.len() == bs.len()
                &&& self@ == (CacheView { buffers: picked_buffers(bs, picks@, nows), ..c0 })
            };
        assert(self@.buffers =~= expired_buffers(bs, timed_out@, nows));
        r
    }

    /// `flush_expired`: sets aside the active rows of each table whose
    /// timeout has passed by the clock and that has no batch set aside,
    /// restarting its timer, and gives them back with their table, in
    /// table order. A table's timeout has passed where the nanoseconds
    /// since its timer started reach the timeout; whatever the clock said,
    /// the cache changes as `flush_expired_with` says for some elapsed
    /// time per table.
    pub fn flush_expired(&mut self) -> (r: Vec<(String, Vec<JsonValue>)>)
        ensures
            distinct_tables(final(self)@.buffers),
            exists|elapsed: Seq<nat>, nows: Seq<std::time::Instant>|
                {
                    &&& elapsed.len() == old(self)@.buffers.len()
                    &&& nows.len() == old(self)@.buffers.len()
                    &&& final(self)@ == (CacheView {
                        buffers: #[trigger] expired_buffers(
                            old(self)@.buffers,
                            timeouts(elapsed, old(self)@.timeout_secs),
                            nows,
                        ),
                        ..old(self)@
                    })
                    &&& batches_view(r@) == batches(
                        old(self)@.buffers,
                        expire_picks(old(self)@.buffers, timeouts(elapsed, old(self)@.timeout_secs)),
                    )
                },
    {
        let mut readings: Vec<u128> = Vec::new();
        let mut i: usize = 0;
        while i < self.buffers.len()
            invariant
                self@ == old(self)@,
                i <= self@.buffers.len(),
                readings@.len() == i,
            decreases self@.buffers.len() - i,
        {
            readings.push(nanos_since(&self.buffers[i].last_flush_time));
            i = i + 1;
        }
        self.flush_expired_after(&readings)
    }

    /// Sets aside the active rows of each table that has some, no batch
    /// set aside, and whose timer started `elapsed[i]` nanoseconds ago,
    /// at least the timeout; restarts the timers of those tables and gives
    /// their rows back with their table, in table order.
    pub fn flush_expired_after(&mut self, elapsed: &Vec<u128>) -> (r: Vec<(String, Vec<JsonValue>)>)
        requires
            elapsed@.len() == old(self)@.buffers.len(),
        ensures
            distinct_tables(final(self)@.buffers),
            exists|nows: Seq<std::time::Instant>|
                {
                    &&& nows.len() == old(self)@.buffers.len()
                    &&& final(self)@ == (CacheView {
                        buffers: #[trigger] expired_buffers(
                            old(self)@.buffers,
                            timeouts(nat_readings(elapsed@), old(self)@.timeout_secs),
                            nows,
                        ),
                        ..old(self)@
                    })
                },
            batches_view(r@) == batches(
                old(self)@.buffers,
                expire_picks(old(self)@.buffers, timeouts(nat_readings(elapsed@), old(self)@.timeout_secs)),
            ),
    {
        let ghost c0 = self@;
        let mut flags: Vec<bool> = Vec::new();
        let mut i: usize = 0;
        while i < elapsed.len()
            invariant
                c0 == self@,
                elapsed@.len() == c0.buffers.len(),
                i <= elapsed@.len(),
                flags@ =~= timeouts(nat_readings(elapsed@), c0.timeout_secs).take(i as int),
            decreases elapsed@.len() - i,
        {
            flags.push(timeout_passed(elapsed[i], self.secs_timeout));
            i = i + 1;
        }
        assert(flags@ =~= timeouts(nat_readings(elapsed@), c0.timeout_secs));
        self.flush_expired_with(&flags)
    }
}

/// The clock's readings as natural numbers.
pub open spec fn nat_readings(elapsed: Seq<u128>) -> Seq<nat> {
    elapsed.map_values(|e: u128| e as nat)
}

/// Whether a timeout of `secs` seconds has passed after `elapsed_nanos`
/// nanoseconds.
pub fn timeout_passed(elapsed_nanos: u128, secs: u64) -> (r: bool)
    ensures
        r == timeout_reached(elapsed_nanos as int, secs as nat),
{
    elapsed_nanos >= (secs as u128) * 1_000_000_000
}

} // verus!
