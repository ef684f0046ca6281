//! Namespaced, range-queryable persistent storage for price bars and
//! replay cursors.
//!
//! The store keeps one sorted byte table per logical namespace inside one
//! embedded key-value database. Keys and values go through the order
//! preserving codec, so the backend's raw-byte range scans walk candles in
//! time order. A namespace that was never written reads as empty; writes
//! create it lazily and land atomically as a batch.
use crate::codec::decode_candle;
use crate::codec::enc_candle;
use crate::codec::enc_i64;
use crate::codec::encode_candle;
use crate::codec::lemma_enc_candle_injective;
use crate::codec::lemma_enc_candle_len;
use crate::codec::lemma_enc_i64_order;
use crate::codec::lemma_enc_i64_val;
use crate::codec::lex_le;
use crate::codec::lex_lt;
use crate::codec::push_i64;
use crate::codec::read_i64;
use crate::errors::CodecError;
use crate::errors::StorageError;
use crate::models::Candle;
use crate::types::Mode;
use crate::types::TimeFrame;
use vstd::prelude::*;
use vstd::string::StringExecFns;

verus! {

/// The contents of the backing database, table by table: what each named
/// byte table maps each key to. A table that does not exist reads as the
/// empty map; the trusted wrappers below keep that convention.
pub uninterp spec fn db_tables(db: redb::Database) -> Map<Seq<char>, Map<Seq<u8>, Seq<u8>>>;

#[verifier::external_type_specification]
#[verifier::external_body]
pub struct ExDatabase(redb::Database);

#[verifier::external_type_specification]
#[verifier::external_body]
pub struct ExRedbError(redb::Error);

/// Relies on `redb::Error`'s display: renders a backend failure as the
/// library's storage error.
#[verifier::external_body]
fn backend_err(e: redb::Error) -> (r: StorageError)
    ensures
        r is Backend,
{
    StorageError::Backend(format!("{e}"))
}

/// Relies on `redb::Database::create`: opens the file at `path` as a
/// database, creating the file when it is absent; nothing is known of the
/// tables inside.
#[verifier::external_body]
fn open_db(path: &str) -> (r: Result<redb::Database, redb::Error>) {
    let db = redb::Database::create(path)?;
    Ok(db)
}

/// Relies on `ReadTransaction::open_table` and `ReadOnlyTable::get`: a
/// point lookup in the named byte table; a table never created answers as
/// empty instead of erring.
#[verifier::external_body]
fn kv_get(db: &redb::Database, table: &str, key: &Vec<u8>) -> (r: Result<
    Option<Vec<u8>>,
    redb::Error,
>)
    requires
        table@.len() > 0,
    ensures
        r matches Ok(Some(v)) ==> db_tables(*db)[table@].contains_key(key@) && v@ == db_tables(
            *db,
        )[table@][key@],
        r matches Ok(None) ==> !db_tables(*db)[table@].contains_key(key@),
{
    let tx = redb::ReadableDatabase::begin_read(db)?;
    let t = match tx.open_table(redb::TableDefinition::<&[u8], &[u8]>::new(table)) {
        Ok(t) => t,
        Err(redb::TableError::TableDoesNotExist(_)) => return Ok(None),
        Err(e) => return Err(e.into()),
    };
    match t.get(key.as_slice())? {
        Some(g) => Ok(Some(g.value().to_vec())),
        None => Ok(None),
    }
}

/// Relies on `ReadOnlyTable::range` over a byte-keyed table: redb's
/// `&[u8]` keys compare as `data1.cmp(data2)`, plain lexicographic byte
/// order, and the iterator yields every entry of the inclusive range in
/// ascending key order. A table never created answers as empty.
#[verifier::external_body]
fn kv_range(db: &redb::Database, table: &str, lo: &Vec<u8>, hi: &Vec<u8>) -> (r: Result<
    Vec<(Vec<u8>, Vec<u8>)>,
    redb::Error,
>)
    requires
        table@.len() > 0,
    ensures
        r matches Ok(entries) ==> {
            &&& forall|i: int|
                0 <= i < entries.len() ==> {
                    &&& lex_le(lo@, (#[trigger] entries[i]).0@)
                    &&& lex_le(entries[i].0@, hi@)
                    &&& db_tables(*db)[table@].contains_key(entries[i].0@)
                    &&& entries[i].1@ == db_tables(*db)[table@][entries[i].0@]
                }
            &&& forall|i: int, j: int|
                0 <= i < j < entries.len() ==> lex_lt(
                    (#[trigger] entries[i]).0@,
                    (#[trigger] entries[j]).0@,
                )
            &&& forall|k: Seq<u8>|
                (#[trigger] db_tables(*db)[table@].contains_key(k)) && lex_le(lo@, k) && lex_le(
                    k,
                    hi@,
                ) ==> exists|i: int| 0 <= i < entries.len() && (#[trigger] entries[i]).0@ == k
        },
{
    let tx = redb::ReadableDatabase::begin_read(db)?;
    let t = match tx.open_table(redb::TableDefinition::<&[u8], &[u8]>::new(table)) {
        Ok(t) => t,
        Err(redb::TableError::TableDoesNotExist(_)) => return Ok(Vec::new()),
        Err(e) => return Err(e.into()),
    };
    let mut out = Vec::new();
    for item in t.range(lo.as_slice()..=hi.as_slice())? {
        let (k, v) = item?;
        out.push((k.value().to_vec(), v.value().to_vec()));
    }
    Ok(out)
}

/// What a batch of upserts leaves in a table: each pair lands in order, so
/// on one key the last write wins.
pub open spec fn insert_pairs(m: Map<Seq<u8>, Seq<u8>>, pairs: Seq<(Vec<u8>, Vec<u8>)>) -> Map<
    Seq<u8>,
    Seq<u8>,
>
    decreases pairs.len(),
{
    if pairs.len() == 0 {
        m
    } else {
        insert_pairs(m, pairs.drop_last()).insert(pairs.last().0@, pairs.last().1@)
    }
}

/// Relies on `WriteTransaction::open_table`, which creates the table when
/// it is absent, `Table::insert`, an upsert by key, and `commit`: the whole
/// batch lands atomically. An error before `commit` aborts the transaction
/// with the database unchanged; a failed `commit` is still atomic but may
/// have landed, so an error promises only all-or-nothing.
#[verifier::external_body]
fn kv_put_many(db: &mut redb::Database, table: &str, pairs: &Vec<(Vec<u8>, Vec<u8>)>) -> (r:
    Result<(), redb::Error>)
    requires
        table@.len() > 0,
    ensures
        r is Ok ==> db_tables(*final(db)) == db_tables(*old(db)).insert(
            table@,
            insert_pairs(db_tables(*old(db))[table@], pairs@),
        ),
        r is Err ==> db_tables(*final(db)) == db_tables(*old(db)) || db_tables(*final(db))
            == db_tables(*old(db)).insert(
            table@,
            insert_pairs(db_tables(*old(db))[table@], pairs@),
        ),
{
    let tx = db.begin_write()?;
    {
        let mut t = tx.open_table(redb::TableDefinition::<&[u8], &[u8]>::new(table))?;
        for (k, v) in pairs.iter() {
            t.insert(k.as_slice(), v.as_slice())?;
        }
    }
    tx.commit()?;
    Ok(())
}

/// What a successful range read answers: bars strictly ascending by time,
/// each lying in `[begin, end]` and stored under its own time key, and one
/// for every key of the namespace in the range.
pub open spec fn range_read_ok(
    cs: Seq<Candle>,
    m: Map<Seq<u8>, Seq<u8>>,
    begin: i64,
    end: i64,
) -> bool {
    &&& forall|i: int, j: int|
        0 <= i < j < cs.len() ==> (#[trigger] cs[i]).time < (#[trigger] cs[j]).time
    &&& forall|i: int|
        0 <= i < cs.len() ==> begin <= (#[trigger] cs[i]).time <= end && m.contains_key(
            enc_i64(cs[i].time),
        ) && m[enc_i64(cs[i].time)] == enc_candle(cs[i])
    &&& forall|t: i64|
        begin <= t <= end && #[trigger] m.contains_key(enc_i64(t)) ==> exists|i: int|
            0 <= i < cs.len() && (#[trigger] cs[i]).time == t
}

/// Some entry of the namespace lies in the scanned range and is not the
/// encoding of a bar keyed by its own time.
pub open spec fn corrupt_in_range(m: Map<Seq<u8>, Seq<u8>>, begin: i64, end: i64) -> bool {
    exists|k: Seq<u8>|
        #[trigger] m.contains_key(k) && lex_le(enc_i64(begin), k) && lex_le(k, enc_i64(end)) && !(
        exists|c: Candle| k == enc_i64(c.time) && m[k] == enc_candle(c))
}

/// The candle namespace for a run mode, symbol and bar width. Modes differ
/// in their name, so backtest, sandbox and live bars never share a table.
pub open spec fn candle_ns(mode: Mode, symbol: Seq<char>, interval: TimeFrame) -> Seq<char> {
    spec_mode_name(mode) + "_"@ + symbol + "_"@ + spec_tf_name(interval)
}

pub open spec fn spec_mode_name(mode: Mode) -> Seq<char> {
    match mode {
        Mode::Backtest => "Backtest"@,
        Mode::Sandbox => "Sandbox"@,
        Mode::Real => "Real"@,
    }
}

pub open spec fn spec_tf_name(interval: TimeFrame) -> Seq<char> {
    match interval {
        TimeFrame::Minute => "1m"@,
        TimeFrame::Minute3 => "3m"@,
        TimeFrame::Minute5 => "5m"@,
        TimeFrame::Minute15 => "15m"@,
        TimeFrame::Minute30 => "30m"@,
        TimeFrame::Hour => "1h"@,
        TimeFrame::Hour2 => "2h"@,
        TimeFrame::Hour4 => "4h"@,
        TimeFrame::Hour6 => "6h"@,
        TimeFrame::Hour8 => "8h"@,
        TimeFrame::Hour12 => "12h"@,
        TimeFrame::Day => "1d"@,
        TimeFrame::Day3 => "3d"@,
        TimeFrame::Week => "1w"@,
        TimeFrame::Month => "1M"@,
    }
}

/// Builds the candle namespace string `{mode}_{symbol}_{interval}`.
fn candle_table_name(mode: Mode, symbol: &str, interval: TimeFrame) -> (r: String)
    ensures
        r@ == candle_ns(mode, symbol@, interval),
        r@.len() > 0,
{
    proof {
        reveal_strlit("Backtest");
        reveal_strlit("Sandbox");
        reveal_strlit("Real");
        reveal_strlit("_");
    }
    let mut s = String::from_str(mode.as_str());
    s.append("_");
    s.append(symbol);
    s.append("_");
    s.append(interval.as_str());
    proof {
        assert(spec_mode_name(mode).len() > 0);
    }
    s
}

/// The store handle: one embedded database opened for one run mode.
pub struct TimeSeriesStore {
    db: redb::Database,
    mode: Mode,
}

impl TimeSeriesStore {
    /// The contents of the backing database, table by table.
    pub closed spec fn tables(self) -> Map<Seq<char>, Map<Seq<u8>, Seq<u8>>> {
        db_tables(self.db)
    }

    /// The run mode every candle namespace of this handle is scoped by.
    pub closed spec fn spec_mode(self) -> Mode {
        self.mode
    }

    /// The byte table of one candle namespace.
    pub open spec fn ns_map(self, symbol: Seq<char>, interval: TimeFrame) -> Map<Seq<u8>, Seq<u8>> {
        self.tables()[candle_ns(self.spec_mode(), symbol, interval)]
    }

    /// Opens (or creates) the store's database file `{dir}/{mode}.db`. The
    /// directory must already exist; nothing is assumed about what an
    /// existing file holds.
    pub fn open_at(dir: &str, mode: Mode) -> (r: Result<TimeSeriesStore, StorageError>)
        ensures
            r matches Ok(s) ==> s.spec_mode() == mode,
    {
        let mut path = String::from_str(dir);
        path.append("/");
        path.append(mode.as_str());
        path.append(".db");
        match open_db(path.as_str()) {
            Ok(db) => Ok(TimeSeriesStore { db, mode }),
            Err(e) => Err(backend_err(e)),
        }
    }

    /// Point lookup of the bar at `time` in the `(mode, symbol, interval)`
    /// namespace. `None` exactly when the namespace holds no entry at that
    /// key — in particular for a namespace never written — and never an
    /// error on absence alone; `Corrupt` exactly when the entry exists but
    /// its bytes are not the encoding of a bar at `time`.
    pub fn get_candle(&self, symbol: &str, interval: TimeFrame, time: i64) -> (r: Result<
        Option<Candle>,
        StorageError,
    >)
        ensures
            ({
                let m = self.tables()[candle_ns(self.spec_mode(), symbol@, interval)];
                &&& r matches Ok(Some(c)) ==> m.contains_key(enc_i64(time)) && m[enc_i64(time)]
                    == enc_candle(c) && c.time == time
                &&& r matches Ok(None) ==> !m.contains_key(enc_i64(time))
                &&& r matches Err(StorageError::Corrupt(_)) ==> m.contains_key(enc_i64(time))
                    && !(exists|c: Candle|
                    c.time == time && m[enc_i64(time)] == enc_candle(c))
            }),
    {
        let table = candle_table_name(self.mode, symbol, interval);
        let mut key: Vec<u8> = Vec::new();
        push_i64(&mut key, time);
        proof {
            assert(key@ =~= enc_i64(time));
        }
        let bytes = match kv_get(&self.db, table.as_str(), &key) {
            Ok(Some(b)) => b,
            Ok(None) => {
                return Ok(None);
            },
            Err(e) => {
                return Err(backend_err(e));
            },
        };
        match decode_candle(&bytes) {
            Ok(c) => {
                if c.time == time {
                    Ok(Some(c))
                } else {
                    proof {
                        lemma_no_candle_at_time(time, bytes@, c);
                    }
                    Err(StorageError::Corrupt(CodecError::Malformed))
                }
            },
            Err(e) => {
                proof {
                    lemma_no_candle_wrong_len(bytes@);
                }
                Err(StorageError::Corrupt(e))
            },
        }
    }

    /// Inclusive range scan by time, ascending. The answer holds exactly
    /// the bars of the namespace whose time lies in `[begin, end]` — empty,
    /// not an error, when the namespace was never written or the range is
    /// empty — and `Corrupt` exactly when some entry in the scanned range
    /// is not the encoding of a bar keyed by its own time.
    pub fn get_candles(&self, symbol: &str, interval: TimeFrame, begin: i64, end: i64) -> (r:
        Result<Vec<Candle>, StorageError>)
        ensures
            r matches Ok(cs) ==> range_read_ok(cs@, self.ns_map(symbol@, interval), begin, end),
            r matches Err(StorageError::Corrupt(_)) ==> corrupt_in_range(
                self.ns_map(symbol@, interval),
                begin,
                end,
            ),
    {
        if end < begin {
            let empty: Vec<Candle> = Vec::new();
            return Ok(empty);
        }
        let table = candle_table_name(self.mode, symbol, interval);
        let mut lo: Vec<u8> = Vec::new();
        push_i64(&mut lo, begin);
        let mut hi: Vec<u8> = Vec::new();
        push_i64(&mut hi, end);
        proof {
            assert(lo@ =~= enc_i64(begin));
            assert(hi@ =~= enc_i64(end));
        }
        let entries = match kv_range(&self.db, table.as_str(), &lo, &hi) {
            Ok(es) => es,
            Err(e) => {
                return Err(backend_err(e));
            },
        };
        decode_range(&entries, begin, end, Ghost(self.ns_map(symbol@, interval)))
    }

    /// Saves a batch of bars into the `(mode, symbol, interval)` namespace:
    /// an idempotent upsert keyed by each bar's `time`, creating the
    /// namespace lazily on first write. Within one batch the last bar on a
    /// given `time` wins; every other namespace is untouched. The batch is
    /// atomic: all bars land or none do, also on failure.
    pub fn save_candles(&mut self, symbol: &str, interval: TimeFrame, candles: &Vec<Candle>) -> (r:
        Result<(), StorageError>)
        ensures
            final(self).spec_mode() == old(self).spec_mode(),
            ({
                let ns = candle_ns(old(self).spec_mode(), symbol@, interval);
                &&& r is Ok ==> final(self).tables() == old(self).tables().insert(
                    ns,
                    insert_candles(old(self).tables()[ns], candles@),
                )
                &&& r is Err ==> final(self).tables() == old(self).tables() || final(self).tables()
                    == old(self).tables().insert(
                    ns,
                    insert_candles(old(self).tables()[ns], candles@),
                )
            }),
    {
        let table = candle_table_name(self.mode, symbol, interval);
        let n = candles.len();
        let mut pairs: Vec<(Vec<u8>, Vec<u8>)> = Vec::new();
        let mut i: usize = 0;
        while i < n
            invariant
                i <= n == candles@.len(),
                pairs@.len() == i,
                forall|j: int|
                    0 <= j < i ==> (#[trigger] pairs@[j]).0@ == enc_i64(candles@[j].time)
                        && pairs@[j].1@ == enc_candle(candles@[j]),
            decreases n - i,
        {
            let c = candles[i];
            let mut key: Vec<u8> = Vec::new();
            push_i64(&mut key, c.time);
            proof {
                assert(key@ =~= enc_i64(c.time));
            }
            let value = encode_candle(&c);
            pairs.push((key, value));
            i = i + 1;
        }
        proof {
            lemma_insert_pairs_candles(
                db_tables(old(self).db)[candle_ns(old(self).spec_mode(), symbol@, interval)],
                pairs@,
                candles@,
            );
        }
        match kv_put_many(&mut self.db, table.as_str(), &pairs) {
            Ok(()) => Ok(()),
            Err(e) => Err(backend_err(e)),
        }
    }

    /// Reads the replay cursor for `(symbol, interval)`: the last confirmed
    /// point of a backtest's historical window. `None` exactly when the
    /// reserved cursor namespace holds no entry under that key; `Corrupt`
    /// exactly when the stored bytes are no timestamp's encoding.
    pub fn get_replay_cursor(&self, symbol: &str, interval: TimeFrame) -> (r: Result<
        Option<i64>,
        StorageError,
    >)
        ensures
            r matches Ok(Some(t)) ==> self.tables()[cursor_ns()].contains_key(
                cursor_key(symbol@, interval),
            ) && self.tables()[cursor_ns()][cursor_key(symbol@, interval)] == enc_i64(t),
            r matches Ok(None) ==> !self.tables()[cursor_ns()].contains_key(
                cursor_key(symbol@, interval),
            ),
            r matches Err(StorageError::Corrupt(_)) ==> self.tables()[cursor_ns()].contains_key(
                cursor_key(symbol@, interval),
            ) && forall|t: i64|
                self.tables()[cursor_ns()][cursor_key(symbol@, interval)] != enc_i64(t),
    {
        let key = cursor_key_exec(symbol, interval);
        proof {
            reveal_strlit("Backtest_Candle_Config");
        }
        let bytes = match kv_get(&self.db, "Backtest_Candle_Config", &key) {
            Ok(Some(b)) => b,
            Ok(None) => {
                return Ok(None);
            },
            Err(e) => {
                return Err(backend_err(e));
            },
        };
        if bytes.len() != 8 {
            proof {
                assert forall|t: i64| bytes@ != enc_i64(t) by {
                    lemma_enc_i64_val(t);
                }
            }
            return Err(StorageError::Corrupt(CodecError::Malformed));
        }
        let t = read_i64(&bytes, 0);
        proof {
            assert(bytes@.subrange(0, 8) =~= bytes@);
            crate::codec::lemma_be_bytes_be_val(bytes@);
            lemma_enc_i64_val(t);
        }
        Ok(Some(t))
    }

    /// Writes the replay cursor for `(symbol, interval)`: a single scalar
    /// upsert into the reserved cursor namespace, atomic also on failure,
    /// creating the namespace lazily; nothing else moves.
    pub fn save_replay_cursor(&mut self, symbol: &str, interval: TimeFrame, time: i64) -> (r:
        Result<(), StorageError>)
        ensures
            final(self).spec_mode() == old(self).spec_mode(),
            r is Ok ==> final(self).tables() == old(self).tables().insert(
                cursor_ns(),
                old(self).tables()[cursor_ns()].insert(cursor_key(symbol@, interval), enc_i64(time)),
            ),
            r is Err ==> final(self).tables() == old(self).tables() || final(self).tables()
                == old(self).tables().insert(
                cursor_ns(),
                old(self).tables()[cursor_ns()].insert(cursor_key(symbol@, interval), enc_i64(time)),
            ),
    {
        let key = cursor_key_exec(symbol, interval);
        let mut value: Vec<u8> = Vec::new();
        push_i64(&mut value, time);
        proof {
            assert(value@ =~= enc_i64(time));
            reveal_strlit("Backtest_Candle_Config");
        }
        let mut pairs: Vec<(Vec<u8>, Vec<u8>)> = Vec::new();
        pairs.push((key, value));
        proof {
            let m0 = db_tables(old(self).db)[cursor_ns()];
            assert(pairs@.drop_last() =~= Seq::<(Vec<u8>, Vec<u8>)>::empty());
            assert(insert_pairs(m0, Seq::<(Vec<u8>, Vec<u8>)>::empty()) == m0);
            assert(pairs@.last().0@ == cursor_key(symbol@, interval));
            assert(pairs@.last().1@ == enc_i64(time));
            assert(insert_pairs(m0, pairs@) == m0.insert(
                cursor_key(symbol@, interval),
                enc_i64(time),
            ));
        }
        match kv_put_many(&mut self.db, "Backtest_Candle_Config", &pairs) {
            Ok(()) => Ok(()),
            Err(e) => Err(backend_err(e)),
        }
    }
}

/// The reserved namespace that holds every replay cursor, apart from all
/// candle namespaces.
pub open spec fn cursor_ns() -> Seq<char> {
    "Backtest_Candle_Config"@
}

/// The cursor key for one symbol and bar width: the bytes of
/// `{symbol}_{interval}`.
pub open spec fn cursor_key(symbol: Seq<char>, interval: TimeFrame) -> Seq<u8> {
    vstd::utf8::encode_utf8(symbol + "_"@ + spec_tf_name(interval))
}

fn cursor_key_exec(symbol: &str, interval: TimeFrame) -> (r: Vec<u8>)
    ensures
        r@ == cursor_key(symbol@, interval),
{
    let mut s = String::from_str(symbol);
    s.append("_");
    s.append(interval.as_str());
    s.as_str().as_bytes_vec()
}

/// What saving a batch leaves in a namespace: each bar keyed by its time,
/// in batch order, so the last write on a time wins.
pub open spec fn insert_candles(m: Map<Seq<u8>, Seq<u8>>, cs: Seq<Candle>) -> Map<Seq<u8>, Seq<u8>>
    decreases cs.len(),
{
    if cs.len() == 0 {
        m
    } else {
        insert_candles(m, cs.drop_last()).insert(enc_i64(cs.last().time), enc_candle(cs.last()))
    }
}

/// A batch of encoded pairs lands exactly as the bars it encodes.
proof fn lemma_insert_pairs_candles(
    m: Map<Seq<u8>, Seq<u8>>,
    pairs: Seq<(Vec<u8>, Vec<u8>)>,
    cs: Seq<Candle>,
)
    requires
        pairs.len() == cs.len(),
        forall|j: int|
            0 <= j < pairs.len() ==> (#[trigger] pairs[j]).0@ == enc_i64(cs[j].time)
                && pairs[j].1@ == enc_candle(cs[j]),
    ensures
        insert_pairs(m, pairs) == insert_candles(m, cs),
    decreases pairs.len(),
{
    if pairs.len() > 0 {
        lemma_insert_pairs_candles(m, pairs.drop_last(), cs.drop_last());
    }
}

/// No bar at `time` encodes to bytes that decoded to a bar at another time.
proof fn lemma_no_candle_at_time(time: i64, bytes: Seq<u8>, decoded: Candle)
    requires
        enc_candle(decoded) == bytes,
        decoded.time != time,
    ensures
        !(exists|c: Candle| c.time == time && bytes == enc_candle(c)),
{
    assert forall|c: Candle| c.time == time implies bytes != enc_candle(c) by {
        if bytes == enc_candle(c) {
            lemma_enc_candle_injective(c, decoded);
        }
    }
}

/// Bytes of the wrong width are no bar's encoding.
proof fn lemma_no_candle_wrong_len(bytes: Seq<u8>)
    requires
        bytes.len() != 80,
    ensures
        !(exists|c: Candle| bytes == enc_candle(c)),
{
    assert forall|c: Candle| bytes != enc_candle(c) by {
        lemma_enc_candle_len(c);
    }
}


/// Decodes one scanned range of entries into bars, checking as it goes that
/// every entry is the encoding of a bar keyed by its own time.
#[verifier::spinoff_prover]
fn decode_range(
    entries: &Vec<(Vec<u8>, Vec<u8>)>,
    begin: i64,
    end: i64,
    Ghost(m): Ghost<Map<Seq<u8>, Seq<u8>>>,
) -> (r: Result<Vec<Candle>, StorageError>)
    requires
        forall|j: int|
            0 <= j < entries@.len() ==> {
                &&& lex_le(enc_i64(begin), (#[trigger] entries@[j]).0@)
                &&& lex_le(entries@[j].0@, enc_i64(end))
                &&& m.contains_key(entries@[j].0@)
                &&& entries@[j].1@ == m[entries@[j].0@]
            },
        forall|a: int, b: int|
            0 <= a < b < entries@.len() ==> lex_lt(
                (#[trigger] entries@[a]).0@,
                (#[trigger] entries@[b]).0@,
            ),
        forall|k: Seq<u8>|
            (#[trigger] m.contains_key(k)) && lex_le(enc_i64(begin), k) && lex_le(
                k,
                enc_i64(end),
            ) ==> exists|j: int| 0 <= j < entries@.len() && (#[trigger] entries@[j]).0@ == k,
    ensures
        r matches Ok(cs) ==> range_read_ok(cs@, m, begin, end),
        r matches Err(StorageError::Corrupt(_)) ==> corrupt_in_range(m, begin, end),
        !(r matches Err(StorageError::Backend(_))),
{
    let n = entries.len();
    let mut out: Vec<Candle> = Vec::new();
    let mut i: usize = 0;
    while i < n
        invariant
            out@.len() == i <= n == entries@.len(),
            forall|j: int|
                0 <= j < n ==> {
                    &&& lex_le(enc_i64(begin), (#[trigger] entries@[j]).0@)
                    &&& lex_le(entries@[j].0@, enc_i64(end))
                    &&& m.contains_key(entries@[j].0@)
                    &&& entries@[j].1@ == m[entries@[j].0@]
                },
            forall|a: int, b: int|
                0 <= a < b < n ==> lex_lt((#[trigger] entries@[a]).0@, (#[trigger] entries@[b]).0@),
            forall|k: Seq<u8>|
                (#[trigger] m.contains_key(k)) && lex_le(enc_i64(begin), k) && lex_le(
                    k,
                    enc_i64(end),
                ) ==> exists|j: int| 0 <= j < n && (#[trigger] entries@[j]).0@ == k,
            forall|j: int|
                0 <= j < i ==> enc_i64((#[trigger] out@[j]).time) == entries@[j].0@ && enc_candle(
                    out@[j],
                ) == entries@[j].1@,
        decreases n - i,
    {
        let ghost k = entries@[i as int].0@;
        let key_len = entries[i].0.len();
        if key_len != 8 {
            proof {
                assert forall|c: Candle| k != enc_i64(c.time) by {
                    lemma_enc_i64_val(c.time);
                }
                assert(m.contains_key(k) && lex_le(enc_i64(begin), k) && lex_le(k, enc_i64(end))
                    && !(exists|c: Candle| k == enc_i64(c.time) && m[k] == enc_candle(c)));
                assert(corrupt_in_range(m, begin, end));
            }
            return Err(StorageError::Corrupt(CodecError::Malformed));
        }
        let t = read_i64(&entries[i].0, 0);
        proof {
            assert(k.subrange(0, 8) =~= k);
            crate::codec::lemma_be_bytes_be_val(k);
            lemma_enc_i64_val(t);
            assert(enc_i64(t) == k);
        }
        let c = match decode_candle(&entries[i].1) {
            Ok(c) => c,
            Err(e) => {
                proof {
                    lemma_no_candle_wrong_len(entries@[i as int].1@);
                    assert(m.contains_key(k) && lex_le(enc_i64(begin), k) && lex_le(
                        k,
                        enc_i64(end),
                    ) && !(exists|c: Candle| k == enc_i64(c.time) && m[k] == enc_candle(c)));
                    assert(corrupt_in_range(m, begin, end));
                }
                return Err(StorageError::Corrupt(e));
            },
        };
        if c.time != t {
            proof {
                assert forall|cc: Candle| k == enc_i64(cc.time) implies m[k] != enc_candle(
                    cc,
                ) by {
                    if m[k] == enc_candle(cc) {
                        lemma_enc_candle_injective(cc, c);
                        lemma_enc_i64_order(cc.time, t);
                    }
                }
                assert(m.contains_key(k) && lex_le(enc_i64(begin), k) && lex_le(k, enc_i64(end))
                    && !(exists|c: Candle| k == enc_i64(c.time) && m[k] == enc_candle(c)));
                assert(corrupt_in_range(m, begin, end));
            }
            return Err(StorageError::Corrupt(CodecError::Malformed));
        }
        out.push(c);
        i = i + 1;
    }
    proof {
        assert forall|a: int, b: int|
            0 <= a < b < out@.len() implies (#[trigger] out@[a]).time < (
        #[trigger] out@[b]).time by {
            lemma_enc_i64_order(out@[a].time, out@[b].time);
        }
        assert forall|a: int|
            0 <= a < out@.len() implies begin <= (#[trigger] out@[a]).time <= end
                && m.contains_key(enc_i64(out@[a].time)) && m[enc_i64(out@[a].time)] == enc_candle(
            out@[a],
        ) by {
            lemma_enc_i64_order(begin, out@[a].time);
            lemma_enc_i64_order(out@[a].time, end);
            assert(enc_i64(out@[a].time) == entries@[a].0@);
            assert(m.contains_key(entries@[a].0@));
        }
        assert forall|t: i64|
            begin <= t <= end && #[trigger] m.contains_key(enc_i64(t)) implies exists|j: int|
            0 <= j < out@.len() && (#[trigger] out@[j]).time == t by {
            lemma_enc_i64_order(begin, t);
            lemma_enc_i64_order(t, end);
            let j = choose|j: int| 0 <= j < n && (#[trigger] entries@[j]).0@ == enc_i64(t);
            lemma_enc_i64_order(out@[j].time, t);
            assert(out@[j].time == t);
        }
        assert(range_read_ok(out@, m, begin, end));
    }
    Ok(out)
}


/// Law: how a saved batch answers a point lookup in its namespace — the
/// last bar of the batch on a given time wins, and a time no bar of the
/// batch carries still reads whatever stood there before.
pub proof fn lemma_insert_candles_lookup(m0: Map<Seq<u8>, Seq<u8>>, cs: Seq<Candle>, t: i64)
    ensures
        (exists|i: int| 0 <= i < cs.len() && (#[trigger] cs[i]).time == t) ==> insert_candles(
            m0,
            cs,
        ).contains_key(enc_i64(t)) && exists|i: int|
            {
                &&& 0 <= i < cs.len()
                &&& (#[trigger] cs[i]).time == t
                &&& forall|j: int| i < j < cs.len() ==> (#[trigger] cs[j]).time != t
                &&& insert_candles(m0, cs)[enc_i64(t)] == enc_candle(cs[i])
            },
        !(exists|i: int| 0 <= i < cs.len() && (#[trigger] cs[i]).time == t) ==> (insert_candles(
            m0,
            cs,
        ).contains_key(enc_i64(t)) <==> m0.contains_key(enc_i64(t))) && (m0.contains_key(
            enc_i64(t),
        ) ==> insert_candles(m0, cs)[enc_i64(t)] == m0[enc_i64(t)]),
    decreases cs.len(),
{
    if cs.len() > 0 {
        let dl = cs.drop_last();
        let last = cs.last();
        lemma_insert_candles_lookup(m0, dl, t);
        lemma_enc_i64_order(last.time, t);
        if last.time == t {
            let i = cs.len() - 1;
            assert(0 <= i < cs.len() && cs[i].time == t && (forall|j: int|
                i < j < cs.len() ==> (#[trigger] cs[j]).time != t) && insert_candles(
                m0,
                cs,
            )[enc_i64(t)] == enc_candle(cs[i]));
        } else {
            if exists|i: int| 0 <= i < dl.len() && (#[trigger] dl[i]).time == t {
                let i = choose|i: int|
                    {
                        &&& 0 <= i < dl.len()
                        &&& (#[trigger] dl[i]).time == t
                        &&& forall|j: int| i < j < dl.len() ==> (#[trigger] dl[j]).time != t
                        &&& insert_candles(m0, dl)[enc_i64(t)] == enc_candle(dl[i])
                    };
                assert(0 <= i < dl.len() && dl[i].time == t);
                assert(dl[i] == cs[i]);
                assert(cs[i].time == t);
                assert forall|j: int| i < j < cs.len() implies (#[trigger] cs[j]).time != t by {
                    if j < cs.len() - 1 {
                        assert(dl[j].time != t);
                        assert(cs[j] == dl[j]);
                    } else {
                        assert(cs[j] == last);
                    }
                }
                assert(insert_candles(m0, cs)[enc_i64(t)] == enc_candle(cs[i]));
                assert(0 <= i < cs.len() && cs[i].time == t && (forall|j: int|
                    i < j < cs.len() ==> (#[trigger] cs[j]).time != t) && insert_candles(
                    m0,
                    cs,
                )[enc_i64(t)] == enc_candle(cs[i]));
            } else {
                assert forall|i: int| 0 <= i < cs.len() implies (#[trigger] cs[i]).time != t by {
                    if i < cs.len() - 1 {
                        assert(dl[i].time != t);
                    }
                }
            }
        }
    }
}

/// Law: a batch saved into a namespace never written before, then read back
/// over a range that covers every bar of the batch, answers exactly the
/// bars of the batch — with several writes on one time resolved to the last
/// — in strictly ascending time order.
pub proof fn lemma_save_then_get(cs: Seq<Candle>, rs: Seq<Candle>, begin: i64, end: i64)
    requires
        forall|i: int| 0 <= i < cs.len() ==> begin <= (#[trigger] cs[i]).time <= end,
        range_read_ok(rs, insert_candles(Map::empty(), cs), begin, end),
    ensures
        forall|c: Candle|
            #[trigger] rs.contains(c) <==> exists|i: int|
                {
                    &&& 0 <= i < cs.len()
                    &&& (#[trigger] cs[i]) == c
                    &&& forall|j: int| i < j < cs.len() ==> (#[trigger] cs[j]).time != c.time
                },
        forall|i: int, j: int| 0 <= i < j < rs.len() ==> rs[i].time < rs[j].time,
{
    let m0 = Map::<Seq<u8>, Seq<u8>>::empty();
    let m = insert_candles(m0, cs);
    assert forall|c: Candle| #[trigger] rs.contains(c) implies exists|i: int|
        {
            &&& 0 <= i < cs.len()
            &&& (#[trigger] cs[i]) == c
            &&& forall|j: int| i < j < cs.len() ==> (#[trigger] cs[j]).time != c.time
        } by {
        let k = choose|k: int| 0 <= k < rs.len() && rs[k] == c;
        assert(m.contains_key(enc_i64(c.time)) && m[enc_i64(c.time)] == enc_candle(c));
        lemma_insert_candles_lookup(m0, cs, c.time);
        assert(exists|i: int| 0 <= i < cs.len() && (#[trigger] cs[i]).time == c.time);
        let i = choose|i: int|
            {
                &&& 0 <= i < cs.len()
                &&& (#[trigger] cs[i]).time == c.time
                &&& forall|j: int| i < j < cs.len() ==> (#[trigger] cs[j]).time != c.time
                &&& m[enc_i64(c.time)] == enc_candle(cs[i])
            };
        lemma_enc_candle_injective(cs[i], c);
        assert(cs[i] == c);
    }
    assert forall|c: Candle|
        (exists|i: int|
            {
                &&& 0 <= i < cs.len()
                &&& (#[trigger] cs[i]) == c
                &&& forall|j: int| i < j < cs.len() ==> (#[trigger] cs[j]).time != c.time
            }) implies #[trigger] rs.contains(c) by {
        let i = choose|i: int|
            {
                &&& 0 <= i < cs.len()
                &&& (#[trigger] cs[i]) == c
                &&& forall|j: int| i < j < cs.len() ==> (#[trigger] cs[j]).time != c.time
            };
        lemma_insert_candles_lookup(m0, cs, c.time);
        let w = choose|w: int|
            {
                &&& 0 <= w < cs.len()
                &&& (#[trigger] cs[w]).time == c.time
                &&& forall|j: int| w < j < cs.len() ==> (#[trigger] cs[j]).time != c.time
                &&& m[enc_i64(c.time)] == enc_candle(cs[w])
            };
        assert(w == i);
        assert(m.contains_key(enc_i64(c.time)));
        let k = choose|k: int| 0 <= k < rs.len() && (#[trigger] rs[k]).time == c.time;
        assert(m[enc_i64(rs[k].time)] == enc_candle(rs[k]));
        lemma_enc_candle_injective(rs[k], c);
        assert(rs[k] == c);
    }
}

/// Law: a namespace that was never written holds nothing, so a range read
/// over it is empty and no entry of it can read as corrupt. Point lookups
/// need no counterpart here: their contracts answer `Some` or `Corrupt`
/// only for a key the namespace holds, which an empty namespace rules out.
pub proof fn lemma_unwritten_namespace(m: Map<Seq<u8>, Seq<u8>>, rs: Seq<Candle>, begin: i64, end: i64)
    requires
        m == Map::<Seq<u8>, Seq<u8>>::empty(),
        range_read_ok(rs, m, begin, end),
    ensures
        rs.len() == 0,
        !corrupt_in_range(m, begin, end),
        forall|t: i64| !m.contains_key(#[trigger] enc_i64(t)),
{
    if rs.len() > 0 {
        assert(m.contains_key(enc_i64(rs[0].time)));
    }
}

} // verus!
