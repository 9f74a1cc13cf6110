//! Database servers: where to reach them, and the counters a MySQL server reports.
use vstd::prelude::*;
use crate::num::{dec_digits, parse_uint, parse_unsigned, push_dec};
use crate::text::{chars_eq, chars_of, lines, push_chars, pieces, split_char, split_lines, string_of_all, views_of};

verus! {

/// Connection counters of a database server.
#[derive(Debug, Clone)]
pub struct ConnectionMetrics {
    pub current: u32,
    pub max: u32,
    pub total_created: u64,
    pub aborted: u64,
}

/// InnoDB buffer pool and wait counters.
#[derive(Debug, Clone)]
pub struct InnoDBMetrics {
    pub buffer_pool_size: u64,
    pub buffer_pool_pages_free: u64,
    pub buffer_pool_pages_total: u64,
    pub log_waits: u64,
    pub row_lock_waits: u64,
}

/// Where the database servers are and which are watched.
#[derive(Debug, Clone)]
pub struct DatabaseConfig {
    pub mysql_enabled: bool,
    pub mysql_host: String,
    pub mysql_port: u16,
    pub mysql_user: String,
    pub mysql_password: String,
    pub postgresql_enabled: bool,
    pub postgresql_host: String,
    pub postgresql_port: u16,
    pub postgresql_user: String,
    pub postgresql_password: String,
    pub postgresql_database: String,
    pub mongodb_enabled: bool,
    pub mongodb_host: String,
    pub mongodb_port: u16,
    pub redis_enabled: bool,
    pub redis_host: String,
    pub redis_port: u16,
}

impl Default for DatabaseConfig {
    /// No server watched; each at its usual port on `localhost`.
    fn default() -> (r: Self)
        ensures
            !r.mysql_enabled && !r.postgresql_enabled && !r.mongodb_enabled && !r.redis_enabled,
            r.mysql_host@ == "localhost"@ && r.mysql_port == 3306,
            r.mysql_user@ == "root"@ && r.mysql_password@ == Seq::<char>::empty(),
            r.postgresql_host@ == "localhost"@ && r.postgresql_port == 5432,
            r.postgresql_user@ == "postgres"@ && r.postgresql_password@ == Seq::<char>::empty(),
            r.postgresql_database@ == "postgres"@,
            r.mongodb_host@ == "localhost"@ && r.mongodb_port == 27017,
            r.redis_host@ == "localhost"@ && r.redis_port == 6379,
    {
        DatabaseConfig {
            mysql_enabled: false,
            mysql_host: "localhost".to_owned(),
            mysql_port: 3306,
            mysql_user: "root".to_owned(),
            mysql_password: String::new(),
            postgresql_enabled: false,
            postgresql_host: "localhost".to_owned(),
            postgresql_port: 5432,
            postgresql_user: "postgres".to_owned(),
            postgresql_password: String::new(),
            postgresql_database: "postgres".to_owned(),
            mongodb_enabled: false,
            mongodb_host: "localhost".to_owned(),
            mongodb_port: 27017,
            redis_enabled: false,
            redis_host: "localhost".to_owned(),
            redis_port: 6379,
        }
    }
}

/// The value of the status variable `name` in the tab-separated rows `ls`: that of the
/// last row with exactly two fields whose first is `name`.
pub open spec fn status_var(ls: Seq<Seq<char>>, name: Seq<char>) -> Option<Seq<char>>
    decreases ls.len(),
{
    if ls.len() == 0 {
        None
    } else {
        let f = pieces(ls.last(), '\t');
        if f.len() == 2 && f[0] == name {
            Some(f[1])
        } else {
            status_var(ls.drop_last(), name)
        }
    }
}

/// A counter: the variable read as a decimal no larger than `max`, else 0.
pub open spec fn counter(v: Option<Seq<char>>, max: nat) -> nat {
    match v {
        Some(t) => match parse_unsigned(t, 10, max) {
            Some(n) => n,
            None => 0,
        },
        None => 0,
    }
}

/// The integer counters of `SHOW GLOBAL STATUS` output.
#[derive(Debug, Clone)]
pub struct MySqlCounters {
    pub connections: ConnectionMetrics,
    pub innodb: InnoDBMetrics,
    pub select: u64,
    pub insert: u64,
    pub update: u64,
    pub delete: u64,
    pub slow_queries: u64,
    pub uptime: u64,
    pub version: String,
}

/// The buffer pool holds 16 KiB pages, so its size must fit a `u64` in bytes.
pub open spec fn pool_pages_fit(ls: Seq<Seq<char>>) -> bool {
    match status_var(ls, "Innodb_buffer_pool_pages_total"@) {
        Some(t) => match parse_unsigned(t, 10, u64::MAX as nat) {
            Some(p) => p * 16384 <= u64::MAX,
            None => true,
        },
        None => true,
    }
}

/// `c` holds the counters the status rows `ls` give.
pub open spec fn counters_match(c: MySqlCounters, ls: Seq<Seq<char>>) -> bool {
    let m32 = u32::MAX as nat;
    let m64 = u64::MAX as nat;
    &&& c.connections.current == counter(status_var(ls, "Threads_connected"@), m32)
    &&& c.connections.max == counter(status_var(ls, "max_connections"@), m32)
    &&& c.connections.total_created == counter(status_var(ls, "Connections"@), m64)
    &&& c.connections.aborted == counter(status_var(ls, "Aborted_connects"@), m64)
    &&& c.innodb.buffer_pool_size == counter(status_var(ls, "Innodb_buffer_pool_pages_total"@), m64) * 16384
    &&& c.innodb.buffer_pool_pages_free == counter(status_var(ls, "Innodb_buffer_pool_pages_free"@), m64)
    &&& c.innodb.buffer_pool_pages_total == counter(status_var(ls, "Innodb_buffer_pool_pages_total"@), m64)
    &&& c.innodb.log_waits == counter(status_var(ls, "Innodb_log_waits"@), m64)
    &&& c.innodb.row_lock_waits == counter(status_var(ls, "Innodb_row_lock_waits"@), m64)
    &&& c.select == counter(status_var(ls, "Com_select"@), m64)
    &&& c.insert == counter(status_var(ls, "Com_insert"@), m64)
    &&& c.update == counter(status_var(ls, "Com_update"@), m64)
    &&& c.delete == counter(status_var(ls, "Com_delete"@), m64)
    &&& c.slow_queries == counter(status_var(ls, "Slow_queries"@), m64)
    &&& c.uptime == counter(status_var(ls, "Uptime"@), m64)
    &&& c.version@ == match status_var(ls, "version"@) {
        Some(v) => v,
        None => "Unknown"@,
    }
}

/// The status rows of `mysql` output, split at tabs.
pub struct StatusRows {
    pub rows: Vec<Vec<Vec<char>>>,
}

impl StatusRows {
    /// Splits `output` into rows of tab-separated fields.
    pub fn from_text(output: &str) -> (r: StatusRows)
        ensures
            r.rows@.len() == lines(output@).len(),
            forall|i: int| 0 <= i < r.rows@.len() ==> views_of(#[trigger] r.rows@[i]@) == pieces(lines(output@)[i], '\t'),
    {
        let v = chars_of(output);
        let ls = split_lines(&v);
        let mut rows: Vec<Vec<Vec<char>>> = Vec::new();
        let mut i: usize = 0;
        while i < ls.len()
            invariant
                i <= ls@.len(),
                views_of(ls@) == lines(output@),
                rows@.len() == i,
                forall|j: int| 0 <= j < i ==> views_of(#[trigger] rows@[j]@) == pieces(lines(output@)[j], '\t'),
            decreases ls.len() - i,
        {
            assert(views_of(ls@)[i as int] == ls@[i as int]@);
            rows.push(split_char(&ls[i], '\t'));
            i = i + 1;
        }
        StatusRows { rows }
    }
}

/// The value of the status variable `name` (see `status_var`).
fn var_value(rows: &Vec<Vec<Vec<char>>>, name: &str, Ghost(ls): Ghost<Seq<Seq<char>>>) -> (r: Option<Vec<char>>)
    requires
        rows@.len() == ls.len(),
        forall|i: int| 0 <= i < rows@.len() ==> views_of(#[trigger] rows@[i]@) == pieces(ls[i], '\t'),
    ensures
        match r {
            Some(v) => status_var(ls, name@) == Some(v@),
            None => status_var(ls, name@) is None,
        },
{
    let key = chars_of(name);
    let mut i: usize = rows.len();
    assert(ls.take(i as int) == ls);
    while i > 0
        invariant
            i <= rows@.len(),
            rows@.len() == ls.len(),
            forall|j: int| 0 <= j < rows@.len() ==> views_of(#[trigger] rows@[j]@) == pieces(ls[j], '\t'),
            key@ == name@,
            status_var(ls, name@) == status_var(ls.take(i as int), name@),
        decreases i,
    {
        let f = &rows[i - 1];
        assert(ls.take(i as int).last() == ls[i - 1]);
        assert(ls.take(i as int).drop_last() == ls.take(i - 1));
        assert(views_of(f@) == pieces(ls[i - 1], '\t'));
        if f.len() == 2 {
            assert(views_of(f@)[0] == f@[0]@);
            if chars_eq(&f[0], &key) {
                assert(views_of(f@)[1] == f@[1]@);
                let value = crate::text::slice_chars(&f[1], 0, f[1].len());
                assert(f@[1]@.subrange(0, f@[1]@.len() as int) == f@[1]@);
                return Some(value);
            }
        }
        i = i - 1;
    }
    None
}

/// A counter from the status rows (see `counter`).
fn counter_value(rows: &Vec<Vec<Vec<char>>>, name: &str, max: u64, Ghost(ls): Ghost<Seq<Seq<char>>>) -> (r: u64)
    requires
        rows@.len() == ls.len(),
        forall|i: int| 0 <= i < rows@.len() ==> views_of(#[trigger] rows@[i]@) == pieces(ls[i], '\t'),
    ensures
        r == counter(status_var(ls, name@), max as nat),
{
    match var_value(rows, name, Ghost(ls)) {
        Some(v) => match parse_uint(&v, 10, max) {
            Some(n) => n,
            None => 0,
        },
        None => 0,
    }
}

/// The counters of `SHOW GLOBAL STATUS` output (tab-separated name and value rows; a
/// later row of a name wins); missing or unreadable counters are 0, the buffer pool
/// size is its page count times 16 KiB, and the version is `Unknown` when not given.
pub fn parse_mysql_output(output: &str) -> (r: MySqlCounters)
    requires
        pool_pages_fit(lines(output@)),
    ensures
        counters_match(r, lines(output@)),
{
    let s = StatusRows::from_text(output);
    let ghost ls = lines(output@);
    let rows = &s.rows;
    let m32: u64 = 0xffff_ffff;
    let m64: u64 = u64::MAX;
    let pages = counter_value(rows, "Innodb_buffer_pool_pages_total", m64, Ghost(ls));
    let connections = ConnectionMetrics {
        current: counter_value(rows, "Threads_connected", m32, Ghost(ls)) as u32,
        max: counter_value(rows, "max_connections", m32, Ghost(ls)) as u32,
        total_created: counter_value(rows, "Connections", m64, Ghost(ls)),
        aborted: counter_value(rows, "Aborted_connects", m64, Ghost(ls)),
    };
    let innodb = InnoDBMetrics {
        buffer_pool_size: pages * 16384,
        buffer_pool_pages_free: counter_value(rows, "Innodb_buffer_pool_pages_free", m64, Ghost(ls)),
        buffer_pool_pages_total: pages,
        log_waits: counter_value(rows, "Innodb_log_waits", m64, Ghost(ls)),
        row_lock_waits: counter_value(rows, "Innodb_row_lock_waits", m64, Ghost(ls)),
    };
    let version = match var_value(rows, "version", Ghost(ls)) {
        Some(v) => string_of_all(&v),
        None => "Unknown".to_owned(),
    };
    MySqlCounters {
        connections,
        innodb,
        select: counter_value(rows, "Com_select", m64, Ghost(ls)),
        insert: counter_value(rows, "Com_insert", m64, Ghost(ls)),
        update: counter_value(rows, "Com_update", m64, Ghost(ls)),
        delete: counter_value(rows, "Com_delete", m64, Ghost(ls)),
        slow_queries: counter_value(rows, "Slow_queries", m64, Ghost(ls)),
        uptime: counter_value(rows, "Uptime", m64, Ghost(ls)),
        version,
    }
}

/// The text of a status variable, for the figures the counters leave out.
pub fn mysql_status_var(output: &str, name: &str) -> (r: Option<String>)
    ensures
        match r {
            Some(v) => status_var(lines(output@), name@) == Some(v@),
            None => status_var(lines(output@), name@) is None,
        },
{
    let s = StatusRows::from_text(output);
    match var_value(&s.rows, name, Ghost(lines(output@))) {
        Some(v) => Some(string_of_all(&v)),
        None => None,
    }
}

/// Replication state of a MySQL replica.
#[derive(Debug, Clone)]
pub struct ReplicationMetrics {
    pub slave_lag: Option<u64>,
    pub slave_running: bool,
    pub master_host: Option<String>,
}

/// Lock counts of a PostgreSQL server.
#[derive(Debug, Clone)]
pub struct LockMetrics {
    pub waiting: u32,
    pub granted: u32,
    pub deadlocks: u64,
}

/// Streaming replication state of a PostgreSQL server.
#[derive(Debug, Clone)]
pub struct PostgreSQLReplicationMetrics {
    pub streaming: bool,
    pub lag_bytes: u64,
    pub sync_state: String,
}

/// Operation counters of a MongoDB server.
#[derive(Debug, Clone)]
pub struct OperationMetrics {
    pub queries: u64,
    pub inserts: u64,
    pub updates: u64,
    pub deletes: u64,
    pub getmores: u64,
    pub commands: u64,
}

/// Memory figures of a MongoDB server, in bytes.
#[derive(Debug, Clone)]
pub struct MongoMemoryMetrics {
    pub resident: u64,
    pub virtual_mem: u64,
    pub mapped: u64,
    pub cache_size: u64,
}

/// Replica-set state of a MongoDB server.
#[derive(Debug, Clone)]
pub struct MongoReplicationMetrics {
    pub is_master: bool,
    pub is_secondary: bool,
    pub replication_lag: Option<u64>,
    pub oplog_size: u64,
}

/// Sharding state of a MongoDB cluster.
#[derive(Debug, Clone)]
pub struct ShardingMetrics {
    pub chunks: u32,
    pub shards: u32,
    pub balancer_enabled: bool,
}

/// What a MongoDB server reports.
#[derive(Debug, Clone)]
pub struct MongoDBMetrics {
    pub connections: ConnectionMetrics,
    pub operations: OperationMetrics,
    pub memory: MongoMemoryMetrics,
    pub replication: Option<MongoReplicationMetrics>,
    pub sharding: Option<ShardingMetrics>,
    pub version: String,
}

/// Key counts of a Redis server.
#[derive(Debug, Clone)]
pub struct KeyspaceMetrics {
    pub total_keys: u64,
    pub expires: u64,
    pub expired_keys: u64,
    pub evicted_keys: u64,
}

/// Snapshot and append-log state of a Redis server.
#[derive(Debug, Clone)]
pub struct PersistenceMetrics {
    pub rdb_last_save_time: u64,
    pub rdb_changes_since_last_save: u64,
    pub aof_enabled: bool,
    pub aof_size: u64,
}

/// Replication role of a Redis server.
#[derive(Debug, Clone)]
pub struct RedisReplicationMetrics {
    pub role: String,
    pub connected_slaves: u32,
    pub master_repl_offset: u64,
}

/// What the MongoDB probe reports. It has no client library to query a server with,
/// and reports this fixed sample: 25 of 200 connections, 512 MiB resident memory,
/// version 5.0, no replica set and no sharding.
pub fn collect_mongodb_metrics() -> (r: MongoDBMetrics)
    ensures
        r.connections == (ConnectionMetrics { current: 25, max: 200, total_created: 5000, aborted: 10 }),
        r.operations == (OperationMetrics {
            queries: 10000,
            inserts: 5000,
            updates: 3000,
            deletes: 1000,
            getmores: 2000,
            commands: 15000,
        }),
        r.memory == (MongoMemoryMetrics {
            resident: 536870912,
            virtual_mem: 1073741824,
            mapped: 268435456,
            cache_size: 134217728,
        }),
        r.replication is None && r.sharding is None,
        r.version@ == "5.0"@,
{
    MongoDBMetrics {
        connections: ConnectionMetrics { current: 25, max: 200, total_created: 5000, aborted: 10 },
        operations: OperationMetrics {
            queries: 10000,
            inserts: 5000,
            updates: 3000,
            deletes: 1000,
            getmores: 2000,
            commands: 15000,
        },
        memory: MongoMemoryMetrics {
            resident: 1024 * 1024 * 512,
            virtual_mem: 1024 * 1024 * 1024,
            mapped: 1024 * 1024 * 256,
            cache_size: 1024 * 1024 * 128,
        },
        replication: None,
        sharding: None,
        version: "5.0".to_owned(),
    }
}

/// The summary line of a MongoDB server: its connections and its resident memory in
/// whole MiB.
pub open spec fn mongodb_summary_text(current: nat, resident: nat) -> Seq<char> {
    "MongoDB: "@ + dec_digits(current) + " connections, "@ + dec_digits(resident / 1048576)
        + "MB memory"@
}

/// The summary line of a Redis server: its key count and its used memory in whole MiB.
pub open spec fn redis_summary_text(total_keys: nat, used: nat) -> Seq<char> {
    "Redis: "@ + dec_digits(total_keys) + " keys, "@ + dec_digits(used / 1048576) + "MB memory"@
}

/// The summary line shown for a MongoDB server.
pub fn mongodb_summary(m: &MongoDBMetrics) -> (r: String)
    ensures
        r@ == mongodb_summary_text(m.connections.current as nat, m.memory.resident as nat),
{
    let mut r = "MongoDB: ".to_owned();
    push_dec(&mut r, m.connections.current as u64);
    push_chars(&mut r, " connections, ");
    push_dec(&mut r, m.memory.resident / (1024 * 1024));
    push_chars(&mut r, "MB memory");
    r
}

/// The summary line shown for a Redis server with `total_keys` keys using `used` bytes.
pub fn redis_summary(total_keys: u64, used: u64) -> (r: String)
    ensures
        r@ == redis_summary_text(total_keys as nat, used as nat),
{
    let mut r = "Redis: ".to_owned();
    push_dec(&mut r, total_keys);
    push_chars(&mut r, " keys, ");
    push_dec(&mut r, used / (1024 * 1024));
    push_chars(&mut r, "MB memory");
    r
}

} // verus!
