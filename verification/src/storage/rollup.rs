//! Pre-aggregated 4-minute buckets, so long timescales do not re-derive a
//! week of raw samples on every load.
//!
//! Every completed bucket's answer is final once it closes, because the raw
//! table is append-only and the grid is absolute. Each stored bucket keeps
//! its sample count, and re-aggregation weights by it (`SUM(avg * n) /
//! SUM(n)`), so the numbers equal those of the raw rows. Serving a width
//! from the rollup is only right when it is a whole multiple of the grid.
//!
//! Running the statements is the caller's job; this module writes them,
//! from one list of columns so that the create, the fold, the
//! re-aggregation and the raw tail can never drift apart, and does the grid
//! arithmetic.
use vstd::prelude::*;
use crate::text::{push_str, join, join_strings};

verus! {

/// Width of one stored bucket, in ms (4 minutes).
pub const ROLLUP_BUCKET_MS: u64 = 240000;

/// Meta key holding how far the rollup has been computed.
pub const META_ROLLUP_THROUGH: &'static str = "metrics_rollup_through_ms";

/// Columns carried as a plain average, in the order rows are read back.
pub open spec fn avg_cols() -> Seq<Seq<char>> {
    seq![
        "cpu_total"@, "cpu_p_cores"@, "cpu_e_cores"@, "gpu_usage"@, "mem_used"@,
        "mem_swap_used"@, "disk_read_bytes_sec"@, "disk_write_bytes_sec"@, "net_up_bytes_sec"@,
        "net_down_bytes_sec"@, "power_total_w"@, "power_cpu_w"@, "power_gpu_w"@,
        "power_other_w"@, "cpu_temp_c"@, "gpu_temp_c"@, "fan_rpm"@,
    ]
}

/// Columns that also carry the bucket's minimum and maximum.
pub open spec fn band_cols() -> Seq<Seq<char>> {
    seq![
        "cpu_total"@, "gpu_usage"@, "mem_used"@, "power_total_w"@, "net_up_bytes_sec"@,
        "net_down_bytes_sec"@, "disk_read_bytes_sec"@, "disk_write_bytes_sec"@, "cpu_temp_c"@,
    ]
}

/// Series whose values are integers; averaged as reals while stored, cast
/// back once on the way out.
pub open spec fn integer_series() -> Seq<Seq<char>> {
    seq![
        "mem_used"@, "mem_swap_used"@, "disk_read_bytes_sec"@, "disk_write_bytes_sec"@,
        "net_up_bytes_sec"@, "net_down_bytes_sec"@,
    ]
}

fn avg_cols_vec() -> (r: Vec<&'static str>)
    ensures
        r@.map_values(|s: &'static str| s@) == avg_cols(),
{
    let r = vec![
        "cpu_total", "cpu_p_cores", "cpu_e_cores", "gpu_usage", "mem_used", "mem_swap_used",
        "disk_read_bytes_sec", "disk_write_bytes_sec", "net_up_bytes_sec", "net_down_bytes_sec",
        "power_total_w", "power_cpu_w", "power_gpu_w", "power_other_w", "cpu_temp_c", "gpu_temp_c",
        "fan_rpm",
    ];
    assert(r@.map_values(|s: &'static str| s@) =~= avg_cols());
    r
}

fn band_cols_vec() -> (r: Vec<&'static str>)
    ensures
        r@.map_values(|s: &'static str| s@) == band_cols(),
{
    let r = vec![
        "cpu_total", "gpu_usage", "mem_used", "power_total_w", "net_up_bytes_sec",
        "net_down_bytes_sec", "disk_read_bytes_sec", "disk_write_bytes_sec", "cpu_temp_c",
    ];
    assert(r@.map_values(|s: &'static str| s@) =~= band_cols());
    r
}

/// Whether `c` is one of the integer series.
fn is_integer_series(c: &str) -> (b: bool)
    ensures
        b == integer_series().contains(c@),
{
    let list = vec![
        "mem_used", "mem_swap_used", "disk_read_bytes_sec", "disk_write_bytes_sec",
        "net_up_bytes_sec", "net_down_bytes_sec",
    ];
    assert(list@.map_values(|s: &'static str| s@) =~= integer_series());
    let n = list.len();
    for i in 0..n
        invariant
            n == list@.len(),
            list@.map_values(|s: &'static str| s@) == integer_series(),
            forall|j: int| 0 <= j < i ==> list@[j]@ != c@,
    {
        if crate::text::str_eq(list[i], c) {
            assert(integer_series()[i as int] == c@);
            return true;
        }
    }
    assert forall|j: int| 0 <= j < integer_series().len() implies integer_series()[j] != c@ by {
        assert(integer_series()[j] == list@[j]@);
    }
    false
}

/// For each column `c`, `before + c + after`.
pub open spec fn wrap_each(cols: Seq<Seq<char>>, before: Seq<char>, after: Seq<char>) -> Seq<Seq<char>> {
    cols.map_values(|c: Seq<char>| before + c + after)
}

/// For each band column, the two stored names or expressions built from it.
pub open spec fn band_pairs(cols: Seq<Seq<char>>, lo: spec_fn(Seq<char>) -> Seq<char>, hi: spec_fn(Seq<char>) -> Seq<char>) -> Seq<Seq<char>>
    decreases cols.len(),
{
    if cols.len() == 0 {
        Seq::empty()
    } else {
        band_pairs(cols.drop_last(), lo, hi).push(lo(cols.last())).push(hi(cols.last()))
    }
}

/// The stored column names: the averages, then `<c>_min`, `<c>_max` for
/// each band column.
pub open spec fn stored_names_spec() -> Seq<Seq<char>> {
    avg_cols() + band_pairs(band_cols(), |c: Seq<char>| c + "_min"@, |c: Seq<char>| c + "_max"@)
}

fn concat2(a: &str, b: &str) -> (r: String)
    ensures
        r@ == a@ + b@,
{
    let mut r = String::new();
    push_str(&mut r, a);
    push_str(&mut r, b);
    r
}

fn concat3(a: &str, b: &str, c: &str) -> (r: String)
    ensures
        r@ == a@ + b@ + c@,
{
    let mut r = String::new();
    push_str(&mut r, a);
    push_str(&mut r, b);
    push_str(&mut r, c);
    r
}

/// Column names in the same order as [`raw_aggregate_exprs`].
pub fn stored_col_names() -> (r: Vec<String>)
    ensures
        r.deep_view() == stored_names_spec(),
{
    let avg = avg_cols_vec();
    let band = band_cols_vec();
    let mut r: Vec<String> = Vec::new();
    let n = avg.len();
    for i in 0..n
        invariant
            n == avg@.len(),
            avg@.map_values(|s: &'static str| s@) == avg_cols(),
            r.deep_view() == avg_cols().take(i as int),
    {
        let ghost before = r.deep_view();
        let mut one = String::new();
        push_str(&mut one, avg[i]);
        r.push(one);
        assert(r.deep_view() =~= before.push(avg@[i as int]@));
        assert(avg_cols().take(i + 1) =~= avg_cols().take(i as int).push(avg_cols()[i as int]));
    }
    assert(avg_cols().take(n as int) =~= avg_cols());
    let m = band.len();
    for k in 0..m
        invariant
            m == band@.len(),
            band@.map_values(|s: &'static str| s@) == band_cols(),
            r.deep_view() == avg_cols() + band_pairs(
                band_cols().take(k as int),
                |c: Seq<char>| c + "_min"@,
                |c: Seq<char>| c + "_max"@,
            ),
    {
        let ghost before = r.deep_view();
        let ghost c = band@[k as int]@;
        r.push(concat2(band[k], "_min"));
        r.push(concat2(band[k], "_max"));
        assert(band_cols().take(k + 1).drop_last() =~= band_cols().take(k as int));
        assert(band_cols().take(k + 1).last() == c);
        assert(r.deep_view() =~= before.push(c + "_min"@).push(c + "_max"@));
    }
    assert(band_cols().take(m as int) =~= band_cols());
    r
}

/// `AVG(c)` for each average column, then `MIN(c)`, `MAX(c)` for each band
/// column: the select list that produces one stored bucket.
pub open spec fn raw_aggregate_spec() -> Seq<char> {
    join(
        wrap_each(avg_cols(), "AVG("@, ")"@) + band_pairs(
            band_cols(),
            |c: Seq<char>| "MIN("@ + c + ")"@,
            |c: Seq<char>| "MAX("@ + c + ")"@,
        ),
        ", "@,
    )
}

pub fn raw_aggregate_exprs() -> (r: String)
    ensures
        r@ == raw_aggregate_spec(),
{
    let avg = avg_cols_vec();
    let band = band_cols_vec();
    let mut parts: Vec<String> = Vec::new();
    let n = avg.len();
    for i in 0..n
        invariant
            n == avg@.len(),
            avg@.map_values(|s: &'static str| s@) == avg_cols(),
            parts.deep_view() == wrap_each(avg_cols().take(i as int), "AVG("@, ")"@),
    {
        let ghost before = parts.deep_view();
        parts.push(concat3("AVG(", avg[i], ")"));
        assert(parts.deep_view() =~= before.push("AVG("@ + avg@[i as int]@ + ")"@));
        assert(wrap_each(avg_cols().take(i + 1), "AVG("@, ")"@) =~= wrap_each(
            avg_cols().take(i as int),
            "AVG("@,
            ")"@,
        ).push("AVG("@ + avg_cols()[i as int] + ")"@));
    }
    assert(avg_cols().take(n as int) =~= avg_cols());
    let m = band.len();
    for k in 0..m
        invariant
            m == band@.len(),
            band@.map_values(|s: &'static str| s@) == band_cols(),
            parts.deep_view() == wrap_each(avg_cols(), "AVG("@, ")"@) + band_pairs(
                band_cols().take(k as int),
                |c: Seq<char>| "MIN("@ + c + ")"@,
                |c: Seq<char>| "MAX("@ + c + ")"@,
            ),
    {
        let ghost before = parts.deep_view();
        let ghost c = band@[k as int]@;
        parts.push(concat3("MIN(", band[k], ")"));
        parts.push(concat3("MAX(", band[k], ")"));
        assert(band_cols().take(k + 1).drop_last() =~= band_cols().take(k as int));
        assert(band_cols().take(k + 1).last() == c);
        assert(parts.deep_view() =~= before.push("MIN("@ + c + ")"@).push("MAX("@ + c + ")"@));
    }
    assert(band_cols().take(m as int) =~= band_cols());
    join_strings(&parts, ", ")
}

/// `CAST(e AS INTEGER)` for integer series, `e` otherwise.
pub open spec fn cast_if_integer(c: Seq<char>, e: Seq<char>) -> Seq<char> {
    if integer_series().contains(c) {
        "CAST("@ + e + " AS INTEGER)"@
    } else {
        e
    }
}

/// The outermost select: weighted means of the averages, extremes of the
/// extremes, integer series cast back.
pub open spec fn reaggregate_spec() -> Seq<char> {
    join(
        avg_cols().map_values(|c: Seq<char>| cast_if_integer(c, "SUM("@ + c + " * n) / SUM(n)"@))
            + band_pairs(
            band_cols(),
            |c: Seq<char>| cast_if_integer(c, "MIN("@ + c + "_min)"@),
            |c: Seq<char>| cast_if_integer(c, "MAX("@ + c + "_max)"@),
        ),
        ", "@,
    )
}

fn cast_exec(c: &str, e: String) -> (r: String)
    ensures
        r@ == cast_if_integer(c@, e@),
{
    if is_integer_series(c) {
        concat3("CAST(", e.as_str(), " AS INTEGER)")
    } else {
        e
    }
}

pub fn reaggregate_exprs() -> (r: String)
    ensures
        r@ == reaggregate_spec(),
{
    let avg = avg_cols_vec();
    let band = band_cols_vec();
    let mut parts: Vec<String> = Vec::new();
    let n = avg.len();
    for i in 0..n
        invariant
            n == avg@.len(),
            avg@.map_values(|s: &'static str| s@) == avg_cols(),
            parts.deep_view() == avg_cols().take(i as int).map_values(
                |c: Seq<char>| cast_if_integer(c, "SUM("@ + c + " * n) / SUM(n)"@),
            ),
    {
        let ghost before = parts.deep_view();
        let ghost c = avg@[i as int]@;
        let weighted = concat3("SUM(", avg[i], " * n) / SUM(n)");
        parts.push(cast_exec(avg[i], weighted));
        assert(parts.deep_view() =~= before.push(cast_if_integer(c, "SUM("@ + c + " * n) / SUM(n)"@)));
        assert(avg_cols().take(i + 1).map_values(
            |c: Seq<char>| cast_if_integer(c, "SUM("@ + c + " * n) / SUM(n)"@),
        ) =~= avg_cols().take(i as int).map_values(
            |c: Seq<char>| cast_if_integer(c, "SUM("@ + c + " * n) / SUM(n)"@),
        ).push(cast_if_integer(c, "SUM("@ + c + " * n) / SUM(n)"@)));
    }
    assert(avg_cols().take(n as int) =~= avg_cols());
    let m = band.len();
    for k in 0..m
        invariant
            m == band@.len(),
            band@.map_values(|s: &'static str| s@) == band_cols(),
            parts.deep_view() == avg_cols().map_values(
                |c: Seq<char>| cast_if_integer(c, "SUM("@ + c + " * n) / SUM(n)"@),
            ) + band_pairs(
                band_cols().take(k as int),
                |c: Seq<char>| cast_if_integer(c, "MIN("@ + c + "_min)"@),
                |c: Seq<char>| cast_if_integer(c, "MAX("@ + c + "_max)"@),
            ),
    {
        let ghost before = parts.deep_view();
        let ghost c = band@[k as int]@;
        let lo = concat3("MIN(", band[k], "_min)");
        let hi = concat3("MAX(", band[k], "_max)");
        parts.push(cast_exec(band[k], lo));
        parts.push(cast_exec(band[k], hi));
        assert(band_cols().take(k + 1).drop_last() =~= band_cols().take(k as int));
        assert(band_cols().take(k + 1).last() == c);
        assert(parts.deep_view() =~= before.push(cast_if_integer(c, "MIN("@ + c + "_min)"@)).push(
            cast_if_integer(c, "MAX("@ + c + "_max)"@),
        ));
    }
    assert(band_cols().take(m as int) =~= band_cols());
    join_strings(&parts, ", ")
}

/// The statement creating the rollup table. Averages are stored as REAL
/// even for integer series, so weighting never compounds rounding.
pub open spec fn create_table_spec() -> Seq<char> {
    "CREATE TABLE IF NOT EXISTS metrics_4min (\n                timestamp    INTEGER PRIMARY KEY,\n                sample_count INTEGER NOT NULL,\n"@
        + join(wrap_each(stored_names_spec(), "                "@, " REAL"@), ",\n"@) + "\n            );"@
}

pub fn create_table_sql() -> (r: String)
    ensures
        r@ == create_table_spec(),
{
    let names = stored_col_names();
    let mut lines: Vec<String> = Vec::new();
    let n = names.len();
    for i in 0..n
        invariant
            n == names@.len(),
            names.deep_view() == stored_names_spec(),
            lines.deep_view() == wrap_each(stored_names_spec().take(i as int), "                "@, " REAL"@),
    {
        let ghost before = lines.deep_view();
        let ghost c = names@[i as int]@;
        lines.push(concat3("                ", names[i].as_str(), " REAL"));
        assert(lines.deep_view() =~= before.push("                "@ + c + " REAL"@));
        assert(stored_names_spec()[i as int] == c);
        assert(wrap_each(stored_names_spec().take(i + 1), "                "@, " REAL"@) =~= wrap_each(
            stored_names_spec().take(i as int),
            "                "@,
            " REAL"@,
        ).push("                "@ + c + " REAL"@));
    }
    assert(stored_names_spec().take(n as int) =~= stored_names_spec());
    let cols = join_strings(&lines, ",\n");
    let mut r = String::new();
    push_str(
        &mut r,
        "CREATE TABLE IF NOT EXISTS metrics_4min (\n                timestamp    INTEGER PRIMARY KEY,\n                sample_count INTEGER NOT NULL,\n",
    );
    push_str(&mut r, cols.as_str());
    push_str(&mut r, "\n            );");
    r
}

/// The statement folding closed buckets of raw rows into the rollup; its
/// parameters are the bucket width, the start and the end of the range.
pub open spec fn roll_up_spec() -> Seq<char> {
    "INSERT OR REPLACE INTO metrics_4min(timestamp, sample_count, "@ + join(stored_names_spec(), ", "@)
        + ")\n             SELECT (timestamp / ?1) * ?1 AS bucket, COUNT(*), "@ + raw_aggregate_spec()
        + "\n             FROM metrics_raw\n             WHERE timestamp >= ?2 AND timestamp < ?3\n             GROUP BY bucket"@
}

pub fn roll_up_sql() -> (r: String)
    ensures
        r@ == roll_up_spec(),
{
    let names = stored_col_names();
    let cols = join_strings(&names, ", ");
    let aggs = raw_aggregate_exprs();
    let mut r = String::new();
    push_str(&mut r, "INSERT OR REPLACE INTO metrics_4min(timestamp, sample_count, ");
    push_str(&mut r, cols.as_str());
    push_str(&mut r, ")\n             SELECT (timestamp / ?1) * ?1 AS bucket, COUNT(*), ");
    push_str(&mut r, aggs.as_str());
    push_str(
        &mut r,
        "\n             FROM metrics_raw\n             WHERE timestamp >= ?2 AND timestamp < ?3\n             GROUP BY bucket",
    );
    r
}

/// The query reading stored buckets plus the raw tail not folded yet,
/// re-aggregated to the requested width. Parameters: the width, the
/// floored start, the rollup boundary, the rollup width, the tail start.
pub open spec fn rolled_query_spec() -> Seq<char> {
    "WITH parts AS (\n                 SELECT timestamp AS t, sample_count AS n, "@ + join(stored_names_spec(), ", "@)
        + "\n                 FROM metrics_4min\n                 WHERE timestamp >= ?2 AND timestamp < ?3\n                 UNION ALL\n                 SELECT (timestamp / ?4) * ?4 AS t, COUNT(*) AS n, "@
        + raw_aggregate_spec()
        + "\n                 FROM metrics_raw\n                 WHERE timestamp >= ?5\n                 GROUP BY t\n             )\n             SELECT (t / ?1) * ?1 AS bucket, "@
        + reaggregate_spec() + "\n             FROM parts\n             GROUP BY bucket\n             ORDER BY bucket ASC"@
}

pub fn rolled_query_sql() -> (r: String)
    ensures
        r@ == rolled_query_spec(),
{
    let names = stored_col_names();
    let stored = join_strings(&names, ", ");
    let aggs = raw_aggregate_exprs();
    let out = reaggregate_exprs();
    let mut r = String::new();
    push_str(&mut r, "WITH parts AS (\n                 SELECT timestamp AS t, sample_count AS n, ");
    push_str(&mut r, stored.as_str());
    push_str(
        &mut r,
        "\n                 FROM metrics_4min\n                 WHERE timestamp >= ?2 AND timestamp < ?3\n                 UNION ALL\n                 SELECT (timestamp / ?4) * ?4 AS t, COUNT(*) AS n, ",
    );
    push_str(&mut r, aggs.as_str());
    push_str(
        &mut r,
        "\n                 FROM metrics_raw\n                 WHERE timestamp >= ?5\n                 GROUP BY t\n             )\n             SELECT (t / ?1) * ?1 AS bucket, ",
    );
    push_str(&mut r, out.as_str());
    push_str(&mut r, "\n             FROM parts\n             GROUP BY bucket\n             ORDER BY bucket ASC");
    r
}

/// Whether a bucket width can be served from the rollup: a whole multiple
/// of the stored width, so no stored bucket is split between two.
pub open spec fn rollup_serves_spec(bucket_ms: u64) -> bool {
    bucket_ms >= ROLLUP_BUCKET_MS && bucket_ms % ROLLUP_BUCKET_MS == 0
}

pub fn rollup_serves(bucket_ms: u64) -> (b: bool)
    ensures
        b == rollup_serves_spec(bucket_ms),
{
    bucket_ms >= ROLLUP_BUCKET_MS && bucket_ms % ROLLUP_BUCKET_MS == 0
}

/// `t` floored to the rollup grid.
pub open spec fn grid_floor(t: u64) -> u64 {
    ((t / ROLLUP_BUCKET_MS) * ROLLUP_BUCKET_MS) as u64
}

/// The range of closed buckets to fold at `now`, given the boundary folded
/// through so far: `[through, current bucket start)`, or `None` when no
/// bucket has closed since. The bucket holding `now` is still filling and
/// is never frozen.
pub fn rollup_range(now: u64, through: u64) -> (r: Option<(u64, u64)>)
    ensures
        grid_floor(now) <= through ==> r is None,
        grid_floor(now) > through ==> r == Some((through, grid_floor(now))),
{
    let current = (now / ROLLUP_BUCKET_MS) * ROLLUP_BUCKET_MS;
    if current <= through {
        None
    } else {
        Some((through, current))
    }
}

/// The rolled query's start and raw-tail start: the start is floored to
/// the grid, so both paths fold exactly the same rows, and the tail begins
/// where the rollup ends (or later).
pub fn rolled_window(since: u64, through: u64) -> (r: (u64, u64))
    ensures
        r.0 == grid_floor(since),
        r.1 == if grid_floor(since) >= through { grid_floor(since) } else { through },
{
    let floored = (since / ROLLUP_BUCKET_MS) * ROLLUP_BUCKET_MS;
    let tail_from = if floored >= through { floored } else { through };
    (floored, tail_from)
}

/// The stored rollup boundary, zero when absent or unreadable.
pub fn parse_rollup_through(stored: Option<&str>) -> (r: u64)
    ensures
        r == match stored {
            Some(v) => match crate::text::parse_u64_spec(v@) {
                Some(x) => x,
                None => 0,
            },
            None => 0,
        },
{
    match stored {
        Some(v) => {
            let cs = crate::text::chars_of(v);
            assert(cs@.subrange(0, cs@.len() as int) =~= cs@);
            match crate::text::parse_u64_in(cs.as_slice(), 0, cs.len()) {
                Some(x) => x,
                None => 0,
            }
        },
        None => 0,
    }
}

/// A floored time is on the grid and no later than the time itself, and no
/// more than one bucket earlier: the served window starts at most one
/// stored bucket before what was asked.
pub proof fn law_floor_stays_within_one_bucket(t: u64)
    ensures
        grid_floor(t) <= t,
        t - grid_floor(t) < ROLLUP_BUCKET_MS,
        grid_floor(t) % ROLLUP_BUCKET_MS == 0,
{
    assert(grid_floor(t) == (t / 240000) * 240000);
    assert((t / 240000) * 240000 <= t) by (nonlinear_arith);
    assert(t - (t / 240000) * 240000 < 240000) by (nonlinear_arith);
    assert(((t / 240000) * 240000) % 240000 == 0) by (nonlinear_arith);
}

/// Whether `t` is the start of a stored bucket.
pub open spec fn on_grid(t: int) -> bool {
    t % (ROLLUP_BUCKET_MS as int) == 0
}

/// A rolled query reads stored buckets from `start` up to the fold
/// boundary `through` and raw rows from `tail` on, where `(start, tail)` is
/// what [`rolled_window`] returns. Both bounds lie on the rollup grid,
/// `start` is the requested time floored to the grid, and `tail` is the
/// later of `start` and `through`: every time from `start` on is read by
/// exactly one of the two parts, stored when before `through` and raw
/// otherwise, and no stored bucket is split between them.
pub proof fn law_rolled_and_raw_split_at_buckets(since: u64, through: u64)
    requires
        through % ROLLUP_BUCKET_MS == 0,
    ensures
        ({
            let start = grid_floor(since);
            let tail = if grid_floor(since) >= through {
                grid_floor(since)
            } else {
                through
            };
            &&& start % ROLLUP_BUCKET_MS == 0
            &&& tail % ROLLUP_BUCKET_MS == 0
            &&& start <= since && since - start < ROLLUP_BUCKET_MS
            &&& start <= tail
            &&& through <= tail
            &&& (start < through ==> tail == through)
            &&& forall|b: int| #[trigger] on_grid(b) ==> (b < tail <==> b + ROLLUP_BUCKET_MS <= tail)
        }),
{
    law_floor_stays_within_one_bucket(since);
    let w = ROLLUP_BUCKET_MS as int;
    let start = grid_floor(since);
    let tail: int = if grid_floor(since) >= through {
        grid_floor(since) as int
    } else {
        through as int
    };
    assert(tail % w == 0);
    assert forall|b: int| #[trigger] on_grid(b) implies (b < tail <==> b + w <= tail) by {
        assert(b < tail ==> b + w <= tail) by (nonlinear_arith)
            requires
                b % w == 0,
                tail % w == 0,
                w == 240000,
        {
            let qb = b / w;
            let qt = tail / w;
            assert(b == w * qb);
            assert(tail == w * qt);
        }
    }
}

/// Every width the rollup serves is cut from whole stored buckets: a stored
/// bucket start maps into exactly one output bucket, the same one as every
/// instant inside the stored bucket.
pub proof fn law_served_widths_never_split_a_bucket(bucket_ms: u64, start: u64, offset: u64)
    requires
        rollup_serves_spec(bucket_ms),
        start % ROLLUP_BUCKET_MS == 0,
        offset < ROLLUP_BUCKET_MS,
        start + offset <= u64::MAX,
    ensures
        (start + offset) / (bucket_ms as int) == (start as int) / (bucket_ms as int),
{
    let w = ROLLUP_BUCKET_MS as int;
    let b = bucket_ms as int;
    let x = start as int;
    let k = b / w;
    vstd::arithmetic::div_mod::lemma_fundamental_div_mod(b, w);
    assert(b == w * k);
    let q = x / w;
    vstd::arithmetic::div_mod::lemma_fundamental_div_mod(x, w);
    assert(x == w * q);
    assert(k >= 1) by (nonlinear_arith)
        requires
            b >= w,
            b == w * k,
            w > 0,
    ;
    let j = q / k;
    let r = q % k;
    vstd::arithmetic::div_mod::lemma_fundamental_div_mod(q, k);
    assert(q == k * j + r);
    assert(0 <= r < k);
    assert(x == j * b + r * w) by (nonlinear_arith)
        requires
            x == w * q,
            q == k * j + r,
            b == w * k,
    ;
    assert(r * w + w <= b) by (nonlinear_arith)
        requires
            r < k,
            b == w * k,
            w > 0,
    ;
    assert(0 <= r * w) by (nonlinear_arith)
        requires
            r >= 0,
            w > 0,
    ;
    vstd::arithmetic::div_mod::lemma_fundamental_div_mod_converse(x, b, j, r * w);
    vstd::arithmetic::div_mod::lemma_fundamental_div_mod_converse(x + offset, b, j, r * w + offset);
}

} // verus!
