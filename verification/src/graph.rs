use vstd::prelude::*;
use crate::value::{Value, spec_percent, spec_ratio, spec_mean, percent_change, ratio, mean};
use crate::interpolate::{InterpolatedSeries, spec_fill, interpolate};
use crate::selector::{
    ArtifactId, Profile, Scenario, StoreData, StoreRow, Query, Selector,
    bench_present, profile_present, scenario_present, query_matches,
    spec_store_points, resolve_and_fetch, store_points,
};

verus! {

/// How a series is turned into plotted points.
#[derive(Clone, Copy, PartialEq, Eq, Structural, Debug)]
pub enum GraphKind {
    /// Values pass through unchanged.
    Raw,
    /// Percent change of each point against the previous point.
    PercentRelative,
    /// Percent change of each point against the first point.
    PercentFromFirst,
}

/// One plotted point: a value and whether it was synthesized by
/// interpolation rather than measured.
#[derive(Clone, Copy, Debug)]
pub struct GraphPoint {
    pub value: Value,
    pub is_interpolated: bool,
}

/// The value plotted at position `i` for the given kind.  The first
/// point of a percent series is compared against itself, so it is zero
/// whenever it is defined; a percent change against a zero baseline is
/// undefined and yields `None`.
pub open spec fn spec_point_value(kind: GraphKind, s: Seq<Value>, i: int) -> Option<Value> {
    match kind {
        GraphKind::Raw => Some(s[i]),
        GraphKind::PercentRelative => if i == 0 {
            spec_percent(s[0], s[0])
        } else {
            spec_percent(s[i], s[i - 1])
        },
        GraphKind::PercentFromFirst => spec_percent(s[i], s[0]),
    }
}

/// Apply the point-kind transform to an interpolated series, in commit
/// order.  `None` exactly when some point's transform is undefined: a
/// zero baseline, or an exact result that does not fit.
pub fn to_graph_points(kind: GraphKind, series: &InterpolatedSeries) -> (r: Option<
    Vec<GraphPoint>,
>)
    requires
        series.wf(),
    ensures
        match r {
            Some(ps) => {
                &&& ps@.len() == series.values@.len()
                &&& forall|i: int| 0 <= i < ps@.len()
                    ==> Some((#[trigger] ps@[i]).value) == spec_point_value(kind, series.values@, i)
                &&& forall|i: int| 0 <= i < ps@.len()
                    ==> (#[trigger] ps@[i]).is_interpolated == series.interpolated@[i]
            },
            None => exists|i: int|
                0 <= i < series.values@.len() && spec_point_value(kind, series.values@, i) is None,
        },
{
    let mut out: Vec<GraphPoint> = Vec::new();
    let mut i: usize = 0;
    while i < series.values.len()
        invariant
            0 <= i <= series.values@.len(),
            series.wf(),
            out@.len() == i,
            forall|j: int| 0 <= j < i
                ==> Some((#[trigger] out@[j]).value) == spec_point_value(kind, series.values@, j),
            forall|j: int| 0 <= j < i
                ==> (#[trigger] out@[j]).is_interpolated == series.interpolated@[j],
        decreases series.values@.len() - i,
    {
        let v = series.values[i];
        let computed: Option<Value> = match kind {
            GraphKind::Raw => Some(v),
            GraphKind::PercentRelative => {
                if i == 0 {
                    percent_change(v, v)
                } else {
                    percent_change(v, series.values[i - 1])
                }
            }
            GraphKind::PercentFromFirst => percent_change(v, series.values[0]),
        };
        match computed {
            Some(value) => {
                out.push(GraphPoint { value, is_interpolated: series.interpolated[i] });
            }
            None => {
                proof {
                    assert(spec_point_value(kind, series.values@, i as int) is None);
                }
                return None;
            }
        }
        i += 1;
    }
    Some(out)
}

/// The column of values that the series in `l` hold at position `i`.
pub open spec fn spec_column(l: Seq<InterpolatedSeries>, i: int) -> Seq<Value> {
    Seq::new(l.len(), |k: int| l[k].values@[i])
}

/// Whether any of the series in `l` is interpolated at position `i`.
pub open spec fn spec_any_interpolated(l: Seq<InterpolatedSeries>, i: int) -> bool {
    exists|k: int| 0 <= k < l.len() && l[k].interpolated@[i]
}

/// Average several interpolated series of length `n` pointwise into
/// one: the value at each position is the arithmetic mean of the
/// values the inputs hold there, and a position counts as interpolated
/// when it was synthesized in any input.  `None` exactly when some
/// column's exact mean does not fit.
pub fn average_series(list: &Vec<InterpolatedSeries>, n: usize) -> (r: Option<InterpolatedSeries>)
    requires
        list@.len() >= 1,
        forall|k: int| 0 <= k < list@.len() ==> (#[trigger] list@[k]).wf(),
        forall|k: int| 0 <= k < list@.len() ==> (#[trigger] list@[k]).values@.len() == n,
    ensures
        match r {
            Some(out) => {
                &&& out.wf()
                &&& out.values@.len() == n
                &&& forall|i: int| 0 <= i < n
                    ==> Some(#[trigger] out.values@[i]) == spec_mean(spec_column(list@, i))
                &&& forall|i: int| 0 <= i < n
                    ==> #[trigger] out.interpolated@[i] == spec_any_interpolated(list@, i)
            },
            None => exists|i: int| 0 <= i < n && spec_mean(spec_column(list@, i)) is None,
        },
{
    let mut values: Vec<Value> = Vec::new();
    let mut flags: Vec<bool> = Vec::new();
    let mut i: usize = 0;
    while i < n
        invariant
            0 <= i <= n,
            list@.len() >= 1,
            forall|k: int| 0 <= k < list@.len() ==> (#[trigger] list@[k]).wf(),
            forall|k: int| 0 <= k < list@.len() ==> (#[trigger] list@[k]).values@.len() == n,
            values@.len() == i,
            flags@.len() == i,
            forall|j: int| 0 <= j < i
                ==> Some(#[trigger] values@[j]) == spec_mean(spec_column(list@, j)),
            forall|j: int| 0 <= j < i ==> (#[trigger] values@[j]).wf(),
            forall|j: int| 0 <= j < i ==> #[trigger] flags@[j] == spec_any_interpolated(list@, j),
        decreases n - i,
    {
        let mut col: Vec<Value> = Vec::new();
        let mut any: bool = false;
        let mut k: usize = 0;
        while k < list.len()
            invariant
                0 <= k <= list@.len(),
                0 <= i < n,
                forall|k2: int| 0 <= k2 < list@.len() ==> (#[trigger] list@[k2]).wf(),
                forall|k2: int| 0 <= k2 < list@.len() ==> (#[trigger] list@[k2]).values@.len() == n,
                col@.len() == k,
                forall|k2: int| 0 <= k2 < k ==> #[trigger] col@[k2] == list@[k2].values@[i as int],
                any == (exists|k2: int| 0 <= k2 < k && list@[k2].interpolated@[i as int]),
            decreases list@.len() - k,
        {
            col.push(list[k].values[i]);
            if list[k].interpolated[i] {
                any = true;
            }
            k += 1;
        }
        proof {
            assert(col@ =~= spec_column(list@, i as int));
        }
        match mean(&col) {
            Some(m) => {
                values.push(m);
                flags.push(any);
            }
            None => {
                return None;
            }
        }
        i += 1;
    }
    Some(InterpolatedSeries { values, interpolated: flags })
}

/// Divide every value of a series by `baseline`, keeping the
/// interpolation flags.  `None` exactly when `baseline` is zero or
/// some exact quotient does not fit.
pub fn normalize_series(series: &InterpolatedSeries, baseline: Value) -> (r: Option<
    InterpolatedSeries,
>)
    requires
        series.wf(),
        baseline.wf(),
    ensures
        match r {
            Some(out) => {
                &&& out.wf()
                &&& out.values@.len() == series.values@.len()
                &&& out.interpolated@ == series.interpolated@
                &&& forall|i: int| 0 <= i < out.values@.len()
                    ==> Some(#[trigger] out.values@[i]) == spec_ratio(series.values@[i], baseline)
            },
            None => exists|i: int|
                0 <= i < series.values@.len() && spec_ratio(series.values@[i], baseline) is None,
        },
{
    let mut values: Vec<Value> = Vec::new();
    let mut flags: Vec<bool> = Vec::new();
    let mut i: usize = 0;
    while i < series.values.len()
        invariant
            0 <= i <= series.values@.len(),
            series.wf(),
            baseline.wf(),
            values@.len() == i,
            flags@.len() == i,
            forall|j: int| 0 <= j < i
                ==> Some(#[trigger] values@[j]) == spec_ratio(series.values@[j], baseline),
            forall|j: int| 0 <= j < i ==> (#[trigger] values@[j]).wf(),
            flags@ =~= series.interpolated@.subrange(0, i as int),
        decreases series.values@.len() - i,
    {
        match ratio(series.values[i], baseline) {
            Some(v) => {
                values.push(v);
                flags.push(series.interpolated[i]);
            }
            None => {
                return None;
            }
        }
        i += 1;
    }
    proof {
        assert(flags@ =~= series.interpolated@);
    }
    Some(InterpolatedSeries { values, interpolated: flags })
}

/// A commit range bound: open, or a specific commit.
#[derive(Debug)]
pub enum Bound {
    Unbounded,
    Commit(String),
}

/// A graph request: a commit range, a metric, and a point-kind
/// transform.
#[derive(Debug)]
pub struct GraphRequest {
    pub start: Bound,
    pub end: Bound,
    pub stat: String,
    pub kind: GraphKind,
}

/// The canonical landing-page query: unbounded range, the default
/// metric, raw points.  Only this query reads or writes the cache.
pub open spec fn spec_is_default(req: GraphRequest) -> bool {
    &&& req.start is Unbounded
    &&& req.end is Unbounded
    &&& req.stat@ == "instructions:u"@
    &&& req.kind == GraphKind::Raw
}

/// Whether a request is the canonical landing-page query, recognized
/// by structural equality.
pub fn is_default_query(req: &GraphRequest) -> (r: bool)
    ensures
        r == spec_is_default(*req),
{
    let start_open = match &req.start {
        Bound::Unbounded => true,
        Bound::Commit(_) => false,
    };
    let end_open = match &req.end {
        Bound::Unbounded => true,
        Bound::Commit(_) => false,
    };
    let default_stat: String = "instructions:u".to_owned();
    let kind_raw = match req.kind {
        GraphKind::Raw => true,
        GraphKind::PercentRelative => false,
        GraphKind::PercentFromFirst => false,
    };
    start_open && end_open && req.stat.eq(&default_stat) && kind_raw
}

/// One labeled series of the response, keyed by benchmark, profile
/// and scenario.
#[derive(Debug)]
pub struct SeriesPoints {
    pub benchmark: String,
    pub profile: Profile,
    pub scenario: Scenario,
    pub points: Vec<GraphPoint>,
}

/// The served graph response: the commit range as (timestamp, sha)
/// pairs, and one labeled point series per resolved path, plus the
/// synthetic summary series.
#[derive(Debug)]
pub struct GraphResponse {
    pub commits: Vec<(i64, String)>,
    pub series: Vec<SeriesPoints>,
}

/// A fatal error while answering a graph request.
#[derive(Clone, Copy, PartialEq, Eq, Structural, Debug)]
pub enum GraphError {
    /// A fetched series has no usable value at the first commit.
    LeadingGap,
    /// An exact pointwise average did not fit.
    UndefinedAverage,
    /// A ratio against the summary baseline was undefined: the
    /// baseline is zero, or the exact quotient did not fit.
    UndefinedRatio,
    /// A percent transform was undefined: a zero reference point, or
    /// an exact result that did not fit.
    UndefinedPoint,
}

/// The interpolated values of a raw series, when it has no leading
/// gap.
pub open spec fn spec_series_interp(s: Seq<Option<Value>>) -> Option<Seq<Value>> {
    if s.len() > 0 && s[0] is None {
        None
    } else {
        Some(Seq::new(s.len(), |i: int| spec_fill(s, i).unwrap()))
    }
}

/// Which positions of a raw series are synthesized by interpolation.
pub open spec fn spec_series_flags(s: Seq<Option<Value>>) -> Seq<bool> {
    Seq::new(s.len(), |i: int| s[i] is None)
}

/// The graph points of an interpolated series under a kind, when
/// every point's transform is defined.
pub open spec fn spec_points_of(kind: GraphKind, vals: Seq<Value>, flags: Seq<bool>) -> Option<
    Seq<GraphPoint>,
> {
    if forall|i: int| 0 <= i < vals.len() ==> spec_point_value(kind, vals, i) is Some {
        Some(
            Seq::new(vals.len(), |i: int| GraphPoint {
                value: spec_point_value(kind, vals, i).unwrap(),
                is_interpolated: flags[i],
            }),
        )
    } else {
        None
    }
}

/// The points served for one resolved path: interpolate the stored
/// series, then apply the point-kind transform.
pub open spec fn spec_main_series(kind: GraphKind, s: Seq<Option<Value>>) -> Option<
    Seq<GraphPoint>,
> {
    match spec_series_interp(s) {
        Some(vals) => spec_points_of(kind, vals, spec_series_flags(s)),
        None => None,
    }
}

/// The benchmarks present in the store, in order of first appearance.
pub open spec fn spec_benchmarks_of(rows: Seq<StoreRow>) -> Seq<Seq<char>>
    decreases rows.len(),
{
    if rows.len() == 0 {
        Seq::empty()
    } else {
        let pre = spec_benchmarks_of(rows.drop_last());
        if pre.contains(rows.last().benchmark@) {
            pre
        } else {
            pre.push(rows.last().benchmark@)
        }
    }
}

/// The views of a sequence of owned strings.
pub open spec fn seq_views(ss: Seq<String>) -> Seq<Seq<char>> {
    Seq::new(ss.len(), |k: int| ss[k]@)
}

#[verifier::loop_isolation(false)]
fn list_store_benchmarks(store: &StoreData) -> (r: Vec<String>)
    ensures
        seq_views(r@) == spec_benchmarks_of(store.rows@),
{
    let mut r: Vec<String> = Vec::new();
    let mut k: usize = 0;
    while k < store.rows.len()
        invariant
            0 <= k <= store.rows@.len(),
            seq_views(r@) =~= spec_benchmarks_of(store.rows@.subrange(0, k as int)),
        decreases store.rows@.len() - k,
    {
        let mut present = false;
        let mut t: usize = 0;
        while t < r.len()
            invariant
                0 <= t <= r@.len(),
                present == exists|t2: int| 0 <= t2 < t && (#[trigger] r@[t2])@
                    == store.rows@[k as int].benchmark@,
            decreases r@.len() - t,
        {
            if r[t].eq(&store.rows[k].benchmark) {
                present = true;
            }
            t += 1;
        }
        let ghost old_views = seq_views(r@);
        proof {
            assert(store.rows@.subrange(0, k + 1).drop_last() =~= store.rows@.subrange(0, k as int));
            assert(store.rows@.subrange(0, k + 1).last() == store.rows@[k as int]);
            if present {
                let t2 = choose|t2: int|
                    0 <= t2 < r@.len() && (#[trigger] r@[t2])@ == store.rows@[k as int].benchmark@;
                assert(old_views[t2] == store.rows@[k as int].benchmark@);
                assert(old_views.contains(store.rows@[k as int].benchmark@));
            } else {
                assert forall|t2: int| 0 <= t2 < old_views.len() implies old_views[t2]
                    != store.rows@[k as int].benchmark@ by {
                    assert(old_views[t2] == r@[t2]@);
                }
                assert(!old_views.contains(store.rows@[k as int].benchmark@));
            }
        }
        if !present {
            r.push(store.rows[k].benchmark.clone());
        }
        proof {
            assert(seq_views(r@) =~= spec_benchmarks_of(store.rows@.subrange(0, k + 1)));
        }
        k += 1;
    }
    proof {
        assert(store.rows@.subrange(0, store.rows@.len() as int) =~= store.rows@);
    }
    r
}

/// Whether every series of the group interpolates without a leading
/// gap.
pub open spec fn spec_group_interp_ok(
    store: StoreData,
    benches: Seq<Seq<char>>,
    p: Profile,
    scen: Scenario,
    m: Seq<char>,
) -> bool {
    forall|k: int| 0 <= k < benches.len()
        ==> spec_series_interp(spec_store_points(store, #[trigger] benches[k], p, scen, m)) is Some
}

/// The column the group's interpolated series hold at commit `i`.
pub open spec fn spec_avg_col(
    store: StoreData,
    benches: Seq<Seq<char>>,
    p: Profile,
    scen: Scenario,
    m: Seq<char>,
    i: int,
) -> Seq<Value> {
    Seq::new(benches.len(), |k: int| spec_fill(spec_store_points(store, benches[k], p, scen, m), i).unwrap())
}

/// Whether the pointwise average of the group is defined everywhere.
pub open spec fn spec_avg_ok(
    store: StoreData,
    benches: Seq<Seq<char>>,
    p: Profile,
    scen: Scenario,
    m: Seq<char>,
) -> bool {
    &&& benches.len() >= 1
    &&& spec_group_interp_ok(store, benches, p, scen, m)
    &&& forall|i: int| 0 <= i < store.commits@.len()
        ==> spec_mean(#[trigger] spec_avg_col(store, benches, p, scen, m, i)) is Some
}

/// The pointwise average of the group's interpolated series.
pub open spec fn spec_avg_values(
    store: StoreData,
    benches: Seq<Seq<char>>,
    p: Profile,
    scen: Scenario,
    m: Seq<char>,
) -> Seq<Value> {
    Seq::new(store.commits@.len(), |i: int| spec_mean(spec_avg_col(store, benches, p, scen, m, i)).unwrap())
}

/// Which positions of the averaged series rest on an interpolated
/// value of some input series.
pub open spec fn spec_avg_flags(
    store: StoreData,
    benches: Seq<Seq<char>>,
    p: Profile,
    scen: Scenario,
    m: Seq<char>,
) -> Seq<bool> {
    Seq::new(store.commits@.len(), |i: int| exists|k: int|
        0 <= k < benches.len() && spec_store_points(store, #[trigger] benches[k], p, scen, m)[i] is None)
}

#[verifier::loop_isolation(false)]
fn gather_group(
    store: &StoreData,
    bs: &Vec<String>,
    p: Profile,
    scen: Scenario,
    m: &String,
) -> (r: Result<Vec<InterpolatedSeries>, GraphError>)
    requires
        store.wf(),
    ensures
        match r {
            Ok(list) => {
                &&& list@.len() == bs@.len()
                &&& forall|k: int| 0 <= k < list@.len() ==> (#[trigger] list@[k]).wf()
                &&& forall|k: int| 0 <= k < list@.len()
                    ==> (#[trigger] list@[k]).values@.len() == store.commits@.len()
                &&& forall|k: int| 0 <= k < list@.len()
                    ==> Some((#[trigger] list@[k]).values@) == spec_series_interp(
                        spec_store_points(*store, bs@[k]@, p, scen, m@))
                &&& forall|k: int| 0 <= k < list@.len()
                    ==> (#[trigger] list@[k]).interpolated@ == spec_series_flags(
                        spec_store_points(*store, bs@[k]@, p, scen, m@))
            },
            Err(e) => e == GraphError::LeadingGap && !spec_group_interp_ok(*store, seq_views(bs@),
                p, scen, m@),
        },
{
    let mut list: Vec<InterpolatedSeries> = Vec::new();
    let mut k: usize = 0;
    while k < bs.len()
        invariant
            0 <= k <= bs@.len(),
            list@.len() == k,
            forall|k2: int| 0 <= k2 < k ==> (#[trigger] list@[k2]).wf(),
            forall|k2: int| 0 <= k2 < k
                ==> (#[trigger] list@[k2]).values@.len() == store.commits@.len(),
            forall|k2: int| 0 <= k2 < k
                ==> Some((#[trigger] list@[k2]).values@) == spec_series_interp(
                    spec_store_points(*store, bs@[k2]@, p, scen, m@)),
            forall|k2: int| 0 <= k2 < k
                ==> (#[trigger] list@[k2]).interpolated@ == spec_series_flags(
                    spec_store_points(*store, bs@[k2]@, p, scen, m@)),
        decreases bs@.len() - k,
    {
        let points = store_points(store, &bs[k], p, scen, m);
        if points.len() > 0 && points[0].is_none() {
            proof {
                assert(spec_series_interp(spec_store_points(*store, seq_views(bs@)[k as int], p,
                    scen, m@)) is None);
            }
            return Err(GraphError::LeadingGap);
        }
        let interp = interpolate(&points);
        proof {
            assert(interp.values@ =~= Seq::new(points@.len(), |i: int| spec_fill(points@, i).unwrap()));
            assert(interp.interpolated@ =~= spec_series_flags(points@));
        }
        list.push(interp);
        k += 1;
    }
    Ok(list)
}

#[verifier::loop_isolation(false)]
fn averaged_series(
    store: &StoreData,
    bs: &Vec<String>,
    p: Profile,
    scen: Scenario,
    m: &String,
) -> (r: Result<InterpolatedSeries, GraphError>)
    requires
        store.wf(),
        bs@.len() >= 1,
    ensures
        match r {
            Ok(avg) => {
                &&& spec_avg_ok(*store, seq_views(bs@), p, scen, m@)
                &&& avg.wf()
                &&& avg.values@ == spec_avg_values(*store, seq_views(bs@), p, scen, m@)
                &&& avg.interpolated@ == spec_avg_flags(*store, seq_views(bs@), p, scen, m@)
                &&& avg.values@.len() == store.commits@.len()
            },
            Err(e) => !spec_avg_ok(*store, seq_views(bs@), p, scen, m@) && (e
                == GraphError::LeadingGap || e == GraphError::UndefinedAverage),
        },
{
    let ghost benches = seq_views(bs@);
    let list = match gather_group(store, bs, p, scen, m) {
        Ok(list) => list,
        Err(e) => {
            return Err(e);
        }
    };
    proof {
        assert forall|i: int| 0 <= i < store.commits@.len() implies spec_column(list@, i)
            =~= spec_avg_col(*store, benches, p, scen, m@, i) by {
            assert forall|k: int| 0 <= k < list@.len() implies list@[k].values@[i]
                == spec_fill(spec_store_points(*store, benches[k], p, scen, m@), i).unwrap() by {
                assert(Some(list@[k].values@) == spec_series_interp(spec_store_points(*store,
                    bs@[k]@, p, scen, m@)));
            }
        }
    }
    let n = store.commits.len();
    match average_series(&list, n) {
        Some(avg) => {
            proof {
                assert(avg.values@ =~= spec_avg_values(*store, benches, p, scen, m@));
                assert forall|i: int| 0 <= i < n implies avg.interpolated@[i]
                    == spec_avg_flags(*store, benches, p, scen, m@)[i] by {
                    if spec_any_interpolated(list@, i) {
                        let k = choose|k: int| 0 <= k < list@.len() && list@[k].interpolated@[i];
                        assert(spec_store_points(*store, benches[k], p, scen, m@)[i] is None);
                    }
                    if spec_avg_flags(*store, benches, p, scen, m@)[i] {
                        let k = choose|k: int| 0 <= k < benches.len()
                            && spec_store_points(*store, #[trigger] benches[k], p, scen, m@)[i]
                            is None;
                        assert(list@[k].interpolated@[i]);
                    }
                }
                assert(avg.interpolated@ =~= spec_avg_flags(*store, benches, p, scen, m@));
                assert forall|k: int| 0 <= k < benches.len() implies spec_series_interp(
                    spec_store_points(*store, #[trigger] benches[k], p, scen, m@)) is Some by {
                    assert(benches[k] == bs@[k]@);
                    assert(Some(list@[k].values@) == spec_series_interp(spec_store_points(*store,
                        bs@[k]@, p, scen, m@)));
                }
                assert forall|i: int| 0 <= i < store.commits@.len() implies spec_mean(
                    #[trigger] spec_avg_col(*store, benches, p, scen, m@, i)) is Some by {
                    assert(Some(avg.values@[i]) == spec_mean(spec_column(list@, i)));
                    assert(spec_column(list@, i) =~= spec_avg_col(*store, benches, p, scen, m@, i));
                }
            }
            Ok(avg)
        }
        None => Err(GraphError::UndefinedAverage),
    }
}

/// The synthetic summary points for one (profile, scenario) pair:
/// the group's averaged empty-scenario series gives a scalar baseline
/// (its arithmetic mean over the commit range), the averaged real
/// series is divided by it, and the ratio series goes through the
/// point-kind transform.
pub open spec fn spec_summary_points(
    store: StoreData,
    benches: Seq<Seq<char>>,
    p: Profile,
    scen: Scenario,
    m: Seq<char>,
    kind: GraphKind,
) -> Option<Seq<GraphPoint>> {
    if !spec_avg_ok(store, benches, p, Scenario::Empty, m) {
        None
    } else {
        match spec_mean(spec_avg_values(store, benches, p, Scenario::Empty, m)) {
            None => None,
            Some(base) => {
                if !spec_avg_ok(store, benches, p, scen, m) {
                    None
                } else {
                    let vals = spec_avg_values(store, benches, p, scen, m);
                    if forall|i: int| 0 <= i < vals.len() ==> spec_ratio(vals[i], base) is Some {
                        spec_points_of(kind, Seq::new(vals.len(), |i: int| spec_ratio(vals[i],
                            base).unwrap()), spec_avg_flags(store, benches, p, scen, m))
                    } else {
                        None
                    }
                }
            }
        }
    }
}

/// The summary points owed for summary scenario `si` under profile
/// `p`.
pub open spec fn spec_summary_slot(store: StoreData, req: GraphRequest, si: int, p: Profile) -> Option<
    Seq<GraphPoint>,
> {
    spec_summary_points(store, spec_benchmarks_of(store.rows@), p, store.summary_scenarios@[si],
        req.stat@, req.kind)
}

/// Every artifact of the range is a commit: a tag must never reach
/// graph handling, which assumes commit semantics.
pub open spec fn all_commit_artifacts(commits: Seq<ArtifactId>) -> bool {
    forall|i: int| 0 <= i < commits.len() ==> (#[trigger] commits[i]) is Commit
}

/// The served pair for one artifact: its timestamp and its sha.
pub open spec fn commit_pair_ok(a: ArtifactId, c: (i64, String)) -> bool {
    a matches ArtifactId::Commit { sha, timestamp } && c.0 == timestamp && c.1@ == sha@
}

/// The coordinates the main wildcard query admits: every benchmark,
/// profile and scenario present in the store.
pub open spec fn spec_coord_matches(store: StoreData, b: Seq<char>, p: Profile, s: Scenario) -> bool {
    bench_present(store.rows@, b) && profile_present(store.rows@, p) && scenario_present(
        store.rows@, s)
}

/// Every series the request calls for is defined: no leading gaps, no
/// undefined average, ratio or percent anywhere.
pub open spec fn spec_pipeline_ok(req: GraphRequest, store: StoreData) -> bool {
    &&& forall|b: Seq<char>, p: Profile, s: Scenario| #[trigger] spec_coord_matches(store, b, p, s)
        ==> spec_main_series(req.kind, spec_store_points(store, b, p, s, req.stat@)) is Some
    &&& forall|si: int, p: Profile| 0 <= si < store.summary_scenarios@.len()
        ==> #[trigger] spec_summary_slot(store, req, si, p) is Some
}

/// What a freshly computed response holds: the commit range as
/// (timestamp, sha) pairs, one series with the transformed stored
/// points for every coordinate the wildcard query admits, and one
/// summary series per configured summary scenario and profile.
pub open spec fn spec_response_ok(req: GraphRequest, store: StoreData, resp: GraphResponse) -> bool {
    &&& resp.commits@.len() == store.commits@.len()
    &&& forall|i: int| 0 <= i < resp.commits@.len()
        ==> commit_pair_ok(store.commits@[i], #[trigger] resp.commits@[i])
    &&& forall|b: Seq<char>, p: Profile, s: Scenario| #[trigger] spec_coord_matches(store, b, p, s)
        ==> exists|n: int| 0 <= n < resp.series@.len() && {
            let e = #[trigger] resp.series@[n];
            e.benchmark@ == b && e.profile == p && e.scenario == s && Some(e.points@)
                == spec_main_series(req.kind, spec_store_points(store, b, p, s, req.stat@))
        }
    &&& forall|si: int, p: Profile| 0 <= si < store.summary_scenarios@.len()
        ==> exists|n: int| 0 <= n < resp.series@.len() && {
            let e = #[trigger] resp.series@[n];
            e.benchmark@ == "Summary"@ && e.profile == p && e.scenario
                == store.summary_scenarios@[si] && Some(e.points@) == #[trigger] spec_summary_slot(
                store, req, si, p)
        }
}

/// The profile handled in the given summary round.
pub open spec fn profile_of(pi: int) -> Profile {
    if pi == 0 {
        Profile::Check
    } else if pi == 1 {
        Profile::Debug
    } else {
        Profile::Opt
    }
}

/// Append the synthetic summary series to the response: one per
/// configured summary scenario and profile, each normalized against
/// the profile's empty-scenario baseline, which is computed at most
/// once per profile.
#[verifier::loop_isolation(false)]
#[verifier::rlimit(60)]
fn append_summaries(
    req: &GraphRequest,
    store: &StoreData,
    bs: &Vec<String>,
    series: &mut Vec<SeriesPoints>,
) -> (r: Result<(), GraphError>)
    requires
        store.wf(),
        store.summary_scenarios@.len() > 0 ==> bs@.len() >= 1,
        seq_views(bs@) == spec_benchmarks_of(store.rows@),
    ensures
        r is Ok ==> final(series)@.len() >= old(series)@.len() && final(series)@.subrange(0,
            old(series)@.len() as int) == old(series)@,
        r is Ok ==> forall|si2: int, p: Profile|
            #![trigger spec_summary_slot(*store, *req, si2, p)]
            0 <= si2 < store.summary_scenarios@.len() ==> exists|n2: int|
                0 <= n2 < final(series)@.len() && {
                    let e = #[trigger] final(series)@[n2];
                    e.benchmark@ == "Summary"@ && e.profile == p && e.scenario
                        == store.summary_scenarios@[si2] && Some(e.points@) == spec_summary_slot(
                        *store, *req, si2, p)
                },
        r is Err ==> exists|si2: int, p: Profile|
            0 <= si2 < store.summary_scenarios@.len() && (#[trigger] spec_summary_slot(*store,
                *req, si2, p)) is None,
{
    let ghost benches = spec_benchmarks_of(store.rows@);
    let mut pi: usize = 0;
    while pi < 3
        invariant
            0 <= pi <= 3,
            series@.len() >= old(series)@.len(),
            series@.subrange(0, old(series)@.len() as int) == old(series)@,
            forall|si2: int, pi2: int|
                #![trigger store.summary_scenarios@[si2], profile_of(pi2)]
                0 <= si2 < store.summary_scenarios@.len() && 0 <= pi2 < pi ==> exists|n2: int|
                    0 <= n2 < series@.len() && {
                        let e = #[trigger] series@[n2];
                        e.benchmark@ == "Summary"@ && e.profile == profile_of(pi2) && e.scenario
                            == store.summary_scenarios@[si2] && Some(e.points@)
                            == spec_summary_slot(*store, *req, si2, profile_of(pi2))
                    },
        decreases 3 - pi,
    {
        let profile = if pi == 0 {
            Profile::Check
        } else if pi == 1 {
            Profile::Debug
        } else {
            Profile::Opt
        };
        let mut base_opt: Option<Value> = None;
        let mut si: usize = 0;
        while si < store.summary_scenarios.len()
            invariant
                0 <= si <= store.summary_scenarios@.len(),
                store.summary_scenarios@.len() > 0 ==> bs@.len() >= 1,
                profile == profile_of(pi as int),
                0 <= pi < 3,
                series@.len() >= old(series)@.len(),
                series@.subrange(0, old(series)@.len() as int) == old(series)@,
                base_opt matches Some(b2) ==> b2.wf() && spec_avg_ok(*store, benches, profile,
                    Scenario::Empty, req.stat@) && Some(b2) == spec_mean(spec_avg_values(*store,
                    benches, profile, Scenario::Empty, req.stat@)),
                forall|si2: int, pi2: int|
                    #![trigger store.summary_scenarios@[si2], profile_of(pi2)]
                    0 <= si2 < store.summary_scenarios@.len() && 0 <= pi2 < pi ==> exists|n2: int|
                        0 <= n2 < series@.len() && {
                            let e = #[trigger] series@[n2];
                            e.benchmark@ == "Summary"@ && e.profile == profile_of(pi2)
                                && e.scenario == store.summary_scenarios@[si2] && Some(e.points@)
                                == spec_summary_slot(*store, *req, si2, profile_of(pi2))
                        },
                forall|si2: int|
                    #![trigger store.summary_scenarios@[si2]]
                    0 <= si2 < si ==> exists|n2: int|
                        0 <= n2 < series@.len() && {
                            let e = #[trigger] series@[n2];
                            e.benchmark@ == "Summary"@ && e.profile == profile && e.scenario
                                == store.summary_scenarios@[si2] && Some(e.points@)
                                == spec_summary_slot(*store, *req, si2, profile)
                        },
            decreases store.summary_scenarios@.len() - si,
        {
            let scen = store.summary_scenarios[si];
            let base = match base_opt {
                Some(b2) => b2,
                None => {
                    let avg = match averaged_series(store, &bs, profile, Scenario::Empty,
                        &req.stat) {
                        Ok(a) => a,
                        Err(e) => {
                            proof {
                                assert(spec_summary_slot(*store, *req, si as int, profile)
                                    is None);
                            }
                            return Err(e);
                        }
                    };
                    match mean(&avg.values) {
                        Some(b2) => {
                            base_opt = Some(b2);
                            b2
                        }
                        None => {
                            proof {
                                assert(spec_summary_slot(*store, *req, si as int, profile)
                                    is None);
                            }
                            return Err(GraphError::UndefinedAverage);
                        }
                    }
                }
            };
            let avg_s = match averaged_series(store, &bs, profile, scen, &req.stat) {
                Ok(a) => a,
                Err(e) => {
                    proof {
                        assert(spec_summary_slot(*store, *req, si as int, profile) is None);
                    }
                    return Err(e);
                }
            };
            let norm = match normalize_series(&avg_s, base) {
                Some(x) => x,
                None => {
                    proof {
                        assert(spec_summary_slot(*store, *req, si as int, profile) is None);
                    }
                    return Err(GraphError::UndefinedRatio);
                }
            };
            let ghost vals = spec_avg_values(*store, benches, profile, scen, req.stat@);
            proof {
                assert(avg_s.values@ == vals);
                assert forall|i2: int| 0 <= i2 < vals.len() implies spec_ratio(vals[i2], base)
                    is Some by {
                    assert(Some(norm.values@[i2]) == spec_ratio(avg_s.values@[i2], base));
                }
                assert(norm.values@ =~= Seq::new(vals.len(), |i2: int| spec_ratio(vals[i2],
                    base).unwrap()));
                assert(norm.interpolated@ == spec_avg_flags(*store, benches, profile, scen,
                    req.stat@));
            }
            let pts = match to_graph_points(req.kind, &norm) {
                Some(p2) => p2,
                None => {
                    proof {
                        assert(spec_points_of(req.kind, norm.values@, norm.interpolated@) is None);
                        assert(spec_summary_slot(*store, *req, si as int, profile) is None);
                    }
                    return Err(GraphError::UndefinedPoint);
                }
            };
            proof {
                assert forall|i2: int| 0 <= i2 < norm.values@.len() implies spec_point_value(
                    req.kind, norm.values@, i2) is Some by {
                    assert(Some(pts@[i2].value) == spec_point_value(req.kind, norm.values@, i2));
                }
                assert(spec_points_of(req.kind, norm.values@, norm.interpolated@) is Some);
                assert(pts@ =~= spec_points_of(req.kind, norm.values@, norm.interpolated@)
                    .unwrap());
                assert(spec_avg_ok(*store, benches, profile, Scenario::Empty, req.stat@));
                assert(spec_mean(spec_avg_values(*store, benches, profile, Scenario::Empty,
                    req.stat@)) == Some(base));
                assert(spec_avg_ok(*store, benches, profile, scen, req.stat@));
                assert(Some(pts@) == spec_summary_points(*store, benches, profile, scen,
                    req.stat@, req.kind));
                assert(scen == store.summary_scenarios@[si as int]);
                assert(Some(pts@) == spec_summary_slot(*store, *req, si as int, profile));
            }
            let label: String = "Summary".to_owned();
            let ghost before = series@;
            series.push(SeriesPoints { benchmark: label, profile, scenario: scen, points: pts });
            proof {
                assert(series@.subrange(0, old(series)@.len() as int) =~= before.subrange(0,
                    old(series)@.len() as int));
                assert(series@[before.len() as int].benchmark@ == "Summary"@);
                assert forall|si2: int, pi2: int|
                    #![trigger store.summary_scenarios@[si2], profile_of(pi2)]
                    0 <= si2 < store.summary_scenarios@.len() && 0 <= pi2 < pi implies exists|
                    n2: int|
                    0 <= n2 < series@.len() && {
                        let e = #[trigger] series@[n2];
                        e.benchmark@ == "Summary"@ && e.profile == profile_of(pi2) && e.scenario
                            == store.summary_scenarios@[si2] && Some(e.points@)
                            == spec_summary_slot(*store, *req, si2, profile_of(pi2))
                    } by {
                    let n3 = choose|n3: int|
                        0 <= n3 < before.len() && {
                            let e = #[trigger] before[n3];
                            e.benchmark@ == "Summary"@ && e.profile == profile_of(pi2)
                                && e.scenario == store.summary_scenarios@[si2] && Some(e.points@)
                                == spec_summary_slot(*store, *req, si2, profile_of(pi2))
                        };
                    assert(series@[n3] == before[n3]);
                }
                assert forall|si2: int|
                    #![trigger store.summary_scenarios@[si2]]
                    0 <= si2 < si + 1 implies exists|n2: int|
                    0 <= n2 < series@.len() && {
                        let e = #[trigger] series@[n2];
                        e.benchmark@ == "Summary"@ && e.profile == profile && e.scenario
                            == store.summary_scenarios@[si2] && Some(e.points@)
                            == spec_summary_slot(*store, *req, si2, profile)
                    } by {
                    if si2 < si {
                        let n3 = choose|n3: int|
                            0 <= n3 < before.len() && {
                                let e = #[trigger] before[n3];
                                e.benchmark@ == "Summary"@ && e.profile == profile && e.scenario
                                    == store.summary_scenarios@[si2] && Some(e.points@)
                                    == spec_summary_slot(*store, *req, si2, profile)
                            };
                        assert(series@[n3] == before[n3]);
                    } else {
                        assert(series@[before.len() as int] == SeriesPoints {
                            benchmark: series@[before.len() as int].benchmark,
                            profile,
                            scenario: scen,
                            points: series@[before.len() as int].points,
                        });
                    }
                }
            }
            si += 1;
        }
        proof {
            assert forall|si2: int, pi2: int|
                #![trigger store.summary_scenarios@[si2], profile_of(pi2)]
                0 <= si2 < store.summary_scenarios@.len() && 0 <= pi2 < pi + 1 implies exists|
                n2: int|
                0 <= n2 < series@.len() && {
                    let e = #[trigger] series@[n2];
                    e.benchmark@ == "Summary"@ && e.profile == profile_of(pi2) && e.scenario
                        == store.summary_scenarios@[si2] && Some(e.points@) == spec_summary_slot(
                        *store, *req, si2, profile_of(pi2))
                } by {
                if pi2 == pi {
                    assert(profile_of(pi2) == profile);
                }
            }
        }
        pi += 1;
    }
    proof {
        assert forall|si2: int, p: Profile|
            #![trigger spec_summary_slot(*store, *req, si2, p)]
            0 <= si2 < store.summary_scenarios@.len() implies exists|n2: int|
            0 <= n2 < series@.len() && {
                let e = #[trigger] series@[n2];
                e.benchmark@ == "Summary"@ && e.profile == p && e.scenario
                    == store.summary_scenarios@[si2] && Some(e.points@) == spec_summary_slot(
                    *store, *req, si2, p)
            } by {
            match p {
                Profile::Check => {
                    assert(profile_of(0) == p);
                }
                Profile::Debug => {
                    assert(profile_of(1) == p);
                }
                Profile::Opt => {
                    assert(profile_of(2) == p);
                }
            }
        }
    }
    Ok(())
}

/// Compute the full response for a request: resolve the wildcard
/// query, interpolate and transform every fetched series, and append
/// the summary series.
#[verifier::loop_isolation(false)]
#[verifier::rlimit(50)]
fn compute_graph(req: &GraphRequest, store: &StoreData) -> (r: Result<GraphResponse, GraphError>)
    requires
        store.wf(),
        all_commit_artifacts(store.commits@),
    ensures
        r is Ok <==> spec_pipeline_ok(*req, *store),
        r matches Ok(resp) ==> spec_response_ok(*req, *store, resp),
{
    let mut commits: Vec<(i64, String)> = Vec::new();
    let mut ci: usize = 0;
    while ci < store.commits.len()
        invariant
            0 <= ci <= store.commits@.len(),
            commits@.len() == ci,
            forall|j: int| 0 <= j < ci ==> commit_pair_ok(store.commits@[j], #[trigger] commits@[j]),
        decreases store.commits@.len() - ci,
    {
        match &store.commits[ci] {
            ArtifactId::Commit { sha, timestamp } => {
                commits.push((*timestamp, sha.clone()));
            }
            ArtifactId::Tag { .. } => {
                proof {
                    assert(false);
                }
                return Err(GraphError::LeadingGap);
            }
        }
        ci += 1;
    }
    let stat_c = req.stat.clone();
    let ghost stat_view = stat_c@;
    let q = Query::new().set_benchmark(Selector::All).set_profile(Selector::All).set_scenario(
        Selector::All,
    ).set_metric(Selector::One(stat_c));
    proof {
        assert(stat_view == req.stat@);
        assert(q.benchmark == Some(Selector::All::<String>));
        assert(q.profile == Some(Selector::All::<Profile>));
        assert(q.scenario == Some(Selector::All::<Scenario>));
        assert(q.metric matches Some(Selector::One(x)) && x@ == req.stat@);
    }
    let list = match resolve_and_fetch(&q, store) {
        Ok(list) => list,
        Err(_) => {
            proof {
                assert(false);
            }
            return Err(GraphError::LeadingGap);
        }
    };
    let ghost glist = list@;
    let mut series: Vec<SeriesPoints> = Vec::new();
    let mut n: usize = 0;
    while n < list.len()
        invariant
            0 <= n <= glist.len(),
            list@ == glist,
            series@.len() == n,
            forall|n2: int| 0 <= n2 < n ==> {
                let e = #[trigger] series@[n2];
                let sr = glist[n2];
                e.benchmark@ == sr.path.bench_view() && e.profile == sr.path.prof() && e.scenario
                    == sr.path.scen() && Some(e.points@) == spec_main_series(req.kind, sr.points@)
            },
        decreases glist.len() - n,
    {
        let resp = &list[n];
        proof {
            crate::selector::lemma_store_points_wf(*store, resp.path.bench_view(),
                resp.path.prof(), resp.path.scen(), resp.path.metric_view());
            assert(resp.path.metric_view() == req.stat@);
            assert(spec_coord_matches(*store, resp.path.bench_view(), resp.path.prof(),
                resp.path.scen()));
        }
        if resp.points.len() > 0 && resp.points[0].is_none() {
            proof {
                assert(spec_main_series(req.kind, resp.points@) is None);
            }
            return Err(GraphError::LeadingGap);
        }
        let interp = interpolate(&resp.points);
        proof {
            assert(interp.values@ =~= Seq::new(resp.points@.len(), |i2: int| spec_fill(
                resp.points@, i2).unwrap()));
            assert(interp.interpolated@ =~= spec_series_flags(resp.points@));
            assert(Some(interp.values@) == spec_series_interp(resp.points@));
        }
        let pts = match to_graph_points(req.kind, &interp) {
            Some(pts) => pts,
            None => {
                proof {
                    assert(spec_points_of(req.kind, interp.values@, interp.interpolated@) is None);
                    assert(spec_main_series(req.kind, resp.points@) is None);
                }
                return Err(GraphError::UndefinedPoint);
            }
        };
        proof {
            assert forall|i2: int| 0 <= i2 < interp.values@.len() implies spec_point_value(
                req.kind, interp.values@, i2) is Some by {
                assert(Some(pts@[i2].value) == spec_point_value(req.kind, interp.values@, i2));
            }
            assert(spec_points_of(req.kind, interp.values@, interp.interpolated@) is Some);
            assert(pts@ =~= spec_points_of(req.kind, interp.values@, interp.interpolated@)
                .unwrap());
            assert(Some(pts@) == spec_main_series(req.kind, resp.points@));
        }
        let benchmark = match &resp.path.benchmark {
            Some(b) => b.clone(),
            None => {
                proof {
                    assert(false);
                }
                return Err(GraphError::LeadingGap);
            }
        };
        let profile = match resp.path.profile {
            Some(p) => p,
            None => {
                proof {
                    assert(false);
                }
                return Err(GraphError::LeadingGap);
            }
        };
        let scenario = match resp.path.scenario {
            Some(s) => s,
            None => {
                proof {
                    assert(false);
                }
                return Err(GraphError::LeadingGap);
            }
        };
        series.push(SeriesPoints { benchmark, profile, scenario, points: pts });
        n += 1;
    }
    let bs = list_store_benchmarks(store);
    let ghost benches = spec_benchmarks_of(store.rows@);
    if store.summary_scenarios.len() > 0 && bs.len() == 0 {
        proof {
            assert(!spec_avg_ok(*store, benches, Profile::Check, Scenario::Empty, req.stat@));
            assert(spec_summary_slot(*store, *req, 0, Profile::Check) is None);
        }
        return Err(GraphError::UndefinedAverage);
    }
    let ghost main_series = series@;
    match append_summaries(req, store, &bs, &mut series) {
        Ok(()) => {}
        Err(e) => {
            return Err(e);
        }
    }
    proof {
        assert forall|n2: int| 0 <= n2 < main_series.len() implies series@[n2]
            == main_series[n2] by {
            assert(series@.subrange(0, main_series.len() as int)[n2] == series@[n2]);
        }
    }
    let resp = GraphResponse { commits, series };
    proof {
        assert forall|b: Seq<char>, p: Profile, s: Scenario| #[trigger] spec_coord_matches(*store,
            b, p, s) implies exists|n2: int|
            0 <= n2 < resp.series@.len() && {
                let e = #[trigger] resp.series@[n2];
                e.benchmark@ == b && e.profile == p && e.scenario == s && Some(e.points@)
                    == spec_main_series(req.kind, spec_store_points(*store, b, p, s, req.stat@))
            } by {
            assert(bench_present(store.rows@, b) && profile_present(store.rows@, p)
                && scenario_present(store.rows@, s));
            assert(query_matches(q, store.rows@, b, p, s, req.stat@));
            let n0 = choose|n0: int|
                0 <= n0 < glist.len() && (#[trigger] glist[n0]).at(b, p, s, req.stat@);
            assert(glist[n0].at(b, p, s, req.stat@));
            assert(main_series[n0].benchmark@ == glist[n0].path.bench_view());
            assert(main_series[n0].profile == glist[n0].path.prof());
            assert(main_series[n0].scenario == glist[n0].path.scen());
            assert(Some(main_series[n0].points@) == spec_main_series(req.kind, glist[n0].points@));
            assert(resp.series@[n0] == main_series[n0]);
            assert(glist[n0].points@ == spec_store_points(*store, b, p, s, req.stat@));
            assert(resp.series@[n0].benchmark@ == b);
        }
        assert forall|si2: int, p: Profile| 0 <= si2 < store.summary_scenarios@.len() implies
            exists|n2: int|
            0 <= n2 < resp.series@.len() && {
                let e = #[trigger] resp.series@[n2];
                e.benchmark@ == "Summary"@ && e.profile == p && e.scenario
                    == store.summary_scenarios@[si2] && Some(e.points@) == #[trigger]
                    spec_summary_slot(*store, *req, si2, p)
            } by {
            match p {
                Profile::Check => {
                    assert(profile_of(0) == p);
                }
                Profile::Debug => {
                    assert(profile_of(1) == p);
                }
                Profile::Opt => {
                    assert(profile_of(2) == p);
                }
            }
        }
    }
    Ok(resp)
}

/// Two labeled series that hold the same data.
pub open spec fn sp_equiv(a: SeriesPoints, b: SeriesPoints) -> bool {
    &&& a.benchmark@ == b.benchmark@
    &&& a.profile == b.profile
    &&& a.scenario == b.scenario
    &&& a.points@ == b.points@
}

/// Two responses that hold the same data.
pub open spec fn resp_equiv(a: GraphResponse, b: GraphResponse) -> bool {
    &&& a.commits@.len() == b.commits@.len()
    &&& forall|i: int| 0 <= i < a.commits@.len() ==> (#[trigger] a.commits@[i]).0
        == b.commits@[i].0 && a.commits@[i].1@ == b.commits@[i].1@
    &&& a.series@.len() == b.series@.len()
    &&& forall|n: int| 0 <= n < a.series@.len() ==> sp_equiv(#[trigger] a.series@[n],
        b.series@[n])
}

fn copy_points(v: &Vec<GraphPoint>) -> (r: Vec<GraphPoint>)
    ensures
        r@ == v@,
{
    let mut r: Vec<GraphPoint> = Vec::new();
    let mut i: usize = 0;
    while i < v.len()
        invariant
            0 <= i <= v@.len(),
            r@ =~= v@.subrange(0, i as int),
        decreases v@.len() - i,
    {
        r.push(v[i]);
        i += 1;
    }
    proof {
        assert(r@ =~= v@);
    }
    r
}

/// A deep copy of a response, holding the same data.
#[verifier::loop_isolation(false)]
fn copy_response(src: &GraphResponse) -> (r: GraphResponse)
    ensures
        resp_equiv(*src, r),
{
    let mut commits: Vec<(i64, String)> = Vec::new();
    let mut i: usize = 0;
    while i < src.commits.len()
        invariant
            0 <= i <= src.commits@.len(),
            commits@.len() == i,
            forall|j: int| 0 <= j < i ==> (#[trigger] commits@[j]).0 == src.commits@[j].0
                && commits@[j].1@ == src.commits@[j].1@,
        decreases src.commits@.len() - i,
    {
        let (t, sha) = &src.commits[i];
        commits.push((*t, sha.clone()));
        i += 1;
    }
    let mut series: Vec<SeriesPoints> = Vec::new();
    let mut n: usize = 0;
    while n < src.series.len()
        invariant
            0 <= n <= src.series@.len(),
            series@.len() == n,
            forall|j: int| 0 <= j < n ==> sp_equiv(#[trigger] series@[j], src.series@[j]),
        decreases src.series@.len() - n,
    {
        let e = &src.series[n];
        series.push(
            SeriesPoints {
                benchmark: e.benchmark.clone(),
                profile: e.profile,
                scenario: e.scenario,
                points: copy_points(&e.points),
            },
        );
        n += 1;
    }
    GraphResponse { commits, series }
}

/// The process-wide landing-page cache: a single slot holding the
/// response of the canonical query, empty at start, replaced whole on
/// each fresh computation.
#[derive(Debug)]
pub struct LandingPageCache {
    slot: Option<GraphResponse>,
}

impl LandingPageCache {
    /// The response currently held, if any.
    pub closed spec fn cached(self) -> Option<GraphResponse> {
        self.slot
    }

    pub fn new() -> (r: LandingPageCache)
        ensures
            r.cached() is None,
    {
        LandingPageCache { slot: None }
    }

    /// Read the slot without computing anything.
    pub fn lookup(&self) -> (r: Option<&GraphResponse>)
        ensures
            match r {
                Some(c) => self.cached() == Some(*c),
                None => self.cached() is None,
            },
    {
        match &self.slot {
            Some(c) => Some(c),
            None => None,
        }
    }

    /// Replace the slot wholesale: last writer wins.
    pub fn store_response(&mut self, resp: GraphResponse)
        ensures
            final(self).cached() == Some(resp),
    {
        self.slot = Some(resp);
    }
}

/// Answer one graph request against the store.
///
/// The canonical landing-page query is answered from the cache when
/// the cache is filled, without recomputation, and fills the cache
/// when it is empty; any other request never reads or writes the
/// cache.  A freshly computed response holds the transformed series
/// of every coordinate the wildcard query admits, plus the summary
/// series, and the computation succeeds exactly when every needed
/// series is defined.
pub fn handle_graph(req: &GraphRequest, store: &StoreData, cache: &mut LandingPageCache) -> (r:
    Result<GraphResponse, GraphError>)
    requires
        store.wf(),
        all_commit_artifacts(store.commits@),
    ensures
        !spec_is_default(*req) ==> final(cache).cached() == old(cache).cached(),
        spec_is_default(*req) ==> (old(cache).cached() matches Some(c) ==> (final(cache).cached()
            == old(cache).cached() && (r matches Ok(resp) && resp_equiv(c, resp)))),
        (!spec_is_default(*req) || old(cache).cached() is None) ==> {
            &&& (r is Ok <==> spec_pipeline_ok(*req, *store))
            &&& (r matches Ok(resp) ==> spec_response_ok(*req, *store, resp))
        },
        (spec_is_default(*req) && old(cache).cached() is None) ==> (r matches Ok(resp)
            ==> (final(cache).cached() matches Some(c2) && resp_equiv(c2, resp))),
        spec_is_default(*req) && old(cache).cached() is None && r is Err ==> final(cache).cached()
            is None,
{
    let default_q = is_default_query(req);
    if default_q {
        match cache.lookup() {
            Some(c) => {
                return Ok(copy_response(c));
            }
            None => {}
        }
    }
    let computed = match compute_graph(req, store) {
        Ok(resp) => resp,
        Err(e) => {
            return Err(e);
        }
    };
    if default_q {
        cache.store_response(copy_response(&computed));
    }
    Ok(computed)
}

} // verus!
