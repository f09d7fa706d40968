use perf_core::benchmark::{
    passes_filter, runtime_benchmark_dir, BenchmarkFilter, BenchmarkGroup, BenchmarkSuite,
};
use perf_core::discovery::{process_build_line, EventAction, GroupCollector};
use perf_core::discovery::{build_exit_result, into_suite, sort_crates, CrateEntry, DiscoveryError};
use perf_core::graph::{
    average_series, handle_graph, is_default_query, normalize_series, to_graph_points, Bound,
    GraphKind, GraphRequest, LandingPageCache,
};
use perf_core::interpolate::{interpolate, InterpolatedSeries};
use perf_core::selector::{
    resolve_and_fetch, ArtifactId, Profile, Query, QueryError, Scenario, Selector, StoreData,
    StoreRow, Tag,
};
use perf_core::value::{add_values, mean, percent_change, ratio, value_eq, Value};

fn v(n: i64) -> Value {
    Value::from_int(n)
}

fn group(binary: &str, names: &[&str]) -> BenchmarkGroup {
    BenchmarkGroup {
        binary: binary.to_string(),
        benchmark_names: names.iter().map(|s| s.to_string()).collect(),
    }
}

fn row(b: &str, p: Profile, s: Scenario, m: &str, points: Vec<Option<Value>>) -> StoreRow {
    StoreRow {
        benchmark: b.to_string(),
        profile: p,
        scenario: s,
        metric: m.to_string(),
        points,
    }
}

#[test]
fn total_count_is_sum_of_group_sizes() {
    let suite = BenchmarkSuite {
        groups: vec![group("a/one", &["x", "y"]), group("a/two", &["z"])],
    };
    assert_eq!(suite.total_benchmark_count(), 3);
}

#[test]
fn unfiltered_count_equals_total_count() {
    let suite = BenchmarkSuite {
        groups: vec![group("a/one", &["x", "y", "w"]), group("a/two", &["z"])],
    };
    let filter = BenchmarkFilter::new(None, None);
    assert_eq!(
        suite.filtered_benchmark_count(&filter),
        suite.total_benchmark_count()
    );
}

#[test]
fn filtered_count_applies_both_patterns() {
    let suite = BenchmarkSuite {
        groups: vec![group("a/one", &["hash-fast", "hash-slow", "parse"])],
    };
    let only_hash = BenchmarkFilter::new(None, Some("hash".to_string()));
    assert_eq!(suite.filtered_benchmark_count(&only_hash), 2);
    let no_slow = BenchmarkFilter::new(Some("slow".to_string()), Some("hash".to_string()));
    assert_eq!(suite.filtered_benchmark_count(&no_slow), 1);
    let none = BenchmarkFilter::new(Some("hash".to_string()), Some("slow".to_string()));
    assert_eq!(suite.filtered_benchmark_count(&none), 0);
}

#[test]
fn passes_filter_is_substring_based() {
    assert!(passes_filter("hello-world", None, None));
    assert!(passes_filter("hello-world", None, Some("lo-w")));
    assert!(!passes_filter("hello-world", None, Some("planet")));
    assert!(!passes_filter("hello-world", Some("world"), None));
    assert!(passes_filter("hello-world", Some("planet"), None));
    assert!(passes_filter("abc", None, Some("")));
}

#[test]
fn benchmark_names_flattens_groups_in_order() {
    let suite = BenchmarkSuite {
        groups: vec![group("a/one", &["x", "y"]), group("a/two", &["z"])],
    };
    let names = suite.benchmark_names();
    assert_eq!(names, vec!["x".to_string(), "y".to_string(), "z".to_string()]);
}

#[test]
fn group_name_is_binary_file_name() {
    let g = group("target/release/my-bench", &[]);
    assert_eq!(g.name(), "my-bench");
    let g2 = group("plain", &[]);
    assert_eq!(g2.name(), "plain");
}

#[test]
fn runtime_benchmark_dir_is_fixed() {
    assert_eq!(runtime_benchmark_dir(), "collector/runtime-benchmarks");
}

#[test]
fn interpolation_no_gaps_is_identity() {
    let series = vec![Some(v(1)), Some(v(2)), Some(v(3))];
    let r: InterpolatedSeries = interpolate(&series);
    assert_eq!(r.values.len(), 3);
    for (i, val) in [1i64, 2, 3].iter().enumerate() {
        assert!(r.values[i].equals_int(*val));
        assert!(!r.interpolated[i]);
    }
}

#[test]
fn interpolation_fills_gaps_with_last_value() {
    let series = vec![Some(v(1)), None, None, Some(v(4))];
    let r = interpolate(&series);
    assert_eq!(r.values.len(), 4);
    assert!(r.values[0].equals_int(1));
    assert!(r.values[1].equals_int(1));
    assert!(r.values[2].equals_int(1));
    assert!(r.values[3].equals_int(4));
    assert_eq!(r.interpolated, vec![false, true, true, false]);
}

#[test]
fn percent_relative_points() {
    let series = interpolate(&vec![Some(v(10)), Some(v(20)), Some(v(15))]);
    let pts = to_graph_points(GraphKind::PercentRelative, &series).unwrap();
    assert_eq!(pts.len(), 3);
    assert!(pts[0].value.equals_int(0));
    assert!(pts[1].value.equals_int(100));
    assert!(pts[2].value.equals_int(-25));
}

#[test]
fn percent_from_first_points() {
    let series = interpolate(&vec![Some(v(10)), Some(v(20)), Some(v(15))]);
    let pts = to_graph_points(GraphKind::PercentFromFirst, &series).unwrap();
    assert_eq!(pts.len(), 3);
    assert!(pts[0].value.equals_int(0));
    assert!(pts[1].value.equals_int(100));
    assert!(pts[2].value.equals_int(50));
}

#[test]
fn raw_points_pass_values_through() {
    let series = interpolate(&vec![Some(v(7)), None]);
    let pts = to_graph_points(GraphKind::Raw, &series).unwrap();
    assert!(pts[0].value.equals_int(7));
    assert!(pts[1].value.equals_int(7));
    assert!(!pts[0].is_interpolated);
    assert!(pts[1].is_interpolated);
}

#[test]
fn percent_of_zero_baseline_is_undefined() {
    assert!(percent_change(v(5), v(0)).is_none());
    let series = interpolate(&vec![Some(v(0)), Some(v(1))]);
    assert!(to_graph_points(GraphKind::PercentRelative, &series).is_none());
    assert!(to_graph_points(GraphKind::PercentFromFirst, &series).is_none());
}

#[test]
fn summary_normalization_divides_by_baseline() {
    let averaged = interpolate(&vec![Some(v(2)), Some(v(4)), Some(v(6))]);
    let normalized = normalize_series(&averaged, v(2)).unwrap();
    assert!(normalized.values[0].equals_int(1));
    assert!(normalized.values[1].equals_int(2));
    assert!(normalized.values[2].equals_int(3));
    assert!(normalize_series(&averaged, v(0)).is_none());
}

#[test]
fn value_arithmetic_is_exact() {
    let half = ratio(v(1), v(2)).unwrap();
    let third = ratio(v(1), v(3)).unwrap();
    let sum = add_values(half, third).unwrap();
    // 1/2 + 1/3 == 5/6
    assert!(value_eq(sum, Value { num: 5, den: 6 }));
    let m = mean(&vec![v(2), v(4), v(6)]).unwrap();
    assert!(m.equals_int(4));
    assert!(ratio(v(1), v(0)).is_none());
}

#[test]
fn average_series_is_pointwise_mean() {
    let a = interpolate(&vec![Some(v(2)), Some(v(10))]);
    let b = interpolate(&vec![Some(v(4)), None]);
    let avg = average_series(&vec![a, b], 2).unwrap();
    assert!(avg.values[0].equals_int(3));
    assert!(avg.values[1].equals_int(7));
    assert!(!avg.interpolated[0]);
    assert!(avg.interpolated[1]);
}

#[test]
fn build_line_artifact_with_bin_kind_is_run() {
    let line = "{\"reason\":\"compiler-artifact\",\"package_id\":\"pkg 0.1.0\",\"target\":{\"name\":\"bench\",\"kind\":[\"bin\"],\"src_path\":\"/s/main.rs\"},\"profile\":{\"opt_level\":\"3\",\"debug_assertions\":false,\"overflow_checks\":false,\"test\":false},\"features\":[],\"filenames\":[\"/t/bench\"],\"executable\":\"/t/bench\",\"fresh\":false}";
    match process_build_line(line) {
        EventAction::RunBinary(path) => assert_eq!(path, "/t/bench"),
        other => panic!("expected a runnable binary, got {:?}", other),
    }
}

#[test]
fn build_line_library_artifact_is_ignored() {
    let line = "{\"reason\":\"compiler-artifact\",\"package_id\":\"pkg 0.1.0\",\"target\":{\"name\":\"lib\",\"kind\":[\"lib\"],\"src_path\":\"/s/lib.rs\"},\"profile\":{\"opt_level\":\"3\",\"debug_assertions\":false,\"overflow_checks\":false,\"test\":false},\"features\":[],\"filenames\":[\"/t/lib.rlib\"],\"executable\":null,\"fresh\":false}";
    assert!(matches!(process_build_line(line), EventAction::Ignore));
}

#[test]
fn build_line_free_text_is_echoed() {
    match process_build_line("Compiling foo v0.1.0") {
        EventAction::EchoLine(l) => assert_eq!(l, "Compiling foo v0.1.0"),
        other => panic!("expected an echo, got {:?}", other),
    }
}

#[test]
fn build_line_diagnostic_prefers_rendered() {
    let line = "{\"reason\":\"compiler-message\",\"package_id\":\"pkg 0.1.0\",\"target\":{\"name\":\"bench\",\"kind\":[\"bin\"],\"src_path\":\"/s/main.rs\"},\"message\":{\"message\":\"plain\",\"code\":null,\"level\":\"warning\",\"spans\":[],\"children\":[],\"rendered\":\"rendered text\"}}";
    match process_build_line(line) {
        EventAction::PrintDiagnostic(t) => assert_eq!(t, "rendered text"),
        other => panic!("expected a diagnostic, got {:?}", other),
    }
}

#[test]
fn collector_decodes_benchmark_lists() {
    let mut c = GroupCollector::new();
    c.add_group("b/one".to_string(), b"[\"a\",\"b\"]").unwrap();
    assert_eq!(c.groups.len(), 1);
    assert_eq!(c.groups[0].benchmark_names, vec!["a".to_string(), "b".to_string()]);
    let err = c.add_group("b/two".to_string(), b"not json").unwrap_err();
    match err {
        DiscoveryError::BenchmarkListDecode { binary } => assert_eq!(binary, "b/two"),
        other => panic!("unexpected error {:?}", other),
    }
    assert_eq!(c.groups.len(), 1);
}

#[test]
fn build_exit_nonzero_is_fatal_with_code() {
    assert!(build_exit_result(&"c1".to_string(), true, 0).is_ok());
    match build_exit_result(&"c1".to_string(), false, 101).unwrap_err() {
        DiscoveryError::BuildFailed { crate_name, code } => {
            assert_eq!(crate_name, "c1");
            assert_eq!(code, 101);
        }
        other => panic!("unexpected error {:?}", other),
    }
}

#[test]
fn crates_are_processed_in_name_order() {
    let crates = vec![
        CrateEntry { name: "zeta".to_string(), path: "p/zeta".to_string() },
        CrateEntry { name: "alpha".to_string(), path: "p/alpha".to_string() },
        CrateEntry { name: "mid".to_string(), path: "p/mid".to_string() },
    ];
    let sorted = sort_crates(crates);
    let names: Vec<&str> = sorted.iter().map(|c| c.name.as_str()).collect();
    assert_eq!(names, vec!["alpha", "mid", "zeta"]);
}

#[test]
fn discovery_end_to_end_sorts_groups_and_counts() {
    let mut c = GroupCollector::new();
    c.add_group("dir/zeta".to_string(), b"[\"a\",\"b\",\"c\"]").unwrap();
    c.add_group("dir/alpha".to_string(), b"[\"d\",\"e\",\"f\",\"g\",\"h\"]").unwrap();
    let suite = into_suite(c);
    assert_eq!(suite.groups.len(), 2);
    assert_eq!(suite.groups[0].binary, "dir/alpha");
    assert_eq!(suite.groups[1].binary, "dir/zeta");
    assert_eq!(suite.total_benchmark_count(), 8);
}

#[test]
fn query_missing_tag_is_a_caller_error() {
    let store = StoreData { commits: vec![], rows: vec![], summary_scenarios: vec![] };
    let q = Query::new().set_benchmark(Selector::All);
    match resolve_and_fetch(&q, &store) {
        Err(QueryError::MissingTag(Tag::Profile)) => {}
        other => panic!("unexpected {:?}", other),
    }
}

#[test]
fn resolution_takes_the_cross_product() {
    let stat = "instructions:u";
    let store = StoreData {
        commits: vec![commit("c1", 10)],
        rows: vec![
            row("x", Profile::Check, Scenario::Empty, stat, vec![Some(v(1))]),
            row("y", Profile::Opt, Scenario::IncrFull, stat, vec![Some(v(2))]),
        ],
        summary_scenarios: vec![],
    };
    let q = Query::new()
        .set_benchmark(Selector::All)
        .set_profile(Selector::All)
        .set_scenario(Selector::All)
        .set_metric(Selector::One(stat.to_string()));
    let list = resolve_and_fetch(&q, &store).unwrap();
    // 2 benchmarks x 2 profiles x 2 scenarios x 1 metric
    assert_eq!(list.len(), 8);
    let hit = list
        .iter()
        .find(|sr| {
            sr.path.get_benchmark().unwrap().as_str() == "x"
                && sr.path.get_profile().unwrap() == Profile::Check
                && sr.path.get_scenario().unwrap() == Scenario::Empty
        })
        .unwrap();
    assert!(hit.points[0].unwrap().equals_int(1));
    let miss = list
        .iter()
        .find(|sr| {
            sr.path.get_benchmark().unwrap().as_str() == "y"
                && sr.path.get_profile().unwrap() == Profile::Check
        })
        .unwrap();
    assert!(miss.points[0].is_none());
}

fn commit(sha: &str, ts: i64) -> ArtifactId {
    ArtifactId::Commit { sha: sha.to_string(), timestamp: ts }
}

fn summary_store() -> StoreData {
    let stat = "instructions:u";
    let mut rows = Vec::new();
    for p in [Profile::Check, Profile::Debug, Profile::Opt] {
        rows.push(row("x", p, Scenario::Empty, stat, vec![Some(v(2)), Some(v(2))]));
        rows.push(row("x", p, Scenario::IncrFull, stat, vec![Some(v(4)), Some(v(6))]));
    }
    StoreData {
        commits: vec![commit("aaa", 100), commit("bbb", 200)],
        rows,
        summary_scenarios: vec![Scenario::IncrFull],
    }
}

fn default_request() -> GraphRequest {
    GraphRequest {
        start: Bound::Unbounded,
        end: Bound::Unbounded,
        stat: "instructions:u".to_string(),
        kind: GraphKind::Raw,
    }
}

#[test]
fn default_query_is_recognized_structurally() {
    assert!(is_default_query(&default_request()));
    let mut r = default_request();
    r.kind = GraphKind::PercentRelative;
    assert!(!is_default_query(&r));
    let mut r2 = default_request();
    r2.stat = "walltime".to_string();
    assert!(!is_default_query(&r2));
    let mut r3 = default_request();
    r3.start = Bound::Commit("abc".to_string());
    assert!(!is_default_query(&r3));
}

#[test]
fn graph_response_serves_commits_series_and_summary() {
    let store = summary_store();
    let mut cache = LandingPageCache::new();
    let resp = handle_graph(&default_request(), &store, &mut cache).unwrap();
    assert_eq!(resp.commits.len(), 2);
    assert_eq!(resp.commits[0], (100, "aaa".to_string()));
    assert_eq!(resp.commits[1], (200, "bbb".to_string()));
    // main: 1 benchmark x 3 profiles x 2 scenarios; summary: 1 scenario x 3 profiles
    assert_eq!(resp.series.len(), 9);
    let main = resp
        .series
        .iter()
        .find(|e| e.benchmark == "x" && e.profile == Profile::Check && e.scenario == Scenario::IncrFull)
        .unwrap();
    assert!(main.points[0].value.equals_int(4));
    assert!(main.points[1].value.equals_int(6));
    let summary = resp
        .series
        .iter()
        .find(|e| e.benchmark == "Summary" && e.profile == Profile::Check)
        .unwrap();
    assert_eq!(summary.scenario, Scenario::IncrFull);
    // baseline 2, averaged series [4, 6] -> ratios [2, 3]
    assert!(summary.points[0].value.equals_int(2));
    assert!(summary.points[1].value.equals_int(3));
}

#[test]
fn landing_page_cache_avoids_recomputation() {
    let store = summary_store();
    let mut cache = LandingPageCache::new();
    assert!(cache.lookup().is_none());
    let first = handle_graph(&default_request(), &store, &mut cache).unwrap();
    assert!(cache.lookup().is_some());
    // A second canonical request is served from the cache: even with the
    // store emptied, the response is identical to the first one.
    let gutted = StoreData { commits: vec![], rows: vec![], summary_scenarios: vec![] };
    let second = handle_graph(&default_request(), &gutted, &mut cache).unwrap();
    assert_eq!(first.commits, second.commits);
    assert_eq!(first.series.len(), second.series.len());
    for (a, b) in first.series.iter().zip(second.series.iter()) {
        assert_eq!(a.benchmark, b.benchmark);
        assert_eq!(a.profile, b.profile);
        assert_eq!(a.scenario, b.scenario);
        assert_eq!(a.points.len(), b.points.len());
        for (pa, pb) in a.points.iter().zip(b.points.iter()) {
            assert!(value_eq(pa.value, pb.value));
            assert_eq!(pa.is_interpolated, pb.is_interpolated);
        }
    }
}

#[test]
fn non_canonical_queries_never_touch_the_cache() {
    let store = summary_store();
    let mut cache = LandingPageCache::new();
    let mut req = default_request();
    req.kind = GraphKind::PercentRelative;
    handle_graph(&req, &store, &mut cache).unwrap();
    assert!(cache.lookup().is_none());
}

#[test]
fn leading_gap_is_an_explicit_error() {
    let stat = "instructions:u";
    let store = StoreData {
        commits: vec![commit("aaa", 1), commit("bbb", 2)],
        rows: vec![row("x", Profile::Check, Scenario::Empty, stat, vec![None, Some(v(1))])],
        summary_scenarios: vec![],
    };
    let mut cache = LandingPageCache::new();
    assert!(handle_graph(&default_request(), &store, &mut cache).is_err());
    assert!(cache.lookup().is_none());
}
