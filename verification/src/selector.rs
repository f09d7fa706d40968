use vstd::prelude::*;
use crate::value::Value;

verus! {

/// One measured point in history: a commit, or a named release tag.
/// Tags are not orderable against commits and must never reach code
/// that assumes commit semantics.
#[derive(Debug)]
pub enum ArtifactId {
    Commit { sha: String, timestamp: i64 },
    Tag { name: String },
}

/// Compiler invocation mode.
#[derive(Clone, Copy, PartialEq, Eq, Structural, Debug)]
pub enum Profile {
    Check,
    Debug,
    Opt,
}

/// Compilation scenario; `Empty` is the distinguished baseline.
#[derive(Clone, Copy, PartialEq, Eq, Structural, Debug)]
pub enum Scenario {
    Empty,
    IncrFull,
    IncrUnchanged,
    IncrPatched,
}

/// One dimension of a query or path.
#[derive(Clone, Copy, PartialEq, Eq, Structural, Debug)]
pub enum Tag {
    Benchmark,
    Profile,
    Scenario,
    Metric,
}

/// Query-time specifier for one dimension: an exact value, or a
/// wildcard that expands to every value present in the store.
#[derive(Debug)]
pub enum Selector<T> {
    One(T),
    All,
}

/// A structured query error: a tag never set on a query is a caller
/// error, a component missing from a resolved path is an internal
/// invariant violation.
#[derive(Clone, Copy, PartialEq, Eq, Structural, Debug)]
pub enum QueryError {
    MissingTag(Tag),
    MissingComponent(Tag),
}

/// A multi-dimensional query: one selector per tag, built
/// incrementally; a tag never set is a caller error at resolution.
#[derive(Debug)]
pub struct Query {
    pub benchmark: Option<Selector<String>>,
    pub profile: Option<Selector<Profile>>,
    pub scenario: Option<Selector<Scenario>>,
    pub metric: Option<Selector<String>>,
}

impl Query {
    pub fn new() -> (r: Query)
        ensures
            r.benchmark is None,
            r.profile is None,
            r.scenario is None,
            r.metric is None,
    {
        Query { benchmark: None, profile: None, scenario: None, metric: None }
    }

    pub fn set_benchmark(self, sel: Selector<String>) -> (r: Query)
        ensures
            r.benchmark == Some(sel),
            r.profile == self.profile,
            r.scenario == self.scenario,
            r.metric == self.metric,
    {
        Query { benchmark: Some(sel), ..self }
    }

    pub fn set_profile(self, sel: Selector<Profile>) -> (r: Query)
        ensures
            r.profile == Some(sel),
            r.benchmark == self.benchmark,
            r.scenario == self.scenario,
            r.metric == self.metric,
    {
        Query { profile: Some(sel), ..self }
    }

    pub fn set_scenario(self, sel: Selector<Scenario>) -> (r: Query)
        ensures
            r.scenario == Some(sel),
            r.benchmark == self.benchmark,
            r.profile == self.profile,
            r.metric == self.metric,
    {
        Query { scenario: Some(sel), ..self }
    }

    pub fn set_metric(self, sel: Selector<String>) -> (r: Query)
        ensures
            r.metric == Some(sel),
            r.benchmark == self.benchmark,
            r.profile == self.profile,
            r.scenario == self.scenario,
    {
        Query { metric: Some(sel), ..self }
    }
}

/// A fully concrete coordinate: one value per tag.  Accessors report a
/// missing component as a structured error.
#[derive(Debug)]
pub struct Path {
    pub benchmark: Option<String>,
    pub profile: Option<Profile>,
    pub scenario: Option<Scenario>,
    pub metric: Option<String>,
}

impl Path {
    /// Every tag holds a value, as resolution guarantees.
    pub open spec fn is_complete(self) -> bool {
        &&& self.benchmark is Some
        &&& self.profile is Some
        &&& self.scenario is Some
        &&& self.metric is Some
    }

    pub open spec fn bench_view(self) -> Seq<char>
        recommends
            self.benchmark is Some,
    {
        self.benchmark.unwrap()@
    }

    pub open spec fn prof(self) -> Profile
        recommends
            self.profile is Some,
    {
        self.profile.unwrap()
    }

    pub open spec fn scen(self) -> Scenario
        recommends
            self.scenario is Some,
    {
        self.scenario.unwrap()
    }

    pub open spec fn metric_view(self) -> Seq<char>
        recommends
            self.metric is Some,
    {
        self.metric.unwrap()@
    }

    pub fn get_benchmark(&self) -> (r: Result<&String, QueryError>)
        ensures
            r matches Ok(s) ==> self.benchmark == Some(*s),
            r is Err <==> self.benchmark is None,
            r matches Err(e) ==> e == QueryError::MissingComponent(Tag::Benchmark),
    {
        match &self.benchmark {
            Some(s) => Ok(s),
            None => Err(QueryError::MissingComponent(Tag::Benchmark)),
        }
    }

    pub fn get_profile(&self) -> (r: Result<Profile, QueryError>)
        ensures
            r matches Ok(p) ==> self.profile == Some(p),
            r is Err <==> self.profile is None,
            r matches Err(e) ==> e == QueryError::MissingComponent(Tag::Profile),
    {
        match self.profile {
            Some(p) => Ok(p),
            None => Err(QueryError::MissingComponent(Tag::Profile)),
        }
    }

    pub fn get_scenario(&self) -> (r: Result<Scenario, QueryError>)
        ensures
            r matches Ok(s) ==> self.scenario == Some(s),
            r is Err <==> self.scenario is None,
            r matches Err(e) ==> e == QueryError::MissingComponent(Tag::Scenario),
    {
        match self.scenario {
            Some(s) => Ok(s),
            None => Err(QueryError::MissingComponent(Tag::Scenario)),
        }
    }

    pub fn get_metric(&self) -> (r: Result<&String, QueryError>)
        ensures
            r matches Ok(s) ==> self.metric == Some(*s),
            r is Err <==> self.metric is None,
            r matches Err(e) ==> e == QueryError::MissingComponent(Tag::Metric),
    {
        match &self.metric {
            Some(s) => Ok(s),
            None => Err(QueryError::MissingComponent(Tag::Metric)),
        }
    }
}

/// One concrete series held by the external store: a coordinate and
/// one optional measurement per commit of the requested range.
#[derive(Debug)]
pub struct StoreRow {
    pub benchmark: String,
    pub profile: Profile,
    pub scenario: Scenario,
    pub metric: String,
    pub points: Vec<Option<Value>>,
}

/// The slice of the external store that one request works over: the
/// ordered commit range, the concrete series present in it, and the
/// configured summary scenarios.
#[derive(Debug)]
pub struct StoreData {
    pub commits: Vec<ArtifactId>,
    pub rows: Vec<StoreRow>,
    pub summary_scenarios: Vec<Scenario>,
}

impl StoreData {
    pub open spec fn wf(self) -> bool {
        &&& forall|k: int| 0 <= k < self.rows@.len()
            ==> (#[trigger] self.rows@[k]).points@.len() == self.commits@.len()
        &&& forall|k: int, i: int|
            0 <= k < self.rows@.len() && 0 <= i < self.rows@[k].points@.len()
                && (#[trigger] self.rows@[k].points@[i]) is Some
                ==> self.rows@[k].points@[i].unwrap().wf()
    }
}

/// Whether a store row sits at the given concrete coordinate.
pub open spec fn row_matches(
    row: StoreRow,
    b: Seq<char>,
    p: Profile,
    s: Scenario,
    m: Seq<char>,
) -> bool {
    row.benchmark@ == b && row.profile == p && row.scenario == s && row.metric@ == m
}

pub open spec fn bench_present(rows: Seq<StoreRow>, b: Seq<char>) -> bool {
    exists|k: int| 0 <= k < rows.len() && (#[trigger] rows[k]).benchmark@ == b
}

pub open spec fn profile_present(rows: Seq<StoreRow>, p: Profile) -> bool {
    exists|k: int| 0 <= k < rows.len() && (#[trigger] rows[k]).profile == p
}

pub open spec fn scenario_present(rows: Seq<StoreRow>, s: Scenario) -> bool {
    exists|k: int| 0 <= k < rows.len() && (#[trigger] rows[k]).scenario == s
}

pub open spec fn metric_present(rows: Seq<StoreRow>, m: Seq<char>) -> bool {
    exists|k: int| 0 <= k < rows.len() && (#[trigger] rows[k]).metric@ == m
}

/// Whether the concrete coordinate `(b, p, s, m)` is selected by the
/// query: an exact selector fixes the value, a wildcard admits every
/// value present in the store, an unset tag admits nothing.
pub open spec fn query_matches(
    q: Query,
    rows: Seq<StoreRow>,
    b: Seq<char>,
    p: Profile,
    s: Scenario,
    m: Seq<char>,
) -> bool {
    &&& match q.benchmark {
        Some(Selector::One(x)) => x@ == b,
        Some(Selector::All) => bench_present(rows, b),
        None => false,
    }
    &&& match q.profile {
        Some(Selector::One(x)) => x == p,
        Some(Selector::All) => profile_present(rows, p),
        None => false,
    }
    &&& match q.scenario {
        Some(Selector::One(x)) => x == s,
        Some(Selector::All) => scenario_present(rows, s),
        None => false,
    }
    &&& match q.metric {
        Some(Selector::One(x)) => x@ == m,
        Some(Selector::All) => metric_present(rows, m),
        None => false,
    }
}

/// First store row at the coordinate, if any.
pub open spec fn spec_lookup_row(
    rows: Seq<StoreRow>,
    b: Seq<char>,
    p: Profile,
    s: Scenario,
    m: Seq<char>,
) -> Option<StoreRow>
    decreases rows.len(),
{
    if rows.len() == 0 {
        None
    } else if row_matches(rows[0], b, p, s, m) {
        Some(rows[0])
    } else {
        spec_lookup_row(rows.drop_first(), b, p, s, m)
    }
}

/// The series the store supplies at a coordinate: the stored row's
/// points, or one absent measurement per commit when nothing was ever
/// recorded there.
pub open spec fn spec_store_points(
    store: StoreData,
    b: Seq<char>,
    p: Profile,
    s: Scenario,
    m: Seq<char>,
) -> Seq<Option<Value>> {
    match spec_lookup_row(store.rows@, b, p, s, m) {
        Some(row) => row.points@,
        None => Seq::new(store.commits@.len(), |i: int| None),
    }
}

proof fn lemma_lookup_at(rows: Seq<StoreRow>, b: Seq<char>, p: Profile, s: Scenario, m: Seq<char>, k: int)
    requires
        0 <= k < rows.len(),
        forall|k2: int| 0 <= k2 < k ==> !row_matches(#[trigger] rows[k2], b, p, s, m),
        row_matches(rows[k], b, p, s, m),
    ensures
        spec_lookup_row(rows, b, p, s, m) == Some(rows[k]),
    decreases k,
{
    if k > 0 {
        lemma_lookup_at(rows.drop_first(), b, p, s, m, k - 1);
    }
}

proof fn lemma_lookup_none(rows: Seq<StoreRow>, b: Seq<char>, p: Profile, s: Scenario, m: Seq<char>)
    requires
        forall|k: int| 0 <= k < rows.len() ==> !row_matches(#[trigger] rows[k], b, p, s, m),
    ensures
        spec_lookup_row(rows, b, p, s, m) is None,
    decreases rows.len(),
{
    if rows.len() > 0 {
        lemma_lookup_none(rows.drop_first(), b, p, s, m);
    }
}

/// A successful lookup yields one of the store's rows.
pub proof fn lemma_lookup_row_member(rows: Seq<StoreRow>, b: Seq<char>, p: Profile, s: Scenario, m: Seq<char>)
    requires
        spec_lookup_row(rows, b, p, s, m) is Some,
    ensures
        exists|k: int| 0 <= k < rows.len() && spec_lookup_row(rows, b, p, s, m) == Some(
            #[trigger] rows[k]),
    decreases rows.len(),
{
    if rows.len() > 0 && !row_matches(rows[0], b, p, s, m) {
        lemma_lookup_row_member(rows.drop_first(), b, p, s, m);
        let k0 = choose|k0: int|
            0 <= k0 < rows.drop_first().len() && spec_lookup_row(rows.drop_first(), b, p, s, m)
                == Some(#[trigger] rows.drop_first()[k0]);
        assert(rows.drop_first()[k0] == rows[k0 + 1]);
    }
}

/// What the store supplies at any coordinate is one measurement per
/// commit, each well formed.
pub proof fn lemma_store_points_wf(store: StoreData, b: Seq<char>, p: Profile, s: Scenario, m: Seq<char>)
    requires
        store.wf(),
    ensures
        spec_store_points(store, b, p, s, m).len() == store.commits@.len(),
        forall|i: int|
            0 <= i < store.commits@.len() && (#[trigger] spec_store_points(store, b, p, s, m)[i])
                is Some ==> spec_store_points(store, b, p, s, m)[i].unwrap().wf(),
{
    if spec_lookup_row(store.rows@, b, p, s, m) is Some {
        lemma_lookup_row_member(store.rows@, b, p, s, m);
    }
}

/// Fetch the series at a concrete coordinate, copying it out of the store.
#[verifier::loop_isolation(false)]
pub(crate) fn store_points(
    store: &StoreData,
    b: &String,
    p: Profile,
    s: Scenario,
    m: &String,
) -> (r: Vec<Option<Value>>)
    requires
        store.wf(),
    ensures
        r@ == spec_store_points(*store, b@, p, s, m@),
        r@.len() == store.commits@.len(),
        forall|i: int| 0 <= i < r@.len() && (#[trigger] r@[i]) is Some ==> r@[i].unwrap().wf(),
{
    let mut k: usize = 0;
    while k < store.rows.len()
        invariant
            0 <= k <= store.rows@.len(),
            forall|k2: int| 0 <= k2 < k ==> !row_matches(#[trigger] store.rows@[k2], b@, p, s, m@),
        decreases store.rows@.len() - k,
    {
        let row = &store.rows[k];
        if row.benchmark.eq(b) && row.profile == p && row.scenario == s && row.metric.eq(m) {
            proof {
                lemma_lookup_at(store.rows@, b@, p, s, m@, k as int);
            }
            let mut out: Vec<Option<Value>> = Vec::new();
            let mut i: usize = 0;
            while i < row.points.len()
                invariant
                    0 <= i <= row.points@.len(),
                    out@ =~= row.points@.subrange(0, i as int),
                decreases row.points@.len() - i,
            {
                out.push(row.points[i]);
                i += 1;
            }
            proof {
                assert(out@ =~= row.points@);
            }
            return out;
        }
        k += 1;
    }
    proof {
        lemma_lookup_none(store.rows@, b@, p, s, m@);
    }
    let mut out: Vec<Option<Value>> = Vec::new();
    let mut i: usize = 0;
    while i < store.commits.len()
        invariant
            0 <= i <= store.commits@.len(),
            out@ =~= Seq::new(i as nat, |x: int| None::<Value>),
        decreases store.commits@.len() - i,
    {
        out.push(None);
        i += 1;
    }
    proof {
        assert(out@ =~= Seq::new(store.commits@.len(), |x: int| None::<Value>));
    }
    out
}

fn contains_str(v: &Vec<String>, s: &String) -> (r: bool)
    ensures
        r == exists|t: int| 0 <= t < v@.len() && (#[trigger] v@[t])@ == s@,
{
    let mut t: usize = 0;
    while t < v.len()
        invariant
            0 <= t <= v@.len(),
            forall|t2: int| 0 <= t2 < t ==> (#[trigger] v@[t2])@ != s@,
        decreases v@.len() - t,
    {
        if v[t].eq(s) {
            return true;
        }
        t += 1;
    }
    false
}

/// What a selector over benchmark names admits.
pub open spec fn sel_bench(sel: Selector<String>, rows: Seq<StoreRow>, b: Seq<char>) -> bool {
    match sel {
        Selector::One(x) => x@ == b,
        Selector::All => bench_present(rows, b),
    }
}

/// What a selector over metrics admits.
pub open spec fn sel_metric(sel: Selector<String>, rows: Seq<StoreRow>, m: Seq<char>) -> bool {
    match sel {
        Selector::One(x) => x@ == m,
        Selector::All => metric_present(rows, m),
    }
}

/// Expand a benchmark selector to the concrete names it admits,
/// without duplicates.
#[verifier::loop_isolation(false)]
fn expand_benchmarks(sel: &Selector<String>, store: &StoreData) -> (r: Vec<String>)
    ensures
        forall|t: int| 0 <= t < r@.len() ==> sel_bench(*sel, store.rows@, (#[trigger] r@[t])@),
        forall|b: Seq<char>| sel_bench(*sel, store.rows@, b)
            ==> exists|t: int| 0 <= t < r@.len() && (#[trigger] r@[t])@ == b,
        forall|t1: int, t2: int| 0 <= t1 < t2 < r@.len() ==> (#[trigger] r@[t1])@ != (#[trigger] r@[t2])@,
{
    match sel {
        Selector::One(x) => {
            let mut r: Vec<String> = Vec::new();
            r.push(x.clone());
            proof {
                assert(r@[0]@ == x@);
            }
            r
        }
        Selector::All => {
            let mut r: Vec<String> = Vec::new();
            let mut k: usize = 0;
            while k < store.rows.len()
                invariant
                    0 <= k <= store.rows@.len(),
                    forall|t: int| 0 <= t < r@.len()
                        ==> bench_present(store.rows@, (#[trigger] r@[t])@),
                    forall|k2: int| 0 <= k2 < k ==> exists|t: int|
                        0 <= t < r@.len() && (#[trigger] r@[t])@ == (#[trigger] store.rows@[k2]).benchmark@,
                    forall|t1: int, t2: int| 0 <= t1 < t2 < r@.len()
                        ==> (#[trigger] r@[t1])@ != (#[trigger] r@[t2])@,
                decreases store.rows@.len() - k,
            {
                let present = contains_str(&r, &store.rows[k].benchmark);
                let ghost old_r = r@;
                if !present {
                    r.push(store.rows[k].benchmark.clone());
                    proof {
                        assert(r@[old_r.len() as int]@ == store.rows@[k as int].benchmark@);
                    }
                }
                proof {
                    assert forall|k2: int| 0 <= k2 < k + 1 implies exists|t: int|
                        0 <= t < r@.len() && (#[trigger] r@[t])@
                            == (#[trigger] store.rows@[k2]).benchmark@ by {
                        if k2 < k {
                            let t = choose|t: int|
                                0 <= t < old_r.len() && (#[trigger] old_r[t])@
                                    == store.rows@[k2].benchmark@;
                            assert(r@[t]@ == store.rows@[k2].benchmark@);
                        } else if present {
                            let t = choose|t: int|
                                0 <= t < old_r.len() && (#[trigger] old_r[t])@
                                    == store.rows@[k as int].benchmark@;
                            assert(r@[t]@ == store.rows@[k2].benchmark@);
                        } else {
                            assert(r@[old_r.len() as int]@ == store.rows@[k2].benchmark@);
                        }
                    }
                }
                k += 1;
            }
            proof {
                assert forall|b: Seq<char>| sel_bench(*sel, store.rows@, b) implies exists|t: int|
                    0 <= t < r@.len() && (#[trigger] r@[t])@ == b by {
                    let k2 = choose|k2: int|
                        0 <= k2 < store.rows@.len() && (#[trigger] store.rows@[k2]).benchmark@ == b;
                    assert(0 <= k2 < store.rows@.len());
                }
            }
            r
        }
    }
}

/// Expand a metric selector to the concrete metrics it admits, without
/// duplicates.
#[verifier::loop_isolation(false)]
fn expand_metrics(sel: &Selector<String>, store: &StoreData) -> (r: Vec<String>)
    ensures
        forall|t: int| 0 <= t < r@.len() ==> sel_metric(*sel, store.rows@, (#[trigger] r@[t])@),
        forall|m: Seq<char>| sel_metric(*sel, store.rows@, m)
            ==> exists|t: int| 0 <= t < r@.len() && (#[trigger] r@[t])@ == m,
        forall|t1: int, t2: int| 0 <= t1 < t2 < r@.len() ==> (#[trigger] r@[t1])@ != (#[trigger] r@[t2])@,
{
    match sel {
        Selector::One(x) => {
            let mut r: Vec<String> = Vec::new();
            r.push(x.clone());
            proof {
                assert(r@[0]@ == x@);
            }
            r
        }
        Selector::All => {
            let mut r: Vec<String> = Vec::new();
            let mut k: usize = 0;
            while k < store.rows.len()
                invariant
                    0 <= k <= store.rows@.len(),
                    forall|t: int| 0 <= t < r@.len()
                        ==> metric_present(store.rows@, (#[trigger] r@[t])@),
                    forall|k2: int| 0 <= k2 < k ==> exists|t: int|
                        0 <= t < r@.len() && (#[trigger] r@[t])@ == (#[trigger] store.rows@[k2]).metric@,
                    forall|t1: int, t2: int| 0 <= t1 < t2 < r@.len()
                        ==> (#[trigger] r@[t1])@ != (#[trigger] r@[t2])@,
                decreases store.rows@.len() - k,
            {
                let present = contains_str(&r, &store.rows[k].metric);
                let ghost old_r = r@;
                if !present {
                    r.push(store.rows[k].metric.clone());
                    proof {
                        assert(r@[old_r.len() as int]@ == store.rows@[k as int].metric@);
                    }
                }
                proof {
                    assert forall|k2: int| 0 <= k2 < k + 1 implies exists|t: int|
                        0 <= t < r@.len() && (#[trigger] r@[t])@
                            == (#[trigger] store.rows@[k2]).metric@ by {
                        if k2 < k {
                            let t = choose|t: int|
                                0 <= t < old_r.len() && (#[trigger] old_r[t])@
                                    == store.rows@[k2].metric@;
                            assert(r@[t]@ == store.rows@[k2].metric@);
                        } else if present {
                            let t = choose|t: int|
                                0 <= t < old_r.len() && (#[trigger] old_r[t])@
                                    == store.rows@[k as int].metric@;
                            assert(r@[t]@ == store.rows@[k2].metric@);
                        } else {
                            assert(r@[old_r.len() as int]@ == store.rows@[k2].metric@);
                        }
                    }
                }
                k += 1;
            }
            proof {
                assert forall|m: Seq<char>| sel_metric(*sel, store.rows@, m) implies exists|t: int|
                    0 <= t < r@.len() && (#[trigger] r@[t])@ == m by {
                    let k2 = choose|k2: int|
                        0 <= k2 < store.rows@.len() && (#[trigger] store.rows@[k2]).metric@ == m;
                    assert(0 <= k2 < store.rows@.len());
                }
            }
            r
        }
    }
}

/// What a selector over profiles admits.
pub open spec fn sel_profile(sel: Selector<Profile>, rows: Seq<StoreRow>, p: Profile) -> bool {
    match sel {
        Selector::One(x) => x == p,
        Selector::All => profile_present(rows, p),
    }
}

/// What a selector over scenarios admits.
pub open spec fn sel_scenario(sel: Selector<Scenario>, rows: Seq<StoreRow>, s: Scenario) -> bool {
    match sel {
        Selector::One(x) => x == s,
        Selector::All => scenario_present(rows, s),
    }
}

fn contains_profile(v: &Vec<Profile>, p: Profile) -> (r: bool)
    ensures
        r == exists|t: int| 0 <= t < v@.len() && #[trigger] v@[t] == p,
{
    let mut t: usize = 0;
    while t < v.len()
        invariant
            0 <= t <= v@.len(),
            forall|t2: int| 0 <= t2 < t ==> #[trigger] v@[t2] != p,
        decreases v@.len() - t,
    {
        if v[t] == p {
            return true;
        }
        t += 1;
    }
    false
}

fn contains_scenario(v: &Vec<Scenario>, s: Scenario) -> (r: bool)
    ensures
        r == exists|t: int| 0 <= t < v@.len() && #[trigger] v@[t] == s,
{
    let mut t: usize = 0;
    while t < v.len()
        invariant
            0 <= t <= v@.len(),
            forall|t2: int| 0 <= t2 < t ==> #[trigger] v@[t2] != s,
        decreases v@.len() - t,
    {
        if v[t] == s {
            return true;
        }
        t += 1;
    }
    false
}

/// Expand a profile selector, without duplicates.
#[verifier::loop_isolation(false)]
fn expand_profiles(sel: &Selector<Profile>, store: &StoreData) -> (r: Vec<Profile>)
    ensures
        forall|t: int| 0 <= t < r@.len() ==> sel_profile(*sel, store.rows@, #[trigger] r@[t]),
        forall|p: Profile| sel_profile(*sel, store.rows@, p)
            ==> exists|t: int| 0 <= t < r@.len() && #[trigger] r@[t] == p,
        forall|t1: int, t2: int| 0 <= t1 < t2 < r@.len() ==> r@[t1] != r@[t2],
{
    match sel {
        Selector::One(x) => {
            let mut r: Vec<Profile> = Vec::new();
            r.push(*x);
            proof {
                assert(r@[0] == *x);
            }
            r
        }
        Selector::All => {
            let mut r: Vec<Profile> = Vec::new();
            let mut k: usize = 0;
            while k < store.rows.len()
                invariant
                    0 <= k <= store.rows@.len(),
                    forall|t: int| 0 <= t < r@.len()
                        ==> profile_present(store.rows@, #[trigger] r@[t]),
                    forall|k2: int| 0 <= k2 < k ==> exists|t: int|
                        0 <= t < r@.len() && #[trigger] r@[t] == (#[trigger] store.rows@[k2]).profile,
                    forall|t1: int, t2: int| 0 <= t1 < t2 < r@.len() ==> r@[t1] != r@[t2],
                decreases store.rows@.len() - k,
            {
                let present = contains_profile(&r, store.rows[k].profile);
                let ghost old_r = r@;
                if !present {
                    r.push(store.rows[k].profile);
                    proof {
                        assert(r@[old_r.len() as int] == store.rows@[k as int].profile);
                    }
                }
                proof {
                    assert forall|k2: int| 0 <= k2 < k + 1 implies exists|t: int|
                        0 <= t < r@.len() && #[trigger] r@[t]
                            == (#[trigger] store.rows@[k2]).profile by {
                        if k2 < k {
                            let t = choose|t: int|
                                0 <= t < old_r.len() && #[trigger] old_r[t]
                                    == store.rows@[k2].profile;
                            assert(r@[t] == store.rows@[k2].profile);
                        } else if present {
                            let t = choose|t: int|
                                0 <= t < old_r.len() && #[trigger] old_r[t]
                                    == store.rows@[k as int].profile;
                            assert(r@[t] == store.rows@[k2].profile);
                        } else {
                            assert(r@[old_r.len() as int] == store.rows@[k2].profile);
                        }
                    }
                }
                k += 1;
            }
            proof {
                assert forall|p: Profile| sel_profile(*sel, store.rows@, p) implies exists|t: int|
                    0 <= t < r@.len() && #[trigger] r@[t] == p by {
                    let k2 = choose|k2: int|
                        0 <= k2 < store.rows@.len() && (#[trigger] store.rows@[k2]).profile == p;
                    assert(0 <= k2 < store.rows@.len());
                }
            }
            r
        }
    }
}

/// Expand a scenario selector, without duplicates.
#[verifier::loop_isolation(false)]
fn expand_scenarios(sel: &Selector<Scenario>, store: &StoreData) -> (r: Vec<Scenario>)
    ensures
        forall|t: int| 0 <= t < r@.len() ==> sel_scenario(*sel, store.rows@, #[trigger] r@[t]),
        forall|s: Scenario| sel_scenario(*sel, store.rows@, s)
            ==> exists|t: int| 0 <= t < r@.len() && #[trigger] r@[t] == s,
        forall|t1: int, t2: int| 0 <= t1 < t2 < r@.len() ==> r@[t1] != r@[t2],
{
    match sel {
        Selector::One(x) => {
            let mut r: Vec<Scenario> = Vec::new();
            r.push(*x);
            proof {
                assert(r@[0] == *x);
            }
            r
        }
        Selector::All => {
            let mut r: Vec<Scenario> = Vec::new();
            let mut k: usize = 0;
            while k < store.rows.len()
                invariant
                    0 <= k <= store.rows@.len(),
                    forall|t: int| 0 <= t < r@.len()
                        ==> scenario_present(store.rows@, #[trigger] r@[t]),
                    forall|k2: int| 0 <= k2 < k ==> exists|t: int|
                        0 <= t < r@.len() && #[trigger] r@[t] == (#[trigger] store.rows@[k2]).scenario,
                    forall|t1: int, t2: int| 0 <= t1 < t2 < r@.len() ==> r@[t1] != r@[t2],
                decreases store.rows@.len() - k,
            {
                let present = contains_scenario(&r, store.rows[k].scenario);
                let ghost old_r = r@;
                if !present {
                    r.push(store.rows[k].scenario);
                    proof {
                        assert(r@[old_r.len() as int] == store.rows@[k as int].scenario);
                    }
                }
                proof {
                    assert forall|k2: int| 0 <= k2 < k + 1 implies exists|t: int|
                        0 <= t < r@.len() && #[trigger] r@[t]
                            == (#[trigger] store.rows@[k2]).scenario by {
                        if k2 < k {
                            let t = choose|t: int|
                                0 <= t < old_r.len() && #[trigger] old_r[t]
                                    == store.rows@[k2].scenario;
                            assert(r@[t] == store.rows@[k2].scenario);
                        } else if present {
                            let t = choose|t: int|
                                0 <= t < old_r.len() && #[trigger] old_r[t]
                                    == store.rows@[k as int].scenario;
                            assert(r@[t] == store.rows@[k2].scenario);
                        } else {
                            assert(r@[old_r.len() as int] == store.rows@[k2].scenario);
                        }
                    }
                }
                k += 1;
            }
            proof {
                assert forall|s: Scenario| sel_scenario(*sel, store.rows@, s) implies exists|t: int|
                    0 <= t < r@.len() && #[trigger] r@[t] == s by {
                    let k2 = choose|k2: int|
                        0 <= k2 < store.rows@.len() && (#[trigger] store.rows@[k2]).scenario == s;
                    assert(0 <= k2 < store.rows@.len());
                }
            }
            r
        }
    }
}


/// Flat position of the pair `(a, b)` in a row-major enumeration with
/// row length `nb`.
pub open spec fn pair_at(nb: int, a: int, b: int) -> int {
    a * nb + b
}

/// Flat position of the quadruple `(i, j, k, l)` in the nested
/// row-major enumeration of the cross product.
pub open spec fn quad_at(np: int, ns: int, nm: int, i: int, j: int, k: int, l: int) -> int {
    pair_at(nm, pair_at(ns, pair_at(np, i, j), k), l)
}

proof fn lemma_pair_bound(nb: int, a: int, b: int, ahi: int)
    by (nonlinear_arith)
    requires
        0 <= a < ahi,
        0 <= b < nb,
    ensures
        0 <= a * nb + b < ahi * nb,
{
}

/// Row-major enumeration of all index pairs `(a, b)` with `a < na`,
/// `b < nb`.
#[verifier::loop_isolation(false)]
fn cross2(na: usize, nb: usize) -> (r: Vec<(usize, usize)>)
    ensures
        r@.len() == na * nb,
        forall|a: int, b: int| 0 <= a < na && 0 <= b < nb
            ==> r@[#[trigger] pair_at(nb as int, a, b)] == (a as usize, b as usize),
        forall|n: int| 0 <= n < r@.len()
            ==> (#[trigger] r@[n]).0 < na && r@[n].1 < nb
                && n == pair_at(nb as int, r@[n].0 as int, r@[n].1 as int),
{
    let mut r: Vec<(usize, usize)> = Vec::new();
    let mut a: usize = 0;
    while a < na
        invariant
            0 <= a <= na,
            r@.len() == a * nb,
            forall|a2: int, b2: int| 0 <= a2 < a && 0 <= b2 < nb
                ==> r@[#[trigger] pair_at(nb as int, a2, b2)] == (a2 as usize, b2 as usize),
            forall|n: int| 0 <= n < r@.len()
                ==> (#[trigger] r@[n]).0 < na && r@[n].1 < nb
                    && n == pair_at(nb as int, r@[n].0 as int, r@[n].1 as int),
        decreases na - a,
    {
        let mut b: usize = 0;
        while b < nb
            invariant
                0 <= b <= nb,
                r@.len() == a * nb + b,
                forall|a2: int, b2: int| 0 <= a2 < a && 0 <= b2 < nb
                    ==> r@[#[trigger] pair_at(nb as int, a2, b2)] == (a2 as usize, b2 as usize),
                forall|b2: int| 0 <= b2 < b
                    ==> r@[#[trigger] pair_at(nb as int, a as int, b2)] == (a as usize, b2 as usize),
                forall|n: int| 0 <= n < r@.len()
                    ==> (#[trigger] r@[n]).0 < na && r@[n].1 < nb
                        && n == pair_at(nb as int, r@[n].0 as int, r@[n].1 as int),
            decreases nb - b,
        {
            r.push((a, b));
            proof {
                assert forall|a2: int, b2: int| 0 <= a2 < a && 0 <= b2 < nb implies
                    r@[#[trigger] pair_at(nb as int, a2, b2)] == (a2 as usize, b2 as usize) by {
                    lemma_pair_bound(nb as int, a2, b2, a as int);
                }
            }
            b += 1;
        }
        proof {
            assert(a * nb + nb == (a + 1) * nb) by (nonlinear_arith);
        }
        a += 1;
    }
    r
}

struct PathIdx {
    b: usize,
    p: usize,
    s: usize,
    m: usize,
}

/// Row-major enumeration of all index quadruples of the cross product.
#[verifier::loop_isolation(false)]
fn cross4(nb: usize, np: usize, ns: usize, nm: usize) -> (r: Vec<PathIdx>)
    ensures
        r@.len() == nb * np * ns * nm,
        forall|i: int, j: int, k: int, l: int|
            0 <= i < nb && 0 <= j < np && 0 <= k < ns && 0 <= l < nm
                ==> {
                    let e = r@[#[trigger] quad_at(np as int, ns as int, nm as int, i, j, k, l)];
                    e.b == i && e.p == j && e.s == k && e.m == l
                },
        forall|n: int| 0 <= n < r@.len()
            ==> (#[trigger] r@[n]).b < nb && r@[n].p < np && r@[n].s < ns && r@[n].m < nm
                && n == quad_at(np as int, ns as int, nm as int, r@[n].b as int, r@[n].p as int,
                    r@[n].s as int, r@[n].m as int),
{
    let xs = cross2(nb, np);
    let ys = cross2(xs.len(), ns);
    let zs = cross2(ys.len(), nm);
    let mut r: Vec<PathIdx> = Vec::new();
    let mut n: usize = 0;
    while n < zs.len()
        invariant
            0 <= n <= zs@.len(),
            r@.len() == n,
            forall|n2: int| 0 <= n2 < n ==> {
                let t2 = zs@[n2].0 as int;
                let t1 = ys@[t2].0 as int;
                (#[trigger] r@[n2]).b == xs@[t1].0 && r@[n2].p == xs@[t1].1
                    && r@[n2].s == ys@[t2].1 && r@[n2].m == zs@[n2].1
            },
        decreases zs@.len() - n,
    {
        let (t2, l) = zs[n];
        let (t1, k) = ys[t2];
        let (i, j) = xs[t1];
        r.push(PathIdx { b: i, p: j, s: k, m: l });
        n += 1;
    }
    proof {
        assert forall|i: int, j: int, k: int, l: int|
            0 <= i < nb && 0 <= j < np && 0 <= k < ns && 0 <= l < nm implies {
                let e = r@[#[trigger] quad_at(np as int, ns as int, nm as int, i, j, k, l)];
                e.b == i && e.p == j && e.s == k && e.m == l
            } by {
            lemma_pair_bound(np as int, i, j, nb as int);
            let t1 = pair_at(np as int, i, j);
            assert(xs@[t1] == (i as usize, j as usize));
            lemma_pair_bound(ns as int, t1, k, xs@.len() as int);
            let t2 = pair_at(ns as int, t1, k);
            assert(ys@[t2] == (t1 as usize, k as usize));
            lemma_pair_bound(nm as int, t2, l, ys@.len() as int);
            let n2 = pair_at(nm as int, t2, l);
            assert(zs@[n2] == (t2 as usize, l as usize));
        }
        assert forall|n2: int| 0 <= n2 < r@.len() implies
            (#[trigger] r@[n2]).b < nb && r@[n2].p < np && r@[n2].s < ns && r@[n2].m < nm
                && n2 == quad_at(np as int, ns as int, nm as int, r@[n2].b as int, r@[n2].p as int,
                    r@[n2].s as int, r@[n2].m as int) by {
            let t2 = zs@[n2].0 as int;
            let t1 = ys@[t2].0 as int;
            assert(n2 == pair_at(nm as int, t2, zs@[n2].1 as int));
            assert(t2 == pair_at(ns as int, t1, ys@[t2].1 as int));
            assert(t1 == pair_at(np as int, xs@[t1].0 as int, xs@[t1].1 as int));
        }
    }
    r
}

/// The response for one resolved path: the coordinate and the stored
/// series over the requested commit range, by commit index.
#[derive(Debug)]
pub struct SeriesResponse {
    pub path: Path,
    pub points: Vec<Option<Value>>,
}

impl SeriesResponse {
    /// The coordinate's views, for stating what a response holds.
    pub open spec fn at(self, b: Seq<char>, p: Profile, s: Scenario, m: Seq<char>) -> bool {
        &&& self.path.is_complete()
        &&& self.path.bench_view() == b
        &&& self.path.prof() == p
        &&& self.path.scen() == s
        &&& self.path.metric_view() == m
    }
}

/// Resolve a query against the store and fetch one series per
/// concrete path it admits.
///
/// Exactly the cross product of the per-tag expansions is returned:
/// every response's coordinate is admitted by the query, its points
/// are the store's series there, and every admitted coordinate has a
/// response.  A tag never set on the query is reported as the caller's
/// error, the first unset tag in benchmark, profile, scenario, metric
/// order.
#[verifier::loop_isolation(false)]
pub fn resolve_and_fetch(query: &Query, store: &StoreData) -> (r: Result<
    Vec<SeriesResponse>,
    QueryError,
>)
    requires
        store.wf(),
    ensures
        r is Err <==> (query.benchmark is None || query.profile is None || query.scenario is None
            || query.metric is None),
        r matches Err(e) ==> {
            ||| e == QueryError::MissingTag(Tag::Benchmark) && query.benchmark is None
            ||| e == QueryError::MissingTag(Tag::Profile) && query.profile is None
            ||| e == QueryError::MissingTag(Tag::Scenario) && query.scenario is None
            ||| e == QueryError::MissingTag(Tag::Metric) && query.metric is None
        },
        r matches Ok(list) ==> {
            &&& forall|n: int| 0 <= n < list@.len() ==> {
                let resp = #[trigger] list@[n];
                resp.path.is_complete() && query_matches(*query, store.rows@, resp.path.bench_view(),
                    resp.path.prof(), resp.path.scen(), resp.path.metric_view())
                    && resp.points@ == spec_store_points(*store, resp.path.bench_view(),
                        resp.path.prof(), resp.path.scen(), resp.path.metric_view())
            }
            &&& forall|b: Seq<char>, p: Profile, s: Scenario, m: Seq<char>|
                #[trigger] query_matches(*query, store.rows@, b, p, s, m)
                    ==> exists|n: int| 0 <= n < list@.len() && (#[trigger] list@[n]).at(b, p, s, m)
        },
{
    let qb = match &query.benchmark {
        Some(sel) => sel,
        None => {
            return Err(QueryError::MissingTag(Tag::Benchmark));
        }
    };
    let qp = match &query.profile {
        Some(sel) => sel,
        None => {
            return Err(QueryError::MissingTag(Tag::Profile));
        }
    };
    let qs = match &query.scenario {
        Some(sel) => sel,
        None => {
            return Err(QueryError::MissingTag(Tag::Scenario));
        }
    };
    let qm = match &query.metric {
        Some(sel) => sel,
        None => {
            return Err(QueryError::MissingTag(Tag::Metric));
        }
    };
    let bs = expand_benchmarks(qb, store);
    let ps = expand_profiles(qp, store);
    let ss = expand_scenarios(qs, store);
    let ms = expand_metrics(qm, store);
    let idxs = cross4(bs.len(), ps.len(), ss.len(), ms.len());
    let mut list: Vec<SeriesResponse> = Vec::new();
    let mut n: usize = 0;
    while n < idxs.len()
        invariant
            0 <= n <= idxs@.len(),
            list@.len() == n,
            forall|n2: int| 0 <= n2 < n ==> {
                let resp = #[trigger] list@[n2];
                let e = idxs@[n2];
                resp.at(bs@[e.b as int]@, ps@[e.p as int], ss@[e.s as int], ms@[e.m as int]@)
                    && resp.points@ == spec_store_points(*store, bs@[e.b as int]@, ps@[e.p as int],
                        ss@[e.s as int], ms@[e.m as int]@)
            },
        decreases idxs@.len() - n,
    {
        let b_idx = idxs[n].b;
        let p_idx = idxs[n].p;
        let s_idx = idxs[n].s;
        let m_idx = idxs[n].m;
        let points = store_points(store, &bs[b_idx], ps[p_idx], ss[s_idx], &ms[m_idx]);
        list.push(
            SeriesResponse {
                path: Path {
                    benchmark: Some(bs[b_idx].clone()),
                    profile: Some(ps[p_idx]),
                    scenario: Some(ss[s_idx]),
                    metric: Some(ms[m_idx].clone()),
                },
                points,
            },
        );
        n += 1;
    }
    proof {
        assert forall|b: Seq<char>, p: Profile, s: Scenario, m: Seq<char>|
            #[trigger] query_matches(*query, store.rows@, b, p, s, m) implies exists|n2: int|
            0 <= n2 < list@.len() && (#[trigger] list@[n2]).at(b, p, s, m) by {
            assert(sel_bench(*qb, store.rows@, b));
            assert(sel_profile(*qp, store.rows@, p));
            assert(sel_scenario(*qs, store.rows@, s));
            assert(sel_metric(*qm, store.rows@, m));
            let tb = choose|t: int| 0 <= t < bs@.len() && (#[trigger] bs@[t])@ == b;
            let tp = choose|t: int| 0 <= t < ps@.len() && #[trigger] ps@[t] == p;
            let ts = choose|t: int| 0 <= t < ss@.len() && #[trigger] ss@[t] == s;
            let tm = choose|t: int| 0 <= t < ms@.len() && (#[trigger] ms@[t])@ == m;
            let np = ps@.len() as int;
            let ns = ss@.len() as int;
            let nm = ms@.len() as int;
            lemma_pair_bound(np, tb, tp, bs@.len() as int);
            lemma_pair_bound(ns, pair_at(np, tb, tp), ts, bs@.len() * np);
            lemma_pair_bound(nm, pair_at(ns, pair_at(np, tb, tp), ts), tm, bs@.len() * np * ns);
            let n2 = quad_at(np, ns, nm, tb, tp, ts, tm);
            assert(0 <= n2 < idxs@.len());
            assert(list@[n2].at(b, p, s, m));
        }
    }
    Ok(list)
}

} // verus!
