use vstd::prelude::*;
use crate::strings::{is_substring, contains_substring, lex_le};

verus! {

/// Directory containing the runtime benchmark crates, relative to the
/// repository root.
pub fn runtime_benchmark_dir() -> (r: String)
    ensures
        r@ == "collector/runtime-benchmarks"@,
{
    "collector/runtime-benchmarks".to_owned()
}

/// A compiled benchmark binary and the benchmark names it reported.
#[derive(Debug)]
pub struct BenchmarkGroup {
    pub binary: String,
    pub benchmark_names: Vec<String>,
}

/// Whether the sequence holds a path separator.
pub open spec fn has_slash(s: Seq<char>) -> bool {
    exists|k: int| 0 <= k < s.len() && s[k] == '/'
}

/// The final path component: everything after the last separator, the
/// whole sequence when there is none.
pub open spec fn spec_base_name(s: Seq<char>) -> Seq<char>
    decreases s.len(),
{
    if !has_slash(s) {
        s
    } else {
        spec_base_name(s.drop_first())
    }
}

proof fn lemma_base_name_suffix(s: Seq<char>, start: int)
    requires
        0 <= start <= s.len(),
        start > 0 ==> s[start - 1] == '/',
        forall|k: int| start <= k < s.len() ==> s[k] != '/',
    ensures
        spec_base_name(s) == s.subrange(start, s.len() as int),
    decreases start,
{
    if start == 0 {
        assert(!has_slash(s));
        assert(s.subrange(0, s.len() as int) =~= s);
    } else {
        assert(has_slash(s));
        let s2 = s.drop_first();
        assert(s2 =~= s.subrange(1, s.len() as int));
        assert forall|k: int| start - 1 <= k < s2.len() implies s2[k] != '/' by {
            assert(s2[k] == s[k + 1]);
        }
        lemma_base_name_suffix(s2, start - 1);
        assert(s2.subrange(start - 1, s2.len() as int) =~= s.subrange(start, s.len() as int));
    }
}

impl BenchmarkGroup {
    /// The group's name: the file name of its binary.
    #[verifier::loop_isolation(false)]
    pub fn name(&self) -> (r: &str)
        ensures
            r@ == spec_base_name(self.binary@),
    {
        let s = self.binary.as_str();
        let n = s.unicode_len();
        let mut start: usize = 0;
        let mut k: usize = 0;
        while k < n
            invariant
                0 <= start <= k <= n,
                start > 0 ==> s@[start - 1] == '/',
                forall|k2: int| start <= k2 < k ==> s@[k2] != '/',
            decreases n - k,
        {
            if s.get_char(k) == '/' {
                start = k + 1;
            }
            k += 1;
        }
        proof {
            lemma_base_name_suffix(s@, start as int);
        }
        s.substring_char(start, n)
    }
}

/// How many benchmark names the groups hold in all.
pub open spec fn spec_total_names(groups: Seq<BenchmarkGroup>) -> nat
    decreases groups.len(),
{
    if groups.len() == 0 {
        0
    } else {
        spec_total_names(groups.drop_last()) + groups.last().benchmark_names@.len()
    }
}

/// A benchmark name passes the filter exactly when the kept pattern,
/// if any, occurs in it, and the exclude pattern, if any, does not.
pub open spec fn spec_passes_filter(
    name: Seq<char>,
    exclude: Option<Seq<char>>,
    keep: Option<Seq<char>>,
) -> bool {
    &&& match keep {
        Some(p) => is_substring(name, p),
        None => true,
    }
    &&& match exclude {
        Some(p) => !is_substring(name, p),
        None => true,
    }
}

/// Whether a benchmark name passes the optional exclude and keep
/// patterns.
pub fn passes_filter(name: &str, exclude: Option<&str>, keep: Option<&str>) -> (r: bool)
    ensures
        r == spec_passes_filter(name@, opt_str_view(exclude), opt_str_view(keep)),
{
    let keep_ok = match keep {
        Some(p) => contains_substring(name, p),
        None => true,
    };
    let exc_ok = match exclude {
        Some(p) => !contains_substring(name, p),
        None => true,
    };
    keep_ok && exc_ok
}

/// The views of an optional pattern.
pub open spec fn opt_str_view(o: Option<&str>) -> Option<Seq<char>> {
    match o {
        Some(s) => Some(s@),
        None => None,
    }
}

/// The views of an optional owned pattern.
pub open spec fn opt_string_view(o: Option<String>) -> Option<Seq<char>> {
    match o {
        Some(s) => Some(s@),
        None => None,
    }
}

/// A pattern pair over benchmark names: one a name must contain to
/// pass, one it must not.
#[derive(Debug)]
pub struct BenchmarkFilter {
    pub exclude: Option<String>,
    pub keep: Option<String>,
}

impl BenchmarkFilter {
    pub fn new(exclude: Option<String>, keep: Option<String>) -> (r: BenchmarkFilter)
        ensures
            r.exclude == exclude,
            r.keep == keep,
    {
        BenchmarkFilter { exclude, keep }
    }
}

/// How many names in `names` pass the filter.
pub open spec fn spec_count_passing(
    names: Seq<String>,
    exclude: Option<Seq<char>>,
    keep: Option<Seq<char>>,
) -> nat
    decreases names.len(),
{
    if names.len() == 0 {
        0
    } else {
        spec_count_passing(names.drop_last(), exclude, keep) + if spec_passes_filter(
            names.last()@,
            exclude,
            keep,
        ) {
            1nat
        } else {
            0nat
        }
    }
}

/// How many names across all groups pass the filter.
pub open spec fn spec_filtered_names(
    groups: Seq<BenchmarkGroup>,
    exclude: Option<Seq<char>>,
    keep: Option<Seq<char>>,
) -> nat
    decreases groups.len(),
{
    if groups.len() == 0 {
        0
    } else {
        spec_filtered_names(groups.drop_last(), exclude, keep) + spec_count_passing(
            groups.last().benchmark_names@,
            exclude,
            keep,
        )
    }
}

proof fn lemma_count_passing_le(names: Seq<String>, ex: Option<Seq<char>>, inc: Option<Seq<char>>)
    ensures
        spec_count_passing(names, ex, inc) <= names.len(),
    decreases names.len(),
{
    if names.len() > 0 {
        lemma_count_passing_le(names.drop_last(), ex, inc);
    }
}

proof fn lemma_filtered_le_total(
    groups: Seq<BenchmarkGroup>,
    ex: Option<Seq<char>>,
    inc: Option<Seq<char>>,
)
    ensures
        spec_filtered_names(groups, ex, inc) <= spec_total_names(groups),
    decreases groups.len(),
{
    if groups.len() > 0 {
        lemma_filtered_le_total(groups.drop_last(), ex, inc);
        lemma_count_passing_le(groups.last().benchmark_names@, ex, inc);
    }
}

proof fn lemma_total_prefix_mono(groups: Seq<BenchmarkGroup>, g2: int, g: int)
    requires
        0 <= g2 < g <= groups.len(),
    ensures
        spec_total_names(groups.subrange(0, g2)) + groups[g2].benchmark_names@.len()
            <= spec_total_names(groups.subrange(0, g)),
    decreases g - g2,
{
    assert(groups.subrange(0, g2 + 1).drop_last() =~= groups.subrange(0, g2));
    assert(groups.subrange(0, g2 + 1).last() == groups[g2]);
    if g2 + 1 < g {
        lemma_total_prefix_mono(groups, g2 + 1, g);
        assert(groups.subrange(0, g2 + 2).drop_last() =~= groups.subrange(0, g2 + 1));
    }
}

proof fn lemma_total_prefix_le(groups: Seq<BenchmarkGroup>, g: int)
    requires
        0 <= g <= groups.len(),
    ensures
        spec_total_names(groups.subrange(0, g)) <= spec_total_names(groups),
    decreases groups.len() - g,
{
    if g == groups.len() {
        assert(groups.subrange(0, g) =~= groups);
    } else {
        assert(groups.subrange(0, g + 1).drop_last() =~= groups.subrange(0, g));
        lemma_total_prefix_le(groups, g + 1);
    }
}

/// With no patterns at all, every name passes: the filtered count is
/// the total count.
pub proof fn lemma_unfiltered_count_is_total(groups: Seq<BenchmarkGroup>)
    ensures
        spec_filtered_names(groups, None, None) == spec_total_names(groups),
    decreases groups.len(),
{
    if groups.len() > 0 {
        lemma_unfiltered_count_is_total(groups.drop_last());
        lemma_count_none_is_len(groups.last().benchmark_names@);
    }
}

proof fn lemma_count_none_is_len(names: Seq<String>)
    ensures
        spec_count_passing(names, None, None) == names.len(),
    decreases names.len(),
{
    if names.len() > 0 {
        lemma_count_none_is_len(names.drop_last());
    }
}

/// The benchmark groups discovered from one directory, sorted by
/// binary path.
#[derive(Debug)]
pub struct BenchmarkSuite {
    pub groups: Vec<BenchmarkGroup>,
}

/// Groups ordered by binary path.
pub open spec fn sorted_by_binary(groups: Seq<BenchmarkGroup>) -> bool {
    forall|i: int, j: int| 0 <= i < j < groups.len()
        ==> lex_le((#[trigger] groups[i]).binary@, (#[trigger] groups[j]).binary@)
}

impl BenchmarkSuite {
    /// The number of benchmark names over all groups.
    #[verifier::loop_isolation(false)]
    pub fn total_benchmark_count(&self) -> (r: u64)
        requires
            spec_total_names(self.groups@) <= u64::MAX,
        ensures
            r == spec_total_names(self.groups@),
    {
        let mut acc: u64 = 0;
        let mut g: usize = 0;
        while g < self.groups.len()
            invariant
                0 <= g <= self.groups@.len(),
                acc == spec_total_names(self.groups@.subrange(0, g as int)),
            decreases self.groups@.len() - g,
        {
            proof {
                assert(self.groups@.subrange(0, g + 1).drop_last() =~= self.groups@.subrange(
                    0,
                    g as int,
                ));
                assert(self.groups@.subrange(0, g + 1).last() == self.groups@[g as int]);
                lemma_total_prefix_le(self.groups@, g + 1);
            }
            acc = acc + self.groups[g].benchmark_names.len() as u64;
            g += 1;
        }
        proof {
            assert(self.groups@.subrange(0, self.groups@.len() as int) =~= self.groups@);
        }
        acc
    }

    /// The number of benchmark names over all groups that pass the
    /// filter.
    #[verifier::loop_isolation(false)]
    pub fn filtered_benchmark_count(&self, filter: &BenchmarkFilter) -> (r: u64)
        requires
            spec_total_names(self.groups@) <= u64::MAX,
        ensures
            r == spec_filtered_names(self.groups@, opt_string_view(filter.exclude),
                opt_string_view(filter.keep)),
    {
        let ghost ex = opt_string_view(filter.exclude);
        let ghost inc = opt_string_view(filter.keep);
        let mut acc: u64 = 0;
        let mut g: usize = 0;
        while g < self.groups.len()
            invariant
                0 <= g <= self.groups@.len(),
                acc == spec_filtered_names(self.groups@.subrange(0, g as int), ex, inc),
            decreases self.groups@.len() - g,
        {
            let names = &self.groups[g].benchmark_names;
            let mut cnt: u64 = 0;
            let mut i: usize = 0;
            while i < names.len()
                invariant
                    0 <= i <= names@.len(),
                    cnt == spec_count_passing(names@.subrange(0, i as int), ex, inc),
                    cnt <= i,
                decreases names@.len() - i,
            {
                proof {
                    assert(names@.subrange(0, i + 1).drop_last() =~= names@.subrange(0, i as int));
                    assert(names@.subrange(0, i + 1).last() == names@[i as int]);
                }
                let exclude_pat = match &filter.exclude {
                    Some(s) => Some(s.as_str()),
                    None => None,
                };
                let keep_pat = match &filter.keep {
                    Some(s) => Some(s.as_str()),
                    None => None,
                };
                if passes_filter(names[i].as_str(), exclude_pat, keep_pat) {
                    cnt = cnt + 1;
                }
                i += 1;
            }
            proof {
                assert(names@.subrange(0, names@.len() as int) =~= names@);
                assert(self.groups@.subrange(0, g + 1).drop_last() =~= self.groups@.subrange(
                    0,
                    g as int,
                ));
                assert(self.groups@.subrange(0, g + 1).last() == self.groups@[g as int]);
                lemma_filtered_le_total(self.groups@.subrange(0, g + 1), ex, inc);
                lemma_total_prefix_le(self.groups@, g + 1);
            }
            acc = acc + cnt;
            g += 1;
        }
        proof {
            assert(self.groups@.subrange(0, self.groups@.len() as int) =~= self.groups@);
        }
        acc
    }

    /// All benchmark names, group by group, in order.
    #[verifier::loop_isolation(false)]
    pub fn benchmark_names(&self) -> (r: Vec<String>)
        ensures
            r@.len() == spec_total_names(self.groups@),
            forall|g: int, i: int|
                0 <= g < self.groups@.len() && 0 <= i < self.groups@[g].benchmark_names@.len()
                    ==> r@[spec_total_names(self.groups@.subrange(0, g)) + i]@
                        == (#[trigger] self.groups@[g].benchmark_names@[i])@,
    {
        let mut r: Vec<String> = Vec::new();
        let mut g: usize = 0;
        while g < self.groups.len()
            invariant
                0 <= g <= self.groups@.len(),
                r@.len() == spec_total_names(self.groups@.subrange(0, g as int)),
                forall|g2: int, i: int|
                    0 <= g2 < g && 0 <= i < self.groups@[g2].benchmark_names@.len()
                        ==> r@[spec_total_names(self.groups@.subrange(0, g2)) + i]@
                            == (#[trigger] self.groups@[g2].benchmark_names@[i])@,
            decreases self.groups@.len() - g,
        {
            let names = &self.groups[g].benchmark_names;
            let ghost base = r@.len() as int;
            let mut i: usize = 0;
            while i < names.len()
                invariant
                    0 <= i <= names@.len(),
                    r@.len() == base + i,
                    forall|g2: int, i2: int|
                        0 <= g2 < g && 0 <= i2 < self.groups@[g2].benchmark_names@.len()
                            ==> r@[spec_total_names(self.groups@.subrange(0, g2)) + i2]@
                                == (#[trigger] self.groups@[g2].benchmark_names@[i2])@,
                    forall|i2: int| 0 <= i2 < i
                        ==> r@[base + i2]@ == (#[trigger] names@[i2])@,
                decreases names@.len() - i,
            {
                r.push(names[i].clone());
                proof {
                    assert forall|g2: int|
                        0 <= g2 < g implies spec_total_names(self.groups@.subrange(0, g2))
                        + self.groups@[g2].benchmark_names@.len() <= base by {
                        lemma_total_prefix_mono(self.groups@, g2, g as int);
                    }
                }
                i += 1;
            }
            proof {
                assert(self.groups@.subrange(0, g + 1).drop_last() =~= self.groups@.subrange(
                    0,
                    g as int,
                ));
                assert(self.groups@.subrange(0, g + 1).last() == self.groups@[g as int]);
                assert(self.groups@.subrange(0, g as int) =~= self.groups@.subrange(0, g + 1)
                    .subrange(0, g as int));
            }
            g += 1;
        }
        proof {
            assert(self.groups@.subrange(0, self.groups@.len() as int) =~= self.groups@);
            assert forall|g2: int, i: int|
                0 <= g2 < self.groups@.len() && 0 <= i < self.groups@[g2].benchmark_names@.len()
                    implies r@[spec_total_names(self.groups@.subrange(0, g2)) + i]@
                    == (#[trigger] self.groups@[g2].benchmark_names@[i])@ by {
            }
        }
        r
    }
}

} // verus!
