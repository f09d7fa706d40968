use vstd::prelude::*;
use vstd::multiset::Multiset;
use crate::benchmark::{BenchmarkGroup, BenchmarkSuite, sorted_by_binary};
use crate::strings::{lex_le, str_le, lemma_lex_total};

verus! {

/// One structured event of the build tool's machine-readable output
/// stream, reduced to what discovery reads from it.
#[derive(Debug)]
pub enum BuildEvent {
    /// A produced artifact: its executable path, if any, and the kind
    /// labels of the target it belongs to.
    Artifact { executable: Option<String>, kinds: Vec<String> },
    /// A line of free text, not a structured event.
    TextLine(String),
    /// A compiler diagnostic, optionally pre-rendered.
    Diagnostic { message: String, rendered: Option<String> },
    /// Any other structured event; discovery ignores it.
    Other,
}

/// What the event stream decoder yields for one line of build output.
/// A line that is no structured event decodes to free text.
pub uninterp spec fn decoded_build_event(line: Seq<char>) -> BuildEvent;

/// Relies on serde_json::from_str and cargo_metadata's build event
/// type: one line of the build tool's JSON stream decodes to one
/// event, as a function of the line alone; a line that is not valid
/// JSON for an event is free text.
#[verifier::external_body]
fn decode_line(line: &str) -> (r: BuildEvent)
    ensures
        r == decoded_build_event(line@),
{
    let m = serde_json::from_str::<cargo_metadata::Message>(line)
        .unwrap_or(cargo_metadata::Message::TextLine(line.to_owned()));
    match m {
        cargo_metadata::Message::CompilerArtifact(a) => BuildEvent::Artifact {
            executable: a.executable.map(|p| p.into_string()),
            kinds: a.target.kind.iter().map(|k| k.to_string()).collect(),
        },
        cargo_metadata::Message::TextLine(l) => BuildEvent::TextLine(l),
        cargo_metadata::Message::CompilerMessage(c) => BuildEvent::Diagnostic {
            message: c.message.message,
            rendered: c.message.rendered,
        },
        _ => BuildEvent::Other,
    }
}

/// What a benchmark binary's `list` output decodes to: a JSON array
/// of benchmark-name strings, or nothing when the bytes are not such
/// an array; a function of the bytes alone.
pub uninterp spec fn json_string_list(bytes: Seq<u8>) -> Option<Vec<String>>;

/// Relies on serde_json::from_slice: the bytes decode as one JSON
/// array of strings, or fail, as a function of the bytes alone.
#[verifier::external_body]
fn decode_name_list(bytes: &[u8]) -> (r: Option<Vec<String>>)
    ensures
        r == json_string_list(bytes@),
{
    serde_json::from_slice::<Vec<String>>(bytes).ok()
}

/// What discovery does in response to one build event.
#[derive(Debug)]
pub enum EventAction {
    /// A runnable binary was produced: execute it to list its benchmarks.
    RunBinary(String),
    /// Free text: echo the line verbatim; it is no error signal.
    EchoLine(String),
    /// A diagnostic: print it, preferring the pre-rendered form.
    PrintDiagnostic(String),
    /// Nothing to do.
    Ignore,
}

/// Whether some kind label is the binary kind.
pub open spec fn has_bin_kind(kinds: Seq<String>) -> bool {
    exists|k: int| 0 <= k < kinds.len() && (#[trigger] kinds[k])@ == "bin"@
}

/// The action discovery takes on one build event: run a produced
/// binary when it is of binary kind, echo free text, print a
/// diagnostic's rendered form if present and its plain message
/// otherwise, and ignore the rest.
pub open spec fn spec_action_for(e: BuildEvent) -> EventAction {
    match e {
        BuildEvent::Artifact { executable, kinds } => match executable {
            Some(path) => if has_bin_kind(kinds@) {
                EventAction::RunBinary(path)
            } else {
                EventAction::Ignore
            },
            None => EventAction::Ignore,
        },
        BuildEvent::TextLine(l) => EventAction::EchoLine(l),
        BuildEvent::Diagnostic { message, rendered } => match rendered {
            Some(text) => EventAction::PrintDiagnostic(text),
            None => EventAction::PrintDiagnostic(message),
        },
        BuildEvent::Other => EventAction::Ignore,
    }
}

fn has_bin(kinds: &Vec<String>) -> (r: bool)
    ensures
        r == has_bin_kind(kinds@),
{
    let bin: String = "bin".to_owned();
    let mut k: usize = 0;
    while k < kinds.len()
        invariant
            0 <= k <= kinds@.len(),
            bin@ == "bin"@,
            forall|k2: int| 0 <= k2 < k ==> (#[trigger] kinds@[k2])@ != "bin"@,
        decreases kinds@.len() - k,
    {
        if kinds[k].eq(&bin) {
            return true;
        }
        k += 1;
    }
    false
}

/// The action to take on one event.
pub fn action_for(e: BuildEvent) -> (r: EventAction)
    ensures
        r == spec_action_for(e),
{
    match e {
        BuildEvent::Artifact { executable, kinds } => match executable {
            Some(path) => {
                if has_bin(&kinds) {
                    EventAction::RunBinary(path)
                } else {
                    EventAction::Ignore
                }
            }
            None => EventAction::Ignore,
        },
        BuildEvent::TextLine(l) => EventAction::EchoLine(l),
        BuildEvent::Diagnostic { message, rendered } => match rendered {
            Some(text) => EventAction::PrintDiagnostic(text),
            None => EventAction::PrintDiagnostic(message),
        },
        BuildEvent::Other => EventAction::Ignore,
    }
}

/// Decode one line of the build tool's output stream and decide what
/// to do with it.
pub fn process_build_line(line: &str) -> (r: EventAction)
    ensures
        r == spec_action_for(decoded_build_event(line@)),
{
    action_for(decode_line(line))
}

/// A fatal discovery error, annotated with the offending crate or
/// path.
#[derive(Debug)]
pub enum DiscoveryError {
    /// The benchmark directory could not be listed.
    DirectoryUnreadable { dir: String },
    /// A crate path has no usable file name.
    CrateNameMissing { path: String },
    /// The build tool could not be started for a crate.
    LaunchFailed { crate_name: String },
    /// The build of a crate exited with a non-zero code.
    BuildFailed { crate_name: String, code: i32 },
    /// A binary's benchmark-list output was not a JSON array of strings.
    BenchmarkListDecode { binary: String },
}

/// Accumulates the benchmark groups discovered while consuming build
/// event streams.
#[derive(Debug)]
pub struct GroupCollector {
    pub groups: Vec<BenchmarkGroup>,
}

impl GroupCollector {
    pub fn new() -> (r: GroupCollector)
        ensures
            r.groups@.len() == 0,
    {
        GroupCollector { groups: Vec::new() }
    }

    /// Record one produced binary together with its decoded
    /// benchmark-list output.  Undecodable output is fatal for the
    /// crate, with the binary named; the collector is then unchanged.
    pub fn add_group(&mut self, binary: String, list_output: &[u8]) -> (r: Result<
        (),
        DiscoveryError,
    >)
        ensures
            match json_string_list(list_output@) {
                Some(names) => r is Ok && final(self).groups@ == old(self).groups@.push(
                    BenchmarkGroup { binary, benchmark_names: names },
                ),
                None => final(self).groups@ == old(self).groups@ && (r matches Err(e)
                    && e matches DiscoveryError::BenchmarkListDecode { binary: b } && b == binary),
            },
    {
        match decode_name_list(list_output) {
            Some(names) => {
                self.groups.push(BenchmarkGroup { binary, benchmark_names: names });
                Ok(())
            }
            None => Err(DiscoveryError::BenchmarkListDecode { binary }),
        }
    }
}

/// The outcome of one crate's build: success is exit status zero,
/// anything else is fatal for the crate with the code kept.
pub fn build_exit_result(crate_name: &String, exit_success: bool, exit_code: i32) -> (r: Result<
    (),
    DiscoveryError,
>)
    ensures
        exit_success <==> r is Ok,
        r matches Err(e) ==> e matches DiscoveryError::BuildFailed { crate_name: n, code: c }
            && n@ == crate_name@ && c == exit_code,
{
    if exit_success {
        Ok(())
    } else {
        Err(DiscoveryError::BuildFailed { crate_name: crate_name.clone(), code: exit_code })
    }
}

/// A candidate benchmark crate: its directory name and path.
#[derive(Debug)]
pub struct CrateEntry {
    pub name: String,
    pub path: String,
}

/// Crate entries ordered by name.
pub open spec fn sorted_by_name(entries: Seq<CrateEntry>) -> bool {
    forall|i: int, j: int| 0 <= i < j < entries.len()
        ==> lex_le((#[trigger] entries[i]).name@, (#[trigger] entries[j]).name@)
}

proof fn lemma_ms_move<T>(m1: Multiset<T>, m2: Multiset<T>, x: T)
    requires
        m2.count(x) > 0,
    ensures
        m1.insert(x).add(m2.remove(x)) =~= m1.add(m2),
{
}

/// Sort candidate crates by name, so that build order never depends
/// on the order a directory listing happened to use.
#[verifier::loop_isolation(false)]
pub fn sort_crates(input: Vec<CrateEntry>) -> (r: Vec<CrateEntry>)
    ensures
        r@.to_multiset() == input@.to_multiset(),
        sorted_by_name(r@),
{
    let mut rest = input;
    let mut out: Vec<CrateEntry> = Vec::new();
    proof {
        out@.to_multiset_ensures();
    }
    while rest.len() > 0
        invariant
            out@.to_multiset().add(rest@.to_multiset()) =~= input@.to_multiset(),
            sorted_by_name(out@),
            forall|a: int, b: int| 0 <= a < out@.len() && 0 <= b < rest@.len()
                ==> lex_le((#[trigger] out@[a]).name@, (#[trigger] rest@[b]).name@),
        decreases rest@.len(),
    {
        let mut best: usize = 0;
        let mut j: usize = 1;
        proof {
            crate::strings::lemma_lex_refl(rest@[0].name@);
        }
        while j < rest.len()
            invariant
                0 <= best < rest@.len(),
                1 <= j <= rest@.len(),
                forall|b: int| 0 <= b < j
                    ==> lex_le(rest@[best as int].name@, (#[trigger] rest@[b]).name@),
            decreases rest@.len() - j,
        {
            if !str_le(rest[best].name.as_str(), rest[j].name.as_str()) {
                proof {
                    lemma_lex_total(rest@[best as int].name@, rest@[j as int].name@);
                    assert forall|b: int| 0 <= b < j + 1 implies
                        lex_le(rest@[j as int].name@, (#[trigger] rest@[b]).name@) by {
                        if b < j {
                            crate::strings::lemma_lex_trans(rest@[j as int].name@,
                                rest@[best as int].name@, rest@[b].name@);
                        } else {
                            crate::strings::lemma_lex_refl(rest@[j as int].name@);
                        }
                    }
                }
                best = j;
            } else {
                proof {
                    crate::strings::lemma_lex_refl(rest@[j as int].name@);
                }
            }
            j += 1;
        }
        proof {
            crate::strings::lemma_lex_refl(rest@[best as int].name@);
            rest@.to_multiset_ensures();
            out@.to_multiset_ensures();
            assert(rest@.contains(rest@[best as int]));
        }
        let ghost old_out = out@;
        let ghost old_rest = rest@;
        let m = rest.remove(best);
        out.push(m);
        proof {
            old_out.to_multiset_ensures();
            lemma_ms_move(old_out.to_multiset(), old_rest.to_multiset(), m);
        }
    }
    proof {
        rest@.to_multiset_ensures();
        assert(rest@.to_multiset() =~= Multiset::<CrateEntry>::empty());
        assert(out@.to_multiset().add(Multiset::<CrateEntry>::empty()) =~= out@.to_multiset());
    }
    out
}

/// Sort discovered groups by binary path and wrap them as the suite.
#[verifier::loop_isolation(false)]
pub fn into_suite(collector: GroupCollector) -> (r: BenchmarkSuite)
    ensures
        r.groups@.to_multiset() == collector.groups@.to_multiset(),
        sorted_by_binary(r.groups@),
{
    let input = collector.groups;
    let mut rest = input;
    let mut out: Vec<BenchmarkGroup> = Vec::new();
    proof {
        out@.to_multiset_ensures();
    }
    while rest.len() > 0
        invariant
            out@.to_multiset().add(rest@.to_multiset()) =~= input@.to_multiset(),
            sorted_by_binary(out@),
            forall|a: int, b: int| 0 <= a < out@.len() && 0 <= b < rest@.len()
                ==> lex_le((#[trigger] out@[a]).binary@, (#[trigger] rest@[b]).binary@),
        decreases rest@.len(),
    {
        let mut best: usize = 0;
        let mut j: usize = 1;
        proof {
            crate::strings::lemma_lex_refl(rest@[0].binary@);
        }
        while j < rest.len()
            invariant
                0 <= best < rest@.len(),
                1 <= j <= rest@.len(),
                forall|b: int| 0 <= b < j
                    ==> lex_le(rest@[best as int].binary@, (#[trigger] rest@[b]).binary@),
            decreases rest@.len() - j,
        {
            if !str_le(rest[best].binary.as_str(), rest[j].binary.as_str()) {
                proof {
                    lemma_lex_total(rest@[best as int].binary@, rest@[j as int].binary@);
                    assert forall|b: int| 0 <= b < j + 1 implies
                        lex_le(rest@[j as int].binary@, (#[trigger] rest@[b]).binary@) by {
                        if b < j {
                            crate::strings::lemma_lex_trans(rest@[j as int].binary@,
                                rest@[best as int].binary@, rest@[b].binary@);
                        } else {
                            crate::strings::lemma_lex_refl(rest@[j as int].binary@);
                        }
                    }
                }
                best = j;
            } else {
                proof {
                    crate::strings::lemma_lex_refl(rest@[j as int].binary@);
                }
            }
            j += 1;
        }
        proof {
            crate::strings::lemma_lex_refl(rest@[best as int].binary@);
            rest@.to_multiset_ensures();
            out@.to_multiset_ensures();
            assert(rest@.contains(rest@[best as int]));
        }
        let ghost old_out = out@;
        let ghost old_rest = rest@;
        let m = rest.remove(best);
        out.push(m);
        proof {
            old_out.to_multiset_ensures();
            lemma_ms_move(old_out.to_multiset(), old_rest.to_multiset(), m);
        }
    }
    proof {
        rest@.to_multiset_ensures();
        assert(rest@.to_multiset() =~= Multiset::<BenchmarkGroup>::empty());
        assert(out@.to_multiset().add(Multiset::<BenchmarkGroup>::empty()) =~= out@.to_multiset());
    }
    BenchmarkSuite { groups: out }
}

} // verus!
