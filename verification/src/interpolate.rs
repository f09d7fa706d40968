use vstd::prelude::*;
use crate::value::Value;

verus! {

/// The value that hold-last-value interpolation yields at position `i`:
/// the measurement itself when present, otherwise the nearest preceding
/// present measurement; `None` only for a leading gap.
pub open spec fn spec_fill(s: Seq<Option<Value>>, i: int) -> Option<Value>
    decreases i,
{
    if s[i] is Some {
        s[i]
    } else if i <= 0 {
        None
    } else {
        spec_fill(s, i - 1)
    }
}

/// A per-path series after gap filling: one value per commit, with a
/// flag telling which positions were synthesized rather than measured.
pub struct InterpolatedSeries {
    pub values: Vec<Value>,
    pub interpolated: Vec<bool>,
}

impl InterpolatedSeries {
    pub open spec fn wf(self) -> bool {
        &&& self.values@.len() == self.interpolated@.len()
        &&& forall|i: int| 0 <= i < self.values@.len() ==> (#[trigger] self.values@[i]).wf()
    }
}

/// Fill the gaps of a series by holding the last measured value.
///
/// The output has the same length and commit ordering as the input; a
/// present measurement is passed through with its flag false, an absent
/// one is replaced by the nearest preceding measurement with its flag
/// true.  A leading gap has no preceding measurement to hold: the store
/// owes at least one real value at or before the first requested
/// commit, so such input is ruled out here.
pub fn interpolate(series: &Vec<Option<Value>>) -> (r: InterpolatedSeries)
    requires
        series@.len() > 0 ==> series@[0] is Some,
        forall|i: int| 0 <= i < series@.len() && (#[trigger] series@[i]) is Some
            ==> series@[i].unwrap().wf(),
    ensures
        r.wf(),
        r.values@.len() == series@.len(),
        r.interpolated@.len() == series@.len(),
        forall|i: int| 0 <= i < series@.len() ==> Some(#[trigger] r.values@[i]) == spec_fill(series@, i),
        forall|i: int| 0 <= i < series@.len()
            ==> #[trigger] r.interpolated@[i] == (series@[i] is None),
{
    let mut values: Vec<Value> = Vec::new();
    let mut flags: Vec<bool> = Vec::new();
    let mut last: Option<Value> = None;
    let mut i: usize = 0;
    while i < series.len()
        invariant
            0 <= i <= series@.len(),
            series@.len() > 0 ==> series@[0] is Some,
            forall|k: int| 0 <= k < series@.len() && (#[trigger] series@[k]) is Some
                ==> series@[k].unwrap().wf(),
            values@.len() == i,
            flags@.len() == i,
            i > 0 ==> last == spec_fill(series@, i - 1) && last is Some,
            i > 0 ==> last.unwrap().wf(),
            forall|j: int| 0 <= j < i ==> Some(#[trigger] values@[j]) == spec_fill(series@, j),
            forall|j: int| 0 <= j < i ==> (#[trigger] values@[j]).wf(),
            forall|j: int| 0 <= j < i ==> #[trigger] flags@[j] == (series@[j] is None),
        decreases series@.len() - i,
    {
        match series[i] {
            Some(v) => {
                values.push(v);
                flags.push(false);
                last = Some(v);
            }
            None => {
                let v = last.unwrap();
                values.push(v);
                flags.push(true);
            }
        }
        i += 1;
    }
    InterpolatedSeries { values, interpolated: flags }
}

/// A series without gaps interpolates to itself: every position holds
/// the measured value unchanged, and no position is synthesized.
pub proof fn lemma_interpolate_no_gaps(s: Seq<Option<Value>>, i: int)
    requires
        0 <= i < s.len(),
        forall|j: int| 0 <= j < s.len() ==> (#[trigger] s[j]) is Some,
    ensures
        spec_fill(s, i) == s[i],
{
}

} // verus!
