//! Whether a file is still being written, judged from samples of its size.
//!
//! A sample is the size of the file at one moment, or `None` where the file
//! could not be examined. A file is stable once two samples in a row agree.

use vstd::prelude::*;

verus! {

/// What the samples taken so far say about a file.
#[derive(Clone, Copy, Debug, PartialEq, Eq, Structural)]
pub enum Verdict {
    /// Two samples in a row were equal.
    Stable,
    /// A sample could not be taken, or the allowed samples are used up.
    Unstable,
    /// Another sample is needed.
    Undecided,
}

/// Whether sample `k` is the first of `samples` to repeat the one before it,
/// with every sample up to it taken.
pub open spec fn settles_at(samples: Seq<Option<u64>>, k: int) -> bool {
    &&& 1 <= k < samples.len()
    &&& samples[k] == samples[k - 1]
    &&& forall|j: int| 0 <= j <= k ==> (#[trigger] samples[j]) is Some
}

/// Whether two samples in a row agree among the first `count`, with every
/// sample up to them taken.
pub open spec fn stable_within(samples: Seq<Option<u64>>, count: nat) -> bool {
    exists|k: int| k < count && #[trigger] settles_at(samples, k)
}

/// Whether one of the samples could not be taken.
pub open spec fn has_gap(samples: Seq<Option<u64>>) -> bool {
    exists|j: int| 0 <= j < samples.len() && (#[trigger] samples[j]) is None
}

/// The verdict on a file after `samples`, where at most `count` are allowed.
pub open spec fn verdict_of(samples: Seq<Option<u64>>, count: nat) -> Verdict {
    if stable_within(samples, count) {
        Verdict::Stable
    } else if samples.len() >= count || has_gap(samples) {
        Verdict::Unstable
    } else {
        Verdict::Undecided
    }
}

/// A file whose size differs from each sample to the next is never judged
/// stable, however many samples are allowed.
pub proof fn lemma_changing_size_never_stable(samples: Seq<Option<u64>>, count: nat)
    requires
        forall|k: int| 1 <= k < samples.len() ==> #[trigger] samples[k] != samples[k - 1],
    ensures
        !stable_within(samples, count),
        verdict_of(samples, count) != Verdict::Stable,
{
    if stable_within(samples, count) {
        let k = choose|k: int| k < count && #[trigger] settles_at(samples, k);
        assert(samples[k] != samples[k - 1]);
    }
}

/// A file whose size is the same in samples `k - 1` and `k`, both among the
/// allowed ones and none before them missing, is judged stable, and is so
/// as soon as sample `k` is in.
pub proof fn lemma_constant_size_is_stable(samples: Seq<Option<u64>>, count: nat, k: int)
    requires
        1 <= k < samples.len(),
        k < count,
        samples[k] == samples[k - 1],
        forall|j: int| 0 <= j <= k ==> (#[trigger] samples[j]) is Some,
    ensures
        stable_within(samples, count),
        verdict_of(samples.take(k + 1), count) == Verdict::Stable,
{
    assert(settles_at(samples, k));
    let seen = samples.take(k + 1);
    assert(settles_at(seen, k));
}

/// What is stable after some samples stays stable after more.
pub proof fn lemma_stable_stays(samples: Seq<Option<u64>>, n: int, count: nat)
    requires
        0 <= n <= samples.len(),
        stable_within(samples.take(n), count),
    ensures
        stable_within(samples, count),
{
    let seen = samples.take(n);
    let k = choose|k: int| k < count && #[trigger] settles_at(seen, k);
    assert forall|j: int| 0 <= j <= k implies (#[trigger] samples[j]) is Some by {
        assert(seen[j] is Some);
    }
    assert(settles_at(samples, k));
}

/// What is unstable after some samples stays so after more.
pub proof fn lemma_unstable_stays(samples: Seq<Option<u64>>, n: int, count: nat)
    requires
        0 <= n <= samples.len(),
        verdict_of(samples.take(n), count) == Verdict::Unstable,
    ensures
        !stable_within(samples, count),
{
    let seen = samples.take(n);
    if stable_within(samples, count) {
        let k = choose|k: int| k < count && #[trigger] settles_at(samples, k);
        if k < n {
            assert forall|j: int| 0 <= j <= k implies (#[trigger] seen[j]) is Some by {
                assert(samples[j] is Some);
            }
            assert(settles_at(seen, k));
        } else {
            if has_gap(seen) {
                let j = choose|j: int| 0 <= j < seen.len() && (#[trigger] seen[j]) is None;
                assert(samples[j] is Some);
            }
        }
    }
}

/// Judges a file from samples of its size, one at a time.
pub struct StabilityProbe {
    previous: Option<u64>,
    taken: u32,
    limit: u32,
    verdict: Verdict,
    seen: Ghost<Seq<Option<u64>>>,
}

impl StabilityProbe {
    /// The samples that counted towards the verdict, in order.
    pub closed spec fn samples(&self) -> Seq<Option<u64>> {
        self.seen@
    }

    /// How many samples are allowed.
    pub closed spec fn limit(&self) -> nat {
        self.limit as nat
    }

    /// The verdict so far.
    pub closed spec fn verdict(&self) -> Verdict {
        self.verdict
    }

    /// The probe's invariant: it holds the verdict on its samples.
    pub closed spec fn wf(&self) -> bool {
        &&& self.verdict == verdict_of(self.seen@, self.limit as nat)
        &&& self.taken == self.seen@.len()
        &&& self.verdict == Verdict::Undecided ==> {
            &&& self.previous == if self.seen@.len() > 0 {
                self.seen@.last()
            } else {
                None
            }
            &&& forall|k: int| 1 <= k < self.seen@.len() ==> #[trigger] self.seen@[k]
                != self.seen@[k - 1]
        }
    }

    /// The verdict is the one on the samples.
    pub proof fn lemma_verdict(&self)
        requires
            self.wf(),
        ensures
            self.verdict() == verdict_of(self.samples(), self.limit()),
    {
    }

    /// A probe that allows `sample_count` samples and has seen none.
    pub fn new(sample_count: u32) -> (probe: StabilityProbe)
        ensures
            probe.wf(),
            probe.samples() == Seq::<Option<u64>>::empty(),
            probe.limit() == sample_count,
    {
        let probe = StabilityProbe {
            previous: None,
            taken: 0,
            limit: sample_count,
            verdict: if sample_count == 0 {
                Verdict::Unstable
            } else {
                Verdict::Undecided
            },
            seen: Ghost(Seq::empty()),
        };
        proof {
            lemma_changing_size_never_stable(probe.seen@, sample_count as nat);
        }
        probe
    }

    /// The verdict so far.
    pub fn current(&self) -> (v: Verdict)
        ensures
            v == self.verdict(),
    {
        self.verdict
    }

    /// Takes in the next sample and gives the verdict. Once the verdict is
    /// `Stable` or `Unstable` it stands, and further samples are not counted.
    pub fn observe(&mut self, sample: Option<u64>) -> (v: Verdict)
        requires
            old(self).wf(),
        ensures
            final(self).wf(),
            final(self).limit() == old(self).limit(),
            final(self).samples() == if old(self).verdict() == Verdict::Undecided {
                old(self).samples().push(sample)
            } else {
                old(self).samples()
            },
            v == final(self).verdict(),
            v == verdict_of(final(self).samples(), final(self).limit()),
    {
        if self.verdict != Verdict::Undecided {
            return self.verdict;
        }
        let ghost before = self.seen@;
        let ghost count = self.limit as nat;
        let ghost after = before.push(sample);
        let repeats = match sample {
            Some(size) => match self.previous {
                Some(earlier) => earlier == size,
                None => false,
            },
            None => false,
        };
        proof {
            assert(before.len() < count);
            assert(!has_gap(before));
            assert forall|j: int| 0 <= j < before.len() implies after[j] == before[j] by {}
            if repeats {
                let k = before.len() as int;
                assert(after[k] == sample);
                assert(after[k - 1] == before.last());
                assert forall|j: int| 0 <= j <= k implies (#[trigger] after[j]) is Some by {
                    if j < k {
                        assert(before[j] is Some);
                    }
                }
                assert(settles_at(after, k));
            } else {
                assert forall|k: int| 1 <= k < after.len() implies #[trigger] after[k] != after[k
                    - 1] by {
                    if k < before.len() {
                        assert(before[k] != before[k - 1]);
                    } else if sample is Some {
                        assert(after[k - 1] == before.last());
                    } else {
                        assert(after[k] is None);
                        assert(before[k - 1] is Some);
                    }
                }
                if sample is Some {
                    lemma_changing_size_never_stable(after, count);
                    assert forall|j: int| 0 <= j < after.len() implies (#[trigger] after[j]) is Some by {
                        if j < before.len() {
                            assert(before[j] is Some);
                        }
                    }
                } else {
                    assert(after[before.len() as int] is None);
                    if stable_within(after, count) {
                        let k = choose|k: int| k < count && #[trigger] settles_at(after, k);
                        assert(after[k] != after[k - 1]);
                    }
                }
            }
        }
        self.seen = Ghost(after);
        self.taken = self.taken + 1;
        self.previous = sample;
        self.verdict = if repeats {
            Verdict::Stable
        } else if sample.is_none() || self.taken >= self.limit {
            Verdict::Unstable
        } else {
            Verdict::Undecided
        };
        self.verdict
    }
}

/// Judges a file from a record of samples of its size, of which the first
/// `checks` count: whether two in a row agree, none up to them missing.
pub fn is_file_stable(samples: &Vec<Option<u64>>, checks: u32) -> (stable: bool)
    ensures
        stable == stable_within(samples@, checks as nat),
{
    let mut probe = StabilityProbe::new(checks);
    let mut i: usize = 0;
    while i < samples.len()
        invariant
            i <= samples.len(),
            probe.wf(),
            probe.limit() == checks,
            probe.samples() == samples@.take(i as int),
            probe.verdict() == Verdict::Undecided || probe.verdict() == Verdict::Unstable,
            probe.verdict() == Verdict::Unstable ==> !stable_within(samples@, checks as nat),
        decreases samples.len() - i,
    {
        let ghost was = probe.verdict();
        let v = probe.observe(samples[i]);
        proof {
            if was == Verdict::Undecided {
                assert(samples@.take(i + 1) =~= samples@.take(i as int).push(samples@[i as int]));
                if v == Verdict::Stable {
                    lemma_stable_stays(samples@, i + 1, checks as nat);
                } else if v == Verdict::Unstable {
                    lemma_unstable_stays(samples@, i + 1, checks as nat);
                }
            }
        }
        if v == Verdict::Stable {
            return true;
        }
        if v == Verdict::Unstable {
            return false;
        }
        i += 1;
    }
    proof {
        assert(samples@.take(i as int) =~= samples@);
        probe.lemma_verdict();
    }
    false
}

} // verus!
