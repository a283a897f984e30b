//! Performance tracking: rolling windows of timing samples.

use std::collections::VecDeque;
use vstd::prelude::*;

verus! {

/// The number of samples that a probe retains.
pub const MAX_FRAMES: usize = 100;

/// The last `MAX_FRAMES` elements of `s`, or all of them when there are fewer.
pub open spec fn window<T>(s: Seq<T>) -> Seq<T> {
    if s.len() <= MAX_FRAMES {
        s
    } else {
        s.subrange(s.len() - MAX_FRAMES, s.len() as int)
    }
}

/// Appends `value` to `samples`, evicting the oldest samples first so that
/// at most `MAX_FRAMES` remain.
pub fn push_sample<T>(samples: &mut VecDeque<T>, value: T)
    ensures
        final(samples)@ == window(old(samples)@.push(value)),
{
    while samples.len() >= MAX_FRAMES
        invariant
            window(samples@.push(value)) == window(old(samples)@.push(value)),
        decreases samples@.len(),
    {
        let ghost before = samples@;
        samples.pop_front();
        assert(window(samples@.push(value)) =~= window(before.push(value)));
    }
    samples.push_back(value);
    assert(samples@ =~= window(samples@));
}

/// What a probe retains after `pushed` was pushed to it, one sample at a
/// time from empty, as `push_sample` states each step.
pub open spec fn retained_after<T>(pushed: Seq<T>) -> Seq<T>
    decreases pushed.len(),
{
    if pushed.len() == 0 {
        Seq::empty()
    } else {
        window(retained_after(pushed.drop_last()).push(pushed.last()))
    }
}

/// Pushing a sequence of samples to a fresh probe leaves exactly its last
/// `MAX_FRAMES` samples (all of them when there are fewer), oldest first.
pub proof fn lemma_retains_latest<T>(pushed: Seq<T>)
    ensures
        retained_after(pushed) == window(pushed),
    decreases pushed.len(),
{
    if pushed.len() > 0 {
        let prefix = pushed.drop_last();
        lemma_retains_latest(prefix);
        assert(prefix.push(pushed.last()) =~= pushed);
        assert(window(window(prefix).push(pushed.last())) =~= window(pushed));
    }
}

/// The sum of a sequence of signed samples.
pub open spec fn sum_signed(s: Seq<i64>) -> int
    decreases s.len(),
{
    if s.len() == 0 {
        0
    } else {
        sum_signed(s.drop_last()) + s.last()
    }
}

/// The sum of a sequence of unsigned samples.
pub open spec fn sum_unsigned(s: Seq<u64>) -> int
    decreases s.len(),
{
    if s.len() == 0 {
        0
    } else {
        sum_unsigned(s.drop_last()) + s.last()
    }
}

/// Copies retained samples into a vector, oldest first.
fn to_vec<T: Copy>(samples: &VecDeque<T>) -> (r: Vec<T>)
    ensures
        r@ == samples@,
{
    let mut out: Vec<T> = Vec::new();
    let mut i: usize = 0;
    while i < samples.len()
        invariant
            i <= samples@.len(),
            out@ == samples@.subrange(0, i as int),
        decreases samples@.len() - i,
    {
        out.push(samples[i]);
        i = i + 1;
        assert(out@ =~= samples@.subrange(0, i as int));
    }
    assert(samples@.subrange(0, i as int) =~= samples@);
    out
}

/// Sums signed samples into a wide accumulator.
fn total_signed(samples: &VecDeque<i64>) -> (r: i128)
    requires
        samples@.len() <= MAX_FRAMES,
    ensures
        r == sum_signed(samples@),
{
    let mut acc: i128 = 0;
    let mut i: usize = 0;
    let n = samples.len();
    while i < n
        invariant
            n == samples@.len() <= MAX_FRAMES,
            i <= n,
            acc == sum_signed(samples@.subrange(0, i as int)),
            -(i as int) * 0x8000_0000_0000_0000 <= acc <= (i as int) * 0x8000_0000_0000_0000,
        decreases n - i,
    {
        let x = samples[i];
        assert(samples@.subrange(0, i + 1).drop_last() =~= samples@.subrange(0, i as int));
        acc = acc + x as i128;
        i = i + 1;
    }
    assert(samples@.subrange(0, n as int) =~= samples@);
    acc
}

/// Sums unsigned samples into a wide accumulator.
pub(crate) fn total_unsigned(samples: &VecDeque<u64>) -> (r: u128)
    requires
        samples@.len() <= MAX_FRAMES,
    ensures
        r == sum_unsigned(samples@),
{
    let mut acc: u128 = 0;
    let mut i: usize = 0;
    let n = samples.len();
    while i < n
        invariant
            n == samples@.len() <= MAX_FRAMES,
            i <= n,
            acc == sum_unsigned(samples@.subrange(0, i as int)),
            acc <= (i as int) * 0x1_0000_0000_0000_0000,
        decreases n - i,
    {
        let x = samples[i];
        assert(samples@.subrange(0, i + 1).drop_last() =~= samples@.subrange(0, i as int));
        acc = acc + x as u128;
        i = i + 1;
    }
    assert(samples@.subrange(0, n as int) =~= samples@);
    acc
}

/// One named probe and its retained samples.
pub struct Probe {
    name: String,
    samples: VecDeque<i64>,
}

/// Performance tracking: a table of named probes, each keeping its latest
/// `MAX_FRAMES` signed samples (typically microseconds).
pub struct Perf {
    probes: Vec<Probe>,
    table: Ghost<Map<Seq<char>, Seq<i64>>>,
}

impl View for Perf {
    type V = Map<Seq<char>, Seq<i64>>;

    closed spec fn view(&self) -> Map<Seq<char>, Seq<i64>> {
        self.table@
    }
}

impl Perf {
    /// The probe table holds each name once, and its ghost table maps each
    /// name to exactly the samples stored for it.
    pub closed spec fn wf(&self) -> bool {
        &&& forall|i: int, j: int|
            0 <= i < j < self.probes@.len() ==> self.probes@[i].name@ != self.probes@[j].name@
        &&& forall|i: int|
            0 <= i < self.probes@.len() ==> {
                &&& #[trigger] self.table@.contains_key(self.probes@[i].name@)
                &&& self.table@[self.probes@[i].name@] == self.probes@[i].samples@
            }
        &&& forall|n: Seq<char>|
            #[trigger] self.table@.contains_key(n) ==> exists|i: int|
                0 <= i < self.probes@.len() && self.probes@[i].name@ == n
        &&& forall|n: Seq<char>| #[trigger]
            self.table@.contains_key(n) ==> 0 < self.table@[n].len() <= MAX_FRAMES
    }

    /// An empty probe table.
    pub fn new() -> (r: Self)
        ensures
            r.wf(),
            r@ == Map::<Seq<char>, Seq<i64>>::empty(),
    {
        Perf { probes: Vec::new(), table: Ghost(Map::empty()) }
    }

    fn find(&self, name: &String) -> (r: Option<usize>)
        requires
            self.wf(),
        ensures
            match r {
                Some(i) => i < self.probes@.len() && self.probes@[i as int].name@ == name@,
                None => !self@.contains_key(name@),
            },
    {
        let mut i: usize = 0;
        while i < self.probes.len()
            invariant
                self.wf(),
                i <= self.probes@.len(),
                forall|j: int| 0 <= j < i ==> self.probes@[j].name@ != name@,
            decreases self.probes@.len() - i,
        {
            if self.probes[i].name == *name {
                return Some(i);
            }
            i = i + 1;
        }
        None
    }

    /// Records a sample for the probe `name`, creating the probe on first
    /// use; once a probe holds `MAX_FRAMES` samples the oldest is evicted.
    pub fn push(&mut self, name: &str, value: i64)
        requires
            old(self).wf(),
        ensures
            final(self).wf(),
            final(self)@ == old(self)@.insert(
                name@,
                window(
                    if old(self)@.contains_key(name@) {
                        old(self)@[name@]
                    } else {
                        Seq::empty()
                    }.push(value),
                ),
            ),
    {
        let key = name.to_owned();
        let ghost old_probes = self.probes@;
        let ghost old_table = self.table@;
        match self.find(&key) {
            Some(i) => {
                let mut probe = self.probes.remove(i);
                push_sample(&mut probe.samples, value);
                self.probes.insert(i, probe);
                assert(self.probes@ =~= old_probes.update(i as int, probe));
                self.table = Ghost(old_table.insert(key@, probe.samples@));
                assert forall|n: Seq<char>| #[trigger]
                    self.table@.contains_key(n) implies exists|j: int|
                        0 <= j < self.probes@.len() && self.probes@[j].name@ == n by {
                    if n != key@ {
                        let j = choose|j: int| 0 <= j < old_probes.len() && old_probes[j].name@ == n;
                        assert(self.probes@[j].name@ == n);
                    } else {
                        assert(self.probes@[i as int].name@ == n);
                    }
                }
            },
            None => {
                let mut samples: VecDeque<i64> = VecDeque::new();
                push_sample(&mut samples, value);
                let ghost s = samples@;
                let probe = Probe { name: key, samples };
                self.probes.push(probe);
                self.table = Ghost(old_table.insert(name@, s));
                assert forall|n: Seq<char>| #[trigger]
                    self.table@.contains_key(n) implies exists|j: int|
                        0 <= j < self.probes@.len() && self.probes@[j].name@ == n by {
                    if n != name@ {
                        let j = choose|j: int| 0 <= j < old_probes.len() && old_probes[j].name@ == n;
                        assert(self.probes@[j].name@ == n);
                    } else {
                        assert(self.probes@[old_probes.len() as int].name@ == n);
                    }
                }
            },
        }
    }

    /// The samples that the probe `name` retains, oldest first, or `None`
    /// when nothing was ever pushed under that name.
    pub fn samples(&self, name: &str) -> (r: Option<Vec<i64>>)
        requires
            self.wf(),
        ensures
            match r {
                Some(v) => self@.contains_key(name@) && v@ == self@[name@],
                None => !self@.contains_key(name@),
            },
    {
        let key = name.to_owned();
        match self.find(&key) {
            Some(i) => {
                assert(self.table@.contains_key(self.probes@[i as int].name@));
                Some(to_vec(&self.probes[i].samples))
            },
            None => None,
        }
    }

    /// The arithmetic mean of the samples of the probe `name`, as the pair
    /// of their sum and their number, or `None` when nothing was ever pushed
    /// under that name.
    pub fn average(&self, name: &str) -> (r: Option<(i128, usize)>)
        requires
            self.wf(),
        ensures
            match r {
                Some((total, count)) => {
                    &&& self@.contains_key(name@)
                    &&& total == sum_signed(self@[name@])
                    &&& count == self@[name@].len()
                    &&& count > 0
                },
                None => !self@.contains_key(name@),
            },
    {
        let key = name.to_owned();
        match self.find(&key) {
            Some(i) => {
                assert(self.table@.contains_key(self.probes@[i as int].name@));
                let samples = &self.probes[i].samples;
                Some((total_signed(samples), samples.len()))
            },
            None => None,
        }
    }
}

impl Default for Perf {
    fn default() -> (r: Self)
        ensures
            r.wf(),
            r@ == Map::<Seq<char>, Seq<i64>>::empty(),
    {
        Perf::new()
    }
}


} // verus!
