//! How much waits in a queue, and how much ever did.

use std::sync::mpsc;

use vstd::prelude::*;

verus! {

/// How much waits in a queue, and the most that ever did.
#[derive(Debug)]
pub struct QueueGauge {
    depth: i64,
    high_water: i64,
}

/// How much waits in a queue, and the most that ever did.
#[verifier::ext_equal]
pub struct GaugeView {
    pub depth: int,
    pub high_water: int,
}

impl QueueGauge {
    #[verifier::type_invariant]
    spec fn wf(self) -> bool {
        0 <= self.depth <= self.high_water
    }

    /// What the gauge shows.
    pub closed spec fn view(&self) -> GaugeView {
        GaugeView { depth: self.depth as int, high_water: self.high_water as int }
    }

    /// The gauge of an empty queue.
    pub fn new() -> (r: QueueGauge)
        ensures
            r@ == (GaugeView { depth: 0, high_water: 0 }),
    {
        QueueGauge { depth: 0, high_water: 0 }
    }

    /// Notes that one thing was taken out.
    pub fn dequeue(&mut self)
        requires
            old(self)@.depth > 0,
        ensures
            final(self)@ == (GaugeView { depth: old(self)@.depth - 1, ..old(self)@ }),
    {
        proof {
            use_type_invariant(&*self);
        }
        self.depth = self.depth - 1;
    }

    /// How much waits.
    pub fn depth(&self) -> (r: i64)
        ensures
            r == self@.depth,
            0 <= r,
    {
        proof {
            use_type_invariant(self);
        }
        self.depth
    }

    /// The most that ever waited.
    pub fn high_water(&self) -> (r: i64)
        ensures
            r == self@.high_water,
            self@.depth <= r,
    {
        proof {
            use_type_invariant(self);
        }
        self.high_water
    }

    /// Notes that one thing was put in.
    fn enqueue(&mut self)
        requires
            old(self)@.depth < i64::MAX,
        ensures
            final(self)@ == enqueued(old(self)@),
    {
        proof {
            use_type_invariant(&*self);
        }
        let depth: i64 = self.depth + 1;
        if depth > self.high_water {
            self.high_water = depth;
        }
        self.depth = depth;
    }
}

/// What the gauge shows when one more thing was put in.
pub open spec fn enqueued(gauge: GaugeView) -> GaugeView {
    GaugeView {
        depth: gauge.depth + 1,
        high_water: if gauge.depth + 1 > gauge.high_water {
            gauge.depth + 1
        } else {
            gauge.high_water
        },
    }
}

/// `std::sync::mpsc::Sender`, the sending end of a queue.
#[verifier::external_type_specification]
#[verifier::external_body]
#[verifier::reject_recursive_types(T)]
pub struct ExSender<T>(mpsc::Sender<T>);

/// `std::sync::mpsc::Sender::send`. Whether it succeeds depends on whether the
/// receiving end is still there; where it fails, the value is given back.
#[verifier::external_body]
fn send_value<T>(sender: &mpsc::Sender<T>, value: T) -> (r: Result<(), T>)
    ensures
        r matches Err(back) ==> back == value,
{
    sender.send(value).map_err(|error| error.0)
}

/// The sending end of a queue that is watched by a gauge.
#[derive(Debug)]
#[verifier::reject_recursive_types(T)]
pub struct CountingSender<T> {
    inner: mpsc::Sender<T>,
}

impl<T> CountingSender<T> {
    /// The end that it sends through.
    pub closed spec fn inner(&self) -> mpsc::Sender<T> {
        self.inner
    }

    /// Watches a sending end.
    pub fn new(inner: mpsc::Sender<T>) -> (r: CountingSender<T>)
        ensures
            r.inner() == inner,
    {
        CountingSender { inner }
    }

    /// Sends a value, and counts it where it was sent; where it was not, it is given
    /// back and nothing is counted.
    pub fn send(&self, gauge: &mut QueueGauge, value: T) -> (r: Result<(), T>)
        requires
            old(gauge)@.depth < i64::MAX,
        ensures
            match r {
                Ok(_) => final(gauge)@ == enqueued(old(gauge)@),
                Err(back) => back == value && final(gauge)@ == old(gauge)@,
            },
    {
        count_sent(gauge, send_value(&self.inner, value))
    }
}

/// Counts a value where it was sent; where it was not, nothing is counted. What came of
/// sending it is given back.
pub fn count_sent<T>(gauge: &mut QueueGauge, sent: Result<(), T>) -> (r: Result<(), T>)
    requires
        old(gauge)@.depth < i64::MAX,
    ensures
        r == sent,
        final(gauge)@ == (if sent is Ok {
            enqueued(old(gauge)@)
        } else {
            old(gauge)@
        }),
{
    if sent.is_ok() {
        gauge.enqueue();
    }
    sent
}

/// The most that ever waited never falls.
pub proof fn high_water_never_falls(gauge: GaugeView)
    ensures
        enqueued(gauge).high_water >= gauge.high_water,
        enqueued(gauge).high_water >= enqueued(gauge).depth,
{
}

/// What is put in and taken out again leaves as much waiting as before.
pub proof fn putting_in_and_taking_out_cancel(gauge: GaugeView)
    ensures
        enqueued(gauge).depth - 1 == gauge.depth,
{
}

/// A gauge after so many things have been put in, and none taken out.
pub open spec fn enqueued_times(gauge: GaugeView, n: nat) -> GaugeView
    decreases n,
{
    if n == 0 {
        gauge
    } else {
        enqueued(enqueued_times(gauge, (n - 1) as nat))
    }
}

/// What is sent adds up, whoever sends it: so many more things wait, and that is the most
/// that ever waited, unless more did before.
pub proof fn sends_add_up(gauge: GaugeView, n: nat)
    requires
        gauge.depth <= gauge.high_water,
    ensures
        enqueued_times(gauge, n).depth == gauge.depth + n,
        enqueued_times(gauge, n).high_water == (if gauge.depth + n > gauge.high_water {
            gauge.depth + n
        } else {
            gauge.high_water
        }),
    decreases n,
{
    if n > 0 {
        sends_add_up(gauge, (n - 1) as nat);
    }
}

/// What is shown when things have been put in (`true`) and taken out (`false`) in turn, of
/// a queue that was empty.
pub open spec fn gauge_after(turns: Seq<bool>) -> GaugeView
    decreases turns.len(),
{
    if turns.len() == 0 {
        GaugeView { depth: 0, high_water: 0 }
    } else {
        let before = gauge_after(turns.drop_last());
        if turns.last() {
            enqueued(before)
        } else {
            GaugeView { depth: before.depth - 1, ..before }
        }
    }
}

/// The most that ever waited is the largest depth there was: at no time did more wait, and
/// at some time so much did.
pub proof fn high_water_is_the_largest_depth(turns: Seq<bool>)
    ensures
        forall|n: int|
            0 <= n <= turns.len() ==> gauge_after(#[trigger] turns.take(n)).depth
                <= gauge_after(turns).high_water,
        exists|n: int|
            0 <= n <= turns.len() && gauge_after(#[trigger] turns.take(n)).depth == gauge_after(
                turns,
            ).high_water,
    decreases turns.len(),
{
    assert(turns.take(turns.len() as int) =~= turns);
    if turns.len() > 0 {
        let earlier = turns.drop_last();
        high_water_is_the_largest_depth(earlier);
        assert forall|n: int| 0 <= n < turns.len() implies #[trigger] turns.take(n)
            == earlier.take(n) by {
            assert(turns.take(n) =~= earlier.take(n));
        }
        assert forall|n: int| 0 <= n <= turns.len() implies gauge_after(
            #[trigger] turns.take(n),
        ).depth <= gauge_after(turns).high_water by {
            if n < turns.len() {
                assert(turns.take(n) == earlier.take(n));
            } else {
                assert(gauge_after(earlier.take(earlier.len() as int)).depth <= gauge_after(
                    earlier,
                ).high_water);
                assert(earlier.take(earlier.len() as int) =~= earlier);
            }
        }
        let at = choose|n: int|
            0 <= n <= earlier.len() && gauge_after(#[trigger] earlier.take(n)).depth
                == gauge_after(earlier).high_water;
        assert(turns.take(at) == earlier.take(at));
    }
}

} // verus!
