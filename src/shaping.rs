//! Input shaping on the integer side: each nominal step, at an absolute
//! tick, becomes one event per impulse of the shaper, delayed by the
//! impulse's offset in ticks; the events are ordered by time and turned into
//! `StepCommand`s by taking the deltas between successive event times.
use vstd::prelude::*;
use vstd::multiset::Multiset;
use crate::stepper::StepCommand;

verus! {

/// The kind of input shaper; its impulse train follows from the kind, the
/// natural frequency and the damping ratio.
#[derive(Clone, Copy, Debug, PartialEq, Eq, Structural, Default)]
pub enum ShaperType {
    /// No shaping: a single impulse.
    #[default]
    Unshaped,
    /// Zero vibration: two impulses.
    ZV,
    /// Modified zero vibration: three impulses.
    MZV,
    /// Extra insensitive: four impulses.
    EI,
    /// Zero vibration and derivative: three impulses.
    ZVD,
}

/// Number of impulses of a shaper of kind `t`.
pub open spec fn impulse_count_of(t: ShaperType) -> nat {
    match t {
        ShaperType::Unshaped => 1,
        ShaperType::ZV => 2,
        ShaperType::MZV => 3,
        ShaperType::EI => 4,
        ShaperType::ZVD => 3,
    }
}

/// Number of impulses of a shaper of kind `t`.
pub fn impulse_count(t: ShaperType) -> (r: usize)
    ensures
        r == impulse_count_of(t),
{
    match t {
        ShaperType::Unshaped => 1,
        ShaperType::ZV => 2,
        ShaperType::MZV => 3,
        ShaperType::EI => 4,
        ShaperType::ZVD => 3,
    }
}

/// `a + b`, saturated at `u32::MAX`.
pub open spec fn sat_add(a: u32, b: u32) -> u32 {
    if a + b > u32::MAX {
        u32::MAX
    } else {
        (a + b) as u32
    }
}

/// The events of one nominal step: one per impulse offset.
pub open spec fn step_events(step: (u32, u8), offsets: Seq<u32>) -> Seq<(u32, u8)> {
    offsets.map_values(|o: u32| (sat_add(step.0, o), step.1))
}

/// The events of all nominal steps, step by step.
pub open spec fn shaped_events(nominal: Seq<(u32, u8)>, offsets: Seq<u32>) -> Seq<(u32, u8)>
    decreases nominal.len(),
{
    if nominal.len() == 0 {
        seq![]
    } else {
        shaped_events(nominal.drop_last(), offsets) + step_events(nominal.last(), offsets)
    }
}

/// Whether events are in nondecreasing time order.
pub open spec fn time_ordered(s: Seq<(u32, u8)>) -> bool {
    forall|i: int, j: int| 0 <= i <= j < s.len() ==> s[i].0 <= s[j].0
}

/// The order of `(u32, u8)` tuples that std documents: lexicographic.
pub open spec fn event_le(a: (u32, u8), b: (u32, u8)) -> bool {
    a.0 < b.0 || (a.0 == b.0 && a.1 <= b.1)
}

/// Largest number of shaped events of one move.
pub const EVENT_CAPACITY: usize = 2048;

#[verifier::external_type_specification]
#[verifier::external_body]
#[verifier::reject_recursive_types(T)]
#[verifier::reject_recursive_types(K)]
pub struct ExBinaryHeap<T, K, const N: usize>(heapless::binary_heap::BinaryHeap<T, K, N>);

#[verifier::external_type_specification]
#[verifier::external_body]
pub struct ExMin(heapless::binary_heap::Min);

/// The events held by a min-heap.
pub uninterp spec fn heap_contents(
    h: heapless::binary_heap::BinaryHeap<(u32, u8), heapless::binary_heap::Min, 2048>,
) -> Multiset<(u32, u8)>;

/// Relies on heapless::binary_heap::BinaryHeap::new: the heap starts empty.
#[verifier::external_body]
fn heap_new() -> (r: heapless::binary_heap::BinaryHeap<(u32, u8), heapless::binary_heap::Min, 2048>)
    ensures
        heap_contents(r) == Multiset::<(u32, u8)>::empty(),
{
    heapless::binary_heap::BinaryHeap::new()
}

/// Relies on heapless::binary_heap::BinaryHeap::push: adds the item while
/// fewer than `N` are held, and hands it back otherwise.
#[verifier::external_body]
fn heap_push(
    h: &mut heapless::binary_heap::BinaryHeap<(u32, u8), heapless::binary_heap::Min, 2048>,
    e: (u32, u8),
) -> (r: Result<(), (u32, u8)>)
    ensures
        r is Ok <==> heap_contents(*old(h)).len() < EVENT_CAPACITY,
        r is Ok ==> heap_contents(*final(h)) == heap_contents(*old(h)).insert(e),
        r is Err ==> r->Err_0 == e && heap_contents(*final(h)) == heap_contents(*old(h)),
{
    h.push(e)
}

/// Relies on heapless::binary_heap::BinaryHeap::pop on a min-heap: takes an
/// item that no held item is below, or gives `None` where it is empty.
#[verifier::external_body]
fn heap_pop(
    h: &mut heapless::binary_heap::BinaryHeap<(u32, u8), heapless::binary_heap::Min, 2048>,
) -> (r: Option<(u32, u8)>)
    ensures
        r is None <==> heap_contents(*old(h)).len() == 0,
        r is None ==> heap_contents(*final(h)) == heap_contents(*old(h)),
        r is Some ==> heap_contents(*old(h)).contains(r->Some_0) && heap_contents(*final(h))
            == heap_contents(*old(h)).remove(r->Some_0) && forall|x: (u32, u8)|
            #[trigger] heap_contents(*old(h)).contains(x) ==> event_le(r->Some_0, x),
{
    h.pop()
}

/// The shaped events of the nominal steps `(absolute tick, stepper mask)`
/// for impulse offsets `offsets` (ticks), ordered by time; `None` where
/// there are more than `EVENT_CAPACITY` of them.
pub fn schedule_shaped(nominal: &Vec<(u32, u8)>, offsets: &Vec<u32>) -> (r: Option<Vec<(u32, u8)>>)
    ensures
        shaped_events(nominal@, offsets@).len() <= EVENT_CAPACITY <==> r is Some,
        r is Some ==> time_ordered(r->Some_0@) && r->Some_0@.to_multiset() == shaped_events(
            nominal@,
            offsets@,
        ).to_multiset(),
{
    let mut heap = heap_new();
    let mut n: usize = 0;
    proof {
        assert(nominal@.subrange(0, 0) =~= Seq::<(u32, u8)>::empty());
        Seq::<(u32, u8)>::empty().to_multiset_ensures();
        vstd::multiset::lemma_multiset_empty_len(Seq::<(u32, u8)>::empty().to_multiset());
        assert(shaped_events(nominal@.subrange(0, 0), offsets@) =~= Seq::<(u32, u8)>::empty());
    }
    while n < nominal.len()
        invariant
            n <= nominal@.len(),
            heap_contents(heap) == shaped_events(nominal@.subrange(0, n as int), offsets@).to_multiset(),
            shaped_events(nominal@.subrange(0, n as int), offsets@).len() <= EVENT_CAPACITY,
        decreases nominal@.len() - n,
    {
        let (t, m) = nominal[n];
        let ghost done = shaped_events(nominal@.subrange(0, n as int), offsets@);
        let mut k: usize = 0;
        proof {
            assert(done + step_events((t, m), offsets@).subrange(0, 0) =~= done);
        }
        while k < offsets.len()
            invariant
                k <= offsets@.len(),
                n < nominal@.len(),
                nominal@[n as int] == (t, m),
                done == shaped_events(nominal@.subrange(0, n as int), offsets@),
                heap_contents(heap) == (done + step_events((t, m), offsets@).subrange(0, k as int)).to_multiset(),
                done.len() + k <= EVENT_CAPACITY,
            decreases offsets@.len() - k,
        {
            let o = offsets[k];
            let time: u32 = if t as u64 + o as u64 > u32::MAX as u64 {
                u32::MAX
            } else {
                t + o
            };
            let ghost pre = done + step_events((t, m), offsets@).subrange(0, k as int);
            proof {
                pre.to_multiset_ensures();
            }
            match heap_push(&mut heap, (time, m)) {
                Ok(()) => {},
                Err(_) => {
                    proof {
                        lemma_events_grow(nominal@, offsets@, n as int, k as int);
                        assert(pre.len() == done.len() + k);
                        assert(heap_contents(heap) == pre.to_multiset());
                    }
                    return None;
                },
            }
            proof {
                assert(done + step_events((t, m), offsets@).subrange(0, k + 1) =~= pre.push((time, m)));
                vstd::seq_lib::to_multiset_build(pre, (time, m));
                pre.push((time, m)).to_multiset_ensures();
            }
            k += 1;
        }
        proof {
            let next = nominal@.subrange(0, n + 1);
            assert(next.drop_last() =~= nominal@.subrange(0, n as int));
            assert(next.last() == (t, m));
            assert(step_events((t, m), offsets@).subrange(0, offsets@.len() as int) =~= step_events((t, m), offsets@));
        }
        n += 1;
    }
    proof {
        assert(nominal@.subrange(0, nominal@.len() as int) =~= nominal@);
    }
    let ghost all = heap_contents(heap);
    let mut out: Vec<(u32, u8)> = Vec::new();
    proof {
        out@.to_multiset_ensures();
        assert(out@.to_multiset().add(heap_contents(heap)) =~= all);
    }
    loop
        invariant
            time_ordered(out@),
            out@.to_multiset().add(heap_contents(heap)) == all,
            out@.len() > 0 ==> forall|x: (u32, u8)| #[trigger] heap_contents(heap).contains(x) ==> event_le(out@.last(), x),
        ensures
            time_ordered(out@),
            out@.to_multiset() == all,
        decreases heap_contents(heap).len(),
    {
        let ghost before = heap_contents(heap);
        match heap_pop(&mut heap) {
            None => {
                proof {
                    vstd::multiset::lemma_multiset_empty_len(heap_contents(heap));
                    assert(heap_contents(heap) =~= Multiset::<(u32, u8)>::empty());
                    assert(out@.to_multiset().add(Multiset::<(u32, u8)>::empty()) =~= out@.to_multiset());
                }
                break;
            },
            Some(e) => {
                let ghost prev = out@;
                out.push(e);
                proof {
                    vstd::seq_lib::to_multiset_build(prev, e);
                    assert(prev.to_multiset().insert(e).add(before.remove(e)) =~= prev.to_multiset().add(before));
                    assert forall|i: int, j: int| 0 <= i <= j < out@.len() implies out@[i].0 <= out@[j].0 by {
                        if j == out@.len() - 1 && i < j {
                            assert(prev[i].0 <= prev.last().0);
                        }
                    }
                    assert forall|x: (u32, u8)| #[trigger] heap_contents(heap).contains(x) implies event_le(e, x) by {
                        assert(before.contains(x));
                    }
                }
            },
        }
    }
    Some(out)
}

proof fn lemma_events_len(nominal: Seq<(u32, u8)>, offsets: Seq<u32>)
    ensures
        shaped_events(nominal, offsets).len() == nominal.len() * offsets.len(),
    decreases nominal.len(),
{
    if nominal.len() > 0 {
        lemma_events_len(nominal.drop_last(), offsets);
        assert(nominal.len() * offsets.len() == (nominal.len() - 1) * offsets.len() + offsets.len()) by (nonlinear_arith);
    }
}

proof fn lemma_events_grow(nominal: Seq<(u32, u8)>, offsets: Seq<u32>, n: int, k: int)
    requires
        0 <= n < nominal.len(),
        0 <= k < offsets.len(),
    ensures
        shaped_events(nominal, offsets).len() > shaped_events(nominal.subrange(0, n), offsets).len() + k,
{
    lemma_events_len(nominal, offsets);
    lemma_events_len(nominal.subrange(0, n), offsets);
    assert(nominal.len() * offsets.len() >= (n + 1) * offsets.len()) by (nonlinear_arith)
        requires
            nominal.len() >= n + 1,
    ;
    assert((n + 1) * offsets.len() == n * offsets.len() + offsets.len()) by (nonlinear_arith);
}

/// Absolute tick of command `j` of a run starting at tick 0: the sum of
/// the intervals of commands `0..=j`, saturated at `u32::MAX`.
pub open spec fn pulse_time(cmds: Seq<StepCommand>, j: int) -> u32
    decreases j + 1,
{
    if j < 0 {
        0
    } else {
        sat_add(pulse_time(cmds, j - 1), cmds[j].interval_ticks as u32)
    }
}

/// The nominal steps `(absolute tick, stepper mask)` of a run of commands.
pub fn nominal_steps(cmds: &Vec<StepCommand>) -> (r: Vec<(u32, u8)>)
    ensures
        r@.len() == cmds@.len(),
        forall|j: int|
            0 <= j < cmds@.len() ==> #[trigger] r@[j] == (pulse_time(cmds@, j), cmds@[j].stepper_mask),
{
    let mut out: Vec<(u32, u8)> = Vec::new();
    let mut now: u32 = 0;
    let mut j: usize = 0;
    while j < cmds.len()
        invariant
            j <= cmds@.len(),
            out@.len() == j,
            now == pulse_time(cmds@, j - 1),
            forall|k: int|
                0 <= k < j ==> #[trigger] out@[k] == (pulse_time(cmds@, k), cmds@[k].stepper_mask),
        decreases cmds@.len() - j,
    {
        let c = cmds[j];
        now = if now as u64 + c.interval_ticks as u64 > u32::MAX as u64 {
            u32::MAX
        } else {
            now + c.interval_ticks as u32
        };
        out.push((now, c.stepper_mask));
        j += 1;
    }
    out
}

/// Time of the event before event `i`, 0 for the first.
pub open spec fn prev_time(s: Seq<(u32, u8)>, i: int) -> u32 {
    if i == 0 {
        0
    } else {
        s[i - 1].0
    }
}

/// Step commands for time-ordered events: each pulses the event's motors,
/// and its interval is the ticks since the previous event (since tick 0 for
/// the first), saturated at `u16::MAX`; events at the same tick are one tick
/// apart, so no interval is 0.
pub fn events_to_commands(events: &Vec<(u32, u8)>, direction_mask: u8) -> (r: Vec<StepCommand>)
    requires
        time_ordered(events@),
    ensures
        r@.len() == events@.len(),
        forall|i: int|
            0 <= i < events@.len() ==> {
                let c = #[trigger] r@[i];
                let delta = events@[i].0 - prev_time(events@, i);
                &&& c.stepper_mask == events@[i].1
                &&& c.direction_mask == direction_mask
                &&& c.interval_ticks as int == if delta == 0 {
                    1
                } else if delta > u16::MAX {
                    u16::MAX as int
                } else {
                    delta
                }
            },
{
    let mut out: Vec<StepCommand> = Vec::new();
    let mut prev: u32 = 0;
    let mut i: usize = 0;
    while i < events.len()
        invariant
            i <= events@.len(),
            time_ordered(events@),
            out@.len() == i,
            prev == prev_time(events@, i as int),
            forall|j: int|
                0 <= j < i ==> {
                    let c = #[trigger] out@[j];
                    let delta = events@[j].0 - prev_time(events@, j);
                    &&& c.stepper_mask == events@[j].1
                    &&& c.direction_mask == direction_mask
                    &&& c.interval_ticks as int == if delta == 0 {
                        1
                    } else if delta > u16::MAX {
                        u16::MAX as int
                    } else {
                        delta
                    }
                },
        decreases events@.len() - i,
    {
        let (t, m) = events[i];
        assert(prev <= t) by {
            if i > 0 {
                assert(events@[i - 1].0 <= events@[i as int].0);
            }
        }
        let delta: u32 = t - prev;
        let interval: u16 = if delta == 0 {
            1
        } else if delta > u16::MAX as u32 {
            u16::MAX
        } else {
            delta as u16
        };
        out.push(StepCommand { stepper_mask: m, direction_mask, interval_ticks: interval });
        prev = t;
        i += 1;
    }
    out
}

} // verus!
