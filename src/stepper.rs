//! The step queue and the pipelined step generator that the timer interrupt
//! runs.
//!
//! The producer side (step expansion) enqueues `StepCommand`s into a bounded
//! single-producer single-consumer ring buffer. On each timer interrupt the
//! controller emits the pulse staged on the previous interrupt, reschedules
//! the timer with that command's interval, updates the position counters,
//! and stages the next command, writing its direction bits ahead of its pulse.
use vstd::prelude::*;

verus! {

/// Largest number of steppers a controller drives.
pub const MAX_STEPPERS: usize = 8;

/// Capacity of the step queue.
pub const QUEUE_CAPACITY: usize = 256;

/// Smallest delay before the first pulse of a run, in timer ticks.
pub const MIN_START_DELAY: u16 = 100;

/// One step interval for the interrupt: which motors pulse, in which
/// direction, and how many timer ticks follow before the next pulse.
#[derive(Clone, Copy, Debug, PartialEq, Eq, Structural, Default)]
pub struct StepCommand {
    /// Bit `i` set: motor `i` pulses.
    pub stepper_mask: u8,
    /// Bit `i` set: motor `i` moves forward.
    pub direction_mask: u8,
    /// Timer ticks after this pulse until the next one.
    pub interval_ticks: u16,
}

impl StepCommand {
    /// A command from its three fields.
    pub fn new(stepper_mask: u8, direction_mask: u8, interval_ticks: u16) -> (r: StepCommand)
        ensures
            r == (StepCommand { stepper_mask, direction_mask, interval_ticks }),
    {
        StepCommand { stepper_mask, direction_mask, interval_ticks }
    }
}

/// Whether bit `i` of `m` is set.
pub open spec fn bit_set(m: u8, i: int) -> bool {
    (m >> (i as u8)) & 1u8 == 1u8
}

/// Whether bit `i` of `m` is set.
pub fn test_bit(m: u8, i: usize) -> (r: bool)
    requires
        i < 8,
    ensures
        r == bit_set(m, i as int),
{
    (m >> (i as u8)) & 1u8 == 1u8
}

/// How far motor `i` moves when `c` executes: +1, -1 or 0.
pub open spec fn step_delta(c: StepCommand, i: int) -> int {
    if bit_set(c.stepper_mask, i) {
        if bit_set(c.direction_mask, i) {
            1
        } else {
            -1
        }
    } else {
        0
    }
}

/// A position counter after moving by `d` (one of -1, 0, 1), wrapping on
/// overflow.
pub open spec fn wrap_move(p: i32, d: int) -> i32 {
    if d > 0 {
        if p == i32::MAX {
            i32::MIN
        } else {
            (p + 1) as i32
        }
    } else if d < 0 {
        if p == i32::MIN {
            i32::MAX
        } else {
            (p - 1) as i32
        }
    } else {
        p
    }
}

/// Slots of the ring buffer: a `heapless` queue of `N` slots holds `N - 1`
/// elements.
pub const RING_SLOTS: usize = 257;

#[verifier::external_type_specification]
#[verifier::external_body]
#[verifier::reject_recursive_types(T)]
pub struct ExSpscQueue<T, const N: usize>(heapless::spsc::Queue<T, N>);

/// The commands held by a ring buffer, oldest first.
pub uninterp spec fn ring_contents(q: heapless::spsc::Queue<StepCommand, 257>) -> Seq<StepCommand>;

/// Relies on heapless::spsc::Queue::new: the queue starts empty.
#[verifier::external_body]
fn ring_new() -> (r: heapless::spsc::Queue<StepCommand, 257>)
    ensures
        ring_contents(r) == Seq::<StepCommand>::empty(),
{
    heapless::spsc::Queue::new()
}

/// Relies on heapless::spsc::Queue::len: the number of held elements.
#[verifier::external_body]
fn ring_len(q: &heapless::spsc::Queue<StepCommand, 257>) -> (r: usize)
    ensures
        r == ring_contents(*q).len(),
{
    q.len()
}

/// Relies on heapless::spsc::Queue::enqueue: appends at the back while fewer
/// than `N - 1` elements are held, and hands the value back otherwise.
#[verifier::external_body]
fn ring_enqueue(
    q: &mut heapless::spsc::Queue<StepCommand, 257>,
    v: StepCommand,
) -> (r: Result<(), StepCommand>)
    ensures
        r is Ok <==> ring_contents(*old(q)).len() < RING_SLOTS - 1,
        r is Ok ==> ring_contents(*final(q)) == ring_contents(*old(q)).push(v),
        r is Err ==> r->Err_0 == v && ring_contents(*final(q)) == ring_contents(*old(q)),
{
    q.enqueue(v)
}

/// Relies on heapless::spsc::Queue::dequeue: takes the front element, or
/// gives `None` where the queue is empty.
#[verifier::external_body]
fn ring_dequeue(q: &mut heapless::spsc::Queue<StepCommand, 257>) -> (r: Option<StepCommand>)
    ensures
        r is None <==> ring_contents(*old(q)).len() == 0,
        r is None ==> ring_contents(*final(q)) == ring_contents(*old(q)),
        r is Some ==> r == Some(ring_contents(*old(q))[0]) && ring_contents(*final(q))
            == ring_contents(*old(q)).drop_first(),
{
    q.dequeue()
}

/// A bounded first-in first-out ring buffer of step commands, with one
/// producer and one consumer. It never blocks: enqueueing on a full queue
/// fails and dequeueing from an empty one gives `None`.
pub struct StepQueue {
    ring: heapless::spsc::Queue<StepCommand, 257>,
}

impl StepQueue {
    /// The queued commands, oldest first.
    pub closed spec fn view(&self) -> Seq<StepCommand> {
        ring_contents(self.ring)
    }

    /// The queue holds at most its capacity.
    pub closed spec fn wf(&self) -> bool {
        ring_contents(self.ring).len() <= QUEUE_CAPACITY
    }

    /// An empty queue.
    pub fn new() -> (r: StepQueue)
        ensures
            r.wf(),
            r.view() == Seq::<StepCommand>::empty(),
    {
        StepQueue { ring: ring_new() }
    }

    /// Number of queued commands.
    pub fn len(&self) -> (r: usize)
        ensures
            r == self.view().len(),
    {
        ring_len(&self.ring)
    }

    /// Whether no command is queued.
    pub fn is_empty(&self) -> (r: bool)
        ensures
            r == (self.view().len() == 0),
    {
        ring_len(&self.ring) == 0
    }

    /// Adds `cmd` at the back; hands it back where the queue is full.
    pub fn enqueue(&mut self, cmd: StepCommand) -> (r: Result<(), StepCommand>)
        requires
            old(self).wf(),
        ensures
            final(self).wf(),
            old(self).view().len() < QUEUE_CAPACITY ==> r is Ok && final(self).view() == old(
                self,
            ).view().push(cmd),
            old(self).view().len() >= QUEUE_CAPACITY ==> r == Err::<(), StepCommand>(cmd)
                && final(self).view() == old(self).view(),
    {
        ring_enqueue(&mut self.ring, cmd)
    }

    /// Takes the command at the front, if any.
    pub fn dequeue(&mut self) -> (r: Option<StepCommand>)
        requires
            old(self).wf(),
        ensures
            final(self).wf(),
            old(self).view().len() == 0 ==> r is None && final(self).view() == old(self).view(),
            old(self).view().len() > 0 ==> r == Some(old(self).view()[0]) && final(self).view()
                == old(self).view().drop_first(),
    {
        ring_dequeue(&mut self.ring)
    }
}

/// Enqueues `cmds[start..]` in order until the queue is full; returns how
/// many were enqueued.
pub fn enqueue_from(queue: &mut StepQueue, cmds: &Vec<StepCommand>, start: usize) -> (n: usize)
    requires
        old(queue).wf(),
        start <= cmds@.len(),
    ensures
        final(queue).wf(),
        n == if cmds@.len() - start < QUEUE_CAPACITY - old(queue).view().len() {
            cmds@.len() - start
        } else {
            QUEUE_CAPACITY - old(queue).view().len()
        },
        final(queue).view() == old(queue).view() + cmds@.subrange(start as int, start + n),
{
    let mut i: usize = start;
    assert(cmds@.subrange(start as int, start as int) =~= Seq::<StepCommand>::empty());
    assert(old(queue).view() + Seq::<StepCommand>::empty() =~= old(queue).view());
    while i < cmds.len()
        invariant
            queue.wf(),
            start <= i <= cmds@.len(),
            queue.view() == old(queue).view() + cmds@.subrange(start as int, i as int),
            i - start <= QUEUE_CAPACITY - old(queue).view().len(),
        decreases cmds@.len() - i,
    {
        match queue.enqueue(cmds[i]) {
            Ok(()) => {
                assert(old(queue).view() + cmds@.subrange(start as int, i + 1) =~= (old(queue).view()
                    + cmds@.subrange(start as int, i as int)).push(cmds@[i as int]));
                i += 1;
            },
            Err(_) => {
                return i - start;
            },
        }
    }
    i - start
}

/// An operation on the step queue.
pub enum QueueOp {
    Enqueue(StepCommand),
    Dequeue,
}

/// The queue contents, the commands accepted by enqueues, and the commands
/// handed out by dequeues, after `ops` run on a queue holding `q`, as
/// `enqueue` and `dequeue` state them.
pub open spec fn run_queue(q: Seq<StepCommand>, ops: Seq<QueueOp>) -> (
    Seq<StepCommand>,
    Seq<StepCommand>,
    Seq<StepCommand>,
)
    decreases ops.len(),
{
    if ops.len() == 0 {
        (q, seq![], seq![])
    } else {
        let (cur, accepted, out) = run_queue(q, ops.drop_last());
        match ops.last() {
            QueueOp::Enqueue(c) => if cur.len() < QUEUE_CAPACITY {
                (cur.push(c), accepted.push(c), out)
            } else {
                (cur, accepted, out)
            },
            QueueOp::Dequeue => if cur.len() > 0 {
                (cur.drop_first(), accepted, out.push(cur[0]))
            } else {
                (cur, accepted, out)
            },
        }
    }
}

/// For every trace of operations, the commands dequeued followed by those
/// still queued are the commands first queued followed by those accepted,
/// in order: the consumer sees the producer's commands in enqueue order.
pub proof fn lemma_queue_order(q: Seq<StepCommand>, ops: Seq<QueueOp>)
    ensures
        run_queue(q, ops).2 + run_queue(q, ops).0 == q + run_queue(q, ops).1,
    decreases ops.len(),
{
    if ops.len() > 0 {
        lemma_queue_order(q, ops.drop_last());
        let (cur, accepted, out) = run_queue(q, ops.drop_last());
        match ops.last() {
            QueueOp::Enqueue(c) => {
                assert(out + cur.push(c) =~= (out + cur).push(c));
                assert(q + accepted.push(c) =~= (q + accepted).push(c));
            },
            QueueOp::Dequeue => {
                if cur.len() > 0 {
                    assert(out.push(cur[0]) + cur.drop_first() =~= out + cur);
                }
            },
        }
    } else {
        assert(Seq::<StepCommand>::empty() + q =~= q + Seq::<StepCommand>::empty());
    }
}

/// What the timer is told after a pulse.
#[derive(Clone, Copy, Debug, PartialEq, Eq, Structural)]
pub enum TimerAction {
    /// Fire again after this many ticks.
    Schedule(u16),
    /// Fire again at once.
    TriggerNow,
}

/// The hardware operations of one interrupt, in the order they are made:
/// the pulse, the timer, the direction port, and finally whether to stop the
/// timer.
#[derive(Clone, Copy, Debug, PartialEq, Eq, Structural)]
pub struct IsrOutput {
    /// Motors to pulse (set and clear at once); `None` where nothing pulses.
    pub pulse: Option<u8>,
    /// How the timer is rescheduled, where a pulse was emitted.
    pub reschedule: Option<TimerAction>,
    /// Direction mask written ahead of the next pulse, where it changed.
    pub direction_write: Option<u8>,
    /// Whether the timer is stopped last.
    pub stop: bool,
}

/// A GPIO port with atomic bit set and reset.
pub trait AtomicGpioPort {
    /// Sets the pins of `set_mask` and clears those of `clear_mask` at once.
    fn set_and_clear_atomic(&mut self, set_mask: u8, clear_mask: u8);

    /// Writes the whole port.
    fn write(&mut self, mask: u8);
}

/// The step timer.
pub trait Timer {
    /// Fires the interrupt after `ticks` ticks.
    fn schedule_next(&mut self, ticks: u16);

    /// Fires the interrupt at once.
    fn trigger_now(&mut self);

    /// Stops the timer.
    fn stop(&mut self);
}

/// The pipelined step generator: per-motor position counters, the cached
/// direction port value, and the command staged for the next interrupt.
#[derive(Clone, Copy, Debug)]
pub struct StepperController {
    positions: [i32; 8],
    num_steppers: usize,
    current_directions: u8,
    next_command: Option<StepCommand>,
}

impl StepperController {
    /// Position counters of the motors.
    pub closed spec fn positions(&self) -> Seq<i32> {
        self.positions@.subrange(0, self.num_steppers as int)
    }

    /// The command staged for the next interrupt.
    pub closed spec fn staged(&self) -> Option<StepCommand> {
        self.next_command
    }

    /// The value last written to the direction port.
    pub closed spec fn directions(&self) -> u8 {
        self.current_directions
    }

    /// Number of motors driven.
    pub closed spec fn steppers(&self) -> nat {
        self.num_steppers as nat
    }

    /// Internal consistency.
    pub closed spec fn wf(&self) -> bool {
        self.num_steppers <= MAX_STEPPERS
    }

    /// A controller for `num_steppers` motors, all at position 0, with
    /// nothing staged.
    pub fn new(num_steppers: usize) -> (r: StepperController)
        requires
            num_steppers <= MAX_STEPPERS,
        ensures
            r.wf(),
            r.steppers() == num_steppers,
            r.positions() == Seq::new(num_steppers as nat, |i: int| 0i32),
            r.staged() is None,
            r.directions() == 0,
    {
        let r = StepperController {
            positions: [0i32; 8],
            num_steppers,
            current_directions: 0,
            next_command: None,
        };
        assert(r.positions() =~= Seq::new(num_steppers as nat, |i: int| 0i32));
        r
    }

    /// Position of motor `i`, if it is driven.
    pub fn get_position(&self, i: usize) -> (r: Option<i32>)
        requires
            self.wf(),
        ensures
            i < self.steppers() ==> r == Some(self.positions()[i as int]),
            i >= self.steppers() ==> r is None,
    {
        if i < self.num_steppers {
            Some(self.positions[i])
        } else {
            None
        }
    }

    /// The command staged for the next interrupt.
    pub fn next_command(&self) -> (r: Option<StepCommand>)
        ensures
            r == self.staged(),
    {
        self.next_command
    }

    /// Dequeues the next command and stages it; returns the direction mask
    /// written to the port, where it changed.
    fn prepare_next_command(&mut self, queue: &mut StepQueue) -> (w: Option<u8>)
        requires
            old(queue).wf(),
        ensures
            final(queue).wf(),
            final(self).positions() == old(self).positions(),
            final(self).steppers() == old(self).steppers(),
            final(self).wf() == old(self).wf(),
            old(queue).view().len() == 0 ==> final(self).staged() is None && final(queue).view()
                == old(queue).view() && w is None && final(self).directions() == old(self).directions(),
            old(queue).view().len() > 0 ==> {
                let c = old(queue).view()[0];
                &&& final(self).staged() == Some(c)
                &&& final(queue).view() == old(queue).view().drop_first()
                &&& final(self).directions() == c.direction_mask
                &&& w == if c.direction_mask != old(self).directions() {
                    Some(c.direction_mask)
                } else {
                    None::<u8>
                }
            },
    {
        match queue.dequeue() {
            Some(cmd) => {
                let mut w: Option<u8> = None;
                let cur = self.current_directions;
                let dm = cmd.direction_mask;
                assert((cur ^ dm == 0) == (cur == dm)) by (bit_vector);
                if cur ^ dm != 0 {
                    w = Some(cmd.direction_mask);
                    self.current_directions = cmd.direction_mask;
                }
                self.next_command = Some(cmd);
                w
            },
            None => {
                self.next_command = None;
                None
            },
        }
    }

    /// Moves each motor by the command's step and direction bits.
    fn update_positions(&mut self, cmd: StepCommand)
        requires
            old(self).wf(),
        ensures
            final(self).wf(),
            final(self).steppers() == old(self).steppers(),
            final(self).staged() == old(self).staged(),
            final(self).directions() == old(self).directions(),
            final(self).positions().len() == old(self).positions().len(),
            forall|i: int|
                0 <= i < old(self).positions().len() ==> final(self).positions()[i] == wrap_move(
                    old(self).positions()[i],
                    step_delta(cmd, i),
                ),
    {
        let mut i: usize = 0;
        while i < self.num_steppers
            invariant
                self.wf(),
                i <= self.num_steppers,
                self.num_steppers == old(self).num_steppers,
                self.next_command == old(self).next_command,
                self.current_directions == old(self).current_directions,
                forall|j: int|
                    0 <= j < i ==> self.positions@[j] == wrap_move(
                        old(self).positions@[j],
                        step_delta(cmd, j),
                    ),
                forall|j: int| i <= j < 8 ==> self.positions@[j] == old(self).positions@[j],
            decreases self.num_steppers - i,
        {
            if test_bit(cmd.stepper_mask, i) {
                let p = self.positions[i];
                if test_bit(cmd.direction_mask, i) {
                    self.positions[i] = if p == i32::MAX {
                        i32::MIN
                    } else {
                        p + 1
                    };
                } else {
                    self.positions[i] = if p == i32::MIN {
                        i32::MAX
                    } else {
                        p - 1
                    };
                }
            }
            i += 1;
        }
    }

    /// What one interrupt does: from `before` with the queue `q0` to `after`
    /// with the queue `q1`, with output `r`. Nothing staged: nothing pulses and
    /// the timer stops. Otherwise the staged command pulses, the timer is
    /// rescheduled with its interval (at once for 0), the counters move, and
    /// the front of the queue is staged, its direction written where it
    /// changed; with the queue empty the timer stops.
    #[verifier::opaque]
    pub open spec fn interrupted(
        before: StepperController,
        q0: Seq<StepCommand>,
        r: IsrOutput,
        after: StepperController,
        q1: Seq<StepCommand>,
    ) -> bool {
        &&& after.steppers() == before.steppers()
        &&& before.staged() is None ==> r == (IsrOutput {
            pulse: None,
            reschedule: None,
            direction_write: None,
            stop: true,
        }) && after.positions() == before.positions() && q1 == q0 && after.staged() is None
        &&& before.staged() is Some ==> {
            let c = before.staged()->Some_0;
            &&& r.pulse == Some(c.stepper_mask)
            &&& r.reschedule == Some(
                if c.interval_ticks > 0 {
                    TimerAction::Schedule(c.interval_ticks)
                } else {
                    TimerAction::TriggerNow
                },
            )
            &&& after.positions().len() == before.positions().len()
            &&& forall|i: int|
                0 <= i < before.positions().len() ==> after.positions()[i] == wrap_move(
                    before.positions()[i],
                    step_delta(c, i),
                )
            &&& r.stop == (q0.len() == 0)
            &&& q0.len() == 0 ==> after.staged() is None && q1 == q0 && r.direction_write is None
            &&& q0.len() > 0 ==> after.staged() == Some(q0[0]) && q1 == q0.drop_first()
                && r.direction_write == if q0[0].direction_mask != before.directions() {
                Some(q0[0].direction_mask)
            } else {
                None::<u8>
            }
        }
    }

    /// What priming does: from `before` with the queue `q0` to `after` with
    /// the queue `q1`, returning the direction write and the first delay.
    #[verifier::opaque]
    pub open spec fn primed(
        before: StepperController,
        q0: Seq<StepCommand>,
        r: (Option<u8>, Option<u16>),
        after: StepperController,
        q1: Seq<StepCommand>,
    ) -> bool {
        &&& after.positions() == before.positions()
        &&& after.steppers() == before.steppers()
        &&& q0.len() == 0 ==> after.staged() is None && r == (None::<u8>, None::<u16>) && q1 == q0
        &&& q0.len() > 0 ==> {
            let c = q0[0];
            &&& after.staged() == Some(c)
            &&& q1 == q0.drop_first()
            &&& r.0 == if c.direction_mask != before.directions() {
                Some(c.direction_mask)
            } else {
                None::<u8>
            }
            &&& r.1 == Some(
                if c.interval_ticks > MIN_START_DELAY {
                    c.interval_ticks
                } else {
                    MIN_START_DELAY
                },
            )
        }
    }

    /// Primes the pipeline: stages the first command, writing its direction
    /// bits. Returns the direction write and the delay before the first
    /// interrupt: the command's interval, but at least `MIN_START_DELAY`.
    pub fn prime(&mut self, queue: &mut StepQueue) -> (r: (Option<u8>, Option<u16>))
        requires
            old(self).wf(),
            old(queue).wf(),
        ensures
            final(self).wf(),
            final(queue).wf(),
            Self::primed(*old(self), old(queue).view(), r, *final(self), final(queue).view()),
    {
        proof {
            reveal(StepperController::primed);
        }
        let w = self.prepare_next_command(queue);
        match self.next_command {
            Some(cmd) => {
                let delay = if cmd.interval_ticks > MIN_START_DELAY {
                    cmd.interval_ticks
                } else {
                    MIN_START_DELAY
                };
                (w, Some(delay))
            },
            None => (w, None),
        }
    }

    /// The decisions of one timer interrupt. Executes the staged command:
    /// pulses its motors, reschedules the timer with its interval (at once
    /// where the interval is 0), moves the position counters, and stages the
    /// next command from the queue. Where nothing is left to stage, or
    /// nothing was staged, the timer is stopped.
    pub fn interrupt(&mut self, queue: &mut StepQueue) -> (r: IsrOutput)
        requires
            old(self).wf(),
            old(queue).wf(),
        ensures
            final(self).wf(),
            final(queue).wf(),
            Self::interrupted(*old(self), old(queue).view(), r, *final(self), final(queue).view()),
    {
        proof {
            reveal(StepperController::interrupted);
        }
        match self.next_command {
            Some(cmd) => {
                self.next_command = None;
                let reschedule = if cmd.interval_ticks > 0 {
                    TimerAction::Schedule(cmd.interval_ticks)
                } else {
                    TimerAction::TriggerNow
                };
                self.update_positions(cmd);
                let w = self.prepare_next_command(queue);
                let stop = self.next_command.is_none();
                IsrOutput {
                    pulse: Some(cmd.stepper_mask),
                    reschedule: Some(reschedule),
                    direction_write: w,
                    stop,
                }
            },
            None => IsrOutput { pulse: None, reschedule: None, direction_write: None, stop: true },
        }
    }

    /// Starts a run: stages the first command, writes its direction bits
    /// where they changed and schedules the first interrupt after the delay
    /// that `prime` gives; returns that direction write and delay.
    pub fn start<D: AtomicGpioPort, T: Timer>(
        &mut self,
        queue: &mut StepQueue,
        dir_port: &mut D,
        timer: &mut T,
    ) -> (r: (Option<u8>, Option<u16>))
        requires
            old(self).wf(),
            old(queue).wf(),
        ensures
            final(self).wf(),
            final(queue).wf(),
            Self::primed(*old(self), old(queue).view(), r, *final(self), final(queue).view()),
    {
        let (w, delay) = self.prime(queue);
        if let Some(mask) = w {
            dir_port.write(mask);
        }
        if let Some(ticks) = delay {
            timer.schedule_next(ticks);
        }
        (w, delay)
    }

    /// The timer interrupt handler: makes the hardware operations that
    /// `interrupt` decides, in its order, and returns them.
    pub fn on_timer_interrupt<S: AtomicGpioPort, D: AtomicGpioPort, T: Timer>(
        &mut self,
        queue: &mut StepQueue,
        step_port: &mut S,
        dir_port: &mut D,
        timer: &mut T,
    ) -> (r: IsrOutput)
        requires
            old(self).wf(),
            old(queue).wf(),
        ensures
            final(self).wf(),
            final(queue).wf(),
            Self::interrupted(*old(self), old(queue).view(), r, *final(self), final(queue).view()),
    {
        let out = self.interrupt(queue);
        if let Some(mask) = out.pulse {
            step_port.set_and_clear_atomic(mask, mask);
        }
        match out.reschedule {
            Some(TimerAction::Schedule(ticks)) => timer.schedule_next(ticks),
            Some(TimerAction::TriggerNow) => timer.trigger_now(),
            None => {},
        }
        if let Some(mask) = out.direction_write {
            dir_port.write(mask);
        }
        if out.stop {
            timer.stop();
        }
        out
    }
}

/// One interrupt with `c` staged and the queue `q0`: `c` pulses, the
/// counters move by it, and the front of the queue is staged next.
pub proof fn lemma_interrupt_step(
    b: StepperController,
    q0: Seq<StepCommand>,
    r: IsrOutput,
    a: StepperController,
    q1: Seq<StepCommand>,
    c: StepCommand,
)
    requires
        StepperController::interrupted(b, q0, r, a, q1),
        b.staged() == Some(c),
    ensures
        r.pulse == Some(c.stepper_mask),
        r.stop == (q0.len() == 0),
        a.positions().len() == b.positions().len(),
        forall|i: int|
            0 <= i < b.positions().len() ==> #[trigger] a.positions()[i] == wrap_move(
                b.positions()[i],
                step_delta(c, i),
            ),
        q0.len() > 0 ==> a.staged() == Some(q0[0]) && q1 == q0.drop_first(),
        q0.len() == 0 ==> a.staged() is None && q1 == q0,
{
    reveal(StepperController::interrupted);
}

/// Priming with the queue `q0` holding at least one command stages its
/// front and leaves the counters alone.
pub proof fn lemma_prime_step(
    b: StepperController,
    q0: Seq<StepCommand>,
    r: (Option<u8>, Option<u16>),
    a: StepperController,
    q1: Seq<StepCommand>,
)
    requires
        StepperController::primed(b, q0, r, a, q1),
        q0.len() > 0,
    ensures
        a.staged() == Some(q0[0]),
        q1 == q0.drop_first(),
        a.positions() == b.positions(),
{
    reveal(StepperController::primed);
}

} // verus!
