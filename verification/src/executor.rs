//! The single-threaded executor: its run queue, the life of its tasks, and how it goes to sleep.

use vstd::prelude::*;

verus! {

/// The bit of a task that is alive.
pub const STATE_SPAWNED: u8 = 1;

/// The bit of a task that stands in the run queue.
pub const STATE_RUN_QUEUED: u8 = 2;

/// The task is alive.
pub open spec fn is_spawned(state: u8) -> bool {
    state & 1 == 1
}

/// The task stands in the run queue.
pub open spec fn is_queued(state: u8) -> bool {
    state & 2 == 2
}

/// A task's state as its two bits.
pub open spec fn has_bits(state: u8, spawned: bool, queued: bool) -> bool {
    is_spawned(state) == spawned && is_queued(state) == queued
}

/// The state of a new task: alive and queued for its first poll.
pub fn new_task_state() -> (r: u8)
    ensures
        r == 3,
        has_bits(r, true, true),
{
    assert(3u8 & 1 == 1 && 3u8 & 2 == 2) by (bit_vector);
    3
}

/// The state of a task after a wake, and whether the task is to be put in the run queue. A task
/// that is dead or already queued stays as it is.
pub fn wake_state(state: u8) -> (r: (u8, bool))
    ensures
        r.1 == (is_spawned(state) && !is_queued(state)),
        r.0 == (if r.1 {
            state | STATE_RUN_QUEUED
        } else {
            state
        }),
        r.1 ==> has_bits(r.0, true, true),
{
    assert(state & 1 == 0 || state & 1 == 1) by (bit_vector);
    assert(state & 2 == 0 || state & 2 == 2) by (bit_vector);
    if state & STATE_SPAWNED == 0 || state & STATE_RUN_QUEUED != 0 {
        (state, false)
    } else {
        assert((state | 2) & 2 == 2 && (state | 2) & 1 == state & 1) by (bit_vector);
        (state | STATE_RUN_QUEUED, true)
    }
}

/// The state of a task that was taken out of the run queue: it can be woken again.
pub fn dequeued_state(state: u8) -> (r: u8)
    ensures
        r == state & !STATE_RUN_QUEUED,
        has_bits(r, is_spawned(state), false),
{
    assert((state & !2u8) & 2 == 0 && (state & !2u8) & 1 == state & 1) by (bit_vector);
    state & !STATE_RUN_QUEUED
}

/// The state of a task that is done: wakes no longer reach it.
pub fn finished_state(state: u8) -> (r: u8)
    ensures
        r == state & !STATE_SPAWNED,
        has_bits(r, false, is_queued(state)),
{
    assert((state & !1u8) & 1 == 0 && (state & !1u8) & 2 == state & 2) by (bit_vector);
    state & !STATE_SPAWNED
}

/// Whether a task that was taken out of the run queue is to be polled: one that is done is not.
pub fn is_alive(state: u8) -> (r: bool)
    ensures
        r == is_spawned(state),
{
    assert(state & 1 == 0 || state & 1 == 1) by (bit_vector);
    state & STATE_SPAWNED != 0
}

/// A stack that is filled one by one and emptied at once.
pub struct TransferStack {
    nodes: Vec<usize>,
}

impl View for TransferStack {
    type V = Seq<usize>;

    /// The nodes, the one pushed last at the end.
    closed spec fn view(&self) -> Seq<usize> {
        self.nodes@
    }
}

impl TransferStack {
    pub fn new() -> (r: Self)
        ensures
            r@ == Seq::<usize>::empty(),
    {
        TransferStack { nodes: Vec::new() }
    }

    /// Pushes a node. Returns whether the stack was empty.
    pub fn push_was_empty(&mut self, node: usize) -> (r: bool)
        ensures
            final(self)@ == old(self)@.push(node),
            r == (old(self)@.len() == 0),
    {
        let empty = self.nodes.len() == 0;
        self.nodes.push(node);
        empty
    }

    /// Takes all nodes out.
    pub fn take_all(&mut self) -> (r: Vec<usize>)
        ensures
            r@ == old(self)@,
            final(self)@ == Seq::<usize>::empty(),
    {
        let mut taken: Vec<usize> = Vec::new();
        std::mem::swap(&mut self.nodes, &mut taken);
        taken
    }

    pub fn is_empty(&self) -> (r: bool)
        ensures
            r == (self@.len() == 0),
    {
        self.nodes.len() == 0
    }
}

/// The number of tasks that are alive.
pub open spec fn alive(states: Seq<u8>) -> nat
    decreases states.len(),
{
    if states.len() == 0 {
        0
    } else {
        alive(states.drop_last()) + if is_spawned(states.last()) {
            1nat
        } else {
            0nat
        }
    }
}

proof fn lemma_alive_update(states: Seq<u8>, id: int, state: u8)
    requires
        0 <= id < states.len(),
    ensures
        alive(states.update(id, state)) + (if is_spawned(states[id]) {
            1int
        } else {
            0
        }) == alive(states) + (if is_spawned(state) {
            1int
        } else {
            0
        }),
    decreases states.len(),
{
    let after = states.update(id, state);
    if id == states.len() - 1 {
        assert(after.drop_last() =~= states.drop_last());
    } else {
        assert(after.drop_last() =~= states.drop_last().update(id, state));
        lemma_alive_update(states.drop_last(), id, state);
    }
}

proof fn lemma_alive_bound(states: Seq<u8>)
    ensures
        alive(states) <= states.len(),
    decreases states.len(),
{
    if states.len() > 0 {
        lemma_alive_bound(states.drop_last());
    }
}

/// The executor: tasks by number, their states, the run queue and the tasks already taken from
/// it.
pub struct Executor {
    pub queue: TransferStack,
    /// Taken from the queue and not yet polled, the next one last.
    pub batch: Vec<usize>,
    pub states: Vec<u8>,
    pub pending: usize,
}

/// All tasks that wait to be polled.
pub open spec fn waiting(queue: Seq<usize>, batch: Seq<usize>) -> Seq<usize> {
    queue + batch
}

impl Executor {
    /// A task's queued bit says whether it waits to be polled; no task waits twice; `pending`
    /// counts the tasks that are alive.
    pub open spec fn inv(&self) -> bool {
        let w = waiting(self.queue@, self.batch@);
        &&& forall|i: int| 0 <= i < w.len() ==> (#[trigger] w[i]) < self.states@.len()
        &&& forall|i: int, j: int|
            0 <= i < j < w.len() ==> #[trigger] w[i] != #[trigger] w[j]
        &&& forall|i: int| 0 <= i < w.len() ==> is_queued(self.states@[(#[trigger] w[i]) as int])
        &&& forall|id: int|
            0 <= id < self.states@.len() && is_queued(#[trigger] self.states@[id]) ==> w.contains(
                id as usize,
            )
        &&& self.pending == alive(self.states@)
    }

    pub fn new() -> (r: Self)
        ensures
            r.inv(),
            r.queue@ == Seq::<usize>::empty(),
            r.batch@ == Seq::<usize>::empty(),
            r.states@ == Seq::<u8>::empty(),
            r.pending == 0,
    {
        Executor { queue: TransferStack::new(), batch: Vec::new(), states: Vec::new(), pending: 0 }
    }

    /// Adds a task. It waits for its first poll.
    pub fn spawn(&mut self) -> (id: usize)
        requires
            old(self).inv(),
            old(self).states@.len() < usize::MAX,
        ensures
            final(self).inv(),
            id == old(self).states@.len(),
            final(self).states@ == old(self).states@.push(3),
            has_bits(final(self).states@[id as int], true, true),
            final(self).queue@ == old(self).queue@.push(id),
            final(self).batch@ == old(self).batch@,
            final(self).pending == old(self).pending + 1,
    {
        let ghost w0 = waiting(self.queue@, self.batch@);
        let ghost states0 = self.states@;
        let id = self.states.len();
        let state = new_task_state();
        self.states.push(state);
        proof {
            lemma_alive_bound(states0);
            assert(self.states@.drop_last() =~= states0);
        }
        self.pending = self.pending + 1;
        self.queue.push_was_empty(id);
        proof {
            let q0 = old(self).queue@;
            let w = waiting(self.queue@, self.batch@);
            assert forall|i: int| 0 <= i < w.len() implies (#[trigger] w[i]) < self.states@.len()
                && is_queued(self.states@[w[i] as int]) by {
                if i < q0.len() {
                    assert(w0[i] == w[i]);
                } else if i > q0.len() {
                    assert(w0[i - 1] == w[i]);
                }
            }
            assert forall|i: int, j: int| 0 <= i < j < w.len() implies #[trigger] w[i]
                != #[trigger] w[j] by {
                let a = if i < q0.len() {
                    i
                } else {
                    i - 1
                };
                let b = if j < q0.len() {
                    j
                } else {
                    j - 1
                };
                if i != q0.len() && j != q0.len() {
                    assert(w0[a] != w0[b]);
                } else if i == q0.len() {
                    assert(w0[b] < id);
                } else {
                    assert(w0[a] < id);
                }
            }
            assert forall|k: int|
                0 <= k < self.states@.len() && is_queued(
                    #[trigger] self.states@[k],
                ) implies w.contains(k as usize) by {
                if k < id {
                    assert(states0[k] == self.states@[k]);
                    assert(w0.contains(k as usize));
                    let i = choose|i: int| 0 <= i < w0.len() && w0[i] == k as usize;
                    if i < q0.len() {
                        assert(w[i] == k as usize);
                    } else {
                        assert(w[i + 1] == k as usize);
                    }
                } else {
                    assert(w[q0.len() as int] == id);
                }
            }
        }
        id
    }

    /// Wakes a task: puts it in the run queue unless it is dead or waits already. Returns
    /// whether it was put there.
    pub fn wake(&mut self, id: usize) -> (r: bool)
        requires
            old(self).inv(),
            id < old(self).states@.len(),
        ensures
            final(self).inv(),
            r == (is_spawned(old(self).states@[id as int]) && !is_queued(
                old(self).states@[id as int],
            )),
            final(self).states@ == (if r {
                old(self).states@.update(
                    id as int,
                    old(self).states@[id as int] | STATE_RUN_QUEUED,
                )
            } else {
                old(self).states@
            }),
            has_bits(
                final(self).states@[id as int],
                is_spawned(old(self).states@[id as int]),
                r || is_queued(old(self).states@[id as int]),
            ),
            final(self).queue@ == (if r {
                old(self).queue@.push(id)
            } else {
                old(self).queue@
            }),
            final(self).batch@ == old(self).batch@,
            final(self).pending == old(self).pending,
    {
        let ghost w0 = waiting(self.queue@, self.batch@);
        let ghost states0 = self.states@;
        let (state, enqueue) = wake_state(self.states[id]);
        if !enqueue {
            return false;
        }
        proof {
            if w0.contains(id) {
                let i = choose|i: int| 0 <= i < w0.len() && w0[i] == id;
                assert(is_queued(states0[w0[i] as int]));
            }
            lemma_alive_update(states0, id as int, state);
        }
        self.states.set(id, state);
        self.queue.push_was_empty(id);
        proof {
            let q0 = old(self).queue@;
            let w = waiting(self.queue@, self.batch@);
            assert forall|i: int| 0 <= i < w.len() implies (#[trigger] w[i]) < self.states@.len()
                && is_queued(self.states@[w[i] as int]) by {
                if i < q0.len() {
                    assert(w0[i] == w[i]);
                } else if i > q0.len() {
                    assert(w0[i - 1] == w[i]);
                }
            }
            assert forall|i: int, j: int| 0 <= i < j < w.len() implies #[trigger] w[i]
                != #[trigger] w[j] by {
                let a = if i < q0.len() {
                    i
                } else {
                    i - 1
                };
                let b = if j < q0.len() {
                    j
                } else {
                    j - 1
                };
                if i != q0.len() && j != q0.len() {
                    assert(w0[a] != w0[b]);
                } else if i == q0.len() {
                    assert(w0[b] == w[j]);
                    assert(w0.contains(w[j]));
                } else {
                    assert(w0[a] == w[i]);
                    assert(w0.contains(w[i]));
                }
            }
            assert forall|k: int|
                0 <= k < self.states@.len() && is_queued(
                    #[trigger] self.states@[k],
                ) implies w.contains(k as usize) by {
                if k != id {
                    assert(states0[k] == self.states@[k]);
                    assert(w0.contains(k as usize));
                    let i = choose|i: int| 0 <= i < w0.len() && w0[i] == k as usize;
                    if i < q0.len() {
                        assert(w[i] == k as usize);
                    } else {
                        assert(w[i + 1] == k as usize);
                    }
                } else {
                    assert(w[q0.len() as int] == id);
                }
            }
        }
        true
    }

    /// Takes the next task to look at: the rest of what was taken from the queue first, newest
    /// first; then the whole queue is taken. `None` when the queue is empty. The second part
    /// says whether the task is to be polled: one that is done is not.
    pub fn dequeue(&mut self) -> (r: Option<(usize, bool)>)
        requires
            old(self).inv(),
        ensures
            final(self).inv(),
            final(self).pending == old(self).pending,
            ({
                let fresh = old(self).batch@.len() == 0;
                let list = if fresh {
                    old(self).queue@
                } else {
                    old(self).batch@
                };
                match r {
                    None => {
                        &&& list.len() == 0
                        &&& final(self).states@ == old(self).states@
                        &&& final(self).queue@ == old(self).queue@
                        &&& final(self).batch@ == old(self).batch@
                    },
                    Some((id, alive)) => {
                        &&& list.len() > 0
                        &&& id == list.last()
                        &&& id < old(self).states@.len()
                        &&& alive == is_spawned(old(self).states@[id as int])
                        &&& final(self).states@ == old(self).states@.update(
                            id as int,
                            old(self).states@[id as int] & !STATE_RUN_QUEUED,
                        )
                        &&& has_bits(final(self).states@[id as int], alive, false)
                        &&& final(self).batch@ == list.drop_last()
                        &&& final(self).queue@ == (if fresh {
                            Seq::<usize>::empty()
                        } else {
                            old(self).queue@
                        })
                    },
                }
            }),
    {
        let ghost w0 = waiting(self.queue@, self.batch@);
        let ghost states0 = self.states@;
        if self.batch.len() == 0 {
            self.batch = self.queue.take_all();
            assert(waiting(self.queue@, self.batch@) =~= w0);
        }
        if self.batch.len() == 0 {
            return None;
        }
        let ghost w1 = waiting(self.queue@, self.batch@);
        let ghost n = w1.len() as int - 1;
        assert(w1 == w0);
        let id = self.batch[self.batch.len() - 1];
        assert(w0[n] == id);
        self.batch.pop();
        let state = dequeued_state(self.states[id]);
        let alive = is_alive(state);
        self.states.set(id, state);
        proof {
            lemma_alive_update(states0, id as int, state);
            let w = waiting(self.queue@, self.batch@);
            assert(w =~= w0.drop_last());
            assert(self.states@.len() == self.states.len());
            assert forall|i: int| 0 <= i < w.len() implies (#[trigger] w[i]) < self.states@.len()
                && is_queued(self.states@[w[i] as int]) by {
                assert(w0[i] == w[i]);
                assert(w0[i] != w0[n]);
            }
            assert forall|i: int, j: int| 0 <= i < j < w.len() implies #[trigger] w[i]
                != #[trigger] w[j] by {
                assert(w0[i] != w0[j]);
            }
            assert forall|k: int|
                0 <= k < self.states@.len() && is_queued(
                    #[trigger] self.states@[k],
                ) implies w.contains(k as usize) by {
                assert(states0[k] == self.states@[k]);
                assert(w0.contains(k as usize));
                let i = choose|i: int| 0 <= i < w0.len() && w0[i] == k as usize;
                assert(i != n);
                assert(w[i] == k as usize);
            }
        }
        Some((id, alive))
    }

    /// Notes that a task is done.
    pub fn finish(&mut self, id: usize)
        requires
            old(self).inv(),
            id < old(self).states@.len(),
            is_spawned(old(self).states@[id as int]),
        ensures
            final(self).inv(),
            final(self).states@ == old(self).states@.update(
                id as int,
                old(self).states@[id as int] & !STATE_SPAWNED,
            ),
            has_bits(
                final(self).states@[id as int],
                false,
                is_queued(old(self).states@[id as int]),
            ),
            final(self).queue@ == old(self).queue@,
            final(self).batch@ == old(self).batch@,
            final(self).pending == old(self).pending - 1,
    {
        let ghost states0 = self.states@;
        let state = finished_state(self.states[id]);
        proof {
            lemma_alive_update(states0, id as int, state);
        }
        self.states.set(id, state);
        self.pending = self.pending - 1;
        proof {
            let w = waiting(self.queue@, self.batch@);
            assert forall|i: int| 0 <= i < w.len() implies is_queued(
                self.states@[(#[trigger] w[i]) as int],
            ) by {
                assert(is_queued(states0[w[i] as int]));
            }
            assert forall|k: int|
                0 <= k < self.states@.len() && is_queued(
                    #[trigger] self.states@[k],
                ) implies w.contains(k as usize) by {
                assert(is_queued(states0[k]));
            }
        }
    }
}

/// What the executor's loop does next.
#[derive(Debug, Clone, Copy, PartialEq, Eq, Structural)]
pub enum LoopStep {
    /// Poll what is in the run queue until it is empty.
    Drain,
    /// Shut out user interrupts.
    Close,
    /// Let user interrupts in again: there is work.
    Reopen,
    /// Clear the flag that interrupts set.
    Reset,
    /// Watch the flag.
    Arm,
    /// Let user interrupts in.
    Open,
    /// Sleep until the flag is written.
    Sleep,
    /// Leave.
    Exit,
}

/// The step that follows on `done`, given how many tasks are alive, whether the process is to
/// end and whether the run queue is empty now.
pub open spec fn step_after(done: LoopStep, pending: nat, term: bool, empty: bool) -> LoopStep {
    match done {
        LoopStep::Drain => if pending == 0 || term {
            LoopStep::Exit
        } else if !empty {
            LoopStep::Drain
        } else {
            LoopStep::Close
        },
        LoopStep::Close => if !empty {
            LoopStep::Reopen
        } else {
            LoopStep::Reset
        },
        LoopStep::Reopen => LoopStep::Drain,
        LoopStep::Reset => LoopStep::Arm,
        LoopStep::Arm => LoopStep::Open,
        LoopStep::Open => LoopStep::Sleep,
        LoopStep::Sleep => LoopStep::Drain,
        LoopStep::Exit => LoopStep::Exit,
    }
}

/// The step of the executor's loop that follows on `done`. The loop begins with
/// `LoopStep::Drain` and ends at `LoopStep::Exit`.
pub fn block_on(done: LoopStep, pending: usize, term: bool, queue_is_empty: bool) -> (r: LoopStep)
    ensures
        r == step_after(done, pending as nat, term, queue_is_empty),
{
    match done {
        LoopStep::Drain => {
            if pending == 0 || term {
                LoopStep::Exit
            } else if !queue_is_empty {
                LoopStep::Drain
            } else {
                LoopStep::Close
            }
        },
        LoopStep::Close => {
            if !queue_is_empty {
                LoopStep::Reopen
            } else {
                LoopStep::Reset
            }
        },
        LoopStep::Reopen => LoopStep::Drain,
        LoopStep::Reset => LoopStep::Arm,
        LoopStep::Arm => LoopStep::Open,
        LoopStep::Open => LoopStep::Sleep,
        LoopStep::Sleep => LoopStep::Drain,
        LoopStep::Exit => LoopStep::Exit,
    }
}

/// The loop on a processor that takes user interrupts.
pub struct Machine {
    /// The step to do.
    pub step: LoopStep,
    /// The run queue holds nothing.
    pub empty: bool,
    /// User interrupts are let in.
    pub open: bool,
    /// An interrupt came while they were shut out, and is held back.
    pub held: bool,
    /// The flag is watched.
    pub armed: bool,
    /// The flag was written since it is watched.
    pub touched: bool,
}

/// Something that happens to the machine.
pub enum Happening {
    /// A user interrupt arrives, whose handler wakes a task and writes the flag.
    Interrupt,
    /// The loop does its step; then `pending` tasks are alive and `term` says whether the
    /// process is to end.
    Step { pending: nat, term: bool },
}

impl Machine {
    pub open spec fn start() -> Machine {
        Machine {
            step: LoopStep::Drain,
            empty: true,
            open: true,
            held: false,
            armed: false,
            touched: false,
        }
    }

    /// The handler runs.
    pub open spec fn handled(self) -> Machine {
        Machine { empty: false, held: false, touched: self.touched || self.armed, ..self }
    }

    /// The effect of the step, without the choice of the next one.
    pub open spec fn effect(self) -> Machine {
        match self.step {
            LoopStep::Drain => Machine { empty: true, ..self },
            LoopStep::Close => Machine { open: false, ..self },
            LoopStep::Reopen | LoopStep::Open => {
                let opened = Machine { open: true, ..self };
                if self.held {
                    opened.handled()
                } else {
                    opened
                }
            },
            LoopStep::Reset => self,
            LoopStep::Arm => Machine { armed: true, touched: false, ..self },
            LoopStep::Sleep => Machine { armed: false, ..self },
            LoopStep::Exit => self,
        }
    }

    pub open spec fn after(self, h: Happening) -> Machine {
        match h {
            Happening::Interrupt => if self.open {
                self.handled()
            } else {
                Machine { held: true, ..self }
            },
            Happening::Step { pending, term } => if self.asleep() {
                self
            } else {
                let m = self.effect();
                Machine { step: step_after(self.step, pending, term, m.empty), ..m }
            },
        }
    }

    /// The processor sleeps.
    pub open spec fn asleep(self) -> bool {
        self.step is Sleep && !self.touched
    }

    pub open spec fn inv(self) -> bool {
        &&& self.open ==> !self.held
        &&& self.step is Drain || self.step is Close || self.step is Sleep ==> self.open
        &&& self.step is Reopen ==> !self.open && !self.armed
        &&& self.step is Reset || self.step is Arm ==> !self.open && self.empty && !self.armed
        &&& self.step is Open ==> !self.open && self.empty && self.armed && !self.touched
        &&& self.step is Sleep ==> self.armed && (self.empty || self.touched)
        &&& self.step is Drain || self.step is Close ==> !self.armed
    }
}

/// The machine after `happenings`.
pub open spec fn history(happenings: Seq<Happening>) -> Machine
    decreases happenings.len(),
{
    if happenings.len() == 0 {
        Machine::start()
    } else {
        history(happenings.drop_last()).after(happenings.last())
    }
}

proof fn lemma_history_keeps_inv(happenings: Seq<Happening>)
    ensures
        history(happenings).inv(),
    decreases happenings.len(),
{
    if happenings.len() > 0 {
        lemma_history_keeps_inv(happenings.drop_last());
    }
}

/// No wake-up is lost on the way to sleep: wherever interrupts arrive, the processor never
/// sleeps while a task is queued.
pub proof fn lemma_never_asleep_with_work(happenings: Seq<Happening>)
    ensures
        history(happenings).asleep() ==> history(happenings).empty && !history(happenings).held,
{
    lemma_history_keeps_inv(happenings);
}

/// An interrupt ends the sleep at once.
pub proof fn lemma_interrupt_ends_sleep(happenings: Seq<Happening>)
    requires
        history(happenings).asleep(),
    ensures
        !history(happenings).after(Happening::Interrupt).asleep(),
        !history(happenings).after(Happening::Interrupt).empty,
{
    lemma_history_keeps_inv(happenings);
}

/// The loop polls with interrupts let in.
pub proof fn lemma_tasks_run_interruptible(happenings: Seq<Happening>)
    requires
        history(happenings).step is Drain,
    ensures
        history(happenings).open,
{
    lemma_history_keeps_inv(happenings);
}

/// The loop ends when no task is alive or the process is to end, and then only: it looks for that
/// whenever it has polled what was queued, and never on its way to sleep and back.
pub proof fn lemma_loop_ends_when_done(step: LoopStep, pending: nat, term: bool, empty: bool)
    ensures
        step is Drain ==> (step_after(step, pending, term, empty) is Exit <==> pending == 0 || term),
        !(step is Drain) && !(step is Exit) ==> !(step_after(step, pending, term, empty) is Exit),
        step is Exit ==> step_after(step, pending, term, empty) is Exit,
{
}

/// As long as tasks are alive and the process goes on, queued work is polled next, and the loop
/// takes the way to sleep only past two looks at an empty queue.
pub proof fn lemma_work_is_polled_before_sleep(step: LoopStep, pending: nat, term: bool, empty: bool)
    requires
        pending > 0,
        !term,
    ensures
        step is Drain && !empty ==> step_after(step, pending, term, empty) is Drain,
        step is Drain && empty ==> step_after(step, pending, term, empty) is Close,
        step is Close && !empty ==> step_after(step, pending, term, empty) is Reopen,
        step_after(step, pending, term, empty) is Reset <==> step is Close && empty,
        step_after(step, pending, term, empty) is Sleep <==> step is Open,
{
}

/// Whoever wakes up or finds work on the way to sleep goes on to poll, and whoever found none
/// clears the flag before it is watched and watches it before interrupts are let in.
pub proof fn lemma_way_to_sleep_and_back(pending: nat, term: bool, empty: bool)
    ensures
        step_after(LoopStep::Reopen, pending, term, empty) is Drain,
        step_after(LoopStep::Sleep, pending, term, empty) is Drain,
        step_after(LoopStep::Reset, pending, term, empty) is Arm,
        step_after(LoopStep::Arm, pending, term, empty) is Open,
        step_after(LoopStep::Open, pending, term, empty) is Sleep,
{
}

/// Wherever interrupts arrive, the loop has not left unless at some step no task was alive or the
/// process was to end.
pub proof fn lemma_loop_goes_on_while_tasks_live(happenings: Seq<Happening>)
    requires
        forall|i: int|
            0 <= i < happenings.len() ==> (#[trigger] happenings[i] matches Happening::Step {
                pending,
                term,
            } ==> pending > 0 && !term),
    ensures
        !(history(happenings).step is Exit),
    decreases happenings.len(),
{
    if happenings.len() > 0 {
        let earlier = happenings.drop_last();
        assert forall|i: int| 0 <= i < earlier.len() implies (
        #[trigger] earlier[i] matches Happening::Step { pending, term } ==> pending > 0 && !term) by {
            assert(happenings[i] == earlier[i]);
        }
        lemma_loop_goes_on_while_tasks_live(earlier);
        assert(happenings[happenings.len() - 1] == happenings.last());
    }
}

/// The two bits of a task's state: the lowest says that it is alive, the next that it is queued.
/// The others say nothing.
pub proof fn lemma_state_bits(state: u8)
    ensures
        is_spawned(state) <==> state % 2 == 1,
        is_queued(state) <==> state / 2 % 2 == 1,
{
    assert(state & 1 == state % 2) by (bit_vector);
    assert((state & 2 == 2) == (state / 2 % 2 == 1)) by (bit_vector);
}

/// A task more counts if it is alive, and a task that dies counts no longer.
pub proof fn lemma_alive_counts(states: Seq<u8>, id: int, state: u8)
    requires
        0 <= id < states.len(),
    ensures
        alive(Seq::empty()) == 0,
        alive(states.push(state)) == alive(states) + state % 2,
        alive(states.update(id, state)) + states[id] % 2 == alive(states) + state % 2,
{
    lemma_state_bits(state);
    lemma_state_bits(states[id]);
    lemma_alive_update(states, id, state);
    assert(states.push(state).drop_last() =~= states);
}

} // verus!
