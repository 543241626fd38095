//! Bookkeeping of the simulation's command ingress: sequence numbers, the
//! depth of each workload queue and of all of them, the high-water mark,
//! the enqueue times of what is waiting, and the round-robin order in which
//! the tick drains the queues.
use vstd::prelude::*;
use std::collections::VecDeque;

verus! {

/// The workload queue a command goes through.
#[derive(Clone, Copy, Debug, PartialEq, Eq, Structural)]
pub enum CommandIngressClass {
    Lifecycle,
    Gameplay,
    Internal,
}

impl CommandIngressClass {
    /// The queue's position in the round-robin order.
    pub fn index(self) -> (r: usize)
        ensures
            r == class_index(self),
    {
        match self {
            CommandIngressClass::Lifecycle => 0,
            CommandIngressClass::Gameplay => 1,
            CommandIngressClass::Internal => 2,
        }
    }
}

pub open spec fn class_index(c: CommandIngressClass) -> int {
    match c {
        CommandIngressClass::Lifecycle => 0,
        CommandIngressClass::Gameplay => 1,
        CommandIngressClass::Internal => 2,
    }
}

pub open spec fn class_at(i: int) -> CommandIngressClass {
    if i == 0 {
        CommandIngressClass::Lifecycle
    } else if i == 1 {
        CommandIngressClass::Gameplay
    } else {
        CommandIngressClass::Internal
    }
}

/// What the metrics report after a change of the queues.
#[derive(Clone, Copy, Debug, PartialEq, Eq)]
pub struct IngressGauges {
    /// Commands waiting in all queues.
    pub depth: usize,
    /// Commands waiting in the changed queue.
    pub class_depth: usize,
    /// The most commands ever waiting at once.
    pub high_water: usize,
    /// Enqueue time of the oldest command waiting in the changed queue.
    pub oldest: Option<u64>,
}

/// Counters and enqueue times of the three command queues.
pub struct CommandIngressStats {
    next_sequence: u64,
    depth: usize,
    high_water: usize,
    lifecycle: VecDeque<u64>,
    gameplay: VecDeque<u64>,
    internal: VecDeque<u64>,
}

impl CommandIngressStats {
    /// Enqueue times of the commands waiting in queue `c`, oldest first.
    pub closed spec fn waiting(&self, c: CommandIngressClass) -> Seq<u64> {
        match c {
            CommandIngressClass::Lifecycle => self.lifecycle@,
            CommandIngressClass::Gameplay => self.gameplay@,
            CommandIngressClass::Internal => self.internal@,
        }
    }

    /// Commands waiting in all queues.
    pub closed spec fn depth(&self) -> int {
        self.depth as int
    }

    /// The most commands ever waiting at once.
    pub closed spec fn high_water(&self) -> int {
        self.high_water as int
    }

    /// The sequence number the next command gets.
    pub closed spec fn next_sequence(&self) -> u64 {
        self.next_sequence
    }

    /// The depth is the number of waiting commands, and the high-water mark
    /// is at least that.
    pub closed spec fn wf(&self) -> bool {
        &&& self.depth == self.lifecycle@.len() + self.gameplay@.len() + self.internal@.len()
        &&& self.high_water >= self.depth
    }

    /// The depth counts exactly the commands waiting in the three queues,
    /// and the high-water mark never falls below it.
    pub proof fn lemma_depth_counts_waiting(&self)
        requires
            self.wf(),
        ensures
            self.depth() == self.waiting(CommandIngressClass::Lifecycle).len() + self.waiting(
                CommandIngressClass::Gameplay,
            ).len() + self.waiting(CommandIngressClass::Internal).len(),
            self.high_water() >= self.depth(),
    {
    }

    pub fn new() -> (r: Self)
        ensures
            r.wf(),
            r.depth() == 0,
            r.high_water() == 0,
            r.next_sequence() == 0,
            forall|c: CommandIngressClass| r.waiting(c).len() == 0,
    {
        CommandIngressStats {
            next_sequence: 0,
            depth: 0,
            high_water: 0,
            lifecycle: VecDeque::new(),
            gameplay: VecDeque::new(),
            internal: VecDeque::new(),
        }
    }

    /// Hands out the next command sequence number (wrapping).
    pub fn allocate_sequence(&mut self) -> (r: u64)
        ensures
            r == old(self).next_sequence(),
            final(self).next_sequence() == (if r == u64::MAX {
                0
            } else {
                (r + 1) as u64
            }),
            final(self).depth() == old(self).depth(),
            final(self).high_water() == old(self).high_water(),
            forall|c: CommandIngressClass| final(self).waiting(c) == old(self).waiting(c),
            final(self).wf() == old(self).wf(),
    {
        let r = self.next_sequence;
        self.next_sequence = self.next_sequence.wrapping_add(1);
        r
    }

    fn queue_gauges(&self, c: CommandIngressClass) -> (r: (usize, Option<u64>))
        requires
            self.wf(),
        ensures
            r.0 == self.waiting(c).len(),
            r.1 == (if self.waiting(c).len() == 0 {
                None
            } else {
                Some(self.waiting(c)[0])
            }),
    {
        let q = match c {
            CommandIngressClass::Lifecycle => &self.lifecycle,
            CommandIngressClass::Gameplay => &self.gameplay,
            CommandIngressClass::Internal => &self.internal,
        };
        let oldest = if q.len() == 0 {
            None
        } else {
            Some(q[0])
        };
        (q.len(), oldest)
    }

    /// A command entered queue `c` at time `at`.
    pub fn record_enqueued(&mut self, c: CommandIngressClass, at: u64) -> (r: IngressGauges)
        requires
            old(self).wf(),
            old(self).depth() < usize::MAX,
        ensures
            final(self).wf(),
            final(self).waiting(c) == old(self).waiting(c).push(at),
            forall|d: CommandIngressClass| d != c ==> final(self).waiting(d) == old(self).waiting(d),
            final(self).depth() == old(self).depth() + 1,
            final(self).high_water() == (if old(self).high_water() > old(self).depth() + 1 {
                old(self).high_water()
            } else {
                old(self).depth() + 1
            }),
            final(self).next_sequence() == old(self).next_sequence(),
            r.depth == final(self).depth(),
            r.class_depth == final(self).waiting(c).len(),
            r.high_water == final(self).high_water(),
            r.oldest == Some(final(self).waiting(c)[0]),
    {
        match c {
            CommandIngressClass::Lifecycle => self.lifecycle.push_back(at),
            CommandIngressClass::Gameplay => self.gameplay.push_back(at),
            CommandIngressClass::Internal => self.internal.push_back(at),
        }
        self.depth = self.depth + 1;
        if self.depth > self.high_water {
            self.high_water = self.depth;
        }
        let (class_depth, oldest) = self.queue_gauges(c);
        IngressGauges { depth: self.depth, class_depth, high_water: self.high_water, oldest }
    }

    /// The oldest command of queue `c` left it.
    pub fn record_dequeued(&mut self, c: CommandIngressClass) -> (r: IngressGauges)
        requires
            old(self).wf(),
            old(self).waiting(c).len() > 0,
        ensures
            final(self).wf(),
            final(self).waiting(c) == old(self).waiting(c).drop_first(),
            forall|d: CommandIngressClass| d != c ==> final(self).waiting(d) == old(self).waiting(d),
            final(self).depth() == old(self).depth() - 1,
            final(self).high_water() == old(self).high_water(),
            final(self).next_sequence() == old(self).next_sequence(),
            r.depth == final(self).depth(),
            r.class_depth == final(self).waiting(c).len(),
            r.high_water == final(self).high_water(),
            r.oldest == (if final(self).waiting(c).len() == 0 {
                None
            } else {
                Some(final(self).waiting(c)[0])
            }),
    {
        match c {
            CommandIngressClass::Lifecycle => {
                self.lifecycle.pop_front();
            },
            CommandIngressClass::Gameplay => {
                self.gameplay.pop_front();
            },
            CommandIngressClass::Internal => {
                self.internal.pop_front();
            },
        }
        self.depth = self.depth - 1;
        let (class_depth, oldest) = self.queue_gauges(c);
        IngressGauges { depth: self.depth, class_depth, high_water: self.high_water, oldest }
    }

    /// How long the oldest command of queue `c` has waited at `now` (zero
    /// for an empty queue or a clock that went back).
    pub fn oldest_age(&self, c: CommandIngressClass, now: u64) -> (r: u64)
        requires
            self.wf(),
        ensures
            r == (if self.waiting(c).len() == 0 || now < self.waiting(c)[0] {
                0
            } else {
                (now - self.waiting(c)[0]) as u64
            }),
    {
        let (_, oldest) = self.queue_gauges(c);
        match oldest {
            None => 0,
            Some(t) => if now < t {
                0
            } else {
                now - t
            },
        }
    }
}

/// The class the round robin looks at `offset` places after `next`.
pub open spec fn rr_class(next: int, offset: int) -> CommandIngressClass {
    class_at((next + offset) % 3)
}

/// Which queue the tick drains next: starting at `next`, the first of the
/// three queues (in lifecycle, gameplay, internal order, wrapping) that
/// holds a command; the round robin then moves past it.
pub struct CommandRoundRobin {
    next_class: usize,
}

impl CommandRoundRobin {
    pub closed spec fn next(&self) -> int {
        self.next_class as int
    }

    pub fn new() -> (r: Self)
        ensures
            r.next() == 0,
    {
        CommandRoundRobin { next_class: 0 }
    }

    /// Picks the queue to take from, given which queues hold a command
    /// (`ready[i]` for the queue with index `i`); `None` when all are empty.
    pub fn pick(&mut self, ready: [bool; 3]) -> (r: Option<CommandIngressClass>)
        requires
            0 <= old(self).next() < 3,
        ensures
            0 <= final(self).next() < 3,
            match r {
                Some(c) => exists|k: int|
                    0 <= k < 3 && c == rr_class(old(self).next(), k) && ready@[class_index(c)]
                        && (forall|j: int| 0 <= j < k ==> !ready@[class_index(#[trigger] rr_class(old(self).next(), j))])
                        && final(self).next() == (class_index(c) + 1) % 3,
                None => (forall|i: int| 0 <= i < 3 ==> !#[trigger] ready@[i]) && final(self).next()
                    == old(self).next(),
            },
    {
        let mut offset: usize = 0;
        while offset < 3
            invariant
                0 <= self.next_class < 3,
                self.next_class == old(self).next_class,
                offset <= 3,
                forall|j: int| 0 <= j < offset ==> !ready@[class_index(#[trigger] rr_class(self.next_class as int, j))],
            decreases 3 - offset,
        {
            let idx = (self.next_class + offset) % 3;
            if ready[idx] {
                let c = if idx == 0 {
                    CommandIngressClass::Lifecycle
                } else if idx == 1 {
                    CommandIngressClass::Gameplay
                } else {
                    CommandIngressClass::Internal
                };
                assert(c == rr_class(old(self).next(), offset as int));
                self.next_class = (idx + 1) % 3;
                return Some(c);
            }
            offset = offset + 1;
        }
        proof {
            assert forall|i: int| 0 <= i < 3 implies !#[trigger] ready@[i] by {
                let j = (i - self.next_class + 3) % 3;
                assert(0 <= j < 3);
                assert(class_index(rr_class(self.next_class as int, j)) == i);
            }
        }
        None
    }
}

} // verus!
