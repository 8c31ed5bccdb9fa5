//! The bookkeeping of a sampling run: which of the profiled tasks are still
//! alive, when the run ends, and how long to sleep between two samples.
//!
//! Tasks are numbered in the order they arrive: the root task, the process
//! that was launched, is task 0; the tasks it spawns follow. Times are
//! nanoseconds since the run started.
use vstd::multiset::Multiset;
use vstd::prelude::*;

verus! {

broadcast use vstd::seq_lib::group_to_multiset_ensures;

/// The numbers of the tasks other than the root, when `count` tasks have
/// arrived: 1 to `count - 1`.
pub open spec fn other_task_numbers(count: nat) -> Seq<usize> {
    Seq::new((count - 1) as nat, |i: int| (i + 1) as usize)
}

/// The tasks among `tasks` whose sample found them alive (`keep`) or dead
/// (`!keep`), in order; `alive` holds the outcome for each task.
pub open spec fn sorted_out(tasks: Seq<usize>, alive: Seq<bool>, keep: bool) -> Seq<usize>
    decreases tasks.len(),
{
    if tasks.len() == 0 {
        Seq::empty()
    } else {
        let earlier = sorted_out(tasks.drop_last(), alive.drop_last(), keep);
        if alive.last() == keep {
            earlier.push(tasks.last())
        } else {
            earlier
        }
    }
}

/// Sorting tasks into the living and the dead loses none and adds none.
pub proof fn lemma_sorted_out_keeps_every_task(tasks: Seq<usize>, alive: Seq<bool>)
    requires
        tasks.len() == alive.len(),
    ensures
        sorted_out(tasks, alive, true).to_multiset().add(sorted_out(tasks, alive, false).to_multiset())
            == tasks.to_multiset(),
    decreases tasks.len(),
{
    broadcast use vstd::multiset::group_multiset_axioms;

    if tasks.len() > 0 {
        lemma_sorted_out_keeps_every_task(tasks.drop_last(), alive.drop_last());
        assert(tasks.drop_last().push(tasks.last()) == tasks);
        assert(sorted_out(tasks, alive, true).to_multiset().add(sorted_out(tasks, alive, false).to_multiset())
            =~= tasks.to_multiset());
    }
}

/// How long to wait from `now` until `interval` after the sample taken at
/// `sample_time`: nothing where that moment has passed.
pub open spec fn intended_wait(sample_time: u128, interval: u128, now: u128) -> u128 {
    if sample_time + interval > now {
        (sample_time + interval - now) as u128
    } else {
        0
    }
}

/// The state of a sampling run.
pub struct Sampler {
    interval: u128,
    time_limit: Option<u128>,
    /// Whether the root task is alive; `None` before it arrived.
    root_alive: Option<bool>,
    live_other_tasks: Vec<usize>,
    dead_other_tasks: Vec<usize>,
    task_count: usize,
    last_sleep_overshoot: u128,
}

impl Sampler {
    /// The time between two samples.
    pub closed spec fn interval(&self) -> u128 {
        self.interval
    }

    /// The time after which the run ends, if any.
    pub closed spec fn time_limit(&self) -> Option<u128> {
        self.time_limit
    }

    /// Whether the root task is alive; `None` before it arrived.
    pub closed spec fn root_alive(&self) -> Option<bool> {
        self.root_alive
    }

    /// The other tasks still alive, in the order they arrived.
    pub closed spec fn live_other_tasks(&self) -> Seq<usize> {
        self.live_other_tasks@
    }

    /// The other tasks found dead, in the order they died.
    pub closed spec fn dead_other_tasks(&self) -> Seq<usize> {
        self.dead_other_tasks@
    }

    /// The number of tasks that arrived, the root task included.
    pub closed spec fn task_count(&self) -> nat {
        self.task_count as nat
    }

    /// By how much the last sleep overran the time asked for.
    pub closed spec fn last_sleep_overshoot(&self) -> u128 {
        self.last_sleep_overshoot
    }

    /// Every other task that arrived is either alive or dead, once; before
    /// the root task arrives there are no tasks.
    pub closed spec fn wf(&self) -> bool {
        &&& self.root_alive is None ==> self.task_count == 0
        &&& self.root_alive is Some ==> self.task_count >= 1
        &&& self.root_alive is Some ==> self.live_other_tasks@.to_multiset().add(self.dead_other_tasks@.to_multiset())
            == other_task_numbers(self.task_count as nat).to_multiset()
        &&& self.root_alive is None ==> self.live_other_tasks@.len() == 0 && self.dead_other_tasks@.len() == 0
    }

    /// A run that samples every `interval`, until `time_limit` if there is one.
    pub fn new(interval: u128, time_limit: Option<u128>) -> (s: Self)
        ensures
            s.wf(),
            s.interval() == interval,
            s.time_limit() == time_limit,
            s.root_alive() is None,
            s.last_sleep_overshoot() == 0,
    {
        Sampler {
            interval,
            time_limit,
            root_alive: None,
            live_other_tasks: Vec::new(),
            dead_other_tasks: Vec::new(),
            task_count: 0,
            last_sleep_overshoot: 0,
        }
    }

    /// The root task arrived: it is task 0, and alive.
    pub fn start(&mut self)
        requires
            old(self).wf(),
            old(self).root_alive() is None,
        ensures
            final(self).wf(),
            final(self).root_alive() == Some(true),
            final(self).task_count() == 1,
            final(self).live_other_tasks().len() == 0,
            final(self).dead_other_tasks().len() == 0,
            final(self).interval() == old(self).interval(),
            final(self).time_limit() == old(self).time_limit(),
            final(self).last_sleep_overshoot() == old(self).last_sleep_overshoot(),
    {
        broadcast use vstd::multiset::group_multiset_axioms;

        self.root_alive = Some(true);
        self.task_count = 1;
        assert(other_task_numbers(1) =~= Seq::<usize>::empty());
        assert(self.live_other_tasks@ =~= Seq::<usize>::empty());
        assert(self.dead_other_tasks@ =~= Seq::<usize>::empty());
        assert(self.live_other_tasks@.to_multiset().len() == 0);
        assert(self.dead_other_tasks@.to_multiset().len() == 0);
        assert(other_task_numbers(1).to_multiset().len() == 0);
        assert(self.live_other_tasks@.to_multiset() =~= Multiset::empty());
        assert(self.dead_other_tasks@.to_multiset() =~= Multiset::empty());
        assert(other_task_numbers(1).to_multiset() =~= Multiset::empty());
        assert(self.live_other_tasks@.to_multiset().add(self.dead_other_tasks@.to_multiset()) =~= Multiset::empty());
    }

    /// Another task arrived: it gets the next number and is alive.
    pub fn add_task(&mut self) -> (task: usize)
        requires
            old(self).wf(),
            old(self).root_alive() is Some,
            old(self).task_count() < usize::MAX,
        ensures
            final(self).wf(),
            task == old(self).task_count(),
            final(self).task_count() == old(self).task_count() + 1,
            final(self).live_other_tasks() == old(self).live_other_tasks().push(task),
            final(self).dead_other_tasks() == old(self).dead_other_tasks(),
            final(self).root_alive() == old(self).root_alive(),
            final(self).interval() == old(self).interval(),
            final(self).time_limit() == old(self).time_limit(),
            final(self).last_sleep_overshoot() == old(self).last_sleep_overshoot(),
    {
        broadcast use vstd::multiset::group_multiset_axioms;

        let task = self.task_count;
        self.live_other_tasks.push(task);
        self.task_count = task + 1;
        assert(other_task_numbers(task as nat + 1) =~= other_task_numbers(task as nat).push(task));
        assert(self.live_other_tasks@.to_multiset().add(self.dead_other_tasks@.to_multiset())
            =~= other_task_numbers(self.task_count as nat).to_multiset());
        task
    }

    /// Whether the run has reached its time limit `elapsed` after its start.
    pub fn time_is_up(&self, elapsed: u128) -> (up: bool)
        ensures
            up == (self.time_limit() matches Some(limit) && elapsed >= limit),
    {
        match self.time_limit {
            Some(limit) => elapsed >= limit,
            None => false,
        }
    }

    /// Whether the root task is to be sampled: it is alive.
    pub fn root_is_alive(&self) -> (alive: bool)
        ensures
            alive == (self.root_alive() == Some(true)),
    {
        match self.root_alive {
            Some(alive) => alive,
            None => false,
        }
    }

    /// The sample of the root task found it alive or dead.
    pub fn root_sampled(&mut self, still_alive: bool)
        requires
            old(self).wf(),
            old(self).root_alive() == Some(true),
        ensures
            final(self).wf(),
            final(self).root_alive() == Some(still_alive),
            final(self).task_count() == old(self).task_count(),
            final(self).live_other_tasks() == old(self).live_other_tasks(),
            final(self).dead_other_tasks() == old(self).dead_other_tasks(),
            final(self).interval() == old(self).interval(),
            final(self).time_limit() == old(self).time_limit(),
            final(self).last_sleep_overshoot() == old(self).last_sleep_overshoot(),
    {
        self.root_alive = Some(still_alive);
    }

    /// The other tasks still alive, to be sampled in this order.
    pub fn other_tasks_to_sample(&self) -> (tasks: Vec<usize>)
        ensures
            tasks@ == self.live_other_tasks(),
    {
        self.live_other_tasks.clone()
    }

    /// The samples of the other living tasks found each alive or dead
    /// (`still_alive` holds the outcome for each, in order): the living stay
    /// in order, the dead join the dead in order.
    pub fn other_tasks_sampled(&mut self, still_alive: &[bool])
        requires
            old(self).wf(),
            old(self).root_alive() is Some,
            still_alive@.len() == old(self).live_other_tasks().len(),
        ensures
            final(self).wf(),
            final(self).live_other_tasks() == sorted_out(old(self).live_other_tasks(), still_alive@, true),
            final(self).dead_other_tasks() == old(self).dead_other_tasks() + sorted_out(
                old(self).live_other_tasks(),
                still_alive@,
                false,
            ),
            final(self).root_alive() == old(self).root_alive(),
            final(self).task_count() == old(self).task_count(),
            final(self).interval() == old(self).interval(),
            final(self).time_limit() == old(self).time_limit(),
            final(self).last_sleep_overshoot() == old(self).last_sleep_overshoot(),
    {
        broadcast use vstd::multiset::group_multiset_axioms;

        let ghost tasks = self.live_other_tasks@;
        let ghost dead_before = self.dead_other_tasks@;
        let mut live: Vec<usize> = Vec::new();
        let mut died: Vec<usize> = Vec::new();
        let mut i: usize = 0;
        while i < self.live_other_tasks.len()
            invariant
                tasks == self.live_other_tasks@,
                still_alive@.len() == tasks.len(),
                i <= tasks.len(),
                live@ == sorted_out(tasks.take(i as int), still_alive@.take(i as int), true),
                died@ == sorted_out(tasks.take(i as int), still_alive@.take(i as int), false),
            decreases tasks.len() - i,
        {
            let task = self.live_other_tasks[i];
            proof {
                assert(tasks.take(i + 1).drop_last() == tasks.take(i as int));
                assert(still_alive@.take(i + 1).drop_last() == still_alive@.take(i as int));
                assert(tasks.take(i + 1).last() == task);
                assert(still_alive@.take(i + 1).last() == still_alive@[i as int]);
            }
            if still_alive[i] {
                live.push(task);
            } else {
                died.push(task);
            }
            i = i + 1;
        }
        proof {
            assert(tasks.take(i as int) == tasks);
            assert(still_alive@.take(i as int) == still_alive@);
            lemma_sorted_out_keeps_every_task(tasks, still_alive@);
            vstd::seq_lib::lemma_multiset_commutative(dead_before, died@);
        }
        self.live_other_tasks = live;
        self.dead_other_tasks.append(&mut died);
        proof {
            assert(self.live_other_tasks@.to_multiset().add(self.dead_other_tasks@.to_multiset())
                =~= other_task_numbers(self.task_count as nat).to_multiset());
        }
    }

    /// Whether every task known is dead: the run then waits a little for a
    /// task that one of them may have spawned, and ends if none comes.
    pub fn all_tasks_dead(&self) -> (dead: bool)
        ensures
            dead == (self.root_alive() != Some(true) && self.live_other_tasks().len() == 0),
    {
        !self.root_is_alive() && self.live_other_tasks.len() == 0
    }

    /// How long to sleep after the sample taken at `sample_time`, at `now`:
    /// until one interval after the sample, less what the last sleep overran.
    pub fn sleep_time(&self, sample_time: u128, now: u128) -> (t: u128)
        requires
            sample_time + self.interval() <= u128::MAX,
        ensures
            t == (if intended_wait(sample_time, self.interval(), now) > self.last_sleep_overshoot() {
                (intended_wait(sample_time, self.interval(), now) - self.last_sleep_overshoot()) as u128
            } else {
                0
            }),
    {
        let wakeup = sample_time + self.interval;
        let wait = if wakeup > now {
            wakeup - now
        } else {
            0
        };
        if wait > self.last_sleep_overshoot {
            wait - self.last_sleep_overshoot
        } else {
            0
        }
    }

    /// A sleep asked for `requested` lasted `slept`: what it overran by.
    pub fn record_sleep(&mut self, requested: u128, slept: u128)
        requires
            old(self).wf(),
        ensures
            final(self).wf(),
            final(self).last_sleep_overshoot() == (if slept >= requested {
                (slept - requested) as u128
            } else {
                0
            }),
            final(self).root_alive() == old(self).root_alive(),
            final(self).task_count() == old(self).task_count(),
            final(self).live_other_tasks() == old(self).live_other_tasks(),
            final(self).dead_other_tasks() == old(self).dead_other_tasks(),
            final(self).interval() == old(self).interval(),
            final(self).time_limit() == old(self).time_limit(),
    {
        self.last_sleep_overshoot = if slept >= requested {
            slept - requested
        } else {
            0
        };
    }

    /// The other tasks of the profile: those still alive, in the order they
    /// arrived, then the dead, in the order they died.
    pub fn into_other_tasks(self) -> (tasks: Vec<usize>)
        requires
            self.wf(),
            self.root_alive() is Some,
        ensures
            tasks@ == self.live_other_tasks() + self.dead_other_tasks(),
            tasks@.to_multiset() == other_task_numbers(self.task_count()).to_multiset(),
    {
        let mut tasks = self.live_other_tasks;
        let mut dead = self.dead_other_tasks;
        proof {
            vstd::seq_lib::lemma_multiset_commutative(tasks@, dead@);
        }
        tasks.append(&mut dead);
        tasks
    }
}

/// Once the root task has arrived, every other task that arrived is in the
/// profile exactly once.
pub proof fn law_every_task_is_in_the_profile_once(s: Sampler, task: usize)
    requires
        s.wf(),
        s.root_alive() is Some,
        1 <= task < s.task_count(),
    ensures
        (s.live_other_tasks() + s.dead_other_tasks()).to_multiset().count(task) == 1,
{
    broadcast use vstd::multiset::group_multiset_axioms;

    vstd::seq_lib::lemma_multiset_commutative(s.live_other_tasks(), s.dead_other_tasks());
    let others = other_task_numbers(s.task_count());
    assert(others[task - 1] == task);
    assert(others.contains(task));
    assert(others.no_duplicates()) by {
        assert forall|i: int, j: int| 0 <= i < others.len() && 0 <= j < others.len() && i != j implies others[i]
            != others[j] by {}
    }
    others.lemma_multiset_has_no_duplicates();
}

} // verus!
