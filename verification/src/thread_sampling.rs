//! The decisions of sampling one thread or task: when to look up a thread's
//! name, whether to walk its stack again or record the previous stack, and
//! what an attempt answers, errors that can be let pass included.
use vstd::prelude::*;

verus! {

/// How one attempt to sample a thread or a task ended.
pub enum SampleAttempt<E> {
    /// The sample was taken.
    Done,
    /// The thread or task is gone.
    Terminated,
    /// An error that sampling lets pass, up to a limit.
    Ignorable(E),
    /// Any other error.
    Failed(E),
}

/// How many ignorable errors a thread or task may meet before it is taken
/// for terminated.
pub const IGNORED_ERROR_LIMIT: usize = 10;

/// The ignorable errors met so far while sampling one thread or task.
pub struct IgnoredErrors<E> {
    pub errors: Vec<E>,
}

impl<E> IgnoredErrors<E> {
    pub fn new() -> (r: Self)
        ensures
            r.errors@.len() == 0,
    {
        IgnoredErrors { errors: Vec::new() }
    }

    /// What an attempt answers: `Ok(true)` while the thread or task lives,
    /// `Ok(false)` once it is gone, or the error. An ignorable error is kept,
    /// and counts as a sample taken until ten of them have been met; from
    /// then on the thread or task is taken for terminated.
    pub fn verdict(&mut self, attempt: SampleAttempt<E>) -> (r: Result<bool, E>)
        requires
            old(self).errors@.len() < usize::MAX,
        ensures
            match attempt {
                SampleAttempt::Done => r == Ok::<bool, E>(true) && final(self).errors@ == old(self).errors@,
                SampleAttempt::Terminated => r == Ok::<bool, E>(false) && final(self).errors@ == old(self).errors@,
                SampleAttempt::Ignorable(e) => final(self).errors@ == old(self).errors@.push(e) && r == Ok::<
                    bool,
                    E,
                >(final(self).errors@.len() < IGNORED_ERROR_LIMIT),
                SampleAttempt::Failed(e) => r == Err::<bool, E>(e) && final(self).errors@ == old(self).errors@,
            },
    {
        match attempt {
            SampleAttempt::Done => Ok(true),
            SampleAttempt::Terminated => Ok(false),
            SampleAttempt::Ignorable(e) => {
                self.errors.push(e);
                Ok(self.errors.len() < IGNORED_ERROR_LIMIT)
            },
            SampleAttempt::Failed(e) => Err(e),
        }
    }
}

/// What sampling one thread remembers between ticks: how many ticks there
/// were, whether the thread's name is known, and the stack of its previous
/// sample (`None` before the first one).
pub struct ThreadSampling {
    pub tick_count: usize,
    pub has_name: bool,
    pub previous_stack: Option<Option<usize>>,
}

impl ThreadSampling {
    pub fn new() -> (s: Self)
        ensures
            s.tick_count == 0,
            !s.has_name,
            s.previous_stack is None,
    {
        ThreadSampling { tick_count: 0, has_name: false, previous_stack: None }
    }

    /// Starts a tick; answers whether to look up the thread's name: while it
    /// is unknown, on the first tick and every tenth after it.
    pub fn start_tick(&mut self) -> (look_up_name: bool)
        requires
            old(self).tick_count < usize::MAX,
        ensures
            final(self).tick_count == old(self).tick_count + 1,
            final(self).has_name == old(self).has_name,
            final(self).previous_stack == old(self).previous_stack,
            look_up_name == (!old(self).has_name && final(self).tick_count % 10 == 1),
    {
        self.tick_count = self.tick_count + 1;
        !self.has_name && self.tick_count % 10 == 1
    }

    /// Records whether the name lookup found a name.
    pub fn name_looked_up(&mut self, found: bool)
        ensures
            final(self).has_name == found,
            final(self).tick_count == old(self).tick_count,
            final(self).previous_stack == old(self).previous_stack,
    {
        self.has_name = found;
    }

    /// Whether to walk the thread's stack: when it used CPU time since the
    /// last sample, or when there is no previous sample. Otherwise the
    /// previous stack is recorded again.
    pub fn walks_stack(&self, cpu_delta_is_zero: bool) -> (r: bool)
        ensures
            r == (!cpu_delta_is_zero || self.previous_stack is None),
    {
        !cpu_delta_is_zero || self.previous_stack.is_none()
    }

    /// Records the stack of the sample just taken.
    pub fn sampled(&mut self, stack: Option<usize>)
        ensures
            final(self).previous_stack == Some(stack),
            final(self).tick_count == old(self).tick_count,
            final(self).has_name == old(self).has_name,
    {
        self.previous_stack = Some(stack);
    }
}

} // verus!
