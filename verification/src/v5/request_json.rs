//! The request of `/symbolicate/v5`: jobs, each with a memory map of libraries
//! and a list of stacks of (module index, address) frames.
use vstd::prelude::*;

verus! {

/// A request holds either a list of jobs or a single job.
pub enum Request {
    WithJobsList { jobs: Vec<Job> },
    JustOneJob(Job),
}

impl Request {
    /// The jobs of the request, in order.
    pub open spec fn spec_jobs(&self) -> Seq<Job> {
        match self {
            Request::WithJobsList { jobs } => jobs@,
            Request::JustOneJob(job) => seq![*job],
        }
    }

    pub fn jobs(&self) -> (it: JobIterator<'_>)
        ensures
            it.remaining() == self.spec_jobs(),
    {
        match self {
            Request::WithJobsList { jobs } => JobIterator::WithJobsList(jobs.as_slice(), 0),
            Request::JustOneJob(job) => JobIterator::JustOneJob(Some(job)),
        }
    }

    /// The number of jobs.
    pub fn job_count(&self) -> (n: usize)
        ensures
            n == self.spec_jobs().len(),
    {
        match self {
            Request::WithJobsList { jobs } => jobs.len(),
            Request::JustOneJob(_) => 1,
        }
    }

    /// The job at position `i`.
    pub fn job(&self, i: usize) -> (j: &Job)
        requires
            i < self.spec_jobs().len(),
        ensures
            *j == self.spec_jobs()[i as int],
    {
        match self {
            Request::WithJobsList { jobs } => &jobs[i],
            Request::JustOneJob(job) => job,
        }
    }
}

/// One symbolication job.
pub struct Job {
    pub memory_map: Vec<Lib>,
    pub stacks: Vec<Stack>,
}

/// A library of the memory map, named by its debug name and breakpad ID.
pub struct Lib {
    pub debug_name: String,
    pub breakpad_id: String,
}

impl Lib {
    /// Two libraries are the same when both their names and IDs are.
    pub open spec fn same_lib(&self, other: &Lib) -> bool {
        self.debug_name@ == other.debug_name@ && self.breakpad_id@ == other.breakpad_id@
    }
}

/// A requested stack.
pub struct Stack(pub Vec<StackFrame>);

/// One frame of a requested stack.
pub struct StackFrame {
    /// index into memory_map
    pub module_index: u32,
    /// lib-relative memory offset
    pub address: u32,
}

/// Walks over the jobs of a request.
pub enum JobIterator<'a> {
    /// The jobs and the position of the next one.
    WithJobsList(&'a [Job], usize),
    /// The single job, until it has been handed out.
    JustOneJob(Option<&'a Job>),
}

impl<'a> JobIterator<'a> {
    /// The jobs that have not been handed out yet.
    pub open spec fn remaining(&self) -> Seq<Job> {
        match self {
            JobIterator::WithJobsList(jobs, pos) => if *pos <= jobs@.len() {
                jobs@.skip(*pos as int)
            } else {
                Seq::empty()
            },
            JobIterator::JustOneJob(job) => match job {
                Some(j) => seq![**j],
                None => Seq::empty(),
            },
        }
    }

    /// Hands out the next job.
    pub fn next(&mut self) -> (r: Option<&'a Job>)
        ensures
            old(self).remaining().len() == 0 ==> r is None && final(self).remaining().len() == 0,
            old(self).remaining().len() > 0 ==> r == Some(&old(self).remaining()[0])
                && final(self).remaining() == old(self).remaining().drop_first(),
    {
        match self {
            JobIterator::WithJobsList(jobs, pos) => {
                if *pos < jobs.len() {
                    let job = &jobs[*pos];
                    assert(jobs@.skip(*pos + 1) =~= jobs@.skip(*pos as int).drop_first());
                    assert(jobs@.skip(*pos as int)[0] == jobs@[*pos as int]);
                    *pos = *pos + 1;
                    Some(job)
                } else {
                    None
                }
            },
            JobIterator::JustOneJob(job) => {
                let r = *job;
                *job = None;
                r
            },
        }
    }

    /// The number of jobs that have not been handed out yet.
    pub fn count(self) -> (n: usize)
        ensures
            n == self.remaining().len(),
    {
        match self {
            JobIterator::WithJobsList(jobs, pos) => {
                if pos < jobs.len() {
                    jobs.len() - pos
                } else {
                    0
                }
            },
            JobIterator::JustOneJob(job) => match job {
                Some(_) => 1,
                None => 0,
            },
        }
    }
}

} // verus!
