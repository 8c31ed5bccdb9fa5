//! A frame-pointer stack walk of a suspended x86-64 thread, one memory read
//! at a time: the reads go to the other process, so the caller performs them
//! and hands back what it read.
//!
//! Code compiled with frame pointers keeps a linked list on the stack: at the
//! frame pointer lies the caller's frame pointer, and eight bytes above it the
//! return address into the caller. The stack grows down, so each caller's
//! frame lies higher than its callee's; the walk stops where that fails.
use vstd::prelude::*;

verus! {

/// What reading eight bytes at `address` gives: `None` where it cannot be read.
pub open spec fn read_at(memory: Map<u64, u64>, address: u64) -> Option<u64> {
    if memory.contains_key(address) {
        Some(memory[address])
    } else {
        None
    }
}

/// Whether the walk goes on at frame pointer `fp`: it is not null and it is
/// aligned to eight bytes.
pub open spec fn walks_on(fp: u64) -> bool {
    fp != 0 && fp % 8 == 0
}

/// The return addresses that the frame chain starting at `fp` holds, from
/// the innermost caller out: the walk stops at a null or misaligned frame
/// pointer, at memory that cannot be read, and where the caller's frame does
/// not lie above the current one.
pub open spec fn frame_chain(memory: Map<u64, u64>, fp: u64) -> Seq<u64>
    decreases u64::MAX - fp,
{
    if !walks_on(fp) {
        Seq::empty()
    } else {
        match read_at(memory, fp) {
            None => Seq::empty(),
            Some(caller) => if caller <= fp || fp > u64::MAX - 8 {
                Seq::empty()
            } else {
                match read_at(memory, (fp + 8) as u64) {
                    None => Seq::empty(),
                    Some(return_address) => seq![return_address] + frame_chain(memory, caller),
                }
            },
        }
    }
}

/// A frame-pointer stack walk in progress.
pub struct FramePointerWalk {
    /// The instruction pointer, then the return addresses found so far.
    frames: Vec<u64>,
    /// The frame pointer of the frame being read.
    frame_ptr: u64,
    /// The caller's frame pointer, once read; the return address is next.
    caller_frame_ptr: Option<u64>,
    done: bool,
}

impl FramePointerWalk {
    /// The instruction pointer, then the return addresses found so far.
    pub closed spec fn collected(&self) -> Seq<u64> {
        self.frames@
    }

    /// Whether the walk has ended.
    pub closed spec fn is_done(&self) -> bool {
        self.done
    }

    /// The address the walk reads next, while it goes on.
    pub closed spec fn read_address(&self) -> u64 {
        match self.caller_frame_ptr {
            None => self.frame_ptr,
            Some(_) => (self.frame_ptr + 8) as u64,
        }
    }

    /// The return addresses the walk will still find, if the memory it reads
    /// is `memory`.
    pub closed spec fn pending(&self, memory: Map<u64, u64>) -> Seq<u64> {
        if self.done {
            Seq::empty()
        } else {
            match self.caller_frame_ptr {
                None => frame_chain(memory, self.frame_ptr),
                Some(caller) => match read_at(memory, (self.frame_ptr + 8) as u64) {
                    None => Seq::empty(),
                    Some(return_address) => seq![return_address] + frame_chain(memory, caller),
                },
            }
        }
    }

    /// How far the walk is from its end: each answer brings it closer.
    pub closed spec fn distance(&self) -> int {
        if self.done {
            0
        } else {
            match self.caller_frame_ptr {
                None => 2 * (u64::MAX - self.frame_ptr) + 2,
                Some(caller) => 2 * (u64::MAX - caller) + 3,
            }
        }
    }

    /// The walk's state holds together: while it goes on, the frame pointer
    /// is one it walks on, and a caller's frame pointer read lies above it
    /// with the return address readable without overflow.
    pub closed spec fn wf(&self) -> bool {
        &&& !self.done ==> walks_on(self.frame_ptr)
        &&& (!self.done && self.caller_frame_ptr is Some) ==> {
            let caller = self.caller_frame_ptr->0;
            &&& self.frame_ptr < caller
            &&& self.frame_ptr <= u64::MAX - 8
        }
    }

    /// The walk of a thread whose registers hold `rip` and `rbp`.
    pub fn new(rip: u64, rbp: u64) -> (w: Self)
        ensures
            w.wf(),
            w.collected() == seq![rip],
            forall|memory: Map<u64, u64>| #[trigger] w.pending(memory) == frame_chain(memory, rbp),
    {
        let walks = rbp != 0 && rbp & 7 == 0;
        proof {
            assert((rbp & 7 == 0) == (rbp % 8 == 0)) by (bit_vector);
        }
        let mut frames: Vec<u64> = Vec::new();
        frames.push(rip);
        FramePointerWalk { frames, frame_ptr: rbp, caller_frame_ptr: None, done: !walks }
    }

    /// The address to read next, or `None` once the walk has ended.
    pub fn next_read(&self) -> (r: Option<u64>)
        requires
            self.wf(),
        ensures
            r == (if self.is_done() {
                None
            } else {
                Some(self.read_address())
            }),
    {
        if self.done {
            None
        } else {
            match self.caller_frame_ptr {
                None => Some(self.frame_ptr),
                Some(_) => Some(self.frame_ptr + 8),
            }
        }
    }

    /// Hands the walk what reading at `next_read` gave (`None` where the
    /// memory could not be read). For every memory that gives this answer
    /// there, the frames collected and still to come stay the same, and the
    /// walk comes closer to its end.
    pub fn provide(&mut self, value: Option<u64>)
        requires
            old(self).wf(),
            !old(self).is_done(),
        ensures
            final(self).wf(),
            final(self).distance() < old(self).distance(),
            forall|memory: Map<u64, u64>|
                read_at(memory, old(self).read_address()) == value ==> final(self).collected() + #[trigger] final(self).pending(memory) == old(self).collected() + old(self).pending(memory),
    {
        let ghost before = self.frames@;
        match self.caller_frame_ptr {
            None => {
                match value {
                    Some(caller) => {
                        if caller <= self.frame_ptr || self.frame_ptr > u64::MAX - 8 {
                            self.done = true;
                        } else {
                            self.caller_frame_ptr = Some(caller);
                        }
                    },
                    None => {
                        self.done = true;
                    },
                }
                proof {
                    assert forall|memory: Map<u64, u64>|
                        read_at(memory, old(self).read_address()) == value implies self.collected() + #[trigger] self.pending(
                            memory,
                        ) == old(self).collected() + old(self).pending(memory) by {
                        if self.done {
                            assert(self.collected() + self.pending(memory) == self.collected());
                        }
                    }
                }
            },
            Some(caller) => {
                match value {
                    Some(return_address) => {
                        self.frames.push(return_address);
                        self.frame_ptr = caller;
                        self.caller_frame_ptr = None;
                        let walks = caller & 7 == 0;
                        proof {
                            assert((caller & 7 == 0) == (caller % 8 == 0)) by (bit_vector);
                        }
                        if !walks {
                            self.done = true;
                        }
                        proof {
                            assert forall|memory: Map<u64, u64>|
                                read_at(memory, old(self).read_address()) == value implies self.collected()
                                + #[trigger] self.pending(memory) == old(self).collected() + old(self).pending(memory) by {
                                assert(self.collected() == before.push(return_address));
                                if self.done {
                                    assert(frame_chain(memory, caller) == Seq::<u64>::empty());
                                    assert(self.collected() + self.pending(memory) == before + seq![return_address]
                                        + frame_chain(memory, caller));
                                } else {
                                    assert(self.collected() + self.pending(memory) == before + seq![return_address]
                                        + frame_chain(memory, caller));
                                }
                            }
                        }
                    },
                    None => {
                        self.done = true;
                        proof {
                            assert forall|memory: Map<u64, u64>|
                                read_at(memory, old(self).read_address()) == value implies self.collected()
                                + #[trigger] self.pending(memory) == old(self).collected() + old(self).pending(memory) by {
                                assert(self.collected() + self.pending(memory) == self.collected());
                            }
                        }
                    },
                }
            },
        }
    }

    /// The frames of the stack, outermost first: the return addresses found,
    /// from the outermost caller in, then the instruction pointer.
    pub fn into_frames(self) -> (frames: Vec<u64>)
        ensures
            frames@ == self.collected().reverse(),
    {
        let mut frames: Vec<u64> = Vec::new();
        let mut i: usize = self.frames.len();
        while i > 0
            invariant
                i <= self.frames@.len(),
                frames@ == self.frames@.subrange(i as int, self.frames@.len() as int).reverse(),
            decreases i,
        {
            i = i - 1;
            frames.push(self.frames[i]);
            proof {
                assert(self.frames@.subrange(i as int, self.frames@.len() as int) == seq![self.frames@[i as int]]
                    + self.frames@.subrange(i + 1, self.frames@.len() as int));
                assert(frames@ == self.frames@.subrange(i as int, self.frames@.len() as int).reverse());
            }
        }
        assert(self.frames@.subrange(0, self.frames@.len() as int) == self.frames@);
        frames
    }
}

/// A finished walk of a thread whose registers held `rip` and `rbp`, every
/// answer of which was what `memory` holds, has collected the instruction
/// pointer and then the frame chain from `rbp`.
pub proof fn law_finished_walk_holds_the_frame_chain(walk: FramePointerWalk, memory: Map<u64, u64>, rip: u64, rbp: u64)
    requires
        walk.is_done(),
        walk.collected() + walk.pending(memory) == seq![rip] + frame_chain(memory, rbp),
    ensures
        walk.collected() == seq![rip] + frame_chain(memory, rbp),
{
    assert(walk.collected() + walk.pending(memory) == walk.collected());
}

} // verus!
