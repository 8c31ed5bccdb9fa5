//! The request of the `/symbolicate/v5` API: jobs, each with a memory map of
//! libraries and a list of stacks of (module index, address) frames.
use vstd::prelude::*;
use vstd::utf8::encode_utf8;
use crate::text::{string_push, string_push_str};

verus! {

/// Whether `b` may occur in a debug file name: ASCII letters and digits and
/// `_.+{}[]:@<> ~-`.
pub open spec fn is_debug_filename_byte(b: u8) -> bool {
    ||| (65u8 <= b && b <= 90u8)
    ||| (97u8 <= b && b <= 122u8)
    ||| (48u8 <= b && b <= 57u8)
    ||| b == 95u8 || b == 46u8 || b == 43u8 || b == 123u8 || b == 125u8 || b == 91u8 || b == 93u8
    ||| b == 58u8 || b == 64u8 || b == 60u8 || b == 62u8 || b == 32u8 || b == 126u8 || b == 45u8
}

/// Whether `b` is an ASCII hexadecimal digit of either case.
pub open spec fn is_hex_digit_byte(b: u8) -> bool {
    ||| (48u8 <= b && b <= 57u8)
    ||| (97u8 <= b && b <= 102u8)
    ||| (65u8 <= b && b <= 70u8)
}

/// Every byte of the UTF-8 encoding of `s` may occur in a debug file name.
pub open spec fn valid_debug_filename(s: Seq<char>) -> bool {
    forall|i: int| 0 <= i < encode_utf8(s).len() ==> #[trigger] is_debug_filename_byte(encode_utf8(s)[i])
}

/// Every byte of the UTF-8 encoding of `s` is a hexadecimal digit.
pub open spec fn hex_string(s: Seq<char>) -> bool {
    forall|i: int| 0 <= i < encode_utf8(s).len() ==> #[trigger] is_hex_digit_byte(encode_utf8(s)[i])
}

/// The text of `{:?}` applied to a string: the string in double quotes, with
/// the characters that need it escaped.
pub uninterp spec fn debug_quoted(s: Seq<char>) -> Seq<char>;

/// `format!("{:?}", s)`: the `Debug` form of a string, a function of the
/// string alone. What it holds is named, not stated.
#[verifier::external_body]
pub(crate) fn debug_quote(s: &str) -> (r: String)
    ensures
        r@ == debug_quoted(s@),
{
    format!("{:?}", s)
}

/// The message of a rejected value: the prefix, a space and the `Debug` form
/// of the value.
fn format_rejection(prefix: &str, s: &str) -> (r: String)
    ensures
        r@ == prefix@ + seq![' '] + debug_quoted(s@),
{
    let mut r = String::new();
    string_push_str(&mut r, prefix);
    string_push(&mut r, ' ');
    let quoted = debug_quote(s);
    string_push_str(&mut r, quoted.as_str());
    r
}

fn is_valid_debug_filename(s: &str) -> (r: bool)
    ensures
        r == valid_debug_filename(s@),
{
    let bytes = s.as_bytes();
    let mut i: usize = 0;
    while i < bytes.len()
        invariant
            i <= bytes@.len(),
            bytes@ == encode_utf8(s@),
            forall|j: int| 0 <= j < i ==> #[trigger] is_debug_filename_byte(bytes@[j]),
        decreases bytes@.len() - i,
    {
        let b = bytes[i];
        let ok = (65u8 <= b && b <= 90u8) || (97u8 <= b && b <= 122u8) || (48u8 <= b && b <= 57u8)
            || b == 95u8 || b == 46u8 || b == 43u8 || b == 123u8 || b == 125u8 || b == 91u8
            || b == 93u8 || b == 58u8 || b == 64u8 || b == 60u8 || b == 62u8 || b == 32u8
            || b == 126u8 || b == 45u8;
        if !ok {
            assert(!is_debug_filename_byte(bytes@[i as int]));
            return false;
        }
        i = i + 1;
    }
    true
}

fn is_hex_string(s: &str) -> (r: bool)
    ensures
        r == hex_string(s@),
{
    let bytes = s.as_bytes();
    let mut i: usize = 0;
    while i < bytes.len()
        invariant
            i <= bytes@.len(),
            bytes@ == encode_utf8(s@),
            forall|j: int| 0 <= j < i ==> #[trigger] is_hex_digit_byte(bytes@[j]),
        decreases bytes@.len() - i,
    {
        let b = bytes[i];
        if !((48u8 <= b && b <= 57u8) || (97u8 <= b && b <= 102u8) || (65u8 <= b && b <= 70u8)) {
            assert(!is_hex_digit_byte(bytes@[i as int]));
            return false;
        }
        i = i + 1;
    }
    true
}

/// A debug filename whose characters have gone through some validation.
///
/// Allowed characters: alphanumeric and `_.+{}[]:@<> ~-`.
pub struct ValidDebugName(String);

impl View for ValidDebugName {
    type V = Seq<char>;

    closed spec fn view(&self) -> Seq<char> {
        self.0@
    }
}

impl ValidDebugName {
    /// Every value holds a valid debug file name.
    pub closed spec fn wf(&self) -> bool {
        valid_debug_filename(self.0@)
    }

    pub fn new(s: String) -> (r: Result<Self, String>)
        ensures
            valid_debug_filename(s@) <==> r is Ok,
            r matches Ok(n) ==> n@ == s@ && n.wf(),
            r matches Err(e) ==> e@ == "invalid debug_filename"@ + seq![' '] + debug_quoted(s@),
    {
        if !is_valid_debug_filename(s.as_str()) {
            return Err(format_rejection("invalid debug_filename", s.as_str()));
        }
        Ok(ValidDebugName(s))
    }

    pub fn as_str(&self) -> (r: &str)
        ensures
            r@ == self@,
    {
        self.0.as_str()
    }

    /// A copy of the name.
    pub fn clone(&self) -> (r: Self)
        ensures
            r@ == self@,
            self.wf() ==> r.wf(),
    {
        ValidDebugName(self.0.clone())
    }
}

/// A string whose characters have been validated to be hex digits. It is not
/// required to parse as a debug ID: strict parsing happens later, per library.
pub struct HexString(String);

impl View for HexString {
    type V = Seq<char>;

    closed spec fn view(&self) -> Seq<char> {
        self.0@
    }
}

impl HexString {
    /// Every value holds hexadecimal digits only.
    pub closed spec fn wf(&self) -> bool {
        hex_string(self.0@)
    }

    pub fn new(s: String) -> (r: Result<Self, String>)
        ensures
            hex_string(s@) <==> r is Ok,
            r matches Ok(h) ==> h@ == s@ && h.wf(),
            r matches Err(e) ==> e@ == "invalid debug_id"@ + seq![' '] + debug_quoted(s@),
    {
        if !is_hex_string(s.as_str()) {
            return Err(format_rejection("invalid debug_id", s.as_str()));
        }
        Ok(HexString(s))
    }

    pub fn as_str(&self) -> (r: &str)
        ensures
            r@ == self@,
    {
        self.0.as_str()
    }

    /// A copy of the string.
    pub fn clone(&self) -> (r: Self)
        ensures
            r@ == self@,
            self.wf() ==> r.wf(),
    {
        HexString(self.0.clone())
    }
}

/// A library of the memory map, named by its debug name and breakpad ID.
pub struct Lib {
    pub debug_name: ValidDebugName,
    pub breakpad_id: HexString,
}

impl Lib {
    /// Two entries name the same library when both their names and IDs agree.
    pub open spec fn same_lib(&self, other: &Lib) -> bool {
        self.debug_name@ == other.debug_name@ && self.breakpad_id@ == other.breakpad_id@
    }

    /// A copy of the entry.
    pub fn clone(&self) -> (r: Self)
        ensures
            r.same_lib(self),
            self.debug_name.wf() ==> r.debug_name.wf(),
            self.breakpad_id.wf() ==> r.breakpad_id.wf(),
    {
        Lib { debug_name: self.debug_name.clone(), breakpad_id: self.breakpad_id.clone() }
    }

    /// Builds a library entry from its two strings, validating each of them;
    /// the debug name is checked first.
    pub fn from_strings(debug_name: String, breakpad_id: String) -> (r: Result<Lib, String>)
        ensures
            r is Ok <==> valid_debug_filename(debug_name@) && hex_string(breakpad_id@),
            r matches Ok(lib) ==> lib.debug_name@ == debug_name@ && lib.breakpad_id@ == breakpad_id@,
            r matches Err(e) ==> if !valid_debug_filename(debug_name@) {
                e@ == "invalid debug_filename"@ + seq![' '] + debug_quoted(debug_name@)
            } else {
                e@ == "invalid debug_id"@ + seq![' '] + debug_quoted(breakpad_id@)
            },
    {
        let debug_name = ValidDebugName::new(debug_name)?;
        let breakpad_id = HexString::new(breakpad_id)?;
        Ok(Lib { debug_name, breakpad_id })
    }
}

/// One frame of a requested stack.
pub struct RequestFrame {
    /// index into memory_map
    pub module_index: u32,
    /// lib-relative memory offset
    pub address: u32,
}

/// A requested stack.
pub struct RequestStack(pub Vec<RequestFrame>);

/// One symbolication job.
pub struct Job {
    pub memory_map: Vec<Lib>,
    pub stacks: Vec<RequestStack>,
}

/// A request holds either a list of jobs or a single job.
pub enum Request {
    WithJobsList { jobs: Vec<Job> },
    JustOneJob(Job),
}

impl Request {
    /// The jobs of the request, in order.
    pub open spec fn spec_jobs(&self) -> Seq<Job> {
        match self {
            Request::WithJobsList { jobs } => jobs@,
            Request::JustOneJob(job) => seq![*job],
        }
    }

    pub fn jobs(&self) -> (it: JobIterator<'_>)
        ensures
            it.remaining() == self.spec_jobs(),
    {
        match self {
            Request::WithJobsList { jobs } => JobIterator::WithJobsList(jobs.as_slice(), 0),
            Request::JustOneJob(job) => JobIterator::JustOneJob(Some(job)),
        }
    }

    /// The number of jobs.
    pub fn job_count(&self) -> (n: usize)
        ensures
            n == self.spec_jobs().len(),
    {
        match self {
            Request::WithJobsList { jobs } => jobs.len(),
            Request::JustOneJob(_) => 1,
        }
    }

    /// The job at position `i`.
    pub fn job(&self, i: usize) -> (j: &Job)
        requires
            i < self.spec_jobs().len(),
        ensures
            *j == self.spec_jobs()[i as int],
    {
        match self {
            Request::WithJobsList { jobs } => &jobs[i],
            Request::JustOneJob(job) => job,
        }
    }
}

/// Walks over the jobs of a request.
pub enum JobIterator<'a> {
    /// The jobs and the position of the next one.
    WithJobsList(&'a [Job], usize),
    /// The single job, until it has been handed out.
    JustOneJob(Option<&'a Job>),
}

impl<'a> JobIterator<'a> {
    /// The jobs that have not been handed out yet.
    pub open spec fn remaining(&self) -> Seq<Job> {
        match self {
            JobIterator::WithJobsList(jobs, pos) => if *pos <= jobs@.len() {
                jobs@.skip(*pos as int)
            } else {
                Seq::empty()
            },
            JobIterator::JustOneJob(job) => match job {
                Some(j) => seq![**j],
                None => Seq::empty(),
            },
        }
    }

    /// Hands out the next job.
    pub fn next(&mut self) -> (r: Option<&'a Job>)
        ensures
            old(self).remaining().len() == 0 ==> r is None && final(self).remaining().len() == 0,
            old(self).remaining().len() > 0 ==> r == Some(&old(self).remaining()[0])
                && final(self).remaining() == old(self).remaining().drop_first(),
    {
        match self {
            JobIterator::WithJobsList(jobs, pos) => {
                if *pos < jobs.len() {
                    let job = &jobs[*pos];
                    assert(jobs@.skip(*pos + 1) =~= jobs@.skip(*pos as int).drop_first());
                    assert(jobs@.skip(*pos as int)[0] == jobs@[*pos as int]);
                    *pos = *pos + 1;
                    Some(job)
                } else {
                    None
                }
            },
            JobIterator::JustOneJob(job) => {
                let r = *job;
                *job = None;
                r
            },
        }
    }

    /// The number of jobs that have not been handed out yet.
    pub fn count(self) -> (n: usize)
        ensures
            n == self.remaining().len(),
    {
        match self {
            JobIterator::WithJobsList(jobs, pos) => {
                if pos < jobs.len() {
                    jobs.len() - pos
                } else {
                    0
                }
            },
            JobIterator::JustOneJob(job) => match job {
                Some(_) => 1,
                None => 0,
            },
        }
    }
}

} // verus!
