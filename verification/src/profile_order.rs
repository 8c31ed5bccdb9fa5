//! How a profile orders its threads and subprocesses after their start
//! times: threads by name (unnamed first) and then thread id, subprocesses
//! by process id. Names compare character by character, by code point,
//! which is the byte order of their UTF-8 text.
use crate::text::chars_of;
use std::cmp::Ordering;
use vstd::prelude::*;

verus! {

/// The lexicographic comparison of two texts by code point: -1, 0 or 1.
pub open spec fn text_order(a: Seq<char>, b: Seq<char>) -> int
    decreases a.len(),
{
    if a.len() == 0 {
        if b.len() == 0 { 0 } else { -1 }
    } else if b.len() == 0 {
        1
    } else if (a[0] as u32) < (b[0] as u32) {
        -1
    } else if (b[0] as u32) < (a[0] as u32) {
        1
    } else {
        text_order(a.drop_first(), b.drop_first())
    }
}

/// The comparison of two optional names, an absent one first: -1, 0 or 1.
pub open spec fn name_order(a: Option<Seq<char>>, b: Option<Seq<char>>) -> int {
    match (a, b) {
        (None, None) => 0,
        (None, Some(_)) => -1,
        (Some(_), None) => 1,
        (Some(x), Some(y)) => text_order(x, y),
    }
}

/// How two threads with the same start time are ordered: by name, then by
/// thread id. -1, 0 or 1.
pub open spec fn thread_identity_rank(a_name: Option<Seq<char>>, a_tid: u32, b_name: Option<Seq<char>>, b_tid: u32) -> int {
    let by_name = name_order(a_name, b_name);
    if by_name != 0 {
        by_name
    } else if a_tid < b_tid {
        -1
    } else if a_tid == b_tid {
        0
    } else {
        1
    }
}

/// The optional name as text, for contracts.
pub open spec fn opt_text(s: Option<&str>) -> Option<Seq<char>> {
    match s {
        Some(x) => Some(x@),
        None => None,
    }
}

proof fn lemma_text_order_suffix(a: Seq<char>, b: Seq<char>, i: int)
    requires
        0 <= i <= a.len(),
        i <= b.len(),
        a.subrange(0, i) == b.subrange(0, i),
    ensures
        text_order(a, b) == text_order(a.subrange(i, a.len() as int), b.subrange(i, b.len() as int)),
    decreases i,
{
    if i > 0 {
        assert(a[0] == a.subrange(0, i)[0]);
        assert(b[0] == b.subrange(0, i)[0]);
        let a1 = a.drop_first();
        let b1 = b.drop_first();
        assert(a1.subrange(0, i - 1) == a.subrange(0, i).drop_first());
        assert(b1.subrange(0, i - 1) == b.subrange(0, i).drop_first());
        lemma_text_order_suffix(a1, b1, i - 1);
        assert(a1.subrange(i - 1, a1.len() as int) == a.subrange(i, a.len() as int));
        assert(b1.subrange(i - 1, b1.len() as int) == b.subrange(i, b.len() as int));
    } else {
        assert(a.subrange(0, a.len() as int) == a);
        assert(b.subrange(0, b.len() as int) == b);
    }
}

/// Compares two texts character by character: -1, 0 or 1.
fn compare_text(a: &str, b: &str) -> (r: i8)
    ensures
        r == text_order(a@, b@),
{
    let x = chars_of(a);
    let y = chars_of(b);
    let mut i: usize = 0;
    while i < x.len() && i < y.len() && x[i] == y[i]
        invariant
            x@ == a@,
            y@ == b@,
            i <= x@.len(),
            i <= y@.len(),
            x@.subrange(0, i as int) == y@.subrange(0, i as int),
        decreases x@.len() - i,
    {
        proof {
            assert(x@.subrange(0, i + 1) == x@.subrange(0, i as int).push(x@[i as int]));
            assert(y@.subrange(0, i + 1) == y@.subrange(0, i as int).push(y@[i as int]));
        }
        i = i + 1;
    }
    proof {
        lemma_text_order_suffix(x@, y@, i as int);
    }
    let ghost ra = x@.subrange(i as int, x@.len() as int);
    let ghost rb = y@.subrange(i as int, y@.len() as int);
    assert(text_order(a@, b@) == text_order(ra, rb));
    if i == x.len() {
        assert(ra.len() == 0);
        if i == y.len() {
            assert(rb.len() == 0);
            0
        } else {
            -1
        }
    } else if i == y.len() {
        assert(rb.len() == 0);
        1
    } else {
        assert(ra[0] == x@[i as int] && rb[0] == y@[i as int]);
        assert(x@[i as int] != y@[i as int]);
        let p = x[i] as u32;
        let q = y[i] as u32;
        proof {
            vstd::utf8::char_u32_cast(x@[i as int], p);
            vstd::utf8::char_u32_cast(y@[i as int], q);
        }
        if p < q {
            -1
        } else {
            assert(p != q);
            1
        }
    }
}

/// Compares two optional names, an absent one first: -1, 0 or 1.
fn compare_names(a: Option<&str>, b: Option<&str>) -> (r: i8)
    ensures
        r == name_order(opt_text(a), opt_text(b)),
{
    match (a, b) {
        (None, None) => 0,
        (None, Some(_)) => -1,
        (Some(_), None) => 1,
        (Some(x), Some(y)) => compare_text(x, y),
    }
}

/// Orders two threads that started at the same time, as a profile lists
/// them: by name, unnamed threads first, then by thread id.
pub fn thread_identity_order(a_name: Option<&str>, a_tid: u32, b_name: Option<&str>, b_tid: u32) -> (o: Ordering)
    ensures
        thread_identity_rank(opt_text(a_name), a_tid, opt_text(b_name), b_tid) < 0 ==> o == Ordering::Less,
        thread_identity_rank(opt_text(a_name), a_tid, opt_text(b_name), b_tid) == 0 ==> o == Ordering::Equal,
        thread_identity_rank(opt_text(a_name), a_tid, opt_text(b_name), b_tid) > 0 ==> o == Ordering::Greater,
{
    let by_name = compare_names(a_name, b_name);
    if by_name < 0 {
        Ordering::Less
    } else if by_name > 0 {
        Ordering::Greater
    } else if a_tid < b_tid {
        Ordering::Less
    } else if a_tid == b_tid {
        Ordering::Equal
    } else {
        Ordering::Greater
    }
}


proof fn lemma_text_order_antisymmetric(a: Seq<char>, b: Seq<char>)
    ensures
        text_order(a, b) == -text_order(b, a),
        text_order(a, b) == 0 <==> a == b,
    decreases a.len(),
{
    if a.len() > 0 && b.len() > 0 {
        if a[0] == b[0] {
            lemma_text_order_antisymmetric(a.drop_first(), b.drop_first());
            if a.drop_first() == b.drop_first() {
                assert(a == seq![a[0]] + a.drop_first());
                assert(b == seq![b[0]] + b.drop_first());
            }
        } else {
            let p = a[0] as u32;
            let q = b[0] as u32;
            vstd::utf8::char_u32_cast(a[0], p);
            vstd::utf8::char_u32_cast(b[0], q);
        }
    } else if a.len() == 0 && b.len() == 0 {
        assert(a == b);
    }
}

/// Two threads compare in opposite ways when swapped, and compare equal
/// only when they have the same name and thread id: the order in which a
/// profile lists threads that started together does not depend on the
/// order in which they were recorded.
pub proof fn law_thread_order_is_antisymmetric(a_name: Option<Seq<char>>, a_tid: u32, b_name: Option<Seq<char>>, b_tid: u32)
    ensures
        thread_identity_rank(a_name, a_tid, b_name, b_tid) == -thread_identity_rank(b_name, b_tid, a_name, a_tid),
        thread_identity_rank(a_name, a_tid, b_name, b_tid) == 0 <==> (a_name == b_name && a_tid == b_tid),
{
    match (a_name, b_name) {
        (Some(x), Some(y)) => lemma_text_order_antisymmetric(x, y),
        _ => {},
    }
}

} // verus!
