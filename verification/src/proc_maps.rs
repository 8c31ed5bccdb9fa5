//! Facts about the profiled process: its threads, the architecture names of its
//! images, and the changes between two sorted lists of loaded images.
use crate::seqs::{at_index, at_position, from_position};
use std::cmp::Ordering;
use vstd::std_specs::cmp::PartialEqSpec;
use vstd::prelude::*;
use vstd::multiset::Multiset;

verus! {

/// A thread of the profiled process.
pub struct ThreadInfo {
    pub tid: u64,
    pub name: String,
    pub backtrace: Option<Vec<u64>>,
}

pub const CPU_ARCH_ABI64: u32 = 0x0100_0000;
pub const CPU_TYPE_X86: u32 = 7;
pub const CPU_TYPE_ARM: u32 = 12;
pub const CPU_TYPE_X86_64: u32 = 0x0100_0007;
pub const CPU_TYPE_ARM64: u32 = 0x0100_000c;
pub const CPU_SUBTYPE_MASK: u32 = 0xff00_0000;
pub const CPU_SUBTYPE_X86_64_ALL: u32 = 3;
pub const CPU_SUBTYPE_X86_64_H: u32 = 8;
pub const CPU_SUBTYPE_ARM64_ALL: u32 = 0;
pub const CPU_SUBTYPE_ARM64E: u32 = 2;

/// The architecture name of a Mach-O image with the given CPU type and
/// subtype; the capability bits of the subtype (its top byte) are ignored.
pub open spec fn spec_arch_string(cputype: u32, cpusubtype: u32) -> Option<Seq<char>> {
    let sub = cpusubtype % 0x0100_0000;
    if cputype == CPU_TYPE_X86_64 && sub == CPU_SUBTYPE_X86_64_ALL {
        Some("x86_64"@)
    } else if cputype == CPU_TYPE_X86_64 && sub == CPU_SUBTYPE_X86_64_H {
        Some("x86_64h"@)
    } else if cputype == CPU_TYPE_ARM64 && sub == CPU_SUBTYPE_ARM64_ALL {
        Some("arm64"@)
    } else if cputype == CPU_TYPE_ARM64 && sub == CPU_SUBTYPE_ARM64E {
        Some("arm64e"@)
    } else {
        None
    }
}

pub fn get_arch_string(cputype: u32, cpusubtype: u32) -> (r: Option<&'static str>)
    ensures
        match r {
            Some(s) => spec_arch_string(cputype, cpusubtype) == Some(s@),
            None => spec_arch_string(cputype, cpusubtype) is None,
        },
{
    let sub = cpusubtype & !CPU_SUBTYPE_MASK;
    assert(sub == cpusubtype % 0x0100_0000) by (bit_vector)
        requires
            sub == cpusubtype & !0xff00_0000u32,
    ;
    if cputype == CPU_TYPE_X86_64 && sub == CPU_SUBTYPE_X86_64_ALL {
        Some("x86_64")
    } else if cputype == CPU_TYPE_X86_64 && sub == CPU_SUBTYPE_X86_64_H {
        Some("x86_64h")
    } else if cputype == CPU_TYPE_ARM64 && sub == CPU_SUBTYPE_ARM64_ALL {
        Some("arm64")
    } else if cputype == CPU_TYPE_ARM64 && sub == CPU_SUBTYPE_ARM64E {
        Some("arm64e")
    } else {
        None
    }
}

/// A change between two lists.
pub enum Modification<T> {
    Added(T),
    Removed(T),
}

/// `m` removes (or adds) a clone of `x`.
pub open spec fn is_modification_of<T: Clone>(m: Modification<T>, removed: bool, x: T) -> bool {
    match m {
        Modification::Removed(y) => removed && cloned(x, y),
        Modification::Added(y) => !removed && cloned(x, y),
    }
}

/// The outcome of comparing `a` with `b` by the comparison function `f`.
pub open spec fn outcome<T, F: Fn(&T, &T) -> Ordering>(f: F, a: T, b: T) -> Ordering {
    choose|o: Ordering| f.ensures((&a, &b), o)
}

/// `out` lists the changes from the sorted list `left` to the sorted list
/// `right`: walking both lists together, an element that compares lower on
/// one side is removed (left) or added (right); two elements that compare
/// equal are replaced (removed, then added) when they differ, and kept when
/// they are equal.
pub open spec fn is_diff<T: Clone + Eq, F: Fn(&T, &T) -> Ordering>(
    left: Seq<T>,
    right: Seq<T>,
    f: F,
    out: Seq<Modification<T>>,
) -> bool
    decreases left.len() + right.len(),
{
    if left.len() == 0 && right.len() == 0 {
        out.len() == 0
    } else if right.len() == 0 {
        out.len() > 0 && is_modification_of(out[0], true, left[0]) && is_diff(
            left.drop_first(),
            right,
            f,
            out.drop_first(),
        )
    } else if left.len() == 0 {
        out.len() > 0 && is_modification_of(out[0], false, right[0]) && is_diff(
            left,
            right.drop_first(),
            f,
            out.drop_first(),
        )
    } else {
        match outcome(f, left[0], right[0]) {
            Ordering::Less => out.len() > 0 && is_modification_of(out[0], true, left[0]) && is_diff(
                left.drop_first(),
                right,
                f,
                out.drop_first(),
            ),
            Ordering::Greater => out.len() > 0 && is_modification_of(out[0], false, right[0]) && is_diff(
                left,
                right.drop_first(),
                f,
                out.drop_first(),
            ),
            Ordering::Equal => if left[0].eq_spec(&right[0]) {
                is_diff(left.drop_first(), right.drop_first(), f, out)
            } else {
                out.len() >= 2 && is_modification_of(out[0], true, left[0]) && is_modification_of(
                    out[1],
                    false,
                    right[0],
                ) && is_diff(left.drop_first(), right.drop_first(), f, out.skip(2))
            },
        }
    }
}

/// A list compared with itself has no changes, when the comparison finds every
/// element equal to itself.
pub proof fn law_diff_with_itself_is_empty<T: Clone + Eq, F: Fn(&T, &T) -> Ordering>(
    s: Seq<T>,
    f: F,
    out: Seq<Modification<T>>,
)
    requires
        forall|i: int| 0 <= i < s.len() ==> outcome(f, #[trigger] s[i], s[i]) == Ordering::Equal,
        forall|i: int| 0 <= i < s.len() ==> (#[trigger] s[i]).eq_spec(&s[i]),
        is_diff(s, s, f, out),
    ensures
        out.len() == 0,
    decreases s.len(),
{
    if s.len() > 0 {
        assert(outcome(f, s[0], s[0]) == Ordering::Equal);
        assert(s[0].eq_spec(&s[0]));
        let rest = s.drop_first();
        assert forall|i: int| 0 <= i < rest.len() implies outcome(f, #[trigger] rest[i], rest[i]) == Ordering::Equal by {
            assert(rest[i] == s[i + 1]);
        }
        assert forall|i: int| 0 <= i < rest.len() implies (#[trigger] rest[i]).eq_spec(&rest[i]) by {
            assert(rest[i] == s[i + 1]);
        }
        law_diff_with_itself_is_empty(rest, f, out);
    }
}

/// The elements that a list of changes removes.
pub open spec fn removed_of<T>(out: Seq<Modification<T>>) -> Multiset<T>
    decreases out.len(),
{
    if out.len() == 0 {
        Multiset::empty()
    } else {
        match out[0] {
            Modification::Removed(x) => removed_of(out.drop_first()).insert(x),
            Modification::Added(_) => removed_of(out.drop_first()),
        }
    }
}

/// The elements that a list of changes adds.
pub open spec fn added_of<T>(out: Seq<Modification<T>>) -> Multiset<T>
    decreases out.len(),
{
    if out.len() == 0 {
        Multiset::empty()
    } else {
        match out[0] {
            Modification::Added(x) => added_of(out.drop_first()).insert(x),
            Modification::Removed(_) => added_of(out.drop_first()),
        }
    }
}

/// A list's elements are its first and those of the rest.
proof fn lemma_to_multiset_first<T>(s: Seq<T>)
    requires
        s.len() > 0,
    ensures
        s.to_multiset() =~= s.drop_first().to_multiset().insert(s[0]),
{
    broadcast use vstd::seq_lib::group_to_multiset_ensures;

    assert(s.drop_first().insert(0, s[0]) == s);
    vstd::seq_lib::to_multiset_insert(s.drop_first(), 0, s[0]);
}

/// Inserting into either side of a sum is inserting into the sum.
proof fn lemma_add_insert<T>(m: Multiset<T>, n: Multiset<T>, x: T)
    ensures
        m.insert(x).add(n) =~= m.add(n).insert(x),
        m.add(n.insert(x)) =~= m.add(n).insert(x),
{
    broadcast use vstd::multiset::group_multiset_axioms;

}

/// Two insertions can be made in either order.
proof fn lemma_insert_commutes<T>(m: Multiset<T>, a: T, b: T)
    ensures
        m.insert(a).insert(b) =~= m.insert(b).insert(a),
{
    broadcast use vstd::multiset::group_multiset_axioms;

}

/// Applying the changes to the left list gives the right list: the elements
/// of `left` with those added are the elements of `right` with those
/// removed, and only elements of `left` are removed. (With `right` sorted,
/// this fixes it: remove from `left` what is removed, add what is added, and
/// sort.) It holds where clones are equal to what they were cloned from and
/// `==` is equality.
pub proof fn law_diff_reconstructs_right<T: Clone + Eq, F: Fn(&T, &T) -> Ordering>(
    left: Seq<T>,
    right: Seq<T>,
    f: F,
    out: Seq<Modification<T>>,
)
    requires
        forall|x: T, y: T| #[trigger] cloned(x, y) ==> x == y,
        forall|a: T, b: T| #[trigger] a.eq_spec(&b) ==> a == b,
        is_diff(left, right, f, out),
    ensures
        left.to_multiset().add(added_of(out)) =~= right.to_multiset().add(removed_of(out)),
        removed_of(out).subset_of(left.to_multiset()),
    decreases left.len() + right.len(),
{
    broadcast use vstd::multiset::group_multiset_axioms;

    if left.len() == 0 && right.len() == 0 {
        broadcast use vstd::seq_lib::group_to_multiset_ensures;

        assert forall|a: T| left.to_multiset().count(a) == 0 && right.to_multiset().count(a) == 0 by {
            assert(!left.contains(a));
            assert(!right.contains(a));
        }
        assert(left.to_multiset() =~= Multiset::empty());
        assert(right.to_multiset() =~= Multiset::empty());
        assert(out.len() == 0);
        assert(removed_of(out) == Multiset::<T>::empty());
        assert(added_of(out) == Multiset::<T>::empty());
    } else if right.len() == 0 || (left.len() > 0 && outcome(f, left[0], right[0]) == Ordering::Less) {
        let rest = out.drop_first();
        law_diff_reconstructs_right(left.drop_first(), right, f, rest);
        lemma_to_multiset_first(left);
        assert(out[0] == Modification::Removed(left[0]));
        assert(removed_of(out) == removed_of(rest).insert(left[0]));
        assert(added_of(out) == added_of(rest));
        lemma_add_insert(left.drop_first().to_multiset(), added_of(rest), left[0]);
        lemma_add_insert(right.to_multiset(), removed_of(rest), left[0]);
    } else if left.len() == 0 || outcome(f, left[0], right[0]) == Ordering::Greater {
        let rest = out.drop_first();
        law_diff_reconstructs_right(left, right.drop_first(), f, rest);
        lemma_to_multiset_first(right);
        assert(out[0] == Modification::Added(right[0]));
        assert(added_of(out) == added_of(rest).insert(right[0]));
        assert(removed_of(out) == removed_of(rest));
        lemma_add_insert(left.to_multiset(), added_of(rest), right[0]);
        lemma_add_insert(right.drop_first().to_multiset(), removed_of(rest), right[0]);
    } else if left[0].eq_spec(&right[0]) {
        law_diff_reconstructs_right(left.drop_first(), right.drop_first(), f, out);
        lemma_to_multiset_first(left);
        lemma_to_multiset_first(right);
        assert(left[0] == right[0]);
        lemma_add_insert(left.drop_first().to_multiset(), added_of(out), left[0]);
        lemma_add_insert(right.drop_first().to_multiset(), removed_of(out), left[0]);
    } else {
        let rest = out.skip(2);
        assert(rest == out.drop_first().drop_first());
        law_diff_reconstructs_right(left.drop_first(), right.drop_first(), f, rest);
        lemma_to_multiset_first(left);
        lemma_to_multiset_first(right);
        assert(out[0] == Modification::Removed(left[0]));
        assert(out[1] == Modification::Added(right[0]));
        assert(out.drop_first()[0] == out[1]);
        assert(removed_of(out.drop_first()) == removed_of(rest));
        assert(added_of(out.drop_first()) == added_of(rest).insert(right[0]));
        assert(removed_of(out) == removed_of(rest).insert(left[0]));
        assert(added_of(out) == added_of(rest).insert(right[0]));
        let (l0, r0) = (left[0], right[0]);
        let (lm, rm) = (left.drop_first().to_multiset(), right.drop_first().to_multiset());
        lemma_add_insert(lm, added_of(rest).insert(r0), l0);
        lemma_add_insert(lm, added_of(rest), r0);
        lemma_add_insert(rm, removed_of(rest).insert(l0), r0);
        lemma_add_insert(rm, removed_of(rest), l0);
        lemma_insert_commutes(lm.add(added_of(rest)), l0, r0);
    }
}

/// Computes the changes from `left` to `right`, two lists sorted by `cmp_fn`.
pub fn diff_sorted_slices<T, F: Fn(&T, &T) -> Ordering>(left: &[T], right: &[T], cmp_fn: F) -> (r: Vec<Modification<T>>)
    where
        T: Clone + Eq,
    requires
        forall|a: &T, b: &T| #[trigger] cmp_fn.requires((a, b)),
        forall|a: &T, b: &T, o1: Ordering, o2: Ordering|
            #[trigger] cmp_fn.ensures((a, b), o1) && #[trigger] cmp_fn.ensures((a, b), o2) ==> o1 == o2,
        T::obeys_eq_spec(),
    ensures
        is_diff(left@, right@, cmp_fn, r@),
{
    let mut modifications: Vec<Modification<T>> = Vec::new();
    let mut i: usize = 0;
    let mut j: usize = 0;
    proof {
        assert(left@.skip(0) == left@);
        assert(right@.skip(0) == right@);
        assert forall|rest: Seq<Modification<T>>|
            #[trigger] is_diff(left@.skip(0), right@.skip(0), cmp_fn, rest) implies is_diff(
            left@,
            right@,
            cmp_fn,
            modifications@ + rest,
        ) by {
            assert(modifications@ + rest == rest);
        }
    }
    while i < left.len() || j < right.len()
        invariant
            i <= left@.len(),
            j <= right@.len(),
            forall|a: &T, b: &T| #[trigger] cmp_fn.requires((a, b)),
            forall|a: &T, b: &T, o1: Ordering, o2: Ordering|
                #[trigger] cmp_fn.ensures((a, b), o1) && #[trigger] cmp_fn.ensures((a, b), o2) ==> o1 == o2,
            T::obeys_eq_spec(),
            forall|rest: Seq<Modification<T>>|
                #[trigger] is_diff(from_position(left@, i), from_position(right@, j), cmp_fn, rest) ==> is_diff(
                    left@,
                    right@,
                    cmp_fn,
                    modifications@ + rest,
                ),
        decreases left@.len() + right@.len() - i - j,
    {
        let ghost before = modifications@;
        let ni: usize = if i < left.len() { i + 1 } else { i };
        let nj: usize = if j < right.len() { j + 1 } else { j };
        let ghost l = from_position(left@, i);
        let ghost rt = from_position(right@, j);
        if j >= right.len() {
            let x = left[i].clone();
            modifications.push(Modification::Removed(x));
            proof {
                assert(l[0] == at_position(left@, i));
                assert(l.drop_first() == from_position(left@, ni));
                assert forall|rest: Seq<Modification<T>>|
                    #[trigger] is_diff(from_position(left@, ni), from_position(right@, j), cmp_fn, rest) implies is_diff(
                    left@,
                    right@,
                    cmp_fn,
                    modifications@ + rest,
                ) by {
                    let whole = seq![modifications@.last()] + rest;
                    assert(whole.drop_first() == rest);
                    assert(is_diff(l, rt, cmp_fn, whole));
                    assert(before + whole == modifications@ + rest);
                }
            }
            i = ni;
        } else if i >= left.len() {
            let x = right[j].clone();
            modifications.push(Modification::Added(x));
            proof {
                assert(rt[0] == at_position(right@, j));
                assert(rt.drop_first() == from_position(right@, nj));
                assert forall|rest: Seq<Modification<T>>|
                    #[trigger] is_diff(from_position(left@, i), from_position(right@, nj), cmp_fn, rest) implies is_diff(
                    left@,
                    right@,
                    cmp_fn,
                    modifications@ + rest,
                ) by {
                    let whole = seq![modifications@.last()] + rest;
                    assert(whole.drop_first() == rest);
                    assert(is_diff(l, rt, cmp_fn, whole));
                    assert(before + whole == modifications@ + rest);
                }
            }
            j = nj;
        } else {
            let o = cmp_fn(&left[i], &right[j]);
            proof {
                assert(l[0] == at_position(left@, i));
                assert(rt[0] == at_position(right@, j));
                assert(outcome(cmp_fn, l[0], rt[0]) == o);
                assert(l.drop_first() == from_position(left@, ni));
                assert(rt.drop_first() == from_position(right@, nj));
            }
            match o {
                Ordering::Less => {
                    let x = left[i].clone();
                    modifications.push(Modification::Removed(x));
                    proof {
                        assert forall|rest: Seq<Modification<T>>|
                            #[trigger] is_diff(from_position(left@, ni), from_position(right@, j), cmp_fn, rest) implies is_diff(
                            left@,
                            right@,
                            cmp_fn,
                            modifications@ + rest,
                        ) by {
                            let whole = seq![modifications@.last()] + rest;
                            assert(whole.drop_first() == rest);
                            assert(is_diff(l, rt, cmp_fn, whole));
                            assert(before + whole == modifications@ + rest);
                        }
                    }
                    i = ni;
                },
                Ordering::Greater => {
                    let x = right[j].clone();
                    modifications.push(Modification::Added(x));
                    proof {
                        assert forall|rest: Seq<Modification<T>>|
                            #[trigger] is_diff(from_position(left@, i), from_position(right@, nj), cmp_fn, rest) implies is_diff(
                            left@,
                            right@,
                            cmp_fn,
                            modifications@ + rest,
                        ) by {
                            let whole = seq![modifications@.last()] + rest;
                            assert(whole.drop_first() == rest);
                            assert(is_diff(l, rt, cmp_fn, whole));
                            assert(before + whole == modifications@ + rest);
                        }
                    }
                    j = nj;
                },
                Ordering::Equal => {
                    if left[i] != right[j] {
                        let x = left[i].clone();
                        let y = right[j].clone();
                        modifications.push(Modification::Removed(x));
                        modifications.push(Modification::Added(y));
                        proof {
                            assert forall|rest: Seq<Modification<T>>|
                                #[trigger] is_diff(from_position(left@, ni), from_position(right@, nj), cmp_fn, rest) implies is_diff(
                                left@,
                                right@,
                                cmp_fn,
                                modifications@ + rest,
                            ) by {
                                let whole = seq![at_index(modifications@, before.len()), at_index(modifications@, before.len() + 1)] + rest;
                                assert(whole.skip(2) == rest);
                                assert(is_diff(l, rt, cmp_fn, whole));
                                assert(before + whole == modifications@ + rest);
                            }
                        }
                    } else {
                        proof {
                            assert forall|rest: Seq<Modification<T>>|
                                #[trigger] is_diff(from_position(left@, ni), from_position(right@, nj), cmp_fn, rest) implies is_diff(
                                left@,
                                right@,
                                cmp_fn,
                                modifications@ + rest,
                            ) by {
                                assert(is_diff(l, rt, cmp_fn, rest));
                            }
                        }
                    }
                    i = ni;
                    j = nj;
                },
            }
        }
    }
    proof {
        let empty = Seq::<Modification<T>>::empty();
        assert(is_diff(from_position(left@, i), from_position(right@, j), cmp_fn, empty));
        assert(modifications@ + empty == modifications@);
    }
    modifications
}

} // verus!
