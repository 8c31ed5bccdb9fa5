//! Demangling of OCaml symbol names such as `camlStdlib__array__map_154`.
use crate::text::{chars_of, parse_radix_16, string_push, u8_from_hex_str, utf8_len};
use vstd::prelude::*;

verus! {

/// Whether `c` has the Unicode `Uppercase` property, as `char::is_uppercase` reports it.
pub uninterp spec fn char_is_uppercase(c: char) -> bool;

/// `char::is_uppercase`, which consults the Unicode tables; its result is named
/// and depends on the character alone. Among ASCII characters, exactly `A`
/// to `Z` are uppercase, as the standard library documents.
#[verifier::external_body]
fn is_uppercase(c: char) -> (b: bool)
    ensures
        b == char_is_uppercase(c),
        (c as u32) < 128 ==> (b <==> ('A' <= c && c <= 'Z')),
{
    c.is_uppercase()
}

/// The prefix of every OCaml symbol.
pub open spec fn caml_prefix() -> Seq<char> {
    seq!['c', 'a', 'm', 'l']
}

pub open spec fn has_caml_prefix(name: Seq<char>) -> bool {
    name.len() >= 4 && name.take(4) == caml_prefix()
}

/// The characters after a `$` take at least two bytes in UTF-8.
pub open spec fn at_least_two_bytes(rest: Seq<char>) -> bool {
    rest.len() >= 2 || (rest.len() == 1 && utf8_len(rest[0]) >= 2)
}

/// The text of the first two bytes of `rest` (the digits of a `$` escape),
/// provided that those two bytes end on a character boundary.
pub open spec fn escape_text(rest: Seq<char>) -> Seq<char> {
    if utf8_len(rest[0]) >= 2 {
        seq![rest[0]]
    } else {
        seq![rest[0], rest[1]]
    }
}

/// After every `$`, the first two bytes of the remaining text end on a
/// character boundary (otherwise reading the escape digits would panic).
pub open spec fn escapes_on_char_boundaries(cs: Seq<char>) -> bool {
    forall|i: int|
        0 <= i < cs.len() - 1 && #[trigger] cs[i] == '$' ==> utf8_len(cs[i + 1]) <= 2 && (utf8_len(cs[i + 1])
            == 1 && i + 2 < cs.len() ==> utf8_len(cs[i + 2]) == 1)
}

/// The demangled form of the characters after `caml`: `__` becomes `.`, and `$`
/// followed by two hex digits becomes the character with that code. A `$` whose
/// two following bytes are not a hex number is dropped.
pub open spec fn demangle_chars(cs: Seq<char>) -> Seq<char>
    decreases cs.len(),
{
    if cs.len() == 0 {
        Seq::empty()
    } else {
        let c = cs[0];
        let rest = cs.drop_first();
        if c == '_' && rest.len() > 0 && rest[0] == '_' {
            seq!['.'] + demangle_chars(rest.drop_first())
        } else if c == '$' && at_least_two_bytes(rest) {
            match parse_radix_16(escape_text(rest), 255) {
                Some(v) => if rest.len() >= 2 {
                    seq![((v as u8) as char)] + demangle_chars(rest.skip(2))
                } else {
                    demangle_chars(rest)
                },
                None => demangle_chars(rest),
            }
        } else {
            seq![c] + demangle_chars(rest)
        }
    }
}

/// The names that are demangled: those that start with `caml` followed by
/// nothing or by an uppercase character.
pub open spec fn is_demangled(name: Seq<char>) -> bool {
    has_caml_prefix(name) && (name.len() == 4 || char_is_uppercase(name[4]))
}

/// The demangled form of an OCaml symbol name, `None` for other names.
pub open spec fn demangle_spec(name: Seq<char>) -> Option<Seq<char>> {
    if is_demangled(name) {
        Some(demangle_chars(name.skip(4)))
    } else {
        None
    }
}

proof fn lemma_escape_parse(rest: Seq<char>)
    requires
        rest.len() >= 1,
        utf8_len(rest[0]) >= 2,
    ensures
        parse_radix_16(escape_text(rest), 255) is None,
{
    let t = escape_text(rest);
    assert(t == seq![rest[0]]);
    if t.len() > 0 && t[0] == '+' {
        assert(t.drop_first().len() == 0);
    } else {
        crate::text::lemma_non_ascii_not_hex(rest[0]);
    }
}

/// Demangling never lengthens the text: each character gives at most one.
pub proof fn lemma_demangle_chars_len(cs: Seq<char>)
    ensures
        demangle_chars(cs).len() <= cs.len(),
    decreases cs.len(),
{
    if cs.len() > 0 {
        let rest = cs.drop_first();
        lemma_demangle_chars_len(rest);
        if cs[0] == '_' && rest.len() > 0 && rest[0] == '_' {
            lemma_demangle_chars_len(rest.drop_first());
        } else if cs[0] == '$' && at_least_two_bytes(rest) && rest.len() >= 2 {
            lemma_demangle_chars_len(rest.skip(2));
        }
    }
}

/// Demangles an OCaml symbol name; returns `None` for names that are not OCaml
/// symbols.
pub fn demangle(name: &str) -> (r: Option<String>)
    requires
        is_demangled(name@) ==> escapes_on_char_boundaries(name@.skip(4)),
    ensures
        match r {
            Some(s) => demangle_spec(name@) == Some(s@),
            None => demangle_spec(name@) is None,
        },
        has_caml_prefix(name@) && name@.len() > 4 && (name@[4] as u32) < 128 ==> (char_is_uppercase(name@[4]) <==> (
        'A' <= name@[4] && name@[4] <= 'Z')),
        r matches Some(s) ==> s@.len() <= name@.len() - 4,
        r is Some <==> (name@.len() >= 4 && name@[0] == 'c' && name@[1] == 'a' && name@[2] == 'm' && name@[3] == 'l' && (name@.len()
            == 4 || char_is_uppercase(name@[4]))),
{
    proof {
        lemma_demangled_names(name@);
    }
    let all = chars_of(name);
    if all.len() < 4 || all[0] != 'c' || all[1] != 'a' || all[2] != 'm' || all[3] != 'l' {
        assert(!has_caml_prefix(name@)) by {
            if has_caml_prefix(name@) {
                assert(name@.take(4)[0] == 'c');
                assert(name@.take(4)[1] == 'a');
                assert(name@.take(4)[2] == 'm');
                assert(name@.take(4)[3] == 'l');
            }
        }
        return None;
    }
    assert(name@.take(4) =~= caml_prefix());
    if all.len() > 4 && !is_uppercase(all[4]) {
        return None;
    }
    let ghost cs = name@.skip(4);
    let mut res = String::new();
    let mut i: usize = 4;
    while i < all.len()
        invariant
            4 <= i <= all@.len(),
            all@ == name@,
            cs == name@.skip(4),
            escapes_on_char_boundaries(cs),
            res@ + demangle_chars(all@.skip(i as int)) == demangle_chars(cs),
        decreases all@.len() - i,
    {
        let c = all[i];
        let ghost rest = all@.skip(i + 1);
        assert(all@.skip(i as int).drop_first() == rest);
        assert(all@.skip(i as int)[0] == c);
        if c == '_' && i + 1 < all.len() && all[i + 1] == '_' {
            assert(rest[0] == '_');
            assert(rest.drop_first() == all@.skip(i + 2));
            string_push(&mut res, '.');
            assert(res@ + demangle_chars(all@.skip(i + 2)) == demangle_chars(cs));
            i = i + 2;
        } else if c == '$' && (all.len() - i > 2 || (all.len() - i == 2 && (all[i + 1] as u32) >= 0x80)) {
            assert(at_least_two_bytes(rest));
            proof {
                assert(cs[i - 4] == '$');
                assert(cs[i - 3] == all@[i + 1]);
                if i + 2 < all.len() {
                    assert(cs[i - 2] == all@[i + 2]);
                }
            }
            let c1 = all[i + 1];
            let mut digits = String::new();
            string_push(&mut digits, c1);
            if (c1 as u32) < 0x80 {
                string_push(&mut digits, all[i + 2]);
            }
            assert(digits@ == escape_text(rest));
            match u8_from_hex_str(digits.as_str()) {
                Some(v) => {
                    proof {
                        if utf8_len(rest[0]) >= 2 {
                            lemma_escape_parse(rest);
                        }
                    }
                    assert(rest.len() >= 2);
                    assert(rest.skip(2) == all@.skip(i + 3));
                    string_push(&mut res, v as char);
                    assert(res@ + demangle_chars(all@.skip(i + 3)) == demangle_chars(cs));
                    i = i + 3;
                },
                None => {
                    i = i + 1;
                },
            }
        } else {
            proof {
                if c == '$' {
                    assert(!at_least_two_bytes(rest));
                }
            }
            string_push(&mut res, c);
            assert(res@ + demangle_chars(all@.skip(i + 1)) == demangle_chars(cs));
            i = i + 1;
        }
    }
    assert(all@.skip(i as int).len() == 0);
    assert(res@ == demangle_chars(cs));
    proof {
        lemma_demangle_chars_len(cs);
    }
    Some(res)
}

/// Demangles `name` when doing so cannot fail on a `$` escape: `Some` with the
/// result of [`demangle`], and `None` when some `$` of an OCaml name is followed
/// by bytes that do not end on a character boundary.
pub fn demangle_checked(name: &str) -> (r: Option<Option<String>>)
    ensures
        r is None <==> (is_demangled(name@) && !escapes_on_char_boundaries(name@.skip(4))),
        r matches Some(Some(s)) ==> demangle_spec(name@) == Some(s@),
        r matches Some(None) ==> demangle_spec(name@) is None,
        r matches Some(x) ==> (x is Some <==> (name@.len() >= 4 && name@[0] == 'c' && name@[1] == 'a' && name@[2] == 'm' && name@[3] == 'l' && (name@.len()
            == 4 || char_is_uppercase(name@[4])))),
{
    proof {
        lemma_demangled_names(name@);
    }
    let all = chars_of(name);
    let caml = all.len() >= 4 && all[0] == 'c' && all[1] == 'a' && all[2] == 'm' && all[3] == 'l';
    assert(caml == has_caml_prefix(name@)) by {
        if has_caml_prefix(name@) {
            assert(name@.take(4)[0] == 'c');
            assert(name@.take(4)[1] == 'a');
            assert(name@.take(4)[2] == 'm');
            assert(name@.take(4)[3] == 'l');
        }
        if caml {
            assert(name@.take(4) =~= caml_prefix());
        }
    }
    if caml && (all.len() == 4 || is_uppercase(all[4])) {
        assert(is_demangled(name@));
        let mut i: usize = 4;
        while i < all.len()
            invariant
                4 <= i,
                i <= all@.len() + 1,
                all@ == name@,
                is_demangled(name@),
                forall|j: int|
                    0 <= j < i - 4 && j < all@.len() - 5 && #[trigger] name@.skip(4)[j] == '$' ==> utf8_len(
                        name@.skip(4)[j + 1],
                    ) <= 2 && (utf8_len(name@.skip(4)[j + 1]) == 1 && j + 2 < name@.skip(4).len() ==> utf8_len(
                        name@.skip(4)[j + 2],
                    ) == 1),
            decreases all@.len() - i,
        {
            if all[i] == '$' && all.len() - i > 1 {
                let n1 = all[i + 1] as u32;
                let bad = n1 >= 0x800 || (n1 < 0x80 && all.len() - i > 2 && (all[i + 2] as u32) >= 0x80);
                if bad {
                    proof {
                        let cs = name@.skip(4);
                        let j = i - 4;
                        assert(cs[j] == '$');
                        assert(cs[j + 1] == all@[i + 1]);
                        if n1 < 0x800 {
                            assert(cs[j + 2] == all@[i + 2]);
                        }
                        assert(!(utf8_len(cs[j + 1]) <= 2 && (utf8_len(cs[j + 1]) == 1 && j + 2 < cs.len() ==> utf8_len(cs[j + 2]) == 1)));
                        assert(0 <= j < cs.len() - 1);
                        assert(!escapes_on_char_boundaries(cs));
                    }
                    return None;
                }
            }
            i = i + 1;
        }
        assert(escapes_on_char_boundaries(name@.skip(4)));
    }
    Some(demangle(name))
}


/// The names that are demangled are exactly those that start with `c`, `a`,
/// `m`, `l` followed by nothing or by a character that `char::is_uppercase`
/// accepts: a name whose fifth character is not uppercase (such as `_` or a
/// digit, as in `caml_alloc_shr`) is left as it is.
pub proof fn lemma_demangled_names(name: Seq<char>)
    ensures
        is_demangled(name) <==> (name.len() >= 4 && name[0] == 'c' && name[1] == 'a' && name[2] == 'm' && name[3]
            == 'l' && (name.len() == 4 || char_is_uppercase(name[4]))),
{
    if name.len() >= 4 && name[0] == 'c' && name[1] == 'a' && name[2] == 'm' && name[3] == 'l' {
        assert(name.take(4) =~= caml_prefix());
    }
    if has_caml_prefix(name) {
        assert(name.take(4)[0] == 'c');
        assert(name.take(4)[1] == 'a');
        assert(name.take(4)[2] == 'm');
        assert(name.take(4)[3] == 'l');
    }
}

/// A name whose character after `caml` is not uppercase is not demangled,
/// whatever follows; one that is uppercase is.
pub proof fn law_demangling_needs_an_uppercase_after_caml(name: Seq<char>)
    requires
        name.len() > 4,
        name.take(4) == seq!['c', 'a', 'm', 'l'],
    ensures
        !char_is_uppercase(name[4]) ==> demangle_spec(name) is None,
        char_is_uppercase(name[4]) ==> demangle_spec(name) is Some,
{
    lemma_demangled_names(name);
    assert(name[0] == name.take(4)[0]);
    assert(name[1] == name.take(4)[1]);
    assert(name[2] == name.take(4)[2]);
    assert(name[3] == name.take(4)[3]);
}

} // verus!
