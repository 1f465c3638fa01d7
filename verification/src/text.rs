//! Character-level helpers shared by the extraction and reporting code.

use vstd::prelude::*;

verus! {

/// `String::push` appends exactly one character to the end of the string.
pub assume_specification[ String::push ](s: &mut String, ch: char)
    ensures
        final(s)@ == old(s)@.push(ch),
;

/// Two string slices are equal exactly when they hold the same characters.
pub assume_specification[ <str as PartialEq>::eq ](a: &str, b: &str) -> (r: bool)
    ensures
        r == (a@ == b@),
;

/// Whether `a` and `b` hold the same characters.
pub fn same_text(a: &str, b: &str) -> (r: bool)
    ensures
        r == (a@ == b@),
{
    a.eq(b)
}

/// The characters of `s`, in order.
pub fn chars_of(s: &str) -> (v: Vec<char>)
    ensures
        v@ == s@,
{
    let mut v: Vec<char> = Vec::new();
    for c in it: s.chars()
        invariant
            v@ == it.seq().take(it.index() as int),
            it.seq() == s@,
    {
        v.push(c);
    }
    v
}

/// The string made of the characters `v`, in order.
pub fn string_of(v: &Vec<char>) -> (s: String)
    ensures
        s@ == v@,
{
    let mut s = String::new();
    let mut i: usize = 0;
    while i < v.len()
        invariant
            i <= v.len(),
            s@ == v@.take(i as int),
        decreases v.len() - i,
    {
        s.push(v[i]);
        i += 1;
    }
    s
}

/// `needle` stands in `text` at position `at`.
pub open spec fn occurs_at(text: Seq<char>, at: int, needle: Seq<char>) -> bool {
    &&& 0 <= at
    &&& at + needle.len() <= text.len()
    &&& text.subrange(at, at + needle.len()) == needle
}

/// `needle` stands somewhere in `text`.
pub open spec fn occurs_in(text: Seq<char>, needle: Seq<char>) -> bool {
    exists|at: int| occurs_at(text, at, needle)
}

/// `text` with every occurrence of `needle` taken out, found from left to
/// right without overlap. An empty `needle` takes nothing out.
pub open spec fn without(text: Seq<char>, needle: Seq<char>) -> Seq<char>
    decreases text.len(),
{
    if needle.len() == 0 || text.len() == 0 {
        text
    } else if occurs_at(text, 0, needle) {
        without(text.skip(needle.len() as int), needle)
    } else {
        seq![text[0]] + without(text.skip(1), needle)
    }
}

/// Whether `needle` stands in `text` at position `at`.
pub fn matches_at(text: &Vec<char>, at: usize, needle: &Vec<char>) -> (r: bool)
    ensures
        r == occurs_at(text@, at as int, needle@),
{
    if needle.len() > text.len() || at > text.len() - needle.len() {
        return false;
    }
    let mut j: usize = 0;
    while j < needle.len()
        invariant
            j <= needle.len(),
            at + needle.len() <= text.len(),
            forall|k: int| 0 <= k < j ==> text[at + k] == needle[k],
        decreases needle.len() - j,
    {
        if text[at + j] != needle[j] {
            proof {
                let sub = text@.subrange(at as int, at + needle.len());
                assert(sub[j as int] == text[at + j]);
            }
            return false;
        }
        j += 1;
    }
    assert(text@.subrange(at as int, at + needle.len()) =~= needle@);
    true
}

/// Whether `text` begins with `prefix`.
pub fn starts_with(text: &str, prefix: &str) -> (r: bool)
    ensures
        r == occurs_at(text@, 0, prefix@),
{
    let t = chars_of(text);
    let p = chars_of(prefix);
    matches_at(&t, 0, &p)
}

/// Whether `needle` stands somewhere in `text`.
pub fn contains(text: &str, needle: &str) -> (r: bool)
    ensures
        r == occurs_in(text@, needle@),
{
    let t = chars_of(text);
    let n = chars_of(needle);
    if n.len() > t.len() {
        return false;
    }
    let last: usize = t.len() - n.len();
    let mut at: usize = 0;
    loop
        invariant
            t@ == text@,
            n@ == needle@,
            at <= last,
            last == t.len() - n.len(),
            n.len() <= t.len(),
            forall|k: int| 0 <= k < at ==> !occurs_at(t@, k, n@),
        decreases last - at,
    {
        if matches_at(&t, at, &n) {
            assert(occurs_at(t@, at as int, n@));
            return true;
        }
        if at == last {
            assert(forall|k: int| !occurs_at(t@, k, n@));
            return false;
        }
        at += 1;
    }
}

/// `text` with every occurrence of `needle` taken out.
pub fn remove_all(text: &str, needle: &str) -> (r: String)
    ensures
        r@ == without(text@, needle@),
{
    let t = chars_of(text);
    let n = chars_of(needle);
    if n.len() == 0 {
        return string_of(&t);
    }
    let mut out: Vec<char> = Vec::new();
    let mut i: usize = 0;
    assert(out@ + without(t@.skip(0), n@) =~= without(t@, n@)) by {
        assert(t@.skip(0) =~= t@);
    }
    while i < t.len()
        invariant
            i <= t.len(),
            n.len() > 0,
            out@ + without(t@.skip(i as int), n@) == without(t@, n@),
        decreases t.len() - i,
    {
        let ghost rest = t@.skip(i as int);
        let ghost before = out@;
        if matches_at(&t, i, &n) {
            proof {
                assert(rest.subrange(0, n.len() as int) =~= t@.subrange(i as int, i + n.len()));
                assert(occurs_at(rest, 0, n@));
                assert(rest.skip(n.len() as int) =~= t@.skip(i + n.len()));
            }
            i += n.len();
        } else {
            proof {
                if i + n.len() <= t.len() {
                    assert(rest.subrange(0, n.len() as int) =~= t@.subrange(
                        i as int,
                        i + n.len(),
                    ));
                }
                assert(!occurs_at(rest, 0, n@));
                assert(rest.skip(1) =~= t@.skip(i + 1));
                assert(before.push(t[i as int]) + without(rest.skip(1), n@) =~= before + (seq![
                    rest[0],
                ] + without(rest.skip(1), n@)));
            }
            out.push(t[i]);
            i += 1;
        }
    }
    assert(out@ + without(t@.skip(i as int), n@) =~= out@);
    string_of(&out)
}

/// The parts of `parts`, in order, with `separator` between neighbours.
pub open spec fn joined(parts: Seq<Seq<char>>, separator: Seq<char>) -> Seq<char>
    decreases parts.len(),
{
    if parts.len() == 0 {
        Seq::empty()
    } else if parts.len() == 1 {
        parts[0]
    } else {
        joined(parts.drop_last(), separator) + separator + parts.last()
    }
}

/// The texts of `parts`, in order, with `separator` between neighbours.
pub fn join(parts: &Vec<String>, separator: &str) -> (r: String)
    ensures
        r@ == joined(parts.deep_view(), separator@),
{
    let mut out = String::new();
    let mut i: usize = 0;
    while i < parts.len()
        invariant
            i <= parts.len(),
            out@ == joined(parts.deep_view().take(i as int), separator@),
        decreases parts.len() - i,
    {
        let ghost done = parts.deep_view().take(i as int);
        let ghost next = parts.deep_view().take(i + 1);
        proof {
            assert(next.drop_last() =~= done);
            assert(next.last() == parts[i as int]@);
        }
        if i > 0 {
            out.append(separator);
        }
        out.append(parts[i].as_str());
        proof {
            if i > 0 {
                assert(out@ =~= joined(done, separator@) + separator@ + next.last());
            } else {
                assert(out@ =~= next[0]);
            }
        }
        i += 1;
    }
    assert(parts.deep_view().take(i as int) =~= parts.deep_view());
    out
}

/// A copy of `s`.
pub fn copy_string(s: &String) -> (r: String)
    ensures
        r@ == s@,
{
    s.clone()
}

/// A copy of an optional text.
pub fn copy_optional(s: &Option<String>) -> (r: Option<String>)
    ensures
        r.deep_view() == s.deep_view(),
{
    match s {
        Some(t) => Some(t.clone()),
        None => None,
    }
}

/// A copy of a list of texts.
pub fn copy_strings(v: &Vec<String>) -> (r: Vec<String>)
    ensures
        r.deep_view() == v.deep_view(),
{
    let mut r: Vec<String> = Vec::new();
    let mut i: usize = 0;
    while i < v.len()
        invariant
            i <= v.len(),
            r.len() == i,
            forall|j: int| 0 <= j < i ==> r[j]@ == v[j]@,
        decreases v.len() - i,
    {
        r.push(v[i].clone());
        i += 1;
    }
    assert(r.deep_view() =~= v.deep_view());
    r
}

/// The values that are there, in order.
pub open spec fn present(values: Seq<Option<Seq<char>>>) -> Seq<Seq<char>>
    decreases values.len(),
{
    if values.len() == 0 {
        Seq::empty()
    } else {
        let before = present(values.drop_last());
        match values.last() {
            Some(value) => before.push(value),
            None => before,
        }
    }
}

/// The first value that is there.
pub open spec fn first_present(values: Seq<Option<Seq<char>>>) -> Option<Seq<char>>
    decreases values.len(),
{
    if values.len() == 0 {
        None
    } else {
        match values[0] {
            Some(value) => Some(value),
            None => first_present(values.skip(1)),
        }
    }
}

/// The values of `values` that are there, in order.
pub fn present_values(values: &Vec<Option<String>>) -> (found: Vec<String>)
    ensures
        found.deep_view() == present(values.deep_view()),
{
    let ghost all = values.deep_view();
    let mut found: Vec<String> = Vec::new();
    let mut i: usize = 0;
    assert(all.take(0) =~= Seq::<Option<Seq<char>>>::empty());
    assert(found.deep_view() =~= Seq::<Seq<char>>::empty());
    while i < values.len()
        invariant
            i <= values.len(),
            all == values.deep_view(),
            found.deep_view() == present(all.take(i as int)),
        decreases values.len() - i,
    {
        let ghost before = found.deep_view();
        proof {
            assert(all.take(i + 1).drop_last() =~= all.take(i as int));
            assert(all.take(i + 1).last() == values[i as int].deep_view());
        }
        match &values[i] {
            Some(value) => {
                found.push(copy_string(value));
                assert(found.deep_view() =~= before.push(value@));
            },
            None => {},
        }
        i += 1;
    }
    assert(all.take(i as int) =~= all);
    found
}

/// The first of `values` that is there.
pub fn first_present_value(values: &Vec<Option<String>>) -> (found: Option<String>)
    ensures
        found.deep_view() == first_present(values.deep_view()),
{
    let ghost all = values.deep_view();
    let mut i: usize = 0;
    assert(all.skip(0) =~= all);
    while i < values.len()
        invariant
            i <= values.len(),
            all == values.deep_view(),
            first_present(all.skip(i as int)) == first_present(all),
        decreases values.len() - i,
    {
        proof {
            assert(all.skip(i as int)[0] == values[i as int].deep_view());
            assert(all.skip(i as int).skip(1) =~= all.skip(i + 1));
        }
        match &values[i] {
            Some(value) => {
                return Some(copy_string(value));
            },
            None => {},
        }
        i += 1;
    }
    None
}

} // verus!
