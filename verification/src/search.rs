//! Finding and replacing parts of a text.

use vstd::prelude::*;
use crate::text::{append_chars, chars_of};

verus! {

/// Whether `pat` stands in `s` from index `i` on.
pub open spec fn occurs_at(s: Seq<char>, pat: Seq<char>, i: int) -> bool {
    0 <= i && i + pat.len() <= s.len() && s.subrange(i, i + pat.len()) == pat
}

/// Whether `s` begins with `pat`.
pub open spec fn begins_with(s: Seq<char>, pat: Seq<char>) -> bool {
    occurs_at(s, pat, 0)
}

/// Whether `s` ends with `pat`.
pub open spec fn finishes_with(s: Seq<char>, pat: Seq<char>) -> bool {
    occurs_at(s, pat, s.len() - pat.len())
}

/// Whether `pat` stands anywhere in `s`.
pub open spec fn has_part(s: Seq<char>, pat: Seq<char>) -> bool {
    exists|i: int| occurs_at(s, pat, i)
}

/// The least index at which `pat` stands in `s`, if there is one.
pub open spec fn index_of(s: Seq<char>, pat: Seq<char>) -> Option<nat>
    decreases s.len(),
{
    if begins_with(s, pat) {
        Some(0)
    } else if s.len() == 0 {
        None
    } else {
        match index_of(s.drop_first(), pat) {
            Some(i) => Some(i + 1),
            None => None,
        }
    }
}

/// `s` with every occurrence of `pat` replaced by `with`, taken from left to right without
/// overlap.
pub open spec fn replaced(s: Seq<char>, pat: Seq<char>, with: Seq<char>) -> Seq<char>
    decreases s.len(),
{
    if s.len() == 0 || pat.len() == 0 {
        s
    } else if begins_with(s, pat) {
        with + replaced(s.skip(pat.len() as int), pat, with)
    } else {
        seq![s[0]] + replaced(s.drop_first(), pat, with)
    }
}

/// `index_of` is the least occurrence.
pub proof fn lemma_index_of(s: Seq<char>, pat: Seq<char>)
    ensures
        index_of(s, pat) matches Some(i) ==> occurs_at(s, pat, i as int) && forall|j: int|
            0 <= j < i ==> !occurs_at(s, pat, j),
        index_of(s, pat) is None ==> forall|j: int| !occurs_at(s, pat, j),
    decreases s.len(),
{
    if !begins_with(s, pat) && s.len() > 0 {
        let t = s.drop_first();
        lemma_index_of(t, pat);
        assert forall|j: int| j > 0 implies occurs_at(s, pat, j) == occurs_at(t, pat, j - 1) by {
            if j + pat.len() <= s.len() {
                assert(s.subrange(j, j + pat.len()) =~= t.subrange(j - 1, j - 1 + pat.len()));
            }
        }
        assert forall|j: int|
            index_of(s, pat) is None implies !occurs_at(s, pat, j) by {
            if j > 0 {
                assert(!occurs_at(t, pat, j - 1));
            }
        }
        if let Some(i) = index_of(s, pat) {
            assert forall|j: int| 0 <= j < i implies !occurs_at(s, pat, j) by {
                if j > 0 {
                    assert(!occurs_at(t, pat, j - 1));
                }
            }
        }
    }
}

/// Whether `pat` stands in `s` from index `i` on.
pub fn stands_at(s: &[char], pat: &[char], i: usize) -> (b: bool)
    ensures
        b == occurs_at(s@, pat@, i as int),
{
    if i > s.len() || pat.len() > s.len() - i {
        return false;
    }
    let n: usize = s.len();
    let mut k: usize = 0;
    while k < pat.len()
        invariant
            k <= pat@.len(),
            n == s@.len(),
            i + pat@.len() <= n,
            forall|j: int| 0 <= j < k ==> s@[i + j] == pat@[j],
        decreases pat@.len() - k,
    {
        if s[i + k] != pat[k] {
            assert(s@.subrange(i as int, i + pat@.len())[k as int] != pat@[k as int]);
            return false;
        }
        k = k + 1;
    }
    assert(s@.subrange(i as int, i + pat@.len()) =~= pat@);
    true
}

/// The least index from `from` on at which `pat` stands in `s`, if there is one.
pub fn find_from(s: &[char], pat: &[char], from: usize) -> (found: Option<usize>)
    requires
        from <= s@.len(),
    ensures
        match found {
            Some(i) => from <= i <= s@.len() && index_of(s@.skip(from as int), pat@) == Some(
                (i - from) as nat,
            ),
            None => index_of(s@.skip(from as int), pat@) is None,
        },
{
    let mut i: usize = from;
    while i < s.len()
        invariant
            from <= i <= s@.len(),
            index_of(s@.skip(from as int), pat@) == match index_of(s@.skip(i as int), pat@) {
                Some(k) => Some((k + i - from) as nat),
                None => None,
            },
        decreases s@.len() - i,
    {
        let hit = stands_at(s, pat, i);
        proof {
            lemma_occurs_in_rest(s@, pat@, i as int);
        }
        if hit {
            return Some(i);
        }
        assert(s@.skip(i as int).drop_first() == s@.skip(i + 1));
        i = i + 1;
    }
    let hit = stands_at(s, pat, i);
    proof {
        lemma_occurs_in_rest(s@, pat@, i as int);
    }
    if hit {
        Some(i)
    } else {
        None
    }
}

/// Standing at `i` is standing at the front of what is left from `i` on.
proof fn lemma_occurs_in_rest(s: Seq<char>, pat: Seq<char>, i: int)
    requires
        0 <= i <= s.len(),
    ensures
        occurs_at(s, pat, i) == begins_with(s.skip(i), pat),
{
    if i + pat.len() <= s.len() {
        assert(s.skip(i).subrange(0, pat.len() as int) =~= s.subrange(i, i + pat.len()));
    }
}

/// Whether `s` begins with `pat`.
pub fn starts_with(s: &str, pat: &str) -> (b: bool)
    ensures
        b == begins_with(s@, pat@),
{
    let v = chars_of(s);
    let p = chars_of(pat);
    stands_at(v.as_slice(), p.as_slice(), 0)
}

/// Whether `s` ends with `pat`.
pub fn ends_with(s: &str, pat: &str) -> (b: bool)
    ensures
        b == finishes_with(s@, pat@),
{
    let v = chars_of(s);
    let p = chars_of(pat);
    if v.len() < p.len() {
        false
    } else {
        stands_at(v.as_slice(), p.as_slice(), v.len() - p.len())
    }
}

/// Whether `pat` stands anywhere in `s`.
pub fn contains(s: &str, pat: &str) -> (b: bool)
    ensures
        b == has_part(s@, pat@),
{
    let v = chars_of(s);
    let p = chars_of(pat);
    let found = find_from(v.as_slice(), p.as_slice(), 0);
    proof {
        assert(s@.skip(0) == s@);
        lemma_index_of(s@, pat@);
    }
    found.is_some()
}

/// `s` with every occurrence of `pat` replaced by `with`.
pub fn replace(s: &[char], pat: &[char], with: &[char]) -> (out: Vec<char>)
    requires
        pat@.len() > 0,
    ensures
        out@ == replaced(s@, pat@, with@),
{
    let mut out: Vec<char> = Vec::new();
    let mut i: usize = 0;
    assert(s@.skip(0) == s@);
    assert(out@ + replaced(s@, pat@, with@) == replaced(s@, pat@, with@));
    while i < s.len()
        invariant
            i <= s@.len(),
            pat@.len() > 0,
            replaced(s@, pat@, with@) == out@ + replaced(s@.skip(i as int), pat@, with@),
        decreases s@.len() - i,
    {
        let hit = stands_at(s, pat, i);
        let ghost rest = s@.skip(i as int);
        proof {
            lemma_occurs_in_rest(s@, pat@, i as int);
        }
        if hit {
            proof {
                let k = pat@.len() as int;
                assert(rest.skip(k) == s@.skip(i + k));
                let tail = replaced(rest.skip(k), pat@, with@);
                assert(out@ + (with@ + tail) == (out@ + with@) + tail);
            }
            append_chars(&mut out, with);
            i = i + pat.len();
        } else {
            proof {
                assert(rest.drop_first() == s@.skip(i + 1));
                let tail = replaced(rest.drop_first(), pat@, with@);
                assert(out@ + (seq![rest[0]] + tail) == out@.push(rest[0]) + tail);
            }
            out.push(s[i]);
            i = i + 1;
        }
    }
    assert(out@ + s@.skip(i as int) == out@);
    out
}

/// A text that does not hold `pat` stays as it is.
pub proof fn lemma_replaced_absent(s: Seq<char>, pat: Seq<char>, with: Seq<char>)
    requires
        !has_part(s, pat),
    ensures
        replaced(s, pat, with) == s,
    decreases s.len(),
{
    if s.len() > 0 && pat.len() > 0 {
        let t = s.drop_first();
        assert(!occurs_at(s, pat, 0));
        assert forall|i: int| !occurs_at(t, pat, i) by {
            if occurs_at(t, pat, i) {
                assert(s.subrange(i + 1, i + 1 + pat.len()) =~= t.subrange(i, i + pat.len()));
                assert(occurs_at(s, pat, i + 1));
            }
        }
        lemma_replaced_absent(t, pat, with);
        assert(seq![s[0]] + t == s);
    }
}

// What holds of all of this

/// A part stands in a text at an index if the characters from there on are its characters.
pub proof fn lemma_occurs_at(s: Seq<char>, pat: Seq<char>, i: int)
    ensures
        occurs_at(s, pat, i) <==> (0 <= i && i + pat.len() <= s.len() && forall|j: int|
            0 <= j < pat.len() ==> s[i + j] == #[trigger] pat[j]),
{
    if 0 <= i && i + pat.len() <= s.len() {
        let part = s.subrange(i, i + pat.len());
        if part == pat {
            assert forall|j: int| 0 <= j < pat.len() implies s[i + j] == #[trigger] pat[j] by {
                assert(part[j] == pat[j]);
            }
        }
        if forall|j: int| 0 <= j < pat.len() ==> s[i + j] == #[trigger] pat[j] {
            assert(part =~= pat);
        }
    }
}

/// A text begins with a part if it is that part and something behind it.
pub proof fn lemma_begins_with(s: Seq<char>, pat: Seq<char>)
    ensures
        begins_with(s, pat) <==> exists|rest: Seq<char>| s == #[trigger] (pat + rest),
{
    if begins_with(s, pat) {
        assert(s == pat + s.skip(pat.len() as int));
    }
    if exists|rest: Seq<char>| s == #[trigger] (pat + rest) {
        let rest = choose|rest: Seq<char>| s == #[trigger] (pat + rest);
        assert(s.subrange(0, pat.len() as int) =~= pat);
    }
}

/// A text ends with a part if it is that part and something in front of it.
pub proof fn lemma_finishes_with(s: Seq<char>, pat: Seq<char>)
    ensures
        finishes_with(s, pat) <==> exists|front: Seq<char>| s == #[trigger] (front + pat),
{
    if finishes_with(s, pat) {
        assert(s == s.take(s.len() - pat.len()) + pat);
    }
    if exists|front: Seq<char>| s == #[trigger] (front + pat) {
        let front = choose|front: Seq<char>| s == #[trigger] (front + pat);
        assert(s.subrange(s.len() - pat.len(), s.len() as int) =~= pat);
    }
}

/// A text holds a part if it is that part with something in front of it and something behind it.
pub proof fn lemma_has_part(s: Seq<char>, pat: Seq<char>)
    ensures
        has_part(s, pat) <==> exists|front: Seq<char>, rest: Seq<char>|
            s == #[trigger] (front + pat + rest),
{
    if has_part(s, pat) {
        let i = choose|i: int| occurs_at(s, pat, i);
        assert(s == s.take(i) + pat + s.skip(i + pat.len()));
    }
    if exists|front: Seq<char>, rest: Seq<char>| s == #[trigger] (front + pat + rest) {
        let (front, rest) = choose|front: Seq<char>, rest: Seq<char>|
            s == #[trigger] (front + pat + rest);
        let i = front.len() as int;
        assert(s.subrange(i, i + pat.len()) =~= pat);
        assert(occurs_at(s, pat, i));
    }
}

/// The first occurrence of a part is replaced, what stands in front of it stays, and the same is
/// done with what stands behind it.
pub proof fn lemma_replaced_first(
    front: Seq<char>,
    pat: Seq<char>,
    with: Seq<char>,
    rest: Seq<char>,
)
    requires
        pat.len() > 0,
        forall|i: int| 0 <= i < front.len() ==> !occurs_at(front + pat + rest, pat, i),
    ensures
        replaced(front + pat + rest, pat, with) == front + with + replaced(rest, pat, with),
    decreases front.len(),
{
    let s = front + pat + rest;
    if front.len() == 0 {
        assert(s.subrange(0, pat.len() as int) =~= pat);
        assert(s.skip(pat.len() as int) == rest);
        assert(front + with == with);
    } else {
        let f = front.drop_first();
        let t = f + pat + rest;
        assert(s.drop_first() == t);
        assert(!occurs_at(s, pat, 0));
        assert forall|i: int| 0 <= i < f.len() implies !occurs_at(t, pat, i) by {
            if occurs_at(t, pat, i) {
                assert(s.subrange(i + 1, i + 1 + pat.len()) =~= t.subrange(i, i + pat.len()));
                assert(occurs_at(s, pat, i + 1));
            }
        }
        lemma_replaced_first(f, pat, with, rest);
        assert(s[0] == front[0]);
        assert(seq![front[0]] + (f + with + replaced(rest, pat, with)) == front + with + replaced(
            rest,
            pat,
            with,
        ));
    }
}

} // verus!
