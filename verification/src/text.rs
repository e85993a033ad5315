//! Operations on text, stated over sequences of characters.

use vstd::prelude::*;

verus! {

/// `String::push` appends the character to the end of the string.
pub assume_specification[ String::push ](s: &mut String, c: char)
    ensures
        final(s)@ == old(s)@.push(c),
;

/// A result whose value and whose error are texts.
pub open spec fn result_texts(res: Result<String, String>) -> Result<Seq<char>, Seq<char>> {
    match res {
        Ok(text) => Ok(text@),
        Err(why) => Err(why@),
    }
}

/// The text of an optional string.
pub open spec fn opt_text(s: Option<String>) -> Option<Seq<char>> {
    match s {
        Some(text) => Some(text@),
        None => None,
    }
}

/// The text of an optional string slice.
pub open spec fn opt_str(s: Option<&str>) -> Option<Seq<char>> {
    match s {
        Some(text) => Some(text@),
        None => None,
    }
}

/// The texts of the strings.
pub open spec fn strings(v: Seq<String>) -> Seq<Seq<char>> {
    v.map_values(|s: String| s@)
}

/// The characters of `s`, in order.
pub fn chars_of(s: &str) -> (out: Vec<char>)
    ensures
        out@ == s@,
{
    let mut out: Vec<char> = Vec::new();
    for c in it: s.chars()
        invariant
            it.seq() == s@,
            out@ == s@.take(it.index() as int),
    {
        out.push(c);
    }
    out
}

/// Appends the characters `v` to `out`.
pub fn push_chars(out: &mut String, v: &[char])
    ensures
        final(out)@ == old(out)@ + v@,
{
    let ghost before = out@;
    let mut i: usize = 0;
    while i < v.len()
        invariant
            i <= v@.len(),
            out@ == before + v@.take(i as int),
        decreases v@.len() - i,
    {
        out.push(v[i]);
        i = i + 1;
    }
    assert(v@.take(i as int) == v@);
}

/// The string whose characters are `v`.
pub fn string_of(v: &[char]) -> (out: String)
    ensures
        out@ == v@,
{
    let mut out = String::new();
    push_chars(&mut out, v);
    out
}

/// Appends the text `s` to `out`.
pub fn push_text(out: &mut String, s: &str)
    ensures
        final(out)@ == old(out)@ + s@,
{
    let v = chars_of(s);
    push_chars(out, v.as_slice());
}

/// The text `a` followed by the text `b`.
pub fn concat(a: &str, b: &str) -> (out: String)
    ensures
        out@ == a@ + b@,
{
    let mut out = String::new();
    push_text(&mut out, a);
    push_text(&mut out, b);
    out
}

/// The texts `a`, `b` and `c`, one after the other.
pub fn concat3(a: &str, b: &str, c: &str) -> (out: String)
    ensures
        out@ == a@ + b@ + c@,
{
    let mut out = concat(a, b);
    push_text(&mut out, c);
    out
}

/// Whether two texts are the same.
pub fn same_text(a: &str, b: &str) -> (same: bool)
    ensures
        same == (a@ == b@),
{
    let x = chars_of(a);
    let y = chars_of(b);
    same_chars(x.as_slice(), y.as_slice())
}

/// Whether two slices hold the same characters.
pub fn same_chars(a: &[char], b: &[char]) -> (same: bool)
    ensures
        same == (a@ == b@),
{
    if a.len() != b.len() {
        return false;
    }
    let mut i: usize = 0;
    while i < a.len()
        invariant
            i <= a@.len(),
            a@.len() == b@.len(),
            forall|j: int| 0 <= j < i ==> a@[j] == b@[j],
        decreases a@.len() - i,
    {
        if a[i] != b[i] {
            return false;
        }
        i = i + 1;
    }
    assert(a@ =~= b@);
    true
}

/// The first `n` characters of `s`, or all of them where there are fewer.
pub open spec fn at_most(s: Seq<char>, n: nat) -> Seq<char> {
    if s.len() <= n {
        s
    } else {
        s.take(n as int)
    }
}

/// The first `n` characters of `s`, or all of them where there are fewer.
pub fn take_chars(s: &[char], n: usize) -> (out: &[char])
    ensures
        out@ == at_most(s@, n as nat),
{
    if s.len() <= n {
        s
    } else {
        vstd::slice::slice_subrange(s, 0, n)
    }
}

// White space

/// The characters with the Unicode property `White_Space`.
pub open spec fn is_white(c: char) -> bool {
    let u = c as u32;
    ||| 0x09 <= u <= 0x0d
    ||| u == 0x20
    ||| u == 0x85
    ||| u == 0xa0
    ||| u == 0x1680
    ||| 0x2000 <= u <= 0x200a
    ||| u == 0x2028
    ||| u == 0x2029
    ||| u == 0x202f
    ||| u == 0x205f
    ||| u == 0x3000
}

/// Whether `c` is a white space character.
pub fn is_whitespace(c: char) -> (b: bool)
    ensures
        b == is_white(c),
{
    let u: u32 = c as u32;
    (0x09 <= u && u <= 0x0d) || u == 0x20 || u == 0x85 || u == 0xa0 || u == 0x1680 || (0x2000 <= u
        && u <= 0x200a) || u == 0x2028 || u == 0x2029 || u == 0x202f || u == 0x205f || u == 0x3000
}

/// How many characters at the front of `s` are white space (`white`), or are not (`!white`).
pub open spec fn run_len(s: Seq<char>, white: bool) -> nat
    decreases s.len(),
{
    if s.len() > 0 && is_white(s[0]) == white {
        1 + run_len(s.drop_first(), white)
    } else {
        0
    }
}

/// `s` without the white space at its front.
pub open spec fn trim_start(s: Seq<char>) -> Seq<char> {
    s.skip(run_len(s, true) as int)
}

/// `s` without the white space at its end.
pub open spec fn trim_end(s: Seq<char>) -> Seq<char>
    decreases s.len(),
{
    if s.len() > 0 && is_white(s.last()) {
        trim_end(s.drop_last())
    } else {
        s
    }
}

/// `s` without the white space at both ends.
pub open spec fn trimmed(s: Seq<char>) -> Seq<char> {
    trim_end(trim_start(s))
}

/// The maximal runs of characters other than white space in `s`, in order.
pub open spec fn words(s: Seq<char>) -> Seq<Seq<char>>
    decreases s.len(),
{
    let t = trim_start(s);
    if t.len() == 0 {
        Seq::empty()
    } else {
        let n = run_len(t, false) as int;
        proof {
            lemma_run_len(s, true);
            lemma_run_len(t, false);
        }
        seq![t.take(n)] + words(t.skip(n))
    }
}

pub proof fn lemma_run_len(s: Seq<char>, white: bool)
    ensures
        run_len(s, white) <= s.len(),
        forall|i: int| 0 <= i < run_len(s, white) ==> is_white(#[trigger] s[i]) == white,
        run_len(s, white) < s.len() ==> is_white(s[run_len(s, white) as int]) != white,
    decreases s.len(),
{
    if s.len() > 0 && is_white(s[0]) == white {
        let t = s.drop_first();
        lemma_run_len(t, white);
        assert forall|i: int| 0 <= i < run_len(s, white) implies is_white(#[trigger] s[i])
            == white by {
            if i > 0 {
                assert(t[i - 1] == s[i]);
            }
        }
    }
}

/// A run ends where its characters do.
pub proof fn lemma_run_len_is(s: Seq<char>, white: bool, n: nat)
    requires
        n <= s.len(),
        forall|i: int| 0 <= i < n ==> is_white(#[trigger] s[i]) == white,
        n < s.len() ==> is_white(s[n as int]) != white,
    ensures
        run_len(s, white) == n,
{
    lemma_run_len(s, white);
    let m = run_len(s, white);
    if m < n {
        assert(is_white(s[m as int]) == white);
    } else if n < m {
        assert(is_white(s[n as int]) == white);
    }
}

/// The first index from `from` on whose character is white space (`white`) or is not, or the
/// length.
fn run_end(s: &[char], from: usize, white: bool) -> (end: usize)
    requires
        from <= s@.len(),
    ensures
        from <= end <= s@.len(),
        end == from + run_len(s@.skip(from as int), white),
{
    let mut i: usize = from;
    while i < s.len() && is_whitespace(s[i]) == white
        invariant
            from <= i <= s@.len(),
            forall|j: int| from <= j < i ==> is_white(#[trigger] s@[j]) == white,
        decreases s@.len() - i,
    {
        i = i + 1;
    }
    proof {
        let t = s@.skip(from as int);
        assert forall|j: int| 0 <= j < i - from implies is_white(#[trigger] t[j]) == white by {
            assert(t[j] == s@[j + from]);
        }
        lemma_run_len_is(t, white, (i - from) as nat);
    }
    i
}

/// The text without the white space at both ends.
pub fn trim_chars(s: &[char]) -> (out: &[char])
    ensures
        out@ == trimmed(s@),
{
    let start = run_end(s, 0, true);
    let mut end: usize = s.len();
    proof {
        assert(s@.skip(0) == s@);
        assert(s@.subrange(start as int, end as int) == trim_start(s@));
    }
    while end > start && is_whitespace(s[end - 1])
        invariant
            start <= end <= s@.len(),
            trim_end(s@.subrange(start as int, end as int)) == trimmed(s@),
        decreases end,
    {
        proof {
            let t = s@.subrange(start as int, end as int);
            assert(t.drop_last() == s@.subrange(start as int, end - 1));
            assert(t.last() == s@[end - 1]);
        }
        end = end - 1;
    }
    proof {
        let t = s@.subrange(start as int, end as int);
        if end > start {
            assert(t.last() == s@[end - 1]);
        }
    }
    vstd::slice::slice_subrange(s, start, end)
}

/// The text without the white space at both ends.
pub fn trim(s: &str) -> (out: String)
    ensures
        out@ == trimmed(s@),
{
    let v = chars_of(s);
    string_of(trim_chars(v.as_slice()))
}

/// The texts that the vectors `v` hold.
pub open spec fn texts(v: Seq<Vec<char>>) -> Seq<Seq<char>> {
    v.map_values(|w: Vec<char>| w@)
}

/// The maximal runs of characters other than white space, in order.
pub fn split_words(s: &[char]) -> (out: Vec<Vec<char>>)
    ensures
        texts(out@) == words(s@),
{
    let mut out: Vec<Vec<char>> = Vec::new();
    let mut i: usize = run_end(s, 0, true);
    proof {
        assert(s@.skip(0) == s@);
        assert(texts(out@) == Seq::<Seq<char>>::empty());
        lemma_words_from_trimmed(s@);
        lemma_run_len(s@, true);
    }
    while i < s.len()
        invariant
            i <= s@.len(),
            i < s@.len() ==> !is_white(s@[i as int]),
            words(s@) == texts(out@) + words(s@.skip(i as int)),
        decreases s@.len() - i,
    {
        let ghost rest = s@.skip(i as int);
        let end = run_end(s, i, false);
        let word = vstd::slice::slice_to_vec(vstd::slice::slice_subrange(s, i, end));
        let next = run_end(s, end, true);
        proof {
            let n = run_len(rest, false) as int;
            lemma_run_len(rest, false);
            assert(rest[0] == s@[i as int]);
            lemma_run_len_is(rest, true, 0);
            assert(trim_start(rest) == rest);
            assert(word@ == rest.take(n));
            assert(rest.skip(n) == s@.skip(end as int));
            lemma_words_from_trimmed(s@.skip(end as int));
            assert(s@.skip(end as int).skip(next - end) == s@.skip(next as int));
            lemma_run_len(s@.skip(end as int), true);
            if next < s@.len() {
                assert(s@.skip(end as int)[next - end] == s@[next as int]);
            }
            assert(texts(out@.push(word)) == texts(out@).push(word@));
            assert(texts(out@) + (seq![word@] + words(s@.skip(next as int))) == texts(
                out@,
            ).push(word@) + words(s@.skip(next as int)));
        }
        out.push(word);
        i = next;
    }
    proof {
        let rest = s@.skip(i as int);
        lemma_run_len(rest, true);
        assert(texts(out@) + words(rest) == texts(out@));
    }
    out
}

/// White space at the front of a text adds no word.
pub proof fn lemma_words_from_trimmed(s: Seq<char>)
    ensures
        words(s) == words(trim_start(s)),
{
    let t = trim_start(s);
    lemma_run_len(s, true);
    if t.len() > 0 {
        assert(t[0] == s[run_len(s, true) as int]);
    }
    lemma_run_len_is(t, true, 0);
    assert(trim_start(t) == t);
}

/// The texts `parts`, one after the other, with `sep` between every two of them.
pub open spec fn joined(parts: Seq<Seq<char>>, sep: char) -> Seq<char>
    decreases parts.len(),
{
    if parts.len() == 0 {
        Seq::empty()
    } else if parts.len() == 1 {
        parts[0]
    } else {
        joined(parts.drop_last(), sep).push(sep) + parts.last()
    }
}

/// The texts `parts`, one after the other, with `sep` between every two of them.
pub fn join_chars(parts: &Vec<Vec<char>>, sep: char) -> (out: Vec<char>)
    ensures
        out@ == joined(texts(parts@), sep),
{
    let mut out: Vec<char> = Vec::new();
    let mut i: usize = 0;
    let ghost all = texts(parts@);
    assert(all.take(0) == Seq::<Seq<char>>::empty());
    while i < parts.len()
        invariant
            i <= parts@.len(),
            all == texts(parts@),
            out@ == joined(all.take(i as int), sep),
        decreases parts@.len() - i,
    {
        proof {
            assert(all.take(i + 1).drop_last() == all.take(i as int));
            assert(all.take(i + 1).last() == parts@[i as int]@);
            assert(Seq::<char>::empty() + parts@[i as int]@ == parts@[i as int]@);
        }
        if i > 0 {
            out.push(sep);
        }
        append_chars(&mut out, parts[i].as_slice());
        i = i + 1;
    }
    assert(all.take(i as int) == all);
    out
}

/// Appends the characters `v` to `out`.
pub fn append_chars(out: &mut Vec<char>, v: &[char])
    ensures
        final(out)@ == old(out)@ + v@,
{
    let ghost before = out@;
    let mut i: usize = 0;
    while i < v.len()
        invariant
            i <= v@.len(),
            out@ == before + v@.take(i as int),
        decreases v@.len() - i,
    {
        out.push(v[i]);
        i = i + 1;
    }
    assert(v@.take(i as int) == v@);
}

// What holds of all of this

/// White space: the tab to the carriage return, the space, the next line, the spaces that do not
/// break, the spaces of typography, and the separators of lines and paragraphs.
pub proof fn lemma_white_space(c: char)
    ensures
        is_white(c) <==> (c == '\t' || c == '\n' || c == '\u{b}' || c == '\u{c}' || c == '\r' || c
            == ' ' || c == '\u{85}' || c == '\u{a0}' || c == '\u{1680}' || '\u{2000}' <= c
            <= '\u{200a}' || c == '\u{2028}' || c == '\u{2029}' || c == '\u{202f}' || c
            == '\u{205f}' || c == '\u{3000}'),
{
}

/// The first characters of a text are as many as are asked for, or all of them.
pub proof fn lemma_at_most(s: Seq<char>, n: nat)
    ensures
        at_most(s, n).len() == if s.len() < n { s.len() } else { n },
        forall|i: int| 0 <= i < at_most(s, n).len() ==> #[trigger] at_most(s, n)[i] == s[i],
{
}

/// White space around a text is taken off, and nothing else.
pub proof fn lemma_trimmed(before: Seq<char>, text: Seq<char>, after: Seq<char>)
    requires
        forall|i: int| 0 <= i < before.len() ==> is_white(#[trigger] before[i]),
        forall|i: int| 0 <= i < after.len() ==> is_white(#[trigger] after[i]),
        text.len() > 0 ==> !is_white(text[0]) && !is_white(text.last()),
    ensures
        trimmed(before + text + after) == text,
{
    let s = before + text + after;
    assert forall|i: int| 0 <= i < before.len() implies is_white(#[trigger] s[i]) == true by {
        assert(s[i] == before[i]);
    }
    if text.len() == 0 {
        assert forall|i: int| 0 <= i < s.len() implies is_white(#[trigger] s[i]) == true by {
            if i >= before.len() {
                assert(s[i] == after[i - before.len()]);
            }
        }
        lemma_run_len_is(s, true, s.len());
        assert(trim_start(s) == text);
    } else {
        assert(s[before.len() as int] == text[0]);
        lemma_run_len_is(s, true, before.len());
        assert(trim_start(s) == text + after);
        lemma_trimmed_behind(text, after);
    }
}

proof fn lemma_trimmed_behind(text: Seq<char>, after: Seq<char>)
    requires
        forall|i: int| 0 <= i < after.len() ==> is_white(#[trigger] after[i]),
        text.len() > 0,
        !is_white(text.last()),
    ensures
        trim_end(text + after) == text,
    decreases after.len(),
{
    let s = text + after;
    if after.len() == 0 {
        assert(s == text);
    } else {
        assert(s.last() == after[after.len() - 1]);
        assert(s.drop_last() == text + after.drop_last());
        lemma_trimmed_behind(text, after.drop_last());
    }
}

/// Texts put together are those of the front, the sign that parts them, and those of the back; a
/// text alone is itself.
pub proof fn lemma_joined(a: Seq<Seq<char>>, b: Seq<Seq<char>>, sep: char)
    requires
        a.len() > 0,
        b.len() > 0,
    ensures
        joined(a + b, sep) == joined(a, sep) + seq![sep] + joined(b, sep),
        joined(seq![a[0]], sep) == a[0],
        joined(Seq::<Seq<char>>::empty(), sep) == Seq::<char>::empty(),
    decreases b.len(),
{
    let all = a + b;
    assert(all.last() == b.last());
    assert(all.drop_last() == a + b.drop_last());
    if b.len() == 1 {
        assert(all.drop_last() == a);
        assert(joined(all, sep) == joined(a, sep) + seq![sep] + joined(b, sep));
    } else {
        lemma_joined(a, b.drop_last(), sep);
        assert(joined(all, sep) == joined(a, sep) + seq![sep] + joined(b, sep));
    }
}

/// What is said of strings is said of their characters, one string after the other.
pub proof fn lemma_texts_are_characters(a: Seq<String>, b: Seq<Vec<char>>)
    ensures
        strings(a).len() == a.len(),
        forall|i: int| 0 <= i < a.len() ==> #[trigger] strings(a)[i] == a[i]@,
        texts(b).len() == b.len(),
        forall|i: int| 0 <= i < b.len() ==> #[trigger] texts(b)[i] == b[i]@,
{
}

/// What is said of an optional text or of a result with texts is said of their characters.
pub proof fn lemma_views_are_characters(s: Option<String>, t: Option<&str>, res: Result<String, String>)
    ensures
        match s {
            Some(text) => opt_text(s) == Some(text@),
            None => opt_text(s) is None,
        },
        match t {
            Some(text) => opt_str(t) == Some(text@),
            None => opt_str(t) is None,
        },
        match res {
            Ok(text) => result_texts(res) == Ok::<Seq<char>, Seq<char>>(text@),
            Err(why) => result_texts(res) == Err::<Seq<char>, Seq<char>>(why@),
        },
{
}

} // verus!
