//! Facts about the words of a text.

use vstd::prelude::*;
use crate::text::{is_white, joined, lemma_run_len, lemma_run_len_is, lemma_words_from_trimmed, run_len,
    trim_end, trim_start, trimmed, words};

verus! {

/// A word: characters other than white space, one at least.
pub open spec fn is_word(w: Seq<char>) -> bool {
    w.len() > 0 && forall|i: int| 0 <= i < w.len() ==> !is_white(#[trigger] w[i])
}

/// Whether the texts are all words.
pub open spec fn all_words(parts: Seq<Seq<char>>) -> bool {
    forall|i: int| 0 <= i < parts.len() ==> is_word(#[trigger] parts[i])
}

/// The words of a text are words.
pub proof fn lemma_words_are_words(s: Seq<char>)
    ensures
        all_words(words(s)),
    decreases s.len(),
{
    let t = trim_start(s);
    lemma_run_len(s, true);
    if t.len() > 0 {
        let n = run_len(t, false) as int;
        lemma_run_len(t, false);
        assert(t[0] == s[run_len(s, true) as int]);
        assert(run_len(t, false) > 0);
        let w = t.take(n);
        assert forall|i: int| 0 <= i < w.len() implies !is_white(#[trigger] w[i]) by {
            assert(w[i] == t[i]);
        }
        lemma_words_are_words(t.skip(n));
        let rest = words(t.skip(n));
        assert forall|i: int| 0 <= i < words(s).len() implies is_word(#[trigger] words(s)[i]) by {
            if i > 0 {
                assert(words(s)[i] == rest[i - 1]);
            }
        }
    }
}

/// A word is its own only word.
pub proof fn lemma_word_alone(w: Seq<char>)
    requires
        is_word(w),
    ensures
        words(w) == seq![w],
{
    lemma_run_len_is(w, true, 0);
    assert(trim_start(w) == w);
    lemma_run_len_is(w, false, w.len());
    assert(w.take(w.len() as int) == w);
    let rest = w.skip(w.len() as int);
    assert(rest.len() == 0);
    assert(trim_start(rest).len() == 0);
    assert(words(rest) == Seq::<Seq<char>>::empty());
    assert(words(w) == seq![w] + words(rest));
}

/// A text that begins with a word and white space behind it: that word, then the words of the
/// rest.
proof fn lemma_word_first(w: Seq<char>, c: char, b: Seq<char>)
    requires
        is_word(w),
        is_white(c),
    ensures
        words(w.push(c) + b) == seq![w] + words(b),
{
    let s = w.push(c) + b;
    assert(s[0] == w[0]);
    lemma_run_len_is(s, true, 0);
    assert(trim_start(s) == s);
    assert forall|i: int| 0 <= i < w.len() implies is_white(#[trigger] s[i]) == false by {
        assert(s[i] == w[i]);
    }
    assert(s[w.len() as int] == c);
    lemma_run_len_is(s, false, w.len());
    assert(s.take(w.len() as int) == w);
    let rest = s.skip(w.len() as int);
    assert(rest == seq![c] + b);
    lemma_white_first(c, b);
}

/// White space at the front of a text adds no word.
proof fn lemma_white_first(c: char, b: Seq<char>)
    requires
        is_white(c),
    ensures
        words(seq![c] + b) == words(b),
{
    let s = seq![c] + b;
    assert(s.drop_first() == b);
    assert(s[0] == c);
    assert(run_len(s, true) == 1 + run_len(b, true));
    lemma_run_len(b, true);
    assert(trim_start(s) == trim_start(b));
    lemma_words_from_trimmed(s);
    lemma_words_from_trimmed(b);
}

/// White space parts the words on its two sides.
pub proof fn lemma_words_part(a: Seq<char>, c: char, b: Seq<char>)
    requires
        is_white(c),
    ensures
        words(a.push(c) + b) == words(a) + words(b),
    decreases a.len(),
{
    let s = a.push(c) + b;
    if a.len() == 0 {
        assert(s == seq![c] + b);
        lemma_white_first(c, b);
        assert(trim_start(a).len() == 0);
        assert(words(a) + words(b) == words(b));
    } else if is_white(a[0]) {
        let a1 = a.drop_first();
        assert(s == seq![a[0]] + (a1.push(c) + b));
        lemma_white_first(a[0], a1.push(c) + b);
        assert(a == seq![a[0]] + a1);
        lemma_white_first(a[0], a1);
        lemma_words_part(a1, c, b);
    } else {
        lemma_run_len(a, false);
        let n = run_len(a, false) as int;
        let w = a.take(n);
        assert(is_word(w)) by {
            assert forall|i: int| 0 <= i < w.len() implies !is_white(#[trigger] w[i]) by {
                assert(w[i] == a[i]);
            }
        }
        if n == a.len() {
            assert(w == a);
            lemma_word_first(a, c, b);
            lemma_word_alone(a);
        } else {
            let a1 = a.skip(n + 1);
            assert(a == w.push(a[n]) + a1);
            lemma_word_first(w, a[n], a1);
            assert(s == w.push(a[n]) + (a1.push(c) + b));
            lemma_word_first(w, a[n], a1.push(c) + b);
            lemma_words_part(a1, c, b);
            assert(seq![w] + (words(a1) + words(b)) == (seq![w] + words(a1)) + words(b));
        }
    }
}

/// White space at the end of a text adds no word.
pub proof fn lemma_words_of_trimmed_end(s: Seq<char>)
    ensures
        words(trim_end(s)) == words(s),
    decreases s.len(),
{
    if s.len() > 0 && is_white(s.last()) {
        lemma_words_of_trimmed_end(s.drop_last());
        lemma_words_part(s.drop_last(), s.last(), Seq::empty());
        assert(s.drop_last().push(s.last()) + Seq::<char>::empty() == s);
        assert(trim_start(Seq::<char>::empty()).len() == 0);
        assert(words(Seq::<char>::empty()) == Seq::<Seq<char>>::empty());
        assert(words(s.drop_last()) + Seq::<Seq<char>>::empty() == words(s.drop_last()));
    }
}

/// White space at the ends of a text adds no word.
pub proof fn lemma_words_of_trimmed(s: Seq<char>)
    ensures
        words(trimmed(s)) == words(s),
{
    lemma_words_from_trimmed(s);
    lemma_words_of_trimmed_end(trim_start(s));
}

/// A trimmed text neither begins nor ends with white space.
pub proof fn lemma_trimmed_ends(s: Seq<char>)
    ensures
        trimmed(s).len() > 0 ==> !is_white(trimmed(s)[0]) && !is_white(trimmed(s).last()),
        trimmed(trimmed(s)) == trimmed(s),
{
    let t = trim_start(s);
    lemma_run_len(s, true);
    lemma_trim_end(t);
    let u = trim_end(t);
    if t.len() > 0 {
        assert(t[0] == s[run_len(s, true) as int]);
    }
    if u.len() > 0 {
        assert(u[0] == t[0]);
    }
    lemma_run_len_is(u, true, 0);
    assert(trim_start(u) == u);
    lemma_trim_end(u);
}

/// What is left when white space is taken off the end.
pub proof fn lemma_trim_end(s: Seq<char>)
    ensures
        trim_end(s).len() <= s.len(),
        trim_end(s) == s.take(trim_end(s).len() as int),
        trim_end(s).len() > 0 ==> !is_white(trim_end(s).last()),
        s.len() > 0 && !is_white(s.last()) ==> trim_end(s) == s,
    decreases s.len(),
{
    if s.len() > 0 && is_white(s.last()) {
        lemma_trim_end(s.drop_last());
    }
    assert(trim_end(s) == s.take(trim_end(s).len() as int));
}

/// Words that are joined by white space are the words of the whole.
pub proof fn lemma_words_of_joined(parts: Seq<Seq<char>>, sep: char)
    requires
        all_words(parts),
        is_white(sep),
    ensures
        words(joined(parts, sep)) == parts,
    decreases parts.len(),
{
    if parts.len() == 0 {
        assert(trim_start(Seq::<char>::empty()).len() == 0);
        assert(words(joined(parts, sep)) == parts);
    } else if parts.len() == 1 {
        lemma_word_alone(parts[0]);
        assert(seq![parts[0]] == parts);
    } else {
        let front = parts.drop_last();
        assert(all_words(front));
        lemma_words_of_joined(front, sep);
        lemma_words_part(joined(front, sep), sep, parts.last());
        assert(is_word(parts[parts.len() - 1]));
        lemma_word_alone(parts.last());
        assert(front + seq![parts.last()] == parts);
    }
}

/// Joined texts seen from the front.
pub proof fn lemma_joined_front(first: Seq<char>, rest: Seq<Seq<char>>, sep: char)
    requires
        rest.len() > 0,
    ensures
        joined(seq![first] + rest, sep) == first.push(sep) + joined(rest, sep),
    decreases rest.len(),
{
    let all = seq![first] + rest;
    assert(all.last() == rest.last());
    assert(all.drop_last() == seq![first] + rest.drop_last());
    if rest.len() == 1 {
        assert(all.drop_last() == seq![first]);
        assert(joined(all.drop_last(), sep) == first);
    } else {
        lemma_joined_front(first, rest.drop_last(), sep);
        assert((first.push(sep) + joined(rest.drop_last(), sep)).push(sep) + rest.last()
            == first.push(sep) + (joined(rest.drop_last(), sep).push(sep) + rest.last()));
    }
}

/// A text of nothing but white space holds no word.
pub proof fn lemma_no_words(s: Seq<char>)
    requires
        forall|i: int| 0 <= i < s.len() ==> is_white(#[trigger] s[i]),
    ensures
        words(s) == Seq::<Seq<char>>::empty(),
{
    lemma_run_len_is(s, true, s.len());
    assert(trim_start(s).len() == 0);
}

/// Characters with white space or nothing around them, none of which is white space, are a word of
/// the text, between the words in front of it and those behind it.
pub proof fn lemma_word_within(before: Seq<char>, word: Seq<char>, after: Seq<char>)
    requires
        word.len() > 0,
        forall|i: int| 0 <= i < word.len() ==> !is_white(#[trigger] word[i]),
        before.len() > 0 ==> is_white(before.last()),
        after.len() > 0 ==> is_white(after[0]),
    ensures
        words(before + word + after) == words(before) + seq![word] + words(after),
{
    assert(is_word(word));
    let tail = word + after;
    lemma_no_words(Seq::<char>::empty());
    assert(words(tail) == seq![word] + words(after)) by {
        if after.len() == 0 {
            assert(tail == word);
            lemma_word_alone(word);
            assert(after == Seq::<char>::empty());
            assert(seq![word] + words(after) == seq![word]);
        } else {
            let rest = after.drop_first();
            assert(tail == word.push(after[0]) + rest);
            lemma_word_first(word, after[0], rest);
            assert(after == seq![after[0]] + rest);
            lemma_white_first(after[0], rest);
        }
    }
    if before.len() == 0 {
        assert(before + word + after == tail);
        assert(before == Seq::<char>::empty());
        assert(words(before) + seq![word] + words(after) == seq![word] + words(after));
    } else {
        let front = before.drop_last();
        assert(before + word + after == front.push(before.last()) + tail);
        lemma_words_part(front, before.last(), tail);
        assert(before == front.push(before.last()) + Seq::<char>::empty());
        lemma_words_part(front, before.last(), Seq::empty());
        assert(words(front) + Seq::<Seq<char>>::empty() == words(front));
        assert(words(front) + (seq![word] + words(after)) == words(before) + seq![word] + words(
            after,
        ));
    }
}

} // verus!
