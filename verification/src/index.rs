//! The search index: the text that a document is found under, and what is looked up in it.

use vstd::prelude::*;
use crate::text::{at_most, chars_of, is_white, join_chars, joined, lemma_joined, lemma_run_len,
    lemma_run_len_is, lemma_trimmed, opt_text, run_len, split_words, string_of, take_chars,
    trim_chars, trim_end, trim_start, trimmed, words};
use crate::words::{all_words, is_word, lemma_joined_front, lemma_trim_end, lemma_trimmed_ends,
    lemma_word_alone, lemma_words_are_words, lemma_words_of_joined, lemma_words_of_trimmed,
    lemma_words_of_trimmed_end, lemma_words_part};

verus! {

/// How many characters of a document's text the index holds.
pub const INDEX_CHARS: usize = 400_000;

/// How many characters of a query are looked up.
pub const QUERY_CHARS: usize = 200;

// What is stored

/// The words of a text with single spaces between them.
pub open spec fn single_line(text: Seq<char>) -> Seq<char> {
    joined(words(text), ' ')
}

/// The text that the index holds for `text`.
pub open spec fn normalized(text: Seq<char>) -> Seq<char> {
    at_most(single_line(text), INDEX_CHARS as nat)
}

/// The text that the index holds: the words with single spaces between them, cut to the length
/// that the index takes.
pub fn normalize_text_for_index(text: &str) -> (out: String)
    ensures
        out@ == normalized(text@),
{
    let v = chars_of(text);
    let parts = split_words(v.as_slice());
    let line = join_chars(&parts, ' ');
    string_of(take_chars(line.as_slice(), INDEX_CHARS))
}

/// The first characters of a text, as many as the index takes at most.
pub fn cut_for_index(text: &str) -> (out: String)
    ensures
        out@ == at_most(text@, INDEX_CHARS as nat),
{
    let v = chars_of(text);
    string_of(take_chars(v.as_slice(), INDEX_CHARS))
}

/// Whether white space occurs in the text only as single spaces, with something in front of each
/// of them and something behind it.
pub open spec fn single_spaced(t: Seq<char>) -> bool {
    forall|i: int|
        0 <= i < t.len() && is_white(#[trigger] t[i]) ==> t[i] == ' ' && 0 < i < t.len() - 1
            && !is_white(t[i - 1])
}

/// Joined words are single-spaced.
proof fn lemma_joined_spacing(parts: Seq<Seq<char>>)
    requires
        all_words(parts),
    ensures
        single_spaced(joined(parts, ' ')),
        parts.len() > 0 ==> joined(parts, ' ').len() > 0 && !is_white(joined(parts, ' ').last()),
    decreases parts.len(),
{
    if parts.len() == 0 {
    } else if parts.len() == 1 {
        assert(is_word(parts[0]));
    } else {
        let front = parts.drop_last();
        let last = parts.last();
        assert(all_words(front));
        assert(is_word(parts[parts.len() - 1]));
        lemma_joined_spacing(front);
        let a = joined(front, ' ');
        let t = joined(parts, ' ');
        assert(t == a.push(' ') + last);
        assert forall|i: int| 0 <= i < t.len() && is_white(#[trigger] t[i]) implies t[i] == ' ' && 0
            < i < t.len() - 1 && !is_white(t[i - 1]) by {
            if i < a.len() {
                assert(t[i] == a[i]);
                assert(t[i - 1] == a[i - 1]);
            } else if i > a.len() {
                assert(t[i] == last[i - a.len() - 1]);
            } else {
                assert(t[i - 1] == a.last());
            }
        }
        assert(t.last() == last.last());
    }
}

/// A single-spaced text is its words with single spaces between them.
proof fn lemma_single_spaced(t: Seq<char>)
    requires
        single_spaced(t),
    ensures
        single_line(t) == t,
    decreases t.len(),
{
    if t.len() == 0 {
        assert(trim_start(t).len() == 0);
        assert(single_line(t) == t);
    } else {
        assert(!is_white(t[0]));
        lemma_run_len_is(t, true, 0);
        assert(trim_start(t) == t);
        lemma_run_len(t, false);
        let n = run_len(t, false) as int;
        let w = t.take(n);
        assert(is_word(w)) by {
            assert forall|i: int| 0 <= i < w.len() implies !is_white(#[trigger] w[i]) by {
                assert(w[i] == t[i]);
            }
        }
        lemma_word_alone(w);
        if n == t.len() {
            assert(w == t);
        } else {
            let rest = t.skip(n + 1);
            assert(t[n] == ' ');
            assert(single_spaced(rest)) by {
                assert forall|i: int|
                    0 <= i < rest.len() && is_white(#[trigger] rest[i]) implies rest[i] == ' ' && 0
                    < i < rest.len() - 1 && !is_white(rest[i - 1]) by {
                    assert(rest[i] == t[i + n + 1]);
                    assert(t[i + n] == t[i + n + 1 - 1]);
                    if i > 0 {
                        assert(rest[i - 1] == t[i + n]);
                    }
                }
            }
            lemma_single_spaced(rest);
            assert(t == w.push(' ') + rest);
            lemma_words_part(w, ' ', rest);
            assert(words(rest).len() > 0) by {
                if words(rest).len() == 0 {
                    assert(single_line(rest).len() == 0);
                }
            }
            lemma_joined_front(w, words(rest), ' ');
        }
    }
}

/// A text keeps its words when they are put on a single line.
pub proof fn lemma_single_line_keeps_words(text: Seq<char>)
    ensures
        words(single_line(text)) == words(text),
{
    lemma_words_are_words(text);
    lemma_words_of_joined(words(text), ' ');
}

/// The index holds white space only as single spaces, and none at the front; at the end at most
/// one, where the text was cut.
pub proof fn lemma_normalized_spacing(text: Seq<char>)
    ensures
        normalized(text).len() <= INDEX_CHARS,
        forall|i: int|
            0 <= i < normalized(text).len() && is_white(#[trigger] normalized(text)[i])
                ==> normalized(text)[i] == ' ' && 0 < i && !is_white(normalized(text)[i - 1]),
        normalized(text).len() > 0 && is_white(normalized(text).last()) ==> normalized(text).len()
            == INDEX_CHARS,
{
    lemma_words_are_words(text);
    lemma_joined_spacing(words(text));
    let line = single_line(text);
    let t = normalized(text);
    assert forall|i: int| 0 <= i < t.len() && is_white(#[trigger] t[i]) implies t[i] == ' ' && 0 < i
        && !is_white(t[i - 1]) by {
        assert(t[i] == line[i]);
        assert(t[i - 1] == line[i - 1]);
    }
    if t.len() > 0 && t.len() < INDEX_CHARS {
        assert(t == line);
    }
}

/// Normalizing what the index holds changes nothing but the space that a cut may have left at its
/// end.
pub proof fn lemma_normalized_again(text: Seq<char>)
    ensures
        normalized(normalized(text)) == trim_end(normalized(text)),
{
    lemma_words_are_words(text);
    lemma_joined_spacing(words(text));
    let line = single_line(text);
    let t = normalized(text);
    let u = trim_end(t);
    lemma_trim_end(t);
    lemma_words_of_trimmed_end(t);
    assert(single_spaced(u)) by {
        assert forall|i: int| 0 <= i < u.len() && is_white(#[trigger] u[i]) implies u[i] == ' ' && 0
            < i < u.len() - 1 && !is_white(u[i - 1]) by {
            assert(u[i] == line[i]);
            assert(u[i - 1] == line[i - 1]);
        }
    }
    lemma_single_spaced(u);
}

/// The index holds the same for two texts with the same words.
pub proof fn lemma_same_words_same_index(a: Seq<char>, b: Seq<char>)
    requires
        words(a) == words(b),
    ensures
        normalized(a) == normalized(b),
{
}

/// White space at the ends of a text makes no difference to the index.
pub proof fn lemma_index_ignores_ends(text: Seq<char>)
    ensures
        normalized(trimmed(text)) == normalized(text),
{
    lemma_words_of_trimmed(text);
}

// What is looked up

/// What is looked up for a query: the query without the white space at its ends, cut to its first
/// characters; nothing where there is only white space.
pub open spec fn cleaned(query: Seq<char>) -> Option<Seq<char>> {
    if trimmed(query).len() == 0 {
        None
    } else {
        Some(at_most(trimmed(query), QUERY_CHARS as nat))
    }
}

/// What is looked up for a query.
pub fn clean_search_query(input: String) -> (res: Option<String>)
    ensures
        opt_text(res) == cleaned(input@),
{
    let v = chars_of(&input);
    let q = trim_chars(v.as_slice());
    if q.len() == 0 {
        None
    } else {
        Some(string_of(take_chars(q, QUERY_CHARS)))
    }
}

/// What is looked up has 1 to 200 characters and does not begin with white space.
pub proof fn lemma_cleaned_query(query: Seq<char>)
    ensures
        cleaned(query) matches Some(q) ==> 0 < q.len() <= QUERY_CHARS && !is_white(q[0])
            && q.is_prefix_of(trimmed(query)),
{
    lemma_trimmed_ends(query);
}

/// How many documents are listed: as many as were asked for, 25 where nothing was said, at least
/// one and at most a hundred.
pub open spec fn list_limit(asked: Option<i64>) -> i64 {
    let n = match asked {
        Some(n) => n,
        None => 25,
    };
    if n < 1 {
        1
    } else if n > 100 {
        100
    } else {
        n
    }
}

/// What a search looks up, and how many documents it lists.
pub struct SearchPlan {
    /// What is looked up; without it the newest documents are listed.
    pub query: Option<String>,
    /// How many documents are listed at most.
    pub limit: i64,
}

/// What a search looks up, and how many documents it lists.
pub fn search_documents(q: Option<String>, limit: Option<i64>) -> (plan: SearchPlan)
    ensures
        plan.limit == list_limit(limit),
        opt_text(plan.query) == match q {
            Some(query) => cleaned(query@),
            None => None,
        },
{
    let n: i64 = match limit {
        Some(n) => n,
        None => 25,
    };
    let limit: i64 = if n < 1 {
        1
    } else if n > 100 {
        100
    } else {
        n
    };
    let query = match q {
        Some(query) => clean_search_query(query),
        None => None,
    };
    SearchPlan { query, limit }
}

/// A search lists between one and a hundred documents, and as many as were asked for where that is
/// within these bounds.
pub proof fn lemma_list_limit(asked: Option<i64>)
    ensures
        1 <= list_limit(asked) <= 100,
        asked matches Some(n) ==> (1 <= n <= 100 ==> list_limit(asked) == n),
        asked is None ==> list_limit(asked) == 25,
{
}

// What holds of all of this

/// The index holds 400 000 characters of a text, and 200 characters of a query are looked up.
pub proof fn lemma_index_limits()
    ensures
        INDEX_CHARS == 400_000,
        QUERY_CHARS == 200,
{
}

/// A query is looked up whole, without the white space around it; of more than 200 characters the
/// first 200 are looked up.
pub proof fn lemma_query_is_looked_up(before: Seq<char>, query: Seq<char>, after: Seq<char>)
    requires
        forall|i: int| 0 <= i < before.len() ==> is_white(#[trigger] before[i]),
        forall|i: int| 0 <= i < after.len() ==> is_white(#[trigger] after[i]),
        query.len() > 0,
        !is_white(query[0]),
        !is_white(query.last()),
    ensures
        query.len() <= 200 ==> cleaned(before + query + after) == Some(query),
        query.len() > 200 ==> cleaned(before + query + after) == Some(query.take(200)),
{
    lemma_trimmed(before, query, after);
}

/// What is looked up for a query is as long as the query without the white space around it, up to
/// 200 characters, and is what that begins with.
pub proof fn lemma_looked_up_length(query: Seq<char>)
    ensures
        match cleaned(query) {
            Some(q) => {
                let t = trimmed(query);
                &&& t.len() > 0
                &&& q.len() == if t.len() < 200 { t.len() } else { 200 }
                &&& forall|i: int| 0 <= i < q.len() ==> #[trigger] q[i] == t[i]
            },
            None => trimmed(query).len() == 0,
        },
{
}

/// Nothing is looked up for a query of nothing but white space.
pub proof fn lemma_blank_query(query: Seq<char>)
    requires
        forall|i: int| 0 <= i < query.len() ==> is_white(#[trigger] query[i]),
    ensures
        cleaned(query) is None,
{
    lemma_trimmed(query, Seq::empty(), Seq::empty());
    assert(query + Seq::<char>::empty() + Seq::<char>::empty() == query);
}

/// The index holds the words of a text with a space between every two of them: all of that up to
/// 400 000 characters, and else the first 400 000.
pub proof fn lemma_indexed_whole(text: Seq<char>)
    ensures
        normalized(text).len() == if joined(words(text), ' ').len() < 400_000 {
            joined(words(text), ' ').len()
        } else {
            400_000
        },
        forall|i: int|
            0 <= i < normalized(text).len() ==> #[trigger] normalized(text)[i] == joined(
                words(text),
                ' ',
            )[i],
        single_line(text) == joined(words(text), ' '),
{
}

/// White space between two texts becomes a single space in the index, as far as both fit.
pub proof fn lemma_indexed_apart(a: Seq<char>, white: char, b: Seq<char>)
    requires
        is_white(white),
        words(a).len() > 0,
        words(b).len() > 0,
        normalized(a).len() + 1 + normalized(b).len() < 400_000,
    ensures
        normalized(a + seq![white] + b) == normalized(a) + seq![' '] + normalized(b),
{
    lemma_words_part(a, white, b);
    assert(a + seq![white] + b == a.push(white) + b);
    lemma_joined(words(a), words(b), ' ');
}

/// A word alone is held as it is, as far as it fits.
pub proof fn lemma_indexed_word(word: Seq<char>)
    requires
        0 < word.len() <= 400_000,
        forall|i: int| 0 <= i < word.len() ==> !is_white(#[trigger] word[i]),
    ensures
        normalized(word) == word,
{
    assert(is_word(word));
    lemma_word_alone(word);
}

/// A search lists 25 documents where nothing was said, one where less was asked for, a hundred
/// where more was, and else as many as were asked for.
pub proof fn lemma_listed(asked: i64)
    ensures
        list_limit(None) == 25,
        asked < 1 ==> list_limit(Some(asked)) == 1,
        1 <= asked <= 100 ==> list_limit(Some(asked)) == asked,
        asked > 100 ==> list_limit(Some(asked)) == 100,
{
}

} // verus!
