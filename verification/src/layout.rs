//! Plain text on pages: lines of bounded width, and pages of a bounded number of lines.

use vstd::prelude::*;
use crate::text::{append_chars, chars_of, is_white, joined, lemma_joined, split_words, string_of,
    strings, texts, trim_start, words};
use crate::words::{all_words, is_word, lemma_word_alone, lemma_words_are_words, lemma_words_part};

verus! {

/// How many characters a printed line takes.
pub const LINE_CHARS: usize = 100;

// Lines of bounded width

/// The lines that come of a line begun with `line` and the words that follow: each word goes on
/// the line as long as the line stays within `max` characters, else on the next.
pub open spec fn filled_lines(line: Seq<char>, rest: Seq<Seq<char>>, max: nat) -> Seq<Seq<char>>
    decreases rest.len(),
{
    if rest.len() == 0 {
        seq![line]
    } else if line.len() + 1 + rest[0].len() > max {
        seq![line] + filled_lines(rest[0], rest.drop_first(), max)
    } else {
        filled_lines(line.push(' ') + rest[0], rest.drop_first(), max)
    }
}

/// The lines of at most `max` characters into which a text is broken between its words.
pub open spec fn wrapped(text: Seq<char>, max: nat) -> Seq<Seq<char>> {
    let w = words(text);
    if w.len() == 0 {
        Seq::empty()
    } else {
        filled_lines(w[0], w.drop_first(), max)
    }
}

/// Breaks a text between its words into lines of at most `max_chars` characters. A longer word
/// gets a line of its own.
pub fn wrap_line(input: &str, max_chars: usize) -> (lines: Vec<String>)
    ensures
        strings(lines@) == wrapped(input@, max_chars as nat),
{
    let v = chars_of(input);
    let parts = split_words(v.as_slice());
    let ghost w = texts(parts@);
    let mut lines: Vec<String> = Vec::new();
    assert(strings(lines@) == Seq::<Seq<char>>::empty());
    if parts.len() == 0 {
        return lines;
    }
    let mut line: Vec<char> = Vec::new();
    append_chars(&mut line, parts[0].as_slice());
    let mut i: usize = 1;
    proof {
        assert(line@ == w[0]);
        assert(w.skip(1) == w.drop_first());
        assert(strings(lines@) + filled_lines(line@, w.skip(1), max_chars as nat)
            == wrapped(input@, max_chars as nat));
    }
    while i < parts.len()
        invariant
            1 <= i <= parts@.len(),
            w == texts(parts@),
            strings(lines@) + filled_lines(line@, w.skip(i as int), max_chars as nat) == wrapped(
                input@,
                max_chars as nat,
            ),
        decreases parts@.len() - i,
    {
        let ghost before = line@;
        let ghost done = strings(lines@);
        let word = &parts[i];
        proof {
            assert(w.skip(i as int)[0] == word@);
            assert(w.skip(i as int).drop_first() == w.skip(i + 1));
        }
        if line.len() >= max_chars || max_chars - line.len() - 1 < word.len() {
            let full = string_of(line.as_slice());
            proof {
                assert(strings(lines@.push(full)) == done.push(before));
                assert(done + (seq![before] + filled_lines(word@, w.skip(i + 1), max_chars as nat))
                    == done.push(before) + filled_lines(word@, w.skip(i + 1), max_chars as nat));
            }
            lines.push(full);
            line = Vec::new();
        } else {
            line.push(' ');
        }
        append_chars(&mut line, word.as_slice());
        assert(line@ == word@ || line@ == before.push(' ') + word@);
        i = i + 1;
    }
    let full = string_of(line.as_slice());
    proof {
        assert(w.skip(i as int).len() == 0);
        assert(strings(lines@.push(full)) == strings(lines@).push(line@));
        assert(strings(lines@) + seq![line@] == strings(lines@).push(line@));
    }
    lines.push(full);
    lines
}

/// The words on the lines, one line after the other.
pub open spec fn words_on(lines: Seq<Seq<char>>) -> Seq<Seq<char>>
    decreases lines.len(),
{
    if lines.len() == 0 {
        Seq::empty()
    } else {
        words(lines[0]) + words_on(lines.drop_first())
    }
}

/// Whether a line is within the width, or holds a single word.
pub open spec fn fits(line: Seq<char>, max: nat) -> bool {
    line.len() <= max || is_word(line)
}

/// Whether the second line begins with a word that had no room on the first.
pub open spec fn had_no_room(line: Seq<char>, next: Seq<char>, max: nat) -> bool {
    words(next).len() > 0 && line.len() + 1 + words(next)[0].len() > max
}

proof fn lemma_filled_lines(line: Seq<char>, rest: Seq<Seq<char>>, max: nat)
    requires
        words(line).len() > 0,
        fits(line, max),
        all_words(rest),
    ensures
        words_on(filled_lines(line, rest, max)) == words(line) + rest,
        filled_lines(line, rest, max).len() > 0,
        words(filled_lines(line, rest, max)[0]).len() > 0,
        words(filled_lines(line, rest, max)[0])[0] == words(line)[0],
        forall|i: int|
            0 <= i < filled_lines(line, rest, max).len() ==> fits(
                #[trigger] filled_lines(line, rest, max)[i],
                max,
            ) && words(filled_lines(line, rest, max)[i]).len() > 0,
        forall|i: int|
            0 <= i < filled_lines(line, rest, max).len() - 1 ==> had_no_room(
                #[trigger] filled_lines(line, rest, max)[i],
                filled_lines(line, rest, max)[i + 1],
                max,
            ),
    decreases rest.len(),
{
    let lines = filled_lines(line, rest, max);
    if rest.len() == 0 {
        assert(lines.drop_first() == Seq::<Seq<char>>::empty());
        assert(words_on(lines.drop_first()) == Seq::<Seq<char>>::empty());
        assert(words_on(lines) == words(line) + rest);
    } else {
        let w = rest[0];
        let more = rest.drop_first();
        assert(is_word(w));
        assert(all_words(more)) by {
            assert forall|i: int| 0 <= i < more.len() implies is_word(#[trigger] more[i]) by {
                assert(more[i] == rest[i + 1]);
            }
        }
        lemma_word_alone(w);
        assert(rest == seq![w] + more);
        if line.len() + 1 + w.len() > max {
            lemma_filled_lines(w, more, max);
            let tail = filled_lines(w, more, max);
            assert(lines.drop_first() == tail);
            assert(lines[0] == line);
            assert forall|i: int| 0 <= i < lines.len() implies fits(#[trigger] lines[i], max)
                && words(lines[i]).len() > 0 by {
                if i > 0 {
                    assert(lines[i] == tail[i - 1]);
                }
            }
            assert forall|i: int| 0 <= i < lines.len() - 1 implies had_no_room(
                #[trigger] lines[i],
                lines[i + 1],
                max,
            ) by {
                assert(lines[i + 1] == tail[i]);
                if i > 0 {
                    assert(lines[i] == tail[i - 1]);
                }
            }
        } else {
            let longer = line.push(' ') + w;
            lemma_words_part(line, ' ', w);
            assert(words(longer) == words(line) + seq![w]);
            lemma_filled_lines(longer, more, max);
            assert((words(line) + seq![w]) + more == words(line) + rest);
        }
    }
}

/// Breaking a text into lines keeps its words and their order.
pub proof fn lemma_wrapped_keeps_words(text: Seq<char>, max: nat)
    ensures
        words_on(wrapped(text, max)) == words(text),
{
    lemma_wrapped(text, max);
}

/// Every line is within the width or holds a single word, and none is blank.
pub proof fn lemma_wrapped_width(text: Seq<char>, max: nat)
    ensures
        forall|i: int|
            0 <= i < wrapped(text, max).len() ==> fits(#[trigger] wrapped(text, max)[i], max)
                && words(wrapped(text, max)[i]).len() > 0 && wrapped(text, max)[i].len() > 0,
{
    lemma_wrapped(text, max);
    assert forall|i: int| 0 <= i < wrapped(text, max).len() implies #[trigger] wrapped(
        text,
        max,
    )[i].len() > 0 by {
        let line = wrapped(text, max)[i];
        assert(words(line).len() > 0);
        if line.len() == 0 {
            assert(trim_start(line).len() == 0);
        }
    }
}

/// A line is broken only where the next word had no room on it.
pub proof fn lemma_wrapped_greedily(text: Seq<char>, max: nat)
    ensures
        forall|i: int|
            0 <= i < wrapped(text, max).len() - 1 ==> had_no_room(
                #[trigger] wrapped(text, max)[i],
                wrapped(text, max)[i + 1],
                max,
            ),
{
    lemma_wrapped(text, max);
}

proof fn lemma_wrapped(text: Seq<char>, max: nat)
    ensures
        words_on(wrapped(text, max)) == words(text),
        forall|i: int|
            0 <= i < wrapped(text, max).len() ==> fits(#[trigger] wrapped(text, max)[i], max)
                && words(wrapped(text, max)[i]).len() > 0,
        forall|i: int|
            0 <= i < wrapped(text, max).len() - 1 ==> had_no_room(
                #[trigger] wrapped(text, max)[i],
                wrapped(text, max)[i + 1],
                max,
            ),
{
    let w = words(text);
    lemma_words_are_words(text);
    if w.len() == 0 {
        assert(words_on(wrapped(text, max)) == w);
    } else {
        let more = w.drop_first();
        assert(is_word(w[0]));
        lemma_word_alone(w[0]);
        assert(all_words(more)) by {
            assert forall|i: int| 0 <= i < more.len() implies is_word(#[trigger] more[i]) by {
                assert(more[i] == w[i + 1]);
            }
        }
        lemma_filled_lines(w[0], more, max);
        assert(seq![w[0]] + more == w);
    }
}

/// Breaking the lines again, one after the other with a line break between every two, gives the same
/// lines.
pub proof fn lemma_wrapped_again(text: Seq<char>, max: nat)
    ensures
        wrapped(joined(wrapped(text, max), '\n'), max) == wrapped(text, max),
{
    lemma_wrapped(text, max);
    lemma_words_joined(wrapped(text, max), '\n');
}

/// A narrower width never gives fewer lines.
pub proof fn lemma_wrapped_narrower(text: Seq<char>, narrow: nat, wide: nat)
    requires
        narrow <= wide,
    ensures
        wrapped(text, narrow).len() >= wrapped(text, wide).len(),
{
    let w = words(text);
    if w.len() > 0 {
        lemma_filled_narrower(w[0], w[0], w.drop_first(), narrow, wide);
    }
}

/// The wider lines are not more if they begin no longer, and never more by two.
proof fn lemma_filled_narrower(
    a: Seq<char>,
    b: Seq<char>,
    rest: Seq<Seq<char>>,
    narrow: nat,
    wide: nat,
)
    requires
        narrow <= wide,
    ensures
        a.len() <= b.len() ==> filled_lines(a, rest, wide).len() <= filled_lines(
            b,
            rest,
            narrow,
        ).len(),
        filled_lines(a, rest, wide).len() <= filled_lines(b, rest, narrow).len() + 1,
    decreases rest.len(),
{
    if rest.len() > 0 {
        let w = rest[0];
        let more = rest.drop_first();
        let a1 = if a.len() + 1 + w.len() > wide {
            w
        } else {
            a.push(' ') + w
        };
        let b1 = if b.len() + 1 + w.len() > narrow {
            w
        } else {
            b.push(' ') + w
        };
        lemma_filled_narrower(a1, b1, more, narrow, wide);
    }
}

/// The words of texts that a white character parts are the words of one after the other.
proof fn lemma_words_joined(lines: Seq<Seq<char>>, sep: char)
    requires
        is_white(sep),
    ensures
        words(joined(lines, sep)) == words_on(lines),
    decreases lines.len(),
{
    if lines.len() == 0 {
        lemma_words_of_nothing();
    } else {
        let front = lines.drop_last();
        let last = seq![lines.last()];
        assert(last.drop_first() == Seq::<Seq<char>>::empty());
        assert(words_on(last.drop_first()) == Seq::<Seq<char>>::empty());
        assert(words_on(last) == words(lines.last()));
        if lines.len() == 1 {
            assert(lines == last);
        } else {
            lemma_words_joined(front, sep);
            lemma_words_part(joined(front, sep), sep, lines.last());
            lemma_words_on_both(front, last);
            assert(front + last == lines);
        }
    }
}

// Paragraphs

/// How many characters stand before the first line break.
pub open spec fn break_at(s: Seq<char>) -> nat
    decreases s.len(),
{
    if s.len() == 0 || s[0] == '\n' {
        0
    } else {
        1 + break_at(s.drop_first())
    }
}

/// A line without the carriage return that belongs to its break.
pub open spec fn without_return(line: Seq<char>) -> Seq<char> {
    if line.len() > 0 && line.last() == '\r' {
        line.drop_last()
    } else {
        line
    }
}

/// The paragraphs of a text: what stands between its line breaks. A break at the very end begins no
/// paragraph.
pub open spec fn paragraphs(s: Seq<char>) -> Seq<Seq<char>>
    decreases s.len(),
{
    let n = break_at(s);
    if s.len() == 0 {
        Seq::empty()
    } else if n >= s.len() {
        seq![s]
    } else {
        seq![without_return(s.take(n as int))] + paragraphs(s.skip(n as int + 1))
    }
}

proof fn lemma_break_at(s: Seq<char>, n: nat)
    requires
        n <= s.len(),
        forall|i: int| 0 <= i < n ==> s[i] != '\n',
        n < s.len() ==> s[n as int] == '\n',
    ensures
        break_at(s) == n,
    decreases s.len(),
{
    if n > 0 {
        let t = s.drop_first();
        assert forall|i: int| 0 <= i < n - 1 implies t[i] != '\n' by {
            assert(t[i] == s[i + 1]);
        }
        lemma_break_at(t, (n - 1) as nat);
    }
}

/// The paragraphs of a text.
pub fn split_paragraphs(text: &str) -> (out: Vec<String>)
    ensures
        strings(out@) == paragraphs(text@),
{
    let v = chars_of(text);
    let mut out: Vec<String> = Vec::new();
    let mut start: usize = 0;
    proof {
        assert(v@.skip(0) == v@);
        assert(strings(out@) == Seq::<Seq<char>>::empty());
        assert(strings(out@) + paragraphs(v@) == paragraphs(v@));
    }
    while start < v.len()
        invariant
            start <= v@.len(),
            v@ == text@,
            strings(out@) + paragraphs(v@.skip(start as int)) == paragraphs(text@),
        decreases v@.len() - start,
    {
        let ghost rest = v@.skip(start as int);
        let mut end: usize = start;
        while end < v.len() && v[end] != '\n'
            invariant
                start <= end <= v@.len(),
                rest == v@.skip(start as int),
                forall|i: int| 0 <= i < end - start ==> rest[i] != '\n',
            decreases v@.len() - end,
        {
            assert(rest[end - start] == v@[end as int]);
            end = end + 1;
        }
        proof {
            if end < v@.len() {
                assert(rest[end - start] == v@[end as int]);
            }
            lemma_break_at(rest, (end - start) as nat);
        }
        let line = if end < v.len() && end > start && v[end - 1] == '\r' {
            vstd::slice::slice_subrange(v.as_slice(), start, end - 1)
        } else {
            vstd::slice::slice_subrange(v.as_slice(), start, end)
        };
        let paragraph = string_of(line);
        proof {
            let whole = rest.take(end - start);
            assert(whole == v@.subrange(start as int, end as int));
            if end < v@.len() {
                if end > start {
                    assert(whole.last() == v@[end - 1]);
                    assert(whole.drop_last() == v@.subrange(start as int, end - 1));
                }
                assert(paragraph@ == without_return(whole));
                assert(rest.skip(end - start + 1) == v@.skip(end + 1));
            } else {
                assert(paragraph@ == rest);
                assert(paragraphs(rest) == seq![rest] + paragraphs(v@.skip(end as int)));
            }
            assert(strings(out@.push(paragraph)) == strings(out@).push(paragraph@));
            let after = if end < v@.len() {
                v@.skip(end + 1)
            } else {
                v@.skip(end as int)
            };
            assert(strings(out@) + (seq![paragraph@] + paragraphs(after)) == strings(out@).push(
                paragraph@,
            ) + paragraphs(after));
        }
        out.push(paragraph);
        start = if end < v.len() {
            end + 1
        } else {
            end
        };
    }
    assert(paragraphs(v@.skip(start as int)) == Seq::<Seq<char>>::empty());
    out
}

/// The printed lines of a paragraph; a blank line where it holds no word.
pub open spec fn paragraph_lines(paragraph: Seq<char>) -> Seq<Seq<char>> {
    let lines = wrapped(paragraph, LINE_CHARS as nat);
    if lines.len() == 0 {
        seq![Seq::empty()]
    } else {
        lines
    }
}

/// The printed lines of the paragraphs, one paragraph after the other.
pub open spec fn lines_of(paragraphs: Seq<Seq<char>>) -> Seq<Seq<char>>
    decreases paragraphs.len(),
{
    if paragraphs.len() == 0 {
        Seq::empty()
    } else {
        lines_of(paragraphs.drop_last()) + paragraph_lines(paragraphs.last())
    }
}

/// The printed lines of a text.
pub open spec fn printed_lines(text: Seq<char>) -> Seq<Seq<char>> {
    lines_of(paragraphs(text))
}

// Pages

/// The pages of at most `n` lines each; one page at least.
pub open spec fn paged(lines: Seq<Seq<char>>, n: nat) -> Seq<Seq<Seq<char>>>
    decreases lines.len(),
{
    if n == 0 || lines.len() <= n {
        seq![lines]
    } else {
        seq![lines.take(n as int)] + paged(lines.skip(n as int), n)
    }
}

/// The lines on the pages.
pub open spec fn page_texts(pages: Seq<Vec<String>>) -> Seq<Seq<Seq<char>>> {
    pages.map_values(|page: Vec<String>| strings(page@))
}

/// One more line goes on the last page, or on a new one where that is full.
proof fn lemma_paged_push(lines: Seq<Seq<char>>, line: Seq<char>, n: nat)
    requires
        n > 0,
    ensures
        paged(lines, n).len() > 0,
        paged(lines, n).last().len() <= n,
        paged(lines.push(line), n) == if paged(lines, n).last().len() == n {
            paged(lines, n).push(seq![line])
        } else {
            paged(lines, n).drop_last().push(paged(lines, n).last().push(line))
        },
    decreases lines.len(),
{
    let more = lines.push(line);
    if lines.len() < n {
        assert(paged(lines, n).drop_last() == Seq::<Seq<Seq<char>>>::empty());
        assert(paged(more, n) == paged(lines, n).drop_last().push(lines.push(line)));
    } else if lines.len() == n {
        assert(more.take(n as int) == lines);
        assert(more.skip(n as int) == seq![line]);
        assert(paged(more.skip(n as int), n) == seq![seq![line]]);
        assert(paged(more, n) == paged(lines, n).push(seq![line]));
    } else {
        let first = lines.take(n as int);
        let rest = lines.skip(n as int);
        lemma_paged_push(rest, line, n);
        assert(more.take(n as int) == first);
        assert(more.skip(n as int) == rest.push(line));
        assert(paged(lines, n).last() == paged(rest, n).last());
        if paged(rest, n).last().len() == n {
            assert(paged(more, n) == paged(lines, n).push(seq![line]));
        } else {
            assert(paged(lines, n).drop_last() == seq![first] + paged(rest, n).drop_last());
            assert(paged(more, n) == paged(lines, n).drop_last().push(
                paged(lines, n).last().push(line),
            ));
        }
    }
}

/// Puts the lines on pages of at most `size` lines each; one page at least.
pub fn paginate(lines: &Vec<String>, size: usize) -> (pages: Vec<Vec<String>>)
    requires
        size > 0,
    ensures
        page_texts(pages@) == paged(strings(lines@), size as nat),
{
    let mut pages: Vec<Vec<String>> = Vec::new();
    let mut page: Vec<String> = Vec::new();
    let ghost all = strings(lines@);
    let mut i: usize = 0;
    proof {
        assert(strings(page@) == Seq::<Seq<char>>::empty());
        assert(all.take(0) == Seq::<Seq<char>>::empty());
        assert(page_texts(pages@).push(strings(page@)) == paged(all.take(0), size as nat));
    }
    while i < lines.len()
        invariant
            i <= lines@.len(),
            size > 0,
            all == strings(lines@),
            page_texts(pages@).push(strings(page@)) == paged(all.take(i as int), size as nat),
        decreases lines@.len() - i,
    {
        let ghost done = page_texts(pages@);
        let ghost current = strings(page@);
        let line = lines[i].clone();
        proof {
            lemma_paged_push(all.take(i as int), line@, size as nat);
            assert(all.take(i as int).push(line@) == all.take(i + 1));
            assert(paged(all.take(i as int), size as nat).last() == current);
            assert(paged(all.take(i as int), size as nat).drop_last() == done);
        }
        if page.len() == size {
            proof {
                assert(page_texts(pages@.push(page)) == done.push(current));
            }
            pages.push(page);
            page = Vec::new();
            assert(strings(page@) == Seq::<Seq<char>>::empty());
        }
        assert(strings(page@.push(line)) == strings(page@).push(line@));
        assert(Seq::<Seq<char>>::empty().push(line@) == seq![line@]);
        page.push(line);
        i = i + 1;
    }
    proof {
        assert(all.take(i as int) == all);
        assert(page_texts(pages@.push(page)) == page_texts(pages@).push(strings(page@)));
    }
    pages.push(page);
    pages
}

/// The lines on the pages, one page after the other.
pub open spec fn lines_on(pages: Seq<Seq<Seq<char>>>) -> Seq<Seq<char>>
    decreases pages.len(),
{
    if pages.len() == 0 {
        Seq::empty()
    } else {
        pages[0] + lines_on(pages.drop_first())
    }
}

/// The pages hold the lines in their order, every page but the last is full, and none holds more
/// than it takes.
pub proof fn lemma_paged(lines: Seq<Seq<char>>, n: nat)
    requires
        n > 0,
    ensures
        lines_on(paged(lines, n)) == lines,
        paged(lines, n).len() > 0,
        forall|i: int| 0 <= i < paged(lines, n).len() ==> #[trigger] paged(lines, n)[i].len() <= n,
        forall|i: int|
            0 <= i < paged(lines, n).len() - 1 ==> #[trigger] paged(lines, n)[i].len() == n,
        lines.len() > 0 ==> paged(lines, n).last().len() > 0,
    decreases lines.len(),
{
    let pages = paged(lines, n);
    if lines.len() <= n {
        assert(pages.drop_first() == Seq::<Seq<Seq<char>>>::empty());
        assert(lines_on(pages.drop_first()) == Seq::<Seq<char>>::empty());
        assert(lines_on(pages) == lines);
    } else {
        let rest = paged(lines.skip(n as int), n);
        lemma_paged(lines.skip(n as int), n);
        assert(pages.drop_first() == rest);
        assert(lines_on(pages) == lines);
        assert forall|i: int| 0 <= i < pages.len() implies #[trigger] pages[i].len() <= n by {
            if i > 0 {
                assert(pages[i] == rest[i - 1]);
            }
        }
        assert forall|i: int| 0 <= i < pages.len() - 1 implies #[trigger] pages[i].len() == n by {
            if i > 0 {
                assert(pages[i] == rest[i - 1]);
            }
        }
        assert(pages.last() == rest.last());
    }
}

/// The pages on which a text is printed, with `size` lines on each.
pub fn plain_text_pages(text: &str, size: usize) -> (pages: Vec<Vec<String>>)
    requires
        size > 0,
    ensures
        page_texts(pages@) == paged(printed_lines(text@), size as nat),
{
    let blocks = split_paragraphs(text);
    let ghost all = strings(blocks@);
    let mut lines: Vec<String> = Vec::new();
    let mut i: usize = 0;
    proof {
        assert(strings(lines@) == Seq::<Seq<char>>::empty());
        assert(all.take(0) == Seq::<Seq<char>>::empty());
    }
    while i < blocks.len()
        invariant
            i <= blocks@.len(),
            all == strings(blocks@),
            strings(lines@) == lines_of(all.take(i as int)),
        decreases blocks@.len() - i,
    {
        let ghost before = lines@;
        let mut more = wrap_line(&blocks[i], LINE_CHARS);
        if more.len() == 0 {
            more.push(String::new());
            assert(strings(more@) == seq![Seq::<char>::empty()]);
        }
        proof {
            assert(all.take(i + 1).drop_last() == all.take(i as int));
            assert(all.take(i + 1).last() == blocks@[i as int]@);
            assert(strings(before + more@) == strings(before) + strings(more@));
        }
        lines.append(&mut more);
        i = i + 1;
    }
    assert(all.take(i as int) == all);
    paginate(&lines, size)
}

proof fn lemma_words_on_both(a: Seq<Seq<char>>, b: Seq<Seq<char>>)
    ensures
        words_on(a + b) == words_on(a) + words_on(b),
    decreases a.len(),
{
    if a.len() == 0 {
        assert(a + b == b);
        assert(words_on(a) + words_on(b) == words_on(b));
    } else {
        assert((a + b).drop_first() == a.drop_first() + b);
        lemma_words_on_both(a.drop_first(), b);
        assert(words(a[0]) + (words_on(a.drop_first()) + words_on(b)) == words_on(a) + words_on(b));
    }
}

proof fn lemma_words_of_nothing()
    ensures
        words(Seq::<char>::empty()) == Seq::<Seq<char>>::empty(),
{
    assert(trim_start(Seq::<char>::empty()).len() == 0);
}

proof fn lemma_paragraph_words(paragraph: Seq<char>)
    ensures
        words_on(paragraph_lines(paragraph)) == words(paragraph),
{
    lemma_wrapped_keeps_words(paragraph, LINE_CHARS as nat);
    if wrapped(paragraph, LINE_CHARS as nat).len() == 0 {
        lemma_words_of_nothing();
        let blank = seq![Seq::<char>::empty()];
        assert(blank.drop_first() == Seq::<Seq<char>>::empty());
        assert(words_on(blank.drop_first()) == Seq::<Seq<char>>::empty());
        assert(words_on(blank) == Seq::<Seq<char>>::empty());
        assert(words_on(Seq::<Seq<char>>::empty()) == Seq::<Seq<char>>::empty());
    }
}

proof fn lemma_lines_words(blocks: Seq<Seq<char>>)
    ensures
        words_on(lines_of(blocks)) == words_on(blocks),
    decreases blocks.len(),
{
    if blocks.len() > 0 {
        let front = blocks.drop_last();
        let last = blocks.last();
        lemma_lines_words(front);
        lemma_paragraph_words(last);
        lemma_words_on_both(lines_of(front), paragraph_lines(last));
        lemma_words_on_both(front, seq![last]);
        assert(front + seq![last] == blocks);
        assert(seq![last].drop_first() == Seq::<Seq<char>>::empty());
        assert(words_on(seq![last].drop_first()) == Seq::<Seq<char>>::empty());
        assert(words_on(seq![last]) == words(last));
    }
}

proof fn lemma_paragraphs_words(s: Seq<char>)
    ensures
        words_on(paragraphs(s)) == words(s),
    decreases s.len(),
{
    lemma_words_of_nothing();
    if s.len() == 0 {
        assert(s == Seq::<char>::empty());
    } else {
        lemma_break_found(s);
        let n = break_at(s) as int;
        if n >= s.len() {
            assert(seq![s].drop_first() == Seq::<Seq<char>>::empty());
            assert(words_on(seq![s].drop_first()) == Seq::<Seq<char>>::empty());
            assert(words_on(seq![s]) == words(s));
        } else {
            let line = s.take(n);
            let rest = s.skip(n + 1);
            assert(s == line.push('\n') + rest);
            lemma_words_part(line, '\n', rest);
            lemma_paragraphs_words(rest);
            if line.len() > 0 && line.last() == '\r' {
                let bare = line.drop_last();
                lemma_words_part(bare, '\r', Seq::empty());
                assert(bare.push('\r') + Seq::<char>::empty() == line);
                assert(words(bare) + Seq::<Seq<char>>::empty() == words(bare));
            }
            assert(paragraphs(s).drop_first() == paragraphs(rest));
        }
    }
}

proof fn lemma_break_found(s: Seq<char>)
    ensures
        break_at(s) <= s.len(),
        break_at(s) < s.len() ==> s[break_at(s) as int] == '\n',
    decreases s.len(),
{
    if s.len() > 0 && s[0] != '\n' {
        lemma_break_found(s.drop_first());
    }
}

/// What is printed holds the words of the text in their order, and no others.
pub proof fn lemma_print_keeps_words(text: Seq<char>)
    ensures
        words_on(printed_lines(text)) == words(text),
{
    lemma_paragraphs_words(text);
    lemma_lines_words(paragraphs(text));
}

/// The lines into which a text is broken are its words with a space between every two of them: put
/// together with spaces they give all the words in their order. A line is within the width or holds
/// a single word, and the first word of the next line had no room on it.
pub proof fn lemma_wrapped_lines(text: Seq<char>, max: nat)
    ensures
        joined(wrapped(text, max), ' ') == joined(words(text), ' '),
        forall|i: int|
            0 <= i < wrapped(text, max).len() ==> {
                let line = #[trigger] wrapped(text, max)[i];
                &&& words(line).len() > 0
                &&& line == joined(words(line), ' ')
                &&& line.len() <= max || words(line).len() == 1
            },
        forall|i: int, j: int|
            0 <= i && j == i + 1 && j < wrapped(text, max).len() ==> (#[trigger] wrapped(
                text,
                max,
            )[i]).len() + 1 + words(#[trigger] wrapped(text, max)[j])[0].len() > max,
{
    let w = words(text);
    lemma_words_are_words(text);
    lemma_wrapped(text, max);
    if w.len() > 0 {
        let more = w.drop_first();
        assert(is_word(w[0]));
        lemma_word_alone(w[0]);
        assert(joined(words(w[0]), ' ') == w[0]);
        assert(all_words(more)) by {
            assert forall|i: int| 0 <= i < more.len() implies is_word(#[trigger] more[i]) by {
                assert(more[i] == w[i + 1]);
            }
        }
        lemma_filled_joined(w[0], more, max);
        assert(seq![w[0]] + more == w);
        assert forall|i: int| 0 <= i < wrapped(text, max).len() implies {
            let line = #[trigger] wrapped(text, max)[i];
            &&& words(line).len() > 0
            &&& line == joined(words(line), ' ')
            &&& line.len() <= max || words(line).len() == 1
        } by {
            let line = wrapped(text, max)[i];
            assert(fits(line, max));
            if is_word(line) {
                lemma_word_alone(line);
            }
        }
        assert forall|i: int, j: int| 0 <= i && j == i + 1 && j < wrapped(text, max).len() implies (
        #[trigger] wrapped(text, max)[i]).len() + 1 + words(#[trigger] wrapped(text, max)[j])[0].len()
            > max by {
            assert(had_no_room(wrapped(text, max)[i], wrapped(text, max)[i + 1], max));
        }
    }
}

proof fn lemma_filled_joined(line: Seq<char>, rest: Seq<Seq<char>>, max: nat)
    requires
        words(line).len() > 0,
        line == joined(words(line), ' '),
        all_words(rest),
    ensures
        filled_lines(line, rest, max).len() > 0,
        joined(filled_lines(line, rest, max), ' ') == joined(words(line) + rest, ' '),
        forall|i: int|
            0 <= i < filled_lines(line, rest, max).len() ==> {
                let line = #[trigger] filled_lines(line, rest, max)[i];
                line == joined(words(line), ' ')
            },
    decreases rest.len(),
{
    let lines = filled_lines(line, rest, max);
    if rest.len() == 0 {
        assert(words(line) + rest == words(line));
    } else {
        let w = rest[0];
        let more = rest.drop_first();
        assert(is_word(w));
        assert(all_words(more)) by {
            assert forall|i: int| 0 <= i < more.len() implies is_word(#[trigger] more[i]) by {
                assert(more[i] == rest[i + 1]);
            }
        }
        lemma_word_alone(w);
        assert(joined(seq![w], ' ') == w);
        if line.len() + 1 + w.len() > max {
            lemma_filled_joined(w, more, max);
            let tail = filled_lines(w, more, max);
            assert(seq![w] + more == rest);
            lemma_joined(seq![line], tail, ' ');
            lemma_joined(words(line), rest, ' ');
            assert(lines == seq![line] + tail);
            assert forall|i: int| 0 <= i < lines.len() implies {
                let l = #[trigger] lines[i];
                l == joined(words(l), ' ')
            } by {
                if i > 0 {
                    assert(lines[i] == tail[i - 1]);
                }
            }
        } else {
            let longer = line.push(' ') + w;
            lemma_words_part(line, ' ', w);
            lemma_joined(words(line), seq![w], ' ');
            assert(line + seq![' '] + w == longer);
            lemma_filled_joined(longer, more, max);
            assert((words(line) + seq![w]) + more == words(line) + rest);
        }
    }
}

/// A line break parts the paragraphs in front of it from those behind it.
pub proof fn lemma_paragraphs_apart(a: Seq<char>, b: Seq<char>)
    ensures
        paragraphs(a + seq!['\n'] + b) == paragraphs(a + seq!['\n']) + paragraphs(b),
    decreases a.len(),
{
    let front = a + seq!['\n'];
    let s = front + b;
    lemma_break_in(front, b);
    lemma_break_found(front);
    let n = break_at(front) as int;
    assert(front[a.len() as int] == '\n');
    if n >= front.len() {
        lemma_no_break(front, a.len() as int);
    }
    assert(s.take(n) == front.take(n));
    if n == a.len() {
        assert(s.skip(n + 1) == b);
        assert(front.skip(n + 1) == Seq::<char>::empty());
        assert(paragraphs(front.skip(n + 1)) == Seq::<Seq<char>>::empty());
        assert(paragraphs(front) == seq![without_return(front.take(n))]);
    } else {
        let a1 = a.skip(n + 1);
        lemma_paragraphs_apart(a1, b);
        assert(s.skip(n + 1) == a1 + seq!['\n'] + b);
        assert(front.skip(n + 1) == a1 + seq!['\n']);
        let first = seq![without_return(s.take(n))];
        assert(first + (paragraphs(a1 + seq!['\n']) + paragraphs(b)) == (first + paragraphs(
            a1 + seq!['\n'],
        )) + paragraphs(b));
    }
}

/// The first line break stays where it is when something follows.
proof fn lemma_break_in(front: Seq<char>, b: Seq<char>)
    requires
        front.len() > 0,
        front.last() == '\n',
    ensures
        break_at(front + b) == break_at(front),
        break_at(front) < front.len(),
    decreases front.len(),
{
    if front[0] != '\n' {
        let t = front.drop_first();
        assert(t.last() == front.last());
        assert((front + b).drop_first() == t + b);
        lemma_break_in(t, b);
    }
}

proof fn lemma_no_break(s: Seq<char>, i: int)
    requires
        break_at(s) >= s.len(),
        0 <= i < s.len(),
    ensures
        s[i] != '\n',
    decreases s.len(),
{
    if i > 0 {
        lemma_no_break(s.drop_first(), i - 1);
    }
}

/// A text without a line break is a paragraph, unless it is empty; with a line break behind it, it
/// is one without the carriage return that belongs to the break.
pub proof fn lemma_paragraph_alone(a: Seq<char>)
    requires
        forall|i: int| 0 <= i < a.len() ==> #[trigger] a[i] != '\n',
    ensures
        a.len() == 0 ==> paragraphs(a) == Seq::<Seq<char>>::empty(),
        a.len() > 0 ==> paragraphs(a) == seq![a],
        paragraphs(a + seq!['\n']) == if a.len() > 0 && a.last() == '\r' {
            seq![a.drop_last()]
        } else {
            seq![a]
        },
{
    lemma_break_at(a, a.len());
    let s = a + seq!['\n'];
    assert forall|i: int| 0 <= i < a.len() implies s[i] != '\n' by {
        assert(s[i] == a[i]);
    }
    lemma_break_at(s, a.len());
    assert(s.take(a.len() as int) == a);
    assert(s.skip(a.len() as int + 1) == Seq::<char>::empty());
    assert(paragraphs(s.skip(a.len() as int + 1)) == Seq::<Seq<char>>::empty());
    assert(paragraphs(s) == seq![without_return(a)]);
}

proof fn lemma_lines_of_both(a: Seq<Seq<char>>, b: Seq<Seq<char>>)
    ensures
        lines_of(a + b) == lines_of(a) + lines_of(b),
    decreases b.len(),
{
    if b.len() == 0 {
        assert(a + b == a);
        assert(lines_of(a) + lines_of(b) == lines_of(a));
    } else {
        assert((a + b).drop_last() == a + b.drop_last());
        assert((a + b).last() == b.last());
        lemma_lines_of_both(a, b.drop_last());
        assert(lines_of(a + b) == lines_of(a) + lines_of(b));
    }
}

/// A line break always begins a new printed line: what stands in front of it is printed first, and
/// what stands behind it on lines of its own.
pub proof fn lemma_printed_apart(a: Seq<char>, b: Seq<char>)
    ensures
        printed_lines(a + seq!['\n'] + b) == printed_lines(a + seq!['\n']) + printed_lines(b),
{
    lemma_paragraphs_apart(a, b);
    lemma_lines_of_both(paragraphs(a + seq!['\n']), paragraphs(b));
}

/// A text without a line break is printed as the lines of at most 100 characters into which it is
/// broken, or as a blank line where it holds no word, whether a line break follows it or not; and
/// nothing is printed of an empty text.
pub proof fn lemma_printed_alone(a: Seq<char>)
    requires
        forall|i: int| 0 <= i < a.len() ==> #[trigger] a[i] != '\n',
    ensures
        printed_lines(a + seq!['\n']) == if words(a).len() == 0 {
            seq![Seq::<char>::empty()]
        } else {
            wrapped(a, 100)
        },
        printed_lines(a) == if a.len() == 0 {
            Seq::<Seq<char>>::empty()
        } else if words(a).len() == 0 {
            seq![Seq::<char>::empty()]
        } else {
            wrapped(a, 100)
        },
{
    lemma_paragraph_alone(a);
    lemma_one_paragraph(a);
    lemma_wrapped(a, 100);
    if a.len() > 0 && a.last() == '\r' {
        let bare = a.drop_last();
        lemma_one_paragraph(bare);
        lemma_words_part(bare, '\r', Seq::empty());
        assert(bare.push('\r') + Seq::<char>::empty() == a);
        lemma_words_of_nothing();
        assert(words(bare) + Seq::<Seq<char>>::empty() == words(bare));
    }
    if words(a).len() > 0 {
        lemma_words_are_words(a);
        let w = words(a);
        assert(is_word(w[0]));
        lemma_word_alone(w[0]);
        assert(all_words(w.drop_first())) by {
            assert forall|i: int| 0 <= i < w.drop_first().len() implies is_word(
                #[trigger] w.drop_first()[i],
            ) by {
                assert(w.drop_first()[i] == w[i + 1]);
            }
        }
        lemma_filled_lines(w[0], w.drop_first(), 100);
    }
}

proof fn lemma_one_paragraph(a: Seq<char>)
    ensures
        lines_of(seq![a]) == paragraph_lines(a),
        lines_of(Seq::<Seq<char>>::empty()) == Seq::<Seq<char>>::empty(),
{
    assert(seq![a].drop_last() == Seq::<Seq<char>>::empty());
    assert(lines_of(seq![a].drop_last()) == Seq::<Seq<char>>::empty());
    assert(Seq::<Seq<char>>::empty() + paragraph_lines(a) == paragraph_lines(a));
}

/// Lines that fit on a page stand on one page, and where more follow the first page is full and the
/// others hold the rest.
pub proof fn lemma_pages_apart(page: Seq<Seq<char>>, rest: Seq<Seq<char>>, n: nat)
    requires
        n > 0,
        page.len() <= n,
    ensures
        paged(page, n) == seq![page],
        page.len() == n && rest.len() > 0 ==> paged(page + rest, n) == seq![page] + paged(rest, n),
{
    assert((page + rest).take(page.len() as int) == page);
    assert((page + rest).skip(page.len() as int) == rest);
}

/// What is said of pages is said of the characters of their lines.
pub proof fn lemma_pages_are_lines(pages: Seq<Vec<String>>)
    ensures
        page_texts(pages).len() == pages.len(),
        forall|i: int| 0 <= i < pages.len() ==> #[trigger] page_texts(pages)[i].len() == pages[i]@.len(),
        forall|i: int, j: int|
            0 <= i < pages.len() && 0 <= j < pages[i]@.len() ==> #[trigger] page_texts(pages)[i][j]
                == pages[i]@[j]@,
{
}

} // verus!
