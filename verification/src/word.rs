//! The text in the markup of a word processor document.

use vstd::prelude::*;
use crate::search::{find_from, has_part, index_of, lemma_index_of, lemma_replaced_absent, occurs_at,
    replace, replaced};
use crate::text::{chars_of, is_white, join_chars, joined, string_of, texts, trim_chars, trimmed};
use crate::words::lemma_trimmed_ends;

verus! {

/// `s` with the five named entities of XML decoded, one after the other, `&amp;` first.
pub open spec fn decoded(s: Seq<char>) -> Seq<char> {
    let amp = replaced(s, "&amp;"@, "&"@);
    let lt = replaced(amp, "&lt;"@, "<"@);
    let gt = replaced(lt, "&gt;"@, ">"@);
    let quot = replaced(gt, "&quot;"@, "\""@);
    replaced(quot, "&apos;"@, "'"@)
}

/// Where the content of the first text element stands in `xml`: behind the `>` of the first
/// `<w:t`, up to the `</w:t>` that follows.
pub open spec fn next_run(xml: Seq<char>) -> Option<(int, int)> {
    match index_of(xml, "<w:t"@) {
        None => None,
        Some(open) => match index_of(xml.skip(open as int), seq!['>']) {
            None => None,
            Some(tag) => {
                let start = (open + tag + 1) as int;
                match index_of(xml.skip(start), "</w:t>"@) {
                    None => None,
                    Some(len) => Some((start, start + len)),
                }
            },
        },
    }
}

/// The texts of the text elements in `xml`, in order: decoded, without white space at the ends,
/// and only those of which something is left.
pub open spec fn node_texts(xml: Seq<char>) -> Seq<Seq<char>>
    decreases xml.len(),
{
    match next_run(xml) {
        None => Seq::empty(),
        Some((start, end)) => {
            let text = trimmed(decoded(xml.subrange(start, end)));
            proof {
                lemma_next_run(xml);
            }
            let rest = node_texts(xml.skip(end + 6));
            if text.len() > 0 {
                seq![text] + rest
            } else {
                rest
            }
        },
    }
}

pub proof fn lemma_next_run(xml: Seq<char>)
    ensures
        next_run(xml) matches Some((start, end)) ==> 0 < start <= end && end + 6 <= xml.len(),
{
    reveal_strlit("<w:t");
    reveal_strlit("</w:t>");
    lemma_index_of(xml, "<w:t"@);
    if let Some(open) = index_of(xml, "<w:t"@) {
        lemma_index_of(xml.skip(open as int), seq!['>']);
        if let Some(tag) = index_of(xml.skip(open as int), seq!['>']) {
            lemma_index_of(xml.skip((open + tag + 1) as int), "</w:t>"@);
        }
    }
}

/// Decodes the five named entities of XML, `&amp;` first: what that leaves behind is decoded too.
pub fn decode_xml_entities(input: &str) -> (out: String)
    ensures
        out@ == decoded(input@),
{
    let v = chars_of(input);
    let d = decode_chars(v.as_slice());
    string_of(d.as_slice())
}

fn decode_chars(input: &[char]) -> (out: Vec<char>)
    ensures
        out@ == decoded(input@),
{
    proof {
        reveal_strlit("&amp;");
        reveal_strlit("&lt;");
        reveal_strlit("&gt;");
        reveal_strlit("&quot;");
        reveal_strlit("&apos;");
    }
    let amp = replace(input, chars_of("&amp;").as_slice(), chars_of("&").as_slice());
    let lt = replace(amp.as_slice(), chars_of("&lt;").as_slice(), chars_of("<").as_slice());
    let gt = replace(lt.as_slice(), chars_of("&gt;").as_slice(), chars_of(">").as_slice());
    let quot = replace(gt.as_slice(), chars_of("&quot;").as_slice(), chars_of("\"").as_slice());
    replace(quot.as_slice(), chars_of("&apos;").as_slice(), chars_of("'").as_slice())
}

/// The texts of the text elements in the markup, with a space between every two of them.
pub fn extract_word_text_nodes(xml: &str) -> (out: String)
    ensures
        out@ == joined(node_texts(xml@), ' '),
{
    let v = chars_of(xml);
    let open_tag = chars_of("<w:t");
    let tag_end = chars_of(">");
    let close_tag = chars_of("</w:t>");
    proof {
        reveal_strlit("<w:t");
        reveal_strlit(">");
        reveal_strlit("</w:t>");
        assert(tag_end@ == seq!['>']);
    }
    let mut parts: Vec<Vec<char>> = Vec::new();
    let mut cursor: usize = 0;
    let mut more: bool = true;
    proof {
        assert(v@.skip(0) == v@);
        assert(texts(parts@) == Seq::<Seq<char>>::empty());
        assert(texts(parts@) + node_texts(v@) == node_texts(v@));
    }
    while more
        invariant
            cursor <= v@.len(),
            open_tag@ == "<w:t"@,
            tag_end@ == seq!['>'],
            close_tag@ == "</w:t>"@,
            close_tag@.len() == 6,
            more ==> node_texts(v@) == texts(parts@) + node_texts(v@.skip(cursor as int)),
            !more ==> node_texts(v@) == texts(parts@),
        decreases v@.len() - cursor, if more { 1int } else { 0int },
    {
        let ghost rest = v@.skip(cursor as int);
        let next = find_run(
            v.as_slice(),
            open_tag.as_slice(),
            tag_end.as_slice(),
            close_tag.as_slice(),
            cursor,
        );
        match next {
            None => {
                assert(texts(parts@) + Seq::<Seq<char>>::empty() == texts(parts@));
                more = false;
            },
            Some((start, end)) => {
                proof {
                    lemma_next_run(rest);
                    assert(rest.subrange(start - cursor, end - cursor) == v@.subrange(
                        start as int,
                        end as int,
                    ));
                    assert(rest.skip(end - cursor + 6) == v@.skip(end + 6));
                    assert(end + 6 <= v.len());
                }
                let d = decode_chars(vstd::slice::slice_subrange(v.as_slice(), start, end));
                let t = vstd::slice::slice_to_vec(trim_chars(d.as_slice()));
                cursor = end + close_tag.len();
                if t.len() > 0 {
                    proof {
                        let tail = node_texts(v@.skip(cursor as int));
                        assert(texts(parts@.push(t)) == texts(parts@).push(t@));
                        assert(texts(parts@) + (seq![t@] + tail) == texts(parts@).push(t@) + tail);
                    }
                    parts.push(t);
                }
            },
        }
    }
    let all = join_chars(&parts, ' ');
    string_of(all.as_slice())
}

/// Where the content of the first text element from `cursor` on stands.
fn find_run(
    v: &[char],
    open_tag: &[char],
    tag_end: &[char],
    close_tag: &[char],
    cursor: usize,
) -> (found: Option<(usize, usize)>)
    requires
        cursor <= v@.len(),
        open_tag@ == "<w:t"@,
        tag_end@ == seq!['>'],
        close_tag@ == "</w:t>"@,
    ensures
        match found {
            None => next_run(v@.skip(cursor as int)) is None,
            Some((start, end)) => cursor < start <= end && end + 6 <= v@.len() && next_run(
                v@.skip(cursor as int),
            ) == Some((start - cursor, end - cursor)),
        },
{
    let ghost rest = v@.skip(cursor as int);
    proof {
        lemma_next_run(rest);
    }
    let open: usize = match find_from(v, open_tag, cursor) {
        None => {
            return None;
        },
        Some(i) => i,
    };
    assert(rest.skip(open - cursor) == v@.skip(open as int));
    let tag: usize = match find_from(v, tag_end, open) {
        None => {
            return None;
        },
        Some(i) => i,
    };
    proof {
        lemma_index_of(v@.skip(open as int), seq!['>']);
        assert(rest.skip(tag + 1 - cursor) == v@.skip(tag + 1));
        assert(tag < v.len());
    }
    match find_from(v, close_tag, tag + 1) {
        None => None,
        Some(end) => Some((tag + 1, end)),
    }
}

/// What is read of a text element is not empty, and neither begins nor ends with white space.
pub proof fn lemma_node_texts_are_trimmed(xml: Seq<char>)
    ensures
        forall|i: int|
            0 <= i < node_texts(xml).len() ==> {
                let text = #[trigger] node_texts(xml)[i];
                text.len() > 0 && !is_white(text[0]) && !is_white(text.last())
            },
    decreases xml.len(),
{
    lemma_next_run(xml);
    if let Some((start, end)) = next_run(xml) {
        let text = trimmed(decoded(xml.subrange(start, end)));
        let rest = node_texts(xml.skip(end + 6));
        lemma_trimmed_ends(decoded(xml.subrange(start, end)));
        lemma_node_texts_are_trimmed(xml.skip(end + 6));
        assert forall|i: int| 0 <= i < node_texts(xml).len() implies {
            let text = #[trigger] node_texts(xml)[i];
            text.len() > 0 && !is_white(text[0]) && !is_white(text.last())
        } by {
            if text.len() > 0 {
                if i > 0 {
                    assert(node_texts(xml)[i] == rest[i - 1]);
                }
            } else {
                assert(node_texts(xml)[i] == rest[i]);
            }
        }
    }
}

/// A text without an ampersand holds nothing to decode.
pub proof fn lemma_nothing_to_decode(s: Seq<char>)
    requires
        !s.contains('&'),
    ensures
        decoded(s) == s,
{
    reveal_strlit("&amp;");
    reveal_strlit("&lt;");
    reveal_strlit("&gt;");
    reveal_strlit("&quot;");
    reveal_strlit("&apos;");
    lemma_absent(s, "&amp;"@, "&"@);
    lemma_absent(s, "&lt;"@, "<"@);
    lemma_absent(s, "&gt;"@, ">"@);
    lemma_absent(s, "&quot;"@, "\""@);
    lemma_absent(s, "&apos;"@, "'"@);
}

proof fn lemma_absent(s: Seq<char>, entity: Seq<char>, to: Seq<char>)
    requires
        !s.contains('&'),
        entity.len() > 0,
        entity[0] == '&',
    ensures
        replaced(s, entity, to) == s,
{
    if has_part(s, entity) {
        let i = choose|i: int| #[trigger] occurs_at(s, entity, i);
        assert(s.subrange(i, i + entity.len())[0] == entity[0]);
        assert(s[i] == '&');
    }
    lemma_replaced_absent(s, entity, to);
}

/// The five named entities of XML are replaced one after the other, that of the ampersand first.
pub proof fn lemma_entities(s: Seq<char>)
    ensures
        decoded(s) == replaced(
            replaced(
                replaced(
                    replaced(replaced(s, "&amp;"@, seq!['&']), "&lt;"@, seq!['<']),
                    "&gt;"@,
                    seq!['>'],
                ),
                "&quot;"@,
                seq!['"'],
            ),
            "&apos;"@,
            seq!['\''],
        ),
{
    reveal_strlit("&");
    reveal_strlit("<");
    reveal_strlit(">");
    reveal_strlit("\"");
    reveal_strlit("'");
    assert("&"@ =~= seq!['&']);
    assert("<"@ =~= seq!['<']);
    assert(">"@ =~= seq!['>']);
    assert("\""@ =~= seq!['"']);
    assert("'"@ =~= seq!['\'']);
}

proof fn lemma_index_is(s: Seq<char>, pat: Seq<char>, i: int)
    requires
        occurs_at(s, pat, i),
        forall|j: int| 0 <= j < i ==> !occurs_at(s, pat, j),
    ensures
        index_of(s, pat) == Some(i as nat),
{
    lemma_index_of(s, pat);
}

/// The first text element is read whole: from behind the tag that begins it up to the tag that ends
/// it, decoded and without the white space around it, unless nothing is left. What stands in front
/// of it does not count, and what stands behind it is read in the same way.
pub proof fn lemma_text_element(
    front: Seq<char>,
    attributes: Seq<char>,
    content: Seq<char>,
    rest: Seq<char>,
)
    requires
        forall|i: int|
            0 <= i < front.len() ==> !occurs_at(
                front + "<w:t"@ + attributes + seq!['>'] + content + "</w:t>"@ + rest,
                "<w:t"@,
                i,
            ),
        forall|i: int| 0 <= i < attributes.len() ==> #[trigger] attributes[i] != '>',
        forall|i: int|
            0 <= i < content.len() ==> !occurs_at(content + "</w:t>"@ + rest, "</w:t>"@, i),
    ensures
        node_texts(front + "<w:t"@ + attributes + seq!['>'] + content + "</w:t>"@ + rest) == if trimmed(
            decoded(content),
        ).len() > 0 {
            seq![trimmed(decoded(content))] + node_texts(rest)
        } else {
            node_texts(rest)
        },
{
    reveal_strlit("<w:t");
    reveal_strlit("</w:t>");
    let xml = front + "<w:t"@ + attributes + seq!['>'] + content + "</w:t>"@ + rest;
    let open = front.len() as int;
    assert(xml.subrange(open, open + 4) =~= "<w:t"@);
    lemma_index_is(xml, "<w:t"@, open);
    let tag = "<w:t"@ + attributes + seq!['>'] + content + "</w:t>"@ + rest;
    assert(xml.skip(open) =~= tag);
    let n = 4 + attributes.len() as int;
    assert(tag.subrange(n, n + 1) =~= seq!['>']);
    assert forall|j: int| 0 <= j < n implies !occurs_at(tag, seq!['>'], j) by {
        if occurs_at(tag, seq!['>'], j) {
            assert(tag.subrange(j, j + 1)[0] == '>');
            if j < 4 {
                assert(tag[j] == "<w:t"@[j]);
            } else {
                assert(tag[j] == attributes[j - 4]);
            }
        }
    }
    lemma_index_is(tag, seq!['>'], n);
    let start = open + n + 1;
    let inner = content + "</w:t>"@ + rest;
    assert(xml.skip(start) =~= inner);
    let m = content.len() as int;
    assert(inner.subrange(m, m + 6) =~= "</w:t>"@);
    lemma_index_is(inner, "</w:t>"@, m);
    assert(next_run(xml) == Some((start, start + m)));
    assert(xml.subrange(start, start + m) =~= content);
    assert(xml.skip(start + m + 6) =~= rest);
}

/// Markup in which no text element begins holds no text, nor does an element whose tag or whose
/// content does not end.
pub proof fn lemma_no_text_element(front: Seq<char>, attributes: Seq<char>, content: Seq<char>)
    requires
        forall|i: int| 0 <= i < attributes.len() ==> #[trigger] attributes[i] != '>',
        forall|i: int| !occurs_at(content, "</w:t>"@, i),
    ensures
        (forall|i: int| !occurs_at(front, "<w:t"@, i)) ==> node_texts(front) == Seq::<
            Seq<char>,
        >::empty(),
        (forall|i: int|
            0 <= i < front.len() ==> !occurs_at(front + "<w:t"@ + attributes, "<w:t"@, i))
            ==> node_texts(front + "<w:t"@ + attributes) == Seq::<Seq<char>>::empty(),
        (forall|i: int|
            0 <= i < front.len() ==> !occurs_at(
                front + "<w:t"@ + attributes + seq!['>'] + content,
                "<w:t"@,
                i,
            )) ==> node_texts(front + "<w:t"@ + attributes + seq!['>'] + content) == Seq::<
            Seq<char>,
        >::empty(),
{
    reveal_strlit("<w:t");
    lemma_index_of(front, "<w:t"@);
    let open = front.len() as int;
    let short = front + "<w:t"@ + attributes;
    if forall|i: int| 0 <= i < front.len() ==> !occurs_at(short, "<w:t"@, i) {
        assert(short.subrange(open, open + 4) =~= "<w:t"@);
        lemma_index_is(short, "<w:t"@, open);
        let tag = short.skip(open);
        lemma_index_of(tag, seq!['>']);
        if let Some(j) = index_of(tag, seq!['>']) {
            assert(tag.subrange(j as int, j as int + 1)[0] == '>');
            if j < 4 {
                assert(tag[j as int] == "<w:t"@[j as int]);
            } else {
                assert(tag[j as int] == attributes[j - 4]);
            }
        }
    }
    let long = front + "<w:t"@ + attributes + seq!['>'] + content;
    if forall|i: int| 0 <= i < front.len() ==> !occurs_at(long, "<w:t"@, i) {
        assert(long.subrange(open, open + 4) =~= "<w:t"@);
        lemma_index_is(long, "<w:t"@, open);
        let tag = long.skip(open);
        let n = 4 + attributes.len() as int;
        assert(tag.subrange(n, n + 1) =~= seq!['>']);
        assert forall|j: int| 0 <= j < n implies !occurs_at(tag, seq!['>'], j) by {
            if occurs_at(tag, seq!['>'], j) {
                assert(tag.subrange(j, j + 1)[0] == '>');
                if j < 4 {
                    assert(tag[j] == "<w:t"@[j]);
                } else {
                    assert(tag[j] == attributes[j - 4]);
                }
            }
        }
        lemma_index_is(tag, seq!['>'], n);
        assert(long.skip(open + n + 1) =~= content);
        lemma_index_of(content, "</w:t>"@);
    }
}

} // verus!
