//! The tags of a template: where they begin and end, and which of them define or include parts.

use vstd::prelude::*;
use vstd::slice::{slice_subrange, slice_to_vec};
use crate::search::{occurs_at, stands_at};
use crate::text::{chars_of, same_chars};

verus! {

// Runs of characters

/// Whether `c` stands at `i` and at the next index.
pub open spec fn twice(s: Seq<char>, i: int, c: char) -> bool {
    0 <= i && i + 1 < s.len() && s[i] == c && s[i + 1] == c
}

/// A character that parts the words in a tag.
pub open spec fn is_space(c: char) -> bool {
    c == ' ' || c == '\t' || c == '\n' || c == '\r'
}

/// A character that may stand between the braces of a tag and the sign that says what tag it is.
pub open spec fn is_lead(c: char) -> bool {
    is_space(c) || c == '~' || c == '#'
}

/// A character of a name that is written without quotes.
pub open spec fn is_name_char(c: char) -> bool {
    ||| 'a' <= c <= 'z'
    ||| 'A' <= c <= 'Z'
    ||| '0' <= c <= '9'
    ||| c == '-' || c == '_' || c == '@' || c == '/' || c == '.'
    ||| c >= '\u{80}'
}

/// A character of a word in a path.
pub open spec fn is_word_char(c: char) -> bool {
    ||| 'a' <= c <= 'z'
    ||| 'A' <= c <= 'Z'
    ||| '0' <= c <= '9'
    ||| c == '-' || c == '_' || c == '$' || c == ':'
    ||| c >= '\u{80}'
}

/// The first index from `i` on at which no space stands.
pub open spec fn spaces_end(s: Seq<char>, i: int) -> int
    decreases s.len() - i,
{
    if 0 <= i < s.len() && is_space(s[i]) {
        spaces_end(s, i + 1)
    } else {
        i
    }
}

/// The first index from `i` on at which no character stands that may come before a sign.
pub open spec fn lead_end(s: Seq<char>, i: int) -> int
    decreases s.len() - i,
{
    if 0 <= i < s.len() && is_lead(s[i]) {
        lead_end(s, i + 1)
    } else {
        i
    }
}

/// The first index from `i` on at which no character of a name stands.
pub open spec fn name_end(s: Seq<char>, i: int) -> int
    decreases s.len() - i,
{
    if 0 <= i < s.len() && is_name_char(s[i]) {
        name_end(s, i + 1)
    } else {
        i
    }
}

/// The first index from `i` on at which no character of a word stands.
pub open spec fn word_end(s: Seq<char>, i: int) -> int
    decreases s.len() - i,
{
    if 0 <= i < s.len() && is_word_char(s[i]) {
        word_end(s, i + 1)
    } else {
        i
    }
}

/// The first index from `i` on at which no backslash stands.
pub open spec fn slashes_end(s: Seq<char>, i: int) -> int
    decreases s.len() - i,
{
    if 0 <= i < s.len() && s[i] == '\\' {
        slashes_end(s, i + 1)
    } else {
        i
    }
}

/// The first index from `i` on at which `c` stands.
pub open spec fn char_from(s: Seq<char>, i: int, c: char) -> Option<int>
    decreases s.len() - i,
{
    if i < 0 || i >= s.len() {
        None
    } else if s[i] == c {
        Some(i)
    } else {
        char_from(s, i + 1, c)
    }
}

/// The first index from `i` on at which two closing braces stand.
pub open spec fn close_from(s: Seq<char>, i: int) -> Option<int>
    decreases s.len() - i,
{
    if i < 0 || i >= s.len() {
        None
    } else if twice(s, i, '}') {
        Some(i)
    } else {
        close_from(s, i + 1)
    }
}

/// The first index from `i` on at which two dashes and two closing braces stand.
pub open spec fn dashes_from(s: Seq<char>, i: int) -> Option<int>
    decreases s.len() - i,
{
    if i < 0 || i >= s.len() {
        None
    } else if twice(s, i, '-') && twice(s, i + 2, '}') {
        Some(i)
    } else {
        dashes_from(s, i + 1)
    }
}

fn spaces_behind(s: &[char], i: usize) -> (end: usize)
    requires
        i <= s@.len(),
    ensures
        end == spaces_end(s@, i as int),
        i <= end <= s@.len(),
{
    let mut k: usize = i;
    while k < s.len() && (s[k] == ' ' || s[k] == '\t' || s[k] == '\n' || s[k] == '\r')
        invariant
            i <= k <= s@.len(),
            spaces_end(s@, i as int) == spaces_end(s@, k as int),
        decreases s@.len() - k,
    {
        k = k + 1;
    }
    k
}

pub(crate) fn lead_behind(s: &[char], i: usize) -> (end: usize)
    requires
        i <= s@.len(),
    ensures
        end == lead_end(s@, i as int),
        i <= end <= s@.len(),
{
    let mut k: usize = i;
    while k < s.len() && (s[k] == ' ' || s[k] == '\t' || s[k] == '\n' || s[k] == '\r' || s[k] == '~'
        || s[k] == '#')
        invariant
            i <= k <= s@.len(),
            lead_end(s@, i as int) == lead_end(s@, k as int),
        decreases s@.len() - k,
    {
        k = k + 1;
    }
    k
}

fn name_char(c: char) -> (b: bool)
    ensures
        b == is_name_char(c),
{
    ('a' <= c && c <= 'z') || ('A' <= c && c <= 'Z') || ('0' <= c && c <= '9') || c == '-' || c
        == '_' || c == '@' || c == '/' || c == '.' || c >= '\u{80}'
}

fn name_behind(s: &[char], i: usize) -> (end: usize)
    requires
        i <= s@.len(),
    ensures
        end == name_end(s@, i as int),
        i <= end <= s@.len(),
{
    let mut k: usize = i;
    while k < s.len() && name_char(s[k])
        invariant
            i <= k <= s@.len(),
            name_end(s@, i as int) == name_end(s@, k as int),
        decreases s@.len() - k,
    {
        k = k + 1;
    }
    k
}

fn word_char(c: char) -> (b: bool)
    ensures
        b == is_word_char(c),
{
    ('a' <= c && c <= 'z') || ('A' <= c && c <= 'Z') || ('0' <= c && c <= '9') || c == '-' || c
        == '_' || c == '$' || c == ':' || c >= '\u{80}'
}

fn word_behind(s: &[char], i: usize) -> (end: usize)
    requires
        i <= s@.len(),
    ensures
        end == word_end(s@, i as int),
        i <= end <= s@.len(),
{
    let mut k: usize = i;
    while k < s.len() && word_char(s[k])
        invariant
            i <= k <= s@.len(),
            word_end(s@, i as int) == word_end(s@, k as int),
        decreases s@.len() - k,
    {
        k = k + 1;
    }
    k
}

fn char_at_or_behind(s: &[char], i: usize, c: char) -> (found: Option<usize>)
    requires
        i <= s@.len(),
    ensures
        match found {
            Some(k) => char_from(s@, i as int, c) == Some(k as int) && i <= k < s@.len(),
            None => char_from(s@, i as int, c) is None,
        },
{
    let mut k: usize = i;
    while k < s.len()
        invariant
            i <= k <= s@.len(),
            char_from(s@, i as int, c) == char_from(s@, k as int, c),
        decreases s@.len() - k,
    {
        if s[k] == c {
            return Some(k);
        }
        k = k + 1;
    }
    None
}

fn is_twice(s: &[char], i: usize, c: char) -> (b: bool)
    ensures
        b == twice(s@, i as int, c),
{
    i < s.len() && s.len() - i > 1 && s[i] == c && s[i + 1] == c
}

// Where tags end

/// Where in a tag a character stands: between its words, inside quotes or brackets that end with a
/// certain character, or behind a backslash in quotes. Where brackets end that hold quotes or
/// further brackets, where an object ends, and what a second backslash does in single quotes cannot
/// be told from single characters.
#[derive(PartialEq, Eq, Structural, Clone, Copy)]
pub enum Within {
    Tag,
    Quoted(char),
    Escaped(char),
    Unclear,
}

/// Where in the tag the next character stands.
pub open spec fn behind(w: Within, c: char) -> Within {
    match w {
        Within::Tag => if c == '"' || c == '\'' {
            Within::Quoted(c)
        } else if c == '[' {
            Within::Quoted(']')
        } else if c == '{' {
            Within::Unclear
        } else {
            Within::Tag
        },
        Within::Quoted(q) => if c == q {
            Within::Tag
        } else if q != ']' && c == '\\' {
            Within::Escaped(q)
        } else if q == ']' && (c == '"' || c == '\'' || c == '[') {
            Within::Unclear
        } else {
            w
        },
        Within::Escaped(q) => if q == '\'' && c == '\\' {
            Within::Unclear
        } else {
            Within::Quoted(q)
        },
        Within::Unclear => Within::Unclear,
    }
}

/// Where the closing braces of a tag stand, read on from `j`: nowhere if it has none; nothing is
/// said if that is unclear.
pub open spec fn tag_close(s: Seq<char>, j: int, w: Within) -> Option<Option<int>>
    decreases s.len() - j,
{
    if w == Within::Unclear {
        None
    } else if j < 0 || j >= s.len() {
        Some(None)
    } else if w == Within::Tag && twice(s, j, '}') {
        Some(Some(j))
    } else {
        tag_close(s, j + 1, behind(w, s[j]))
    }
}

/// Where the closing braces of the tag that begins at `i` stand. A third opening brace belongs to
/// the beginning of the tag.
pub open spec fn close_of(s: Seq<char>, i: int) -> Option<Option<int>> {
    let k = lead_end(s, i + 2);
    tag_close(
        s,
        if k < s.len() && s[k] == '{' {
            k + 1
        } else {
            k
        },
        Within::Tag,
    )
}

/// The index behind the comment that begins at `i`, if it ends. A comment that begins with dashes
/// ends with dashes, if there are any.
pub open spec fn comment_end(s: Seq<char>, i: int) -> Option<int> {
    let j = spaces_end(s, i + 3);
    let dashes = if twice(s, j, '-') {
        dashes_from(s, j + 2)
    } else {
        None
    };
    match dashes {
        Some(n) => Some(n + 4),
        None => match close_from(s, i + 3) {
            Some(n) => Some(n + 2),
            None => None,
        },
    }
}

/// Where the text goes on behind the character at `i`, at which no tag begins. Braces behind a
/// single backslash are text.
pub open spec fn text_behind(s: Seq<char>, i: int) -> int {
    let k = slashes_end(s, i);
    if k == i {
        i + 1
    } else if k == i + 1 && twice(s, k, '{') {
        if twice(s, k + 2, '{') {
            k + 4
        } else {
            k + 2
        }
    } else {
        k
    }
}

/// The first index from `i` on at which four braces begin a tag.
pub open spec fn raw_from(s: Seq<char>, i: int) -> Option<int>
    decreases s.len() - i,
    via raw_from_goes_on
{
    if i < 0 || i >= s.len() {
        None
    } else if twice(s, i, '{') && twice(s, i + 2, '{') {
        Some(i)
    } else {
        raw_from(s, text_behind(s, i))
    }
}

#[via_fn]
proof fn raw_from_goes_on(s: Seq<char>, i: int) {
    if 0 <= i < s.len() {
        lemma_text_behind(s, i);
    }
}

/// The index behind the tag of four braces that begins at `i`.
pub open spec fn raw_tag_end(s: Seq<char>, i: int) -> Option<Option<int>> {
    match tag_close(s, lead_end(s, i + 4), Within::Tag) {
        Some(Some(e)) => if twice(s, e + 2, '}') {
            Some(Some(e + 4))
        } else {
            Some(None)
        },
        other => other,
    }
}

/// The index behind the block between tags of four braces, of which the first begins at `i`.
pub open spec fn raw_block_end(s: Seq<char>, i: int) -> Option<Option<int>> {
    match raw_tag_end(s, i) {
        Some(Some(a)) => match raw_from(s, a) {
            Some(b) => raw_tag_end(s, b),
            None => Some(None),
        },
        other => other,
    }
}

proof fn lemma_slashes_end(s: Seq<char>, i: int)
    requires
        0 <= i <= s.len(),
    ensures
        i <= slashes_end(s, i) <= s.len(),
        i < s.len() ==> (slashes_end(s, i) == i <==> s[i] != '\\'),
    decreases s.len() - i,
{
    if i < s.len() && s[i] == '\\' {
        lemma_slashes_end(s, i + 1);
    }
}

proof fn lemma_text_behind(s: Seq<char>, i: int)
    requires
        0 <= i < s.len(),
    ensures
        i < text_behind(s, i) <= s.len(),
{
    lemma_slashes_end(s, i);
}

proof fn lemma_lead_end(s: Seq<char>, i: int)
    requires
        0 <= i <= s.len(),
    ensures
        i <= lead_end(s, i) <= s.len(),
    decreases s.len() - i,
{
    if i < s.len() && is_lead(s[i]) {
        lemma_lead_end(s, i + 1);
    }
}

proof fn lemma_spaces_end(s: Seq<char>, i: int)
    requires
        0 <= i <= s.len(),
    ensures
        i <= spaces_end(s, i) <= s.len(),
    decreases s.len() - i,
{
    if i < s.len() && is_space(s[i]) {
        lemma_spaces_end(s, i + 1);
    }
}

proof fn lemma_close_from(s: Seq<char>, i: int)
    requires
        0 <= i,
    ensures
        close_from(s, i) matches Some(n) ==> i <= n && n + 2 <= s.len(),
    decreases s.len() - i,
{
    if i < s.len() {
        lemma_close_from(s, i + 1);
    }
}

proof fn lemma_dashes_from(s: Seq<char>, i: int)
    requires
        0 <= i,
    ensures
        dashes_from(s, i) matches Some(n) ==> i <= n && n + 4 <= s.len(),
    decreases s.len() - i,
{
    if i < s.len() {
        lemma_dashes_from(s, i + 1);
    }
}

proof fn lemma_comment_end(s: Seq<char>, i: int)
    requires
        0 <= i,
        i + 3 <= s.len(),
    ensures
        comment_end(s, i) matches Some(e) ==> i + 3 < e <= s.len(),
{
    lemma_spaces_end(s, i + 3);
    lemma_close_from(s, i + 3);
    lemma_dashes_from(s, spaces_end(s, i + 3) + 2);
}

proof fn lemma_tag_close(s: Seq<char>, j: int, w: Within)
    requires
        0 <= j,
    ensures
        tag_close(s, j, w) matches Some(Some(e)) ==> j <= e && e + 2 <= s.len(),
    decreases s.len() - j,
{
    if j < s.len() {
        lemma_tag_close(s, j + 1, behind(w, s[j]));
    }
}

proof fn lemma_close_of(s: Seq<char>, i: int)
    requires
        0 <= i,
        i + 2 <= s.len(),
    ensures
        i + 2 <= lead_end(s, i + 2) <= s.len(),
        close_of(s, i) matches Some(Some(e)) ==> lead_end(s, i + 2) <= e && e + 2 <= s.len(),
{
    let k = lead_end(s, i + 2);
    lemma_lead_end(s, i + 2);
    lemma_tag_close(s, k, Within::Tag);
    lemma_tag_close(s, k + 1, Within::Tag);
}

proof fn lemma_raw_from(s: Seq<char>, i: int)
    requires
        0 <= i,
    ensures
        raw_from(s, i) matches Some(n) ==> i <= n && n + 4 <= s.len(),
    decreases s.len() - i,
{
    if i < s.len() && !(twice(s, i, '{') && twice(s, i + 2, '{')) {
        lemma_text_behind(s, i);
        lemma_raw_from(s, text_behind(s, i));
    }
}

proof fn lemma_raw_tag_end(s: Seq<char>, i: int)
    requires
        0 <= i,
        i + 4 <= s.len(),
    ensures
        raw_tag_end(s, i) matches Some(Some(e)) ==> i + 4 < e <= s.len(),
{
    lemma_lead_end(s, i + 4);
    lemma_tag_close(s, lead_end(s, i + 4), Within::Tag);
}

proof fn lemma_raw_block_end(s: Seq<char>, i: int)
    requires
        0 <= i,
        i + 4 <= s.len(),
    ensures
        raw_block_end(s, i) matches Some(Some(e)) ==> i < e <= s.len(),
{
    lemma_raw_tag_end(s, i);
    if let Some(Some(a)) = raw_tag_end(s, i) {
        lemma_raw_from(s, a);
        if let Some(b) = raw_from(s, a) {
            lemma_raw_tag_end(s, b);
        }
    }
}

/// Where the closing braces of a tag stand, read on from `j` between its words.
fn find_tag_close(s: &[char], j: usize) -> (close: Option<Option<usize>>)
    requires
        j <= s@.len(),
    ensures
        match close {
            Some(Some(e)) => tag_close(s@, j as int, Within::Tag) == Some(Some(e as int)) && j <= e
                && e + 2 <= s@.len(),
            Some(None) => tag_close(s@, j as int, Within::Tag) == Some(None::<int>),
            None => tag_close(s@, j as int, Within::Tag) is None,
        },
{
    let mut k: usize = j;
    let mut w = Within::Tag;
    while k < s.len()
        invariant
            j <= k <= s@.len(),
            tag_close(s@, j as int, Within::Tag) == tag_close(s@, k as int, w),
        decreases s@.len() - k,
    {
        if w == Within::Unclear {
            return None;
        }
        if w == Within::Tag && is_twice(s, k, '}') {
            return Some(Some(k));
        }
        w = go_behind(w, s[k]);
        k = k + 1;
    }
    if w == Within::Unclear {
        None
    } else {
        Some(None)
    }
}

fn go_behind(w: Within, c: char) -> (next: Within)
    ensures
        next == behind(w, c),
{
    match w {
        Within::Tag => if c == '"' || c == '\'' {
            Within::Quoted(c)
        } else if c == '[' {
            Within::Quoted(']')
        } else if c == '{' {
            Within::Unclear
        } else {
            Within::Tag
        },
        Within::Quoted(q) => if c == q {
            Within::Tag
        } else if q != ']' && c == '\\' {
            Within::Escaped(q)
        } else if q == ']' && (c == '"' || c == '\'' || c == '[') {
            Within::Unclear
        } else {
            w
        },
        Within::Escaped(q) => if q == '\'' && c == '\\' {
            Within::Unclear
        } else {
            Within::Quoted(q)
        },
        Within::Unclear => Within::Unclear,
    }
}

/// Where the closing braces of the tag that begins at `i` stand.
fn find_close_of(s: &[char], i: usize) -> (close: Option<Option<usize>>)
    requires
        twice(s@, i as int, '{'),
    ensures
        match close {
            Some(Some(e)) => close_of(s@, i as int) == Some(Some(e as int)) && e + 2 <= s@.len(),
            Some(None) => close_of(s@, i as int) == Some(None::<int>),
            None => close_of(s@, i as int) is None,
        },
{
    let n: usize = s.len();
    let k = lead_behind(s, i + 2);
    if k < n && s[k] == '{' {
        find_tag_close(s, k + 1)
    } else {
        find_tag_close(s, k)
    }
}

/// The index behind the comment that begins at `i`, if it ends.
fn find_comment_end(s: &[char], i: usize) -> (end: Option<usize>)
    requires
        i + 3 <= s@.len(),
    ensures
        match end {
            Some(e) => comment_end(s@, i as int) == Some(e as int) && i + 3 < e <= s@.len(),
            None => comment_end(s@, i as int) is None,
        },
{
    let n: usize = s.len();
    let j = spaces_behind(s, i + 3);
    if is_twice(s, j, '-') {
        let mut k: usize = j + 2;
        while k < n
            invariant
                n == s@.len(),
                j + 2 <= k <= n,
                dashes_from(s@, j + 2) == dashes_from(s@, k as int),
                i + 3 <= j,
                j == spaces_end(s@, i + 3),
                twice(s@, j as int, '-'),
            decreases s@.len() - k,
        {
            if is_twice(s, k, '-') && is_twice(s, k + 2, '}') {
                return Some(k + 4);
            }
            k = k + 1;
        }
    }
    let mut k: usize = i + 3;
    while k < n
        invariant
            n == s@.len(),
            i + 3 <= k <= n,
            close_from(s@, i + 3) == close_from(s@, k as int),
            j == spaces_end(s@, i + 3),
            twice(s@, j as int, '-') ==> dashes_from(s@, j + 2) is None,
        decreases s@.len() - k,
    {
        if is_twice(s, k, '}') {
            return Some(k + 2);
        }
        k = k + 1;
    }
    None
}

/// Where the text goes on behind the character at `i`.
fn go_on_in_text(s: &[char], i: usize) -> (next: usize)
    requires
        i < s@.len(),
    ensures
        next == text_behind(s@, i as int),
        i < next <= s@.len(),
{
    let mut k: usize = i;
    while k < s.len() && s[k] == '\\'
        invariant
            i <= k <= s@.len(),
            slashes_end(s@, i as int) == slashes_end(s@, k as int),
        decreases s@.len() - k,
    {
        k = k + 1;
    }
    if k == i {
        i + 1
    } else if k == i + 1 && is_twice(s, k, '{') {
        if is_twice(s, k + 2, '{') {
            k + 4
        } else {
            k + 2
        }
    } else {
        k
    }
}

/// The index behind the tag of four braces that begins at `i`.
fn find_raw_tag_end(s: &[char], i: usize) -> (end: Option<Option<usize>>)
    requires
        i + 4 <= s@.len(),
    ensures
        match end {
            Some(Some(e)) => raw_tag_end(s@, i as int) == Some(Some(e as int)) && i < e <= s@.len(),
            Some(None) => raw_tag_end(s@, i as int) == Some(None::<int>),
            None => raw_tag_end(s@, i as int) is None,
        },
{
    let n: usize = s.len();
    let k = lead_behind(s, i + 4);
    match find_tag_close(s, k) {
        Some(Some(e)) => if n - e > 3 && is_twice(s, e + 2, '}') {
            Some(Some(e + 4))
        } else {
            Some(None)
        },
        Some(None) => Some(None),
        None => None,
    }
}

/// The index behind the block between tags of four braces, of which the first begins at `i`.
fn find_raw_block_end(s: &[char], i: usize) -> (end: Option<Option<usize>>)
    requires
        i + 4 <= s@.len(),
    ensures
        match end {
            Some(Some(e)) => raw_block_end(s@, i as int) == Some(Some(e as int)) && i < e
                <= s@.len(),
            Some(None) => raw_block_end(s@, i as int) == Some(None::<int>),
            None => raw_block_end(s@, i as int) is None,
        },
{
    match find_raw_tag_end(s, i) {
        Some(Some(a)) => {
            let mut k: usize = a;
            while k < s.len()
                invariant
                    i < a <= k <= s@.len(),
                    raw_tag_end(s@, i as int) == Some(Some(a as int)),
                    raw_from(s@, a as int) == raw_from(s@, k as int),
                decreases s@.len() - k,
            {
                if is_twice(s, k, '{') && is_twice(s, k + 2, '{') {
                    return find_raw_tag_end(s, k);
                }
                k = go_on_in_text(s, k);
            }
            Some(None)
        },
        Some(None) => Some(None),
        None => None,
    }
}

// What tags say

/// What a tag means for the parts of a template: it begins a part of that name, includes a part of
/// that name, includes one and begins a block that is handed to it, begins another block, or ends
/// what was begun last. A name that is computed, or that is written with escapes, is none.
pub enum Mark<N> {
    Part(Option<N>),
    Inclusion(Option<N>),
    InclusionBlock(Option<N>),
    Block,
    End,
}

/// The name of the part that a tag begins which reads like this behind its sign: a text in quotes,
/// right behind the word `inline`.
pub open spec fn part_name(t: Seq<char>) -> Option<Seq<char>> {
    let j = spaces_end(t, 0);
    let q = spaces_end(t, j + 6);
    if occurs_at(t, "inline"@, j) && q < t.len() && (t[q] == '"' || t[q] == '\'') {
        match char_from(t, q + 1, t[q]) {
            Some(e) => if t.subrange(q + 1, e).contains('\\') {
                None
            } else {
                Some(t.subrange(q + 1, e))
            },
            None => None,
        }
    } else {
        None
    }
}

/// The index behind the step of a path that begins at `j`: a word, or anything in brackets.
pub open spec fn step_end(t: Seq<char>, j: int) -> Option<int> {
    if 0 <= j < t.len() && t[j] == '[' {
        match char_from(t, j + 1, ']') {
            Some(e) => Some(e + 1),
            None => None,
        }
    } else if word_end(t, j) > j {
        Some(word_end(t, j))
    } else {
        None
    }
}

/// The index behind the path that begins at `j`: steps with dots or slashes between them.
pub open spec fn path_end(t: Seq<char>, j: int) -> Option<int>
    decreases t.len() - j,
    via path_end_goes_on
{
    match step_end(t, j) {
        Some(e) => if e < t.len() && (t[e] == '.' || t[e] == '/') && path_end(t, e + 1) is Some {
            path_end(t, e + 1)
        } else {
            Some(e)
        },
        None => None,
    }
}

#[via_fn]
proof fn path_end_goes_on(t: Seq<char>, j: int) {
    if 0 <= j <= t.len() {
        lemma_step_end(t, j);
    }
}

proof fn lemma_step_end(t: Seq<char>, j: int)
    requires
        0 <= j <= t.len(),
    ensures
        step_end(t, j) matches Some(e) ==> j < e <= t.len(),
{
    lemma_word_end(t, j);
    if j < t.len() {
        lemma_char_from(t, j + 1, ']');
    }
}

proof fn lemma_word_end(s: Seq<char>, i: int)
    requires
        0 <= i <= s.len(),
    ensures
        i <= word_end(s, i) <= s.len(),
    decreases s.len() - i,
{
    if i < s.len() && is_word_char(s[i]) {
        lemma_word_end(s, i + 1);
    }
}

/// The name of the part that a tag includes which reads like this behind its sign. Quotes and
/// brackets belong to the name.
pub open spec fn inclusion_name(t: Seq<char>) -> Option<Seq<char>> {
    let j = spaces_end(t, 0);
    if j < t.len() && t[j] == '\'' {
        match char_from(t, j + 1, '\'') {
            Some(e) => if t.subrange(j, e).contains('\\') {
                None
            } else {
                Some(t.subrange(j, e + 1))
            },
            None => None,
        }
    } else if name_end(t, j) > j {
        Some(t.subrange(j, name_end(t, j)))
    } else {
        match path_end(t, j) {
            Some(e) => Some(t.subrange(j, e)),
            None => None,
        }
    }
}

/// What the tag means that begins at `i` and whose closing braces stand at `e`. The block that was
/// handed to a part is no part.
pub open spec fn tag_mark(s: Seq<char>, i: int, e: int) -> Option<Mark<Seq<char>>> {
    let k = lead_end(s, i + 2);
    let block = s.subrange(i + 2, k).contains('#');
    let rest = s.subrange(k + 1, e);
    if k >= e {
        None
    } else if s[k] == '*' && block {
        Some(Mark::Part(part_name(rest)))
    } else if s[k] == '>' && inclusion_name(rest) != Some("@partial-block"@) {
        if block {
            Some(Mark::InclusionBlock(inclusion_name(rest)))
        } else {
            Some(Mark::Inclusion(inclusion_name(rest)))
        }
    } else if s[k] == '/' {
        Some(Mark::End)
    } else if block {
        Some(Mark::Block)
    } else {
        None
    }
}

/// What the tags from `i` on mean, in order, unless it is unclear where one of them ends. Comments
/// and what stands between tags of four braces mean nothing. A tag that does not end is the last.
pub open spec fn marks_from(s: Seq<char>, i: int) -> Option<Seq<Mark<Seq<char>>>>
    decreases s.len() - i,
    via marks_from_goes_on
{
    if i < 0 || i >= s.len() {
        Some(Seq::empty())
    } else if !twice(s, i, '{') {
        marks_from(s, text_behind(s, i))
    } else if twice(s, i + 2, '{') {
        match raw_block_end(s, i) {
            Some(Some(e)) => marks_from(s, e),
            Some(None) => Some(Seq::empty()),
            None => None,
        }
    } else if i + 2 < s.len() && s[i + 2] == '!' {
        match comment_end(s, i) {
            Some(e) => marks_from(s, e),
            None => Some(Seq::empty()),
        }
    } else {
        match close_of(s, i) {
            Some(Some(e)) => match (tag_mark(s, i, e), marks_from(s, e + 2)) {
                (Some(mark), Some(rest)) => Some(seq![mark] + rest),
                (_, rest) => rest,
            },
            Some(None) => Some(Seq::empty()),
            None => None,
        }
    }
}

#[via_fn]
proof fn marks_from_goes_on(s: Seq<char>, i: int) {
    if 0 <= i < s.len() {
        lemma_text_behind(s, i);
        if twice(s, i, '{') && twice(s, i + 2, '{') {
            lemma_raw_block_end(s, i);
        } else if twice(s, i, '{') {
            lemma_close_of(s, i);
            if i + 2 < s.len() {
                lemma_comment_end(s, i);
            }
        }
    }
}

/// The name with its characters.
pub open spec fn name_of(name: Option<Vec<char>>) -> Option<Seq<char>> {
    match name {
        Some(v) => Some(v@),
        None => None,
    }
}

/// The mark with the characters of its name.
pub open spec fn mark_of(mark: Mark<Vec<char>>) -> Mark<Seq<char>> {
    match mark {
        Mark::Part(name) => Mark::Part(name_of(name)),
        Mark::Inclusion(name) => Mark::Inclusion(name_of(name)),
        Mark::InclusionBlock(name) => Mark::InclusionBlock(name_of(name)),
        Mark::Block => Mark::Block,
        Mark::End => Mark::End,
    }
}

/// The marks with the characters of their names.
pub open spec fn marks_of(marks: Seq<Mark<Vec<char>>>) -> Seq<Mark<Seq<char>>> {
    marks.map_values(|m: Mark<Vec<char>>| mark_of(m))
}

fn has_backslash(t: &[char]) -> (b: bool)
    ensures
        b == t@.contains('\\'),
{
    proof {
        lemma_char_from(t@, 0, '\\');
    }
    match char_at_or_behind(t, 0, '\\') {
        Some(at) => {
            assert(t@[at as int] == '\\');
            true
        },
        None => false,
    }
}

fn read_part_name(t: &[char]) -> (name: Option<Vec<char>>)
    ensures
        name_of(name) == part_name(t@),
{
    let word = chars_of("inline");
    proof {
        reveal_strlit("inline");
    }
    let j = spaces_behind(t, 0);
    if !stands_at(t, word.as_slice(), j) {
        return None;
    }
    let n: usize = t.len();
    let q = spaces_behind(t, j + 6);
    if q >= n || (t[q] != '"' && t[q] != '\'') {
        return None;
    }
    match char_at_or_behind(t, q + 1, t[q]) {
        Some(e) => {
            let inner = slice_subrange(t, q + 1, e);
            if has_backslash(inner) {
                None
            } else {
                Some(slice_to_vec(inner))
            }
        },
        None => None,
    }
}

proof fn lemma_char_from(s: Seq<char>, i: int, c: char)
    requires
        0 <= i <= s.len(),
    ensures
        match char_from(s, i, c) {
            Some(k) => i <= k < s.len() && s[k] == c,
            None => forall|k: int| i <= k < s.len() ==> s[k] != c,
        },
    decreases s.len() - i,
{
    if i < s.len() {
        lemma_char_from(s, i + 1, c);
    }
}

fn read_inclusion_name(t: &[char]) -> (name: Option<Vec<char>>)
    ensures
        name_of(name) == inclusion_name(t@),
{
    let n: usize = t.len();
    let j = spaces_behind(t, 0);
    if j < n && t[j] == '\'' {
        match char_at_or_behind(t, j + 1, '\'') {
            Some(e) => if has_backslash(slice_subrange(t, j, e)) {
                None
            } else {
                Some(slice_to_vec(slice_subrange(t, j, e + 1)))
            },
            None => None,
        }
    } else {
        let e = name_behind(t, j);
        if e > j {
            return Some(slice_to_vec(slice_subrange(t, j, e)));
        }
        match find_path_end(t, j) {
            Some(e) => Some(slice_to_vec(slice_subrange(t, j, e))),
            None => None,
        }
    }
}

/// The index behind the step of a path that begins at `j`.
fn find_step_end(t: &[char], j: usize) -> (end: Option<usize>)
    requires
        j <= t@.len(),
    ensures
        match end {
            Some(e) => step_end(t@, j as int) == Some(e as int) && j < e <= t@.len(),
            None => step_end(t@, j as int) is None,
        },
{
    if j < t.len() && t[j] == '[' {
        match char_at_or_behind(t, j + 1, ']') {
            Some(e) => Some(e + 1),
            None => None,
        }
    } else {
        let e = word_behind(t, j);
        if e > j {
            Some(e)
        } else {
            None
        }
    }
}

/// The index behind the path that begins at `j`.
fn find_path_end(t: &[char], j: usize) -> (end: Option<usize>)
    requires
        j <= t@.len(),
    ensures
        match end {
            Some(e) => path_end(t@, j as int) == Some(e as int) && j < e <= t@.len(),
            None => path_end(t@, j as int) is None,
        },
{
    let mut end: usize = match find_step_end(t, j) {
        Some(e) => e,
        None => {
            return None;
        },
    };
    let ghost mut last = j as int;
    while end < t.len() && (t[end] == '.' || t[end] == '/')
        invariant
            j <= last < end <= t@.len(),
            step_end(t@, last) == Some(end as int),
            path_end(t@, j as int) == path_end(t@, last),
        decreases t@.len() - end,
    {
        match find_step_end(t, end + 1) {
            Some(e) => {
                proof {
                    assert(path_end(t@, end + 1) is Some);
                    last = end + 1;
                }
                end = e;
            },
            None => {
                return Some(end);
            },
        }
    }
    Some(end)
}

/// What the tag means that begins at `i` and whose closing braces stand at `e`.
fn read_tag(s: &[char], i: usize, e: usize) -> (mark: Option<Mark<Vec<char>>>)
    requires
        i + 2 <= e <= s@.len(),
        lead_end(s@, i + 2) <= e,
    ensures
        match mark {
            Some(m) => tag_mark(s@, i as int, e as int) == Some(mark_of(m)),
            None => tag_mark(s@, i as int, e as int) is None,
        },
{
    let k = lead_behind(s, i + 2);
    if k >= e {
        return None;
    }
    let lead = slice_subrange(s, i + 2, k);
    let hash = char_at_or_behind(lead, 0, '#');
    let block = hash.is_some();
    proof {
        lemma_char_from(lead@, 0, '#');
        if let Some(at) = hash {
            assert(lead@[at as int] == '#');
        }
        assert(block == lead@.contains('#'));
    }
    let rest = slice_subrange(s, k + 1, e);
    let sign = s[k];
    if sign == '*' && block {
        return Some(Mark::Part(read_part_name(rest)));
    }
    if sign == '>' {
        let name = read_inclusion_name(rest);
        let handed = chars_of("@partial-block");
        let other = match &name {
            Some(v) => !same_chars(v.as_slice(), handed.as_slice()),
            None => true,
        };
        assert(other == (inclusion_name(rest@) != Some("@partial-block"@)));
        if other {
            return if block {
                Some(Mark::InclusionBlock(name))
            } else {
                Some(Mark::Inclusion(name))
            };
        }
    }
    if sign == '/' {
        Some(Mark::End)
    } else if block {
        Some(Mark::Block)
    } else {
        None
    }
}

/// What `first` and then the tags from `i` on mean.
spec fn marks_with(
    first: Seq<Mark<Vec<char>>>,
    s: Seq<char>,
    i: int,
) -> Option<Seq<Mark<Seq<char>>>> {
    match marks_from(s, i) {
        Some(rest) => Some(marks_of(first) + rest),
        None => None,
    }
}

/// What the tags of a template mean, in order, unless it is unclear where one of them ends.
pub fn read_marks(s: &[char]) -> (res: Option<Vec<Mark<Vec<char>>>>)
    ensures
        match res {
            Some(marks) => marks_from(s@, 0) == Some(marks_of(marks@)),
            None => marks_from(s@, 0) is None,
        },
{
    let n: usize = s.len();
    let mut marks: Vec<Mark<Vec<char>>> = Vec::new();
    let mut i: usize = 0;
    proof {
        if let Some(rest) = marks_from(s@, 0) {
            assert(marks_of(marks@) + rest == rest);
        }
    }
    while i < n
        invariant
            n == s@.len(),
            i <= n,
            marks_from(s@, 0) == marks_with(marks@, s@, i as int),
        decreases n - i,
    {
        if !is_twice(s, i, '{') {
            i = go_on_in_text(s, i);
            continue;
        }
        if is_twice(s, i + 2, '{') {
            match find_raw_block_end(s, i) {
                Some(Some(e)) => {
                    i = e;
                    continue;
                },
                Some(None) => {
                    assert(marks_of(marks@) + Seq::empty() == marks_of(marks@));
                    return Some(marks);
                },
                None => {
                    return None;
                },
            }
        }
        if n - i > 2 && s[i + 2] == '!' {
            match find_comment_end(s, i) {
                Some(e) => {
                    i = e;
                    continue;
                },
                None => {
                    assert(marks_of(marks@) + Seq::empty() == marks_of(marks@));
                    return Some(marks);
                },
            }
        }
        proof {
            lemma_close_of(s@, i as int);
        }
        match find_close_of(s, i) {
            Some(Some(e)) => {
                let ghost before = marks@;
                if let Some(mark) = read_tag(s, i, e) {
                    proof {
                        assert(marks_of(before.push(mark)) == marks_of(before).push(mark_of(mark)));
                        if let Some(rest) = marks_from(s@, e + 2) {
                            assert(marks_of(before) + (seq![mark_of(mark)] + rest) == marks_of(
                                before.push(mark),
                            ) + rest);
                        }
                    }
                    marks.push(mark);
                }
                i = e + 2;
            },
            Some(None) => {
                assert(marks_of(marks@) + Seq::empty() == marks_of(marks@));
                return Some(marks);
            },
            None => {
                return None;
            },
        }
    }
    assert(marks_of(marks@) + Seq::empty() == marks_of(marks@));
    Some(marks)
}

/// A text without two opening braces in a row has no tags.
pub proof fn lemma_no_tags(s: Seq<char>, i: int)
    requires
        0 <= i,
        forall|k: int| !twice(s, k, '{'),
    ensures
        marks_from(s, i) == Some(Seq::<Mark<Seq<char>>>::empty()),
    decreases s.len() - i,
{
    if i < s.len() {
        lemma_text_behind(s, i);
        lemma_no_tags(s, text_behind(s, i));
    }
}

/// Whether a tag begins somewhere whose sign is this.
pub open spec fn has_sign(s: Seq<char>, sign: char) -> bool {
    exists|j: int| #[trigger]
        twice(s, j, '{') && lead_end(s, j + 2) < s.len() && s[lead_end(s, j + 2)] == sign
}

/// Only a tag with a star begins a part, and only one with an angle bracket includes one.
pub proof fn lemma_mark_signs(s: Seq<char>, i: int)
    requires
        0 <= i,
    ensures
        marks_from(s, i) matches Some(marks) ==> forall|k: int|
            0 <= k < marks.len() ==> {
                &&& #[trigger] marks[k] is Part ==> has_sign(s, '*')
                &&& marks[k] is Inclusion || marks[k] is InclusionBlock ==> has_sign(s, '>')
            },
    decreases s.len() - i,
{
    if i < s.len() {
        lemma_text_behind(s, i);
        if !twice(s, i, '{') {
            lemma_mark_signs(s, text_behind(s, i));
        } else if twice(s, i + 2, '{') {
            lemma_raw_block_end(s, i);
            if let Some(Some(e)) = raw_block_end(s, i) {
                lemma_mark_signs(s, e);
            }
        } else if i + 2 < s.len() && s[i + 2] == '!' {
            lemma_comment_end(s, i);
            if let Some(e) = comment_end(s, i) {
                lemma_mark_signs(s, e);
            }
        } else {
            lemma_close_of(s, i);
            if let Some(Some(e)) = close_of(s, i) {
                lemma_mark_signs(s, e + 2);
                let k = lead_end(s, i + 2);
                if let Some(mark) = tag_mark(s, i, e) {
                    if let Some(rest) = marks_from(s, e + 2) {
                        let marks = seq![mark] + rest;
                        assert forall|j: int| 0 <= j < marks.len() implies {
                            &&& #[trigger] marks[j] is Part ==> has_sign(s, '*')
                            &&& marks[j] is Inclusion || marks[j] is InclusionBlock ==> has_sign(
                                s,
                                '>',
                            )
                        } by {
                            if j > 0 {
                                assert(marks[j] == rest[j - 1]);
                            } else {
                                assert(marks[j] == mark);
                                if mark is Part {
                                    assert(s[k] == '*');
                                }
                                if mark is Inclusion || mark is InclusionBlock {
                                    assert(s[k] == '>');
                                }
                            }
                        }
                    }
                }
            }
        }
    }
}

// What ordinary tags mean

proof fn lemma_plain_close(s: Seq<char>, j: int, e: int)
    requires
        0 <= j <= e,
        twice(s, e, '}'),
        forall|k: int|
            j <= k < e ==> #[trigger] s[k] != '"' && s[k] != '\'' && s[k] != '[' && s[k] != '{'
                && s[k] != '}',
    ensures
        tag_close(s, j, Within::Tag) == Some(Some(e)),
    decreases e - j,
{
    if j < e {
        assert(s[j] != '}');
        lemma_plain_close(s, j + 1, e);
    }
}

proof fn lemma_quoted_until(s: Seq<char>, j: int, q: int)
    requires
        0 <= j <= q < s.len(),
        s[q] == '"',
        forall|k: int| j <= k < q ==> #[trigger] s[k] != '"' && s[k] != '\\',
    ensures
        tag_close(s, j, Within::Quoted('"')) == tag_close(s, q + 1, Within::Tag),
    decreases q - j,
{
    if j < q {
        assert(s[j] != '"' && s[j] != '\\');
        lemma_quoted_until(s, j + 1, q);
    }
}

proof fn lemma_plain_until(s: Seq<char>, j: int, q: int)
    requires
        0 <= j <= q < s.len(),
        s[q] == '"',
        forall|k: int|
            j <= k < q ==> #[trigger] s[k] != '"' && s[k] != '\'' && s[k] != '[' && s[k] != '{'
                && s[k] != '}',
    ensures
        tag_close(s, j, Within::Tag) == tag_close(s, q + 1, Within::Quoted('"')),
    decreases q - j,
{
    if j < q {
        assert(s[j] != '}' && s[j] != '"');
        lemma_plain_until(s, j + 1, q);
    }
}

proof fn lemma_no_lead(s: Seq<char>, i: int)
    requires
        0 <= i < s.len(),
        !is_lead(s[i]),
    ensures
        lead_end(s, i) == i,
{
}

/// Text means nothing: the next character is read as if it began the template, unless two braces or
/// a backslash stand here.
pub proof fn lemma_text_means_nothing(s: Seq<char>, i: int)
    requires
        0 <= i < s.len(),
        s[i] != '\\',
        s[i] != '{' || i + 1 >= s.len() || s[i + 1] != '{',
    ensures
        marks_from(s, i) == marks_from(s, i + 1),
        marks_from(s, s.len() as int) == Some(Seq::<Mark<Seq<char>>>::empty()),
{
    lemma_slashes_end(s, i);
}

/// A tag whose sign is none of those for parts and blocks means nothing, whatever stands in it.
pub proof fn lemma_placeholder_means_nothing(s: Seq<char>, i: int, e: int)
    requires
        0 <= i,
        i + 2 < e,
        twice(s, i, '{'),
        twice(s, e, '}'),
        forall|k: int|
            i + 2 <= k < e ==> #[trigger] s[k] != '"' && s[k] != '\'' && s[k] != '[' && s[k] != '{'
                && s[k] != '}',
        s[i + 2] != ' ' && s[i + 2] != '\t' && s[i + 2] != '\n' && s[i + 2] != '\r' && s[i + 2]
            != '~' && s[i + 2] != '#' && s[i + 2] != '!' && s[i + 2] != '*' && s[i + 2] != '>'
            && s[i + 2] != '/',
    ensures
        marks_from(s, i) == marks_from(s, e + 2),
{
    assert(s[i + 2] != '{');
    lemma_no_lead(s, i + 2);
    lemma_plain_close(s, i + 2, e);
    assert(!s.subrange(i + 2, i + 2).contains('#'));
}

/// A tag with an angle bracket and a name includes the part of that name.
pub proof fn lemma_inclusion_is_read(s: Seq<char>, i: int, name: Seq<char>)
    requires
        0 <= i,
        i + 6 + name.len() <= s.len(),
        name.len() > 0,
        forall|k: int|
            0 <= k < name.len() ==> ('a' <= #[trigger] name[k] <= 'z') || ('A' <= name[k] <= 'Z')
                || ('0' <= name[k] <= '9') || name[k] == '-' || name[k] == '_',
        s.subrange(i, i + 6 + name.len()) == seq!['{', '{', '>', ' '] + name + seq!['}', '}'],
    ensures
        match marks_from(s, i + 6 + name.len()) {
            Some(rest) => marks_from(s, i) == Some(seq![Mark::Inclusion(Some(name))] + rest),
            None => marks_from(s, i) is None,
        },
{
    let tag = seq!['{', '{', '>', ' '] + name + seq!['}', '}'];
    let e = i + 4 + name.len();
    assert forall|k: int| 0 <= k < tag.len() implies s[i + k] == #[trigger] tag[k] by {
        assert(s.subrange(i, i + 6 + name.len())[k] == tag[k]);
    }
    assert(s[i + 0] == tag[0] && s[i + 1] == tag[1] && s[i + 2] == tag[2] && s[i + 3] == tag[3]);
    assert(s[i + (4 + name.len())] == tag[4 + name.len() as int]);
    assert(s[i + (5 + name.len())] == tag[5 + name.len() as int]);
    lemma_no_lead(s, i + 2);
    assert forall|k: int| i + 2 <= k < e implies #[trigger] s[k] != '"' && s[k] != '\'' && s[k]
        != '[' && s[k] != '{' && s[k] != '}' by {
        assert(s[i + (k - i)] == tag[k - i]);
        if k >= i + 4 {
            assert(tag[k - i] == name[k - i - 4]);
        }
    }
    lemma_plain_close(s, i + 2, e);
    let rest = s.subrange(i + 3, e);
    assert(rest =~= seq![' '] + name) by {
        assert forall|k: int| 0 <= k < rest.len() implies rest[k] == (seq![' '] + name)[k] by {
            assert(s[i + (k + 3)] == tag[k + 3]);
        }
    }
    lemma_name_alone(rest, name);
    assert(!s.subrange(i + 2, i + 2).contains('#'));
    reveal_strlit("@partial-block");
    assert(name[0] != "@partial-block"@[0]);
    assert(tag_mark(s, i, e) == Some(Mark::Inclusion(Some(name))));
}

proof fn lemma_name_alone(t: Seq<char>, name: Seq<char>)
    requires
        t == seq![' '] + name,
        name.len() > 0,
        forall|k: int|
            0 <= k < name.len() ==> ('a' <= #[trigger] name[k] <= 'z') || ('A' <= name[k] <= 'Z')
                || ('0' <= name[k] <= '9') || name[k] == '-' || name[k] == '_',
    ensures
        inclusion_name(t) == Some(name),
{
    assert(t[0] == ' ');
    assert(t[1] == name[0]);
    assert(spaces_end(t, 1) == 1);
    assert(spaces_end(t, 0) == 1);
    lemma_name_run(t, 1);
    assert(t.subrange(1, t.len() as int) =~= name);
}

proof fn lemma_name_run(t: Seq<char>, j: int)
    requires
        0 <= j <= t.len(),
        forall|k: int|
            j <= k < t.len() ==> ('a' <= #[trigger] t[k] <= 'z') || ('A' <= t[k] <= 'Z') || ('0'
                <= t[k] <= '9') || t[k] == '-' || t[k] == '_',
    ensures
        name_end(t, j) == t.len(),
    decreases t.len() - j,
{
    if j < t.len() {
        lemma_name_run(t, j + 1);
    }
}

/// A tag with a hash, a star, the word `inline` and a name in quotes begins the part of that name.
pub proof fn lemma_part_is_read(s: Seq<char>, i: int, name: Seq<char>)
    requires
        0 <= i,
        i + 15 + name.len() <= s.len(),
        forall|k: int| 0 <= k < name.len() ==> #[trigger] name[k] != '"' && name[k] != '\\',
        s.subrange(i, i + 15 + name.len()) == seq![
            '{',
            '{',
            '#',
            '*',
            'i',
            'n',
            'l',
            'i',
            'n',
            'e',
            ' ',
            '"',
        ] + name + seq!['"', '}', '}'],
    ensures
        match marks_from(s, i + 15 + name.len()) {
            Some(rest) => marks_from(s, i) == Some(seq![Mark::Part(Some(name))] + rest),
            None => marks_from(s, i) is None,
        },
{
    let front = seq!['{', '{', '#', '*', 'i', 'n', 'l', 'i', 'n', 'e', ' ', '"'];
    let tag = front + name + seq!['"', '}', '}'];
    let n = name.len() as int;
    let e = i + 13 + n;
    assert forall|k: int| 0 <= k < tag.len() implies s[i + k] == #[trigger] tag[k] by {
        assert(s.subrange(i, i + 15 + name.len())[k] == tag[k]);
    }
    assert forall|k: int| 0 <= k < 12 implies s[i + k] == #[trigger] front[k] by {
        assert(s[i + k] == tag[k]);
    }
    assert(s[i + 0] == front[0] && s[i + 1] == front[1] && s[i + 2] == front[2] && s[i + 3]
        == front[3] && s[i + 4] == front[4]);
    assert(s[i + (12 + n)] == tag[12 + n] && s[i + (13 + n)] == tag[13 + n] && s[i + (14 + n)]
        == tag[14 + n]);
    assert(lead_end(s, i + 3) == i + 3);
    assert(lead_end(s, i + 2) == i + 3);
    let k = i + 3;
    assert forall|j: int| k <= j < i + 11 implies #[trigger] s[j] != '"' && s[j] != '\'' && s[j]
        != '[' && s[j] != '{' && s[j] != '}' by {
        assert(s[i + (j - i)] == front[j - i]);
    }
    assert(s[i + 11] == front[11]);
    lemma_plain_until(s, k, i + 11);
    assert forall|j: int| i + 12 <= j < i + 12 + n implies #[trigger] s[j] != '"' && s[j] != '\\' by {
        assert(s[i + (j - i)] == tag[j - i]);
        assert(tag[j - i] == name[j - i - 12]);
    }
    lemma_quoted_until(s, i + 12, i + 12 + n);
    lemma_plain_close(s, e, e);
    assert(close_of(s, i) == Some(Some(e)));
    let rest = s.subrange(k + 1, e);
    let plain = seq!['i', 'n', 'l', 'i', 'n', 'e', ' ', '"'] + name + seq!['"'];
    assert(rest =~= plain) by {
        assert forall|j: int| 0 <= j < rest.len() implies rest[j] == plain[j] by {
            assert(s[i + (j + 4)] == tag[j + 4]);
        }
    }
    lemma_part_name_alone(plain, name);
    assert(s.subrange(i + 2, k)[0] == '#');
    assert(tag_mark(s, i, e) == Some(Mark::Part(Some(name))));
}

proof fn lemma_part_name_alone(t: Seq<char>, name: Seq<char>)
    requires
        t == seq!['i', 'n', 'l', 'i', 'n', 'e', ' ', '"'] + name + seq!['"'],
        forall|k: int| 0 <= k < name.len() ==> #[trigger] name[k] != '"' && name[k] != '\\',
    ensures
        part_name(t) == Some(name),
{
    reveal_strlit("inline");
    let n = name.len() as int;
    assert(t[0] == 'i');
    assert(spaces_end(t, 0) == 0);
    assert(t.subrange(0, 6) =~= "inline"@);
    assert(t[6] == ' ' && t[7] == '"');
    assert(spaces_end(t, 7) == 7);
    assert(spaces_end(t, 6) == 7);
    assert(t[8 + n] == '"');
    assert forall|k: int| 8 <= k < 8 + n implies #[trigger] t[k] != '"' by {
        assert(t[k] == name[k - 8]);
    }
    lemma_char_from(t, 8, '"');
    assert(char_from(t, 8, '"') == Some(8 + n));
    assert(t.subrange(8, 8 + n) =~= name);
    assert(!name.contains('\\'));
}

/// A tag with a slash ends what was begun last.
pub proof fn lemma_end_is_read(s: Seq<char>, i: int, e: int)
    requires
        0 <= i,
        i + 2 < e,
        twice(s, i, '{'),
        s[i + 2] == '/',
        twice(s, e, '}'),
        forall|k: int|
            i + 2 <= k < e ==> #[trigger] s[k] != '"' && s[k] != '\'' && s[k] != '[' && s[k] != '{'
                && s[k] != '}',
    ensures
        match marks_from(s, e + 2) {
            Some(rest) => marks_from(s, i) == Some(seq![Mark::<Seq<char>>::End] + rest),
            None => marks_from(s, i) is None,
        },
{
    lemma_no_lead(s, i + 2);
    lemma_plain_close(s, i + 2, e);
    assert(tag_mark(s, i, e) == Some(Mark::<Seq<char>>::End));
}

/// A tag with a hash that neither begins nor includes a part begins a block.
pub proof fn lemma_block_is_read(s: Seq<char>, i: int, e: int)
    requires
        0 <= i,
        i + 3 < e,
        twice(s, i, '{'),
        s[i + 2] == '#',
        twice(s, e, '}'),
        forall|k: int|
            i + 3 <= k < e ==> #[trigger] s[k] != '"' && s[k] != '\'' && s[k] != '[' && s[k] != '{'
                && s[k] != '}',
        s[i + 3] != ' ' && s[i + 3] != '\t' && s[i + 3] != '\n' && s[i + 3] != '\r' && s[i + 3]
            != '~' && s[i + 3] != '#' && s[i + 3] != '*' && s[i + 3] != '>' && s[i + 3] != '/',
    ensures
        match marks_from(s, e + 2) {
            Some(rest) => marks_from(s, i) == Some(seq![Mark::<Seq<char>>::Block] + rest),
            None => marks_from(s, i) is None,
        },
{
    assert(s[i + 3] != '{');
    lemma_no_lead(s, i + 3);
    assert(lead_end(s, i + 2) == i + 3);
    lemma_plain_close(s, i + 3, e);
    assert(s.subrange(i + 2, i + 3)[0] == '#');
    assert(tag_mark(s, i, e) == Some(Mark::<Seq<char>>::Block));
}

/// A tag with a hash, an angle bracket and a name includes the part of that name and begins a block.
pub proof fn lemma_inclusion_block_is_read(s: Seq<char>, i: int, name: Seq<char>)
    requires
        0 <= i,
        i + 7 + name.len() <= s.len(),
        name.len() > 0,
        forall|k: int|
            0 <= k < name.len() ==> ('a' <= #[trigger] name[k] <= 'z') || ('A' <= name[k] <= 'Z')
                || ('0' <= name[k] <= '9') || name[k] == '-' || name[k] == '_',
        s.subrange(i, i + 7 + name.len()) == seq!['{', '{', '#', '>', ' '] + name + seq!['}', '}'],
    ensures
        match marks_from(s, i + 7 + name.len()) {
            Some(rest) => marks_from(s, i) == Some(seq![Mark::InclusionBlock(Some(name))] + rest),
            None => marks_from(s, i) is None,
        },
{
    let tag = seq!['{', '{', '#', '>', ' '] + name + seq!['}', '}'];
    let e = i + 5 + name.len();
    assert forall|k: int| 0 <= k < tag.len() implies s[i + k] == #[trigger] tag[k] by {
        assert(s.subrange(i, i + 7 + name.len())[k] == tag[k]);
    }
    assert(s[i + 0] == tag[0] && s[i + 1] == tag[1] && s[i + 2] == tag[2] && s[i + 3] == tag[3]
        && s[i + 4] == tag[4]);
    assert(s[i + (5 + name.len())] == tag[5 + name.len() as int]);
    assert(s[i + (6 + name.len())] == tag[6 + name.len() as int]);
    lemma_no_lead(s, i + 3);
    assert(lead_end(s, i + 2) == i + 3);
    assert forall|k: int| i + 3 <= k < e implies #[trigger] s[k] != '"' && s[k] != '\'' && s[k]
        != '[' && s[k] != '{' && s[k] != '}' by {
        assert(s[i + (k - i)] == tag[k - i]);
        if k >= i + 5 {
            assert(tag[k - i] == name[k - i - 5]);
        }
    }
    lemma_plain_close(s, i + 3, e);
    let rest = s.subrange(i + 4, e);
    assert(rest =~= seq![' '] + name) by {
        assert forall|k: int| 0 <= k < rest.len() implies rest[k] == (seq![' '] + name)[k] by {
            assert(s[i + (k + 4)] == tag[k + 4]);
        }
    }
    lemma_name_alone(rest, name);
    assert(s.subrange(i + 2, i + 3)[0] == '#');
    reveal_strlit("@partial-block");
    assert(name[0] != "@partial-block"@[0]);
    assert(tag_mark(s, i, e) == Some(Mark::InclusionBlock(Some(name))));
}

/// A comment means nothing, whatever stands in it: it ends at the next two closing braces, or where
/// it begins with two dashes at the next two dashes with such braces behind them.
pub proof fn lemma_comment_means_nothing(s: Seq<char>, i: int, e: int)
    requires
        0 <= i,
        i + 3 < e,
        twice(s, i, '{'),
        s[i + 2] == '!',
    ensures
        s[i + 3] != '-' && s[i + 3] != ' ' && s[i + 3] != '\t' && s[i + 3] != '\n' && s[i + 3]
            != '\r' && twice(s, e, '}') && (forall|k: int|
            i + 3 <= k < e ==> !#[trigger] twice(s, k, '}')) ==> marks_from(s, i) == marks_from(
            s,
            e + 2,
        ),
        s[i + 3] == '-' && s[i + 4] == '-' && i + 5 <= e && twice(s, e, '-') && twice(s, e + 2, '}')
            && (forall|k: int|
            i + 5 <= k < e ==> !(#[trigger] twice(s, k, '-') && twice(s, k + 2, '}')))
            ==> marks_from(s, i) == marks_from(s, e + 4),
{
    if twice(s, e, '}') && (forall|k: int| i + 3 <= k < e ==> !#[trigger] twice(s, k, '}')) {
        lemma_close_is(s, i + 3, e);
    }
    if i + 5 <= e && twice(s, e, '-') && twice(s, e + 2, '}') && (forall|k: int|
        i + 5 <= k < e ==> !(#[trigger] twice(s, k, '-') && twice(s, k + 2, '}'))) {
        lemma_dashes_are(s, i + 5, e);
    }
}

proof fn lemma_close_is(s: Seq<char>, j: int, e: int)
    requires
        0 <= j <= e,
        twice(s, e, '}'),
        forall|k: int| j <= k < e ==> !#[trigger] twice(s, k, '}'),
    ensures
        close_from(s, j) == Some(e),
    decreases e - j,
{
    if j < e {
        assert(!twice(s, j, '}'));
        lemma_close_is(s, j + 1, e);
    }
}

proof fn lemma_dashes_are(s: Seq<char>, j: int, e: int)
    requires
        0 <= j <= e,
        twice(s, e, '-'),
        twice(s, e + 2, '}'),
        forall|k: int| j <= k < e ==> !(#[trigger] twice(s, k, '-') && twice(s, k + 2, '}')),
    ensures
        dashes_from(s, j) == Some(e),
    decreases e - j,
{
    if j < e {
        assert(!(twice(s, j, '-') && twice(s, j + 2, '}')));
        lemma_dashes_are(s, j + 1, e);
    }
}

/// Two braces behind a single backslash begin no tag, and behind two backslashes they do.
pub proof fn lemma_backslashes(s: Seq<char>, i: int)
    requires
        0 <= i,
        i + 2 < s.len(),
        s[i] == '\\',
    ensures
        twice(s, i + 1, '{') && !twice(s, i + 3, '{') ==> marks_from(s, i) == marks_from(s, i + 3),
        s[i + 1] == '\\' && twice(s, i + 2, '{') ==> marks_from(s, i) == marks_from(s, i + 2),
{
    lemma_slashes_end(s, i + 1);
    lemma_slashes_end(s, i + 2);
    assert(slashes_end(s, i) == slashes_end(s, i + 1));
    if s[i + 1] == '\\' {
        assert(slashes_end(s, i + 1) == slashes_end(s, i + 2));
    }
}

/// Braces inside double quotes end no tag: a placeholder with a quoted text in it means nothing.
pub proof fn lemma_quoted_placeholder_means_nothing(s: Seq<char>, i: int, a: int, b: int, e: int)
    requires
        0 <= i,
        i + 2 < a < b < e,
        twice(s, i, '{'),
        twice(s, e, '}'),
        s[a] == '"',
        s[b] == '"',
        forall|k: int|
            i + 2 <= k < a || b < k < e ==> #[trigger] s[k] != '"' && s[k] != '\'' && s[k] != '['
                && s[k] != '{' && s[k] != '}',
        forall|k: int| a < k < b ==> #[trigger] s[k] != '"' && s[k] != '\\',
        s[i + 2] != ' ' && s[i + 2] != '\t' && s[i + 2] != '\n' && s[i + 2] != '\r' && s[i + 2]
            != '~' && s[i + 2] != '#' && s[i + 2] != '!' && s[i + 2] != '*' && s[i + 2] != '>'
            && s[i + 2] != '/',
    ensures
        marks_from(s, i) == marks_from(s, e + 2),
{
    assert(s[i + 2] != '{');
    lemma_no_lead(s, i + 2);
    lemma_plain_until(s, i + 2, a);
    lemma_quoted_until(s, a + 1, b);
    lemma_plain_close(s, b + 1, e);
    assert(!s.subrange(i + 2, i + 2).contains('#'));
}

/// A character stands twice where it stands at an index and at the next one.
pub proof fn lemma_twice(s: Seq<char>, i: int, c: char)
    ensures
        twice(s, i, c) <==> (0 <= i && i + 1 < s.len() && s[i] == c && s[i + 1] == c),
{
}

} // verus!
