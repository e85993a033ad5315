//! File names and the headers that carry them.

use vstd::prelude::*;
use crate::text::{chars_of, concat3};

verus! {

/// A character that a file name may hold: a letter or a digit of ASCII, a dot, an underscore or a
/// hyphen.
pub open spec fn safe_char(c: char) -> bool {
    ||| '0' <= c <= '9'
    ||| 'A' <= c <= 'Z'
    ||| 'a' <= c <= 'z'
    ||| c == '.'
    ||| c == '_'
    ||| c == '-'
}

/// The file name that is used for `name`: every character that a file name may not hold becomes an
/// underscore, and an empty name becomes `document.pdf`.
pub open spec fn sanitized(name: Seq<char>) -> Seq<char> {
    if name.len() == 0 {
        "document.pdf"@
    } else {
        name.map_values(
            |c: char|
                if safe_char(c) {
                    c
                } else {
                    '_'
                },
        )
    }
}

/// The file name that is used for `name`.
pub fn sanitize_filename(name: &str) -> (out: String)
    ensures
        out@ == sanitized(name@),
{
    let v = chars_of(name);
    if v.len() == 0 {
        return "document.pdf".to_owned();
    }
    let mut out = String::new();
    let mut i: usize = 0;
    while i < v.len()
        invariant
            i <= v@.len(),
            v@ == name@,
            v@.len() > 0,
            out@ == sanitized(name@).take(i as int),
        decreases v@.len() - i,
    {
        let c = v[i];
        let safe = ('0' <= c && c <= '9') || ('A' <= c && c <= 'Z') || ('a' <= c && c <= 'z') || c
            == '.' || c == '_' || c == '-';
        if safe {
            out.push(c);
        } else {
            out.push('_');
        }
        assert(sanitized(name@).take(i as int).push(sanitized(name@)[i as int])
            == sanitized(name@).take(i + 1));
        i = i + 1;
    }
    assert(sanitized(name@).take(i as int) == sanitized(name@));
    out
}

/// A file name is not empty and holds only characters that it may hold; a name that is not empty
/// keeps its length.
pub proof fn lemma_sanitized_is_safe(name: Seq<char>)
    ensures
        sanitized(name).len() > 0,
        forall|i: int| 0 <= i < sanitized(name).len() ==> safe_char(#[trigger] sanitized(name)[i]),
        name.len() > 0 ==> sanitized(name).len() == name.len(),
{
    reveal_strlit("document.pdf");
}

/// A file name that holds only characters that it may hold is used as it is.
pub proof fn lemma_safe_name_is_kept(name: Seq<char>)
    requires
        name.len() > 0,
        forall|i: int| 0 <= i < name.len() ==> safe_char(#[trigger] name[i]),
    ensures
        sanitized(name) == name,
{
    assert(sanitized(name) =~= name);
}

/// A file name that was used once is used again as it is.
pub proof fn lemma_sanitized_again(name: Seq<char>)
    ensures
        sanitized(sanitized(name)) == sanitized(name),
{
    lemma_sanitized_is_safe(name);
    lemma_safe_name_is_kept(sanitized(name));
}

/// The header that offers a file under a name.
pub open spec fn attachment(filename: Seq<char>) -> Seq<char> {
    "attachment; filename=\""@ + filename + "\""@
}

/// The header that offers a file under a name.
pub fn content_disposition(filename: &str) -> (out: String)
    ensures
        out@ == attachment(filename@),
{
    concat3("attachment; filename=\"", filename, "\"")
}

/// Whether a header can carry the text: it holds no control character but the tab.
pub open spec fn header_text(s: Seq<char>) -> bool {
    forall|i: int| 0 <= i < s.len() ==> header_char(#[trigger] s[i])
}

/// Whether a header can carry the character.
pub open spec fn header_char(c: char) -> bool {
    (c as u32 >= 0x20 && c as u32 != 0x7f) || c as u32 == 0x09
}

/// Whether a header can carry the text.
pub fn is_header_text(s: &str) -> (b: bool)
    ensures
        b == header_text(s@),
{
    let v = chars_of(s);
    let mut i: usize = 0;
    while i < v.len()
        invariant
            i <= v@.len(),
            v@ == s@,
            forall|j: int| 0 <= j < i ==> header_char(#[trigger] v@[j]),
        decreases v@.len() - i,
    {
        let u: u32 = v[i] as u32;
        if !((u >= 0x20 && u != 0x7f) || u == 0x09) {
            assert(!header_char(s@[i as int]));
            return false;
        }
        i = i + 1;
    }
    true
}

/// Whether the quotation mark occurs in the text.
pub open spec fn has_quote(s: Seq<char>) -> bool {
    exists|i: int| 0 <= i < s.len() && #[trigger] s[i] == '"'
}

/// A header can carry the offer of a file under a name that was made safe, and the name does not
/// end the quotation that it stands in.
pub proof fn lemma_attachment(filename: Seq<char>)
    requires
        forall|i: int| 0 <= i < filename.len() ==> safe_char(#[trigger] filename[i]),
    ensures
        header_text(attachment(filename)),
        !has_quote(filename),
{
    reveal_strlit("attachment; filename=\"");
    reveal_strlit("\"");
    let a = "attachment; filename=\""@;
    let s = attachment(filename);
    assert forall|i: int| 0 <= i < s.len() implies header_char(#[trigger] s[i]) by {
        if i < a.len() {
            assert(s[i] == a[i]);
        } else if i < a.len() + filename.len() {
            assert(s[i] == filename[i - a.len()]);
        }
    }
}

// What holds of all of this

/// A file name keeps the letters and digits of ASCII, the dots, the underscores and the hyphens of
/// the name in their places, and has an underscore in the place of every other character; an empty
/// name becomes `document.pdf`.
pub proof fn lemma_sanitized_characters(name: Seq<char>)
    ensures
        name.len() == 0 ==> sanitized(name) == "document.pdf"@,
        name.len() > 0 ==> sanitized(name).len() == name.len(),
        forall|i: int|
            0 <= i < name.len() ==> #[trigger] sanitized(name)[i] == if ('0' <= name[i] <= '9')
                || ('A' <= name[i] <= 'Z') || ('a' <= name[i] <= 'z') || name[i] == '.' || name[i]
                == '_' || name[i] == '-' {
                name[i]
            } else {
                '_'
            },
{
}

/// The header offers a file under the whole name, in quotation marks.
pub proof fn lemma_attachment_names(filename: Seq<char>)
    ensures
        attachment(filename) == "attachment; filename=\""@ + filename + seq!['"'],
{
    reveal_strlit("\"");
    assert("\""@ =~= seq!['"']);
}

/// A header carries every text without control characters; the tab is none of these.
pub proof fn lemma_header_characters(s: Seq<char>)
    ensures
        header_text(s) <==> forall|i: int|
            0 <= i < s.len() ==> (#[trigger] s[i] == '\t' || (s[i] >= ' ' && s[i] != '\u{7f}')),
{
    assert forall|i: int| 0 <= i < s.len() implies header_char(#[trigger] s[i]) == (s[i] == '\t' || (
    s[i] >= ' ' && s[i] != '\u{7f}')) by {
        lemma_header_char(s[i]);
    }
}

proof fn lemma_header_char(c: char)
    ensures
        header_char(c) == (c == '\t' || (c >= ' ' && c != '\u{7f}')),
{
}

} // verus!
