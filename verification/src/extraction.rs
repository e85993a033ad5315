//! Reading word processor documents for the search index.

use vstd::prelude::*;
use vstd::utf8::{decode_utf8, valid_utf8};
use crate::archive::{archive_entries, entry_count, entry_data, entry_header, open_archive,
    zip_listing, EntryModel, Listing};
use crate::docx::{is_target, is_docx_xml_template_target};
use crate::encoding::text_from_utf8;
use crate::error::{outcome, ApiError, ApiErrorView};
use crate::text::{chars_of, join_chars, joined, string_of, texts};
use crate::word::{extract_word_text_nodes, node_texts};

verus! {

/// The text in the data of a markup entry; none where the data is no UTF-8.
pub open spec fn data_text(data: Seq<u8>) -> Seq<char> {
    if valid_utf8(data) {
        joined(node_texts(decode_utf8(data)), ' ')
    } else {
        Seq::empty()
    }
}

/// The text in the data of a markup entry; none where the data is no UTF-8.
pub fn markup_text(data: Vec<u8>) -> (text: String)
    ensures
        text@ == data_text(data@),
{
    match text_from_utf8(data) {
        Ok(xml) => extract_word_text_nodes(&xml),
        Err(_) => String::new(),
    }
}

/// The text that an entry adds to the index, or why the document cannot be read.
pub open spec fn index_part(entry: Result<EntryModel, Seq<char>>) -> Result<
    Seq<char>,
    ApiErrorView,
> {
    match entry {
        Err(why) => Err(ApiErrorView::Internal("failed to read DOCX entry: "@ + why)),
        Ok(entry) => if !is_target(entry.name) {
            Ok(Seq::empty())
        } else {
            match entry.data {
                Err(why) => Err(ApiErrorView::Internal("failed to read DOCX XML entry: "@ + why)),
                Ok(data) => Ok(data_text(data)),
            }
        },
    }
}

/// The texts that the first `n` entries add to the index, those that add something, or the first
/// failure among them.
pub open spec fn index_parts(l: Listing, n: nat) -> Result<Seq<Seq<char>>, ApiErrorView>
    decreases n,
{
    if n == 0 {
        Ok(Seq::empty())
    } else {
        match index_parts(l, (n - 1) as nat) {
            Err(error) => Err(error),
            Ok(parts) => match index_part(l[n - 1]) {
                Err(error) => Err(error),
                Ok(text) => Ok(
                    if text.len() > 0 {
                        parts.push(text)
                    } else {
                        parts
                    },
                ),
            },
        }
    }
}

/// The text of a document for the index, or why it cannot be read.
pub open spec fn docx_index(bytes: Seq<u8>) -> Result<Seq<char>, ApiErrorView> {
    match zip_listing(bytes) {
        Err(why) => Err(ApiErrorView::BadRequest("invalid DOCX archive: "@ + why)),
        Ok(l) => match index_parts(l, l.len()) {
            Err(error) => Err(error),
            Ok(parts) => Ok(joined(parts, '\n')),
        },
    }
}

/// The text of a document for the index: the texts of its markup entries, one on each line.
pub fn extract_docx_index_text(docx: &[u8]) -> (res: Result<String, ApiError>)
    ensures
        outcome(res) == docx_index(docx@),
{
    let mut archive = match open_archive(docx) {
        Err(why) => {
            return Err(ApiError::bad_request_with("invalid DOCX archive: ", &why));
        },
        Ok(archive) => archive,
    };
    let ghost l = archive_entries(archive);
    let count = entry_count(&archive);
    let mut parts: Vec<Vec<char>> = Vec::new();
    let mut i: usize = 0;
    assert(texts(parts@) == Seq::<Seq<char>>::empty());
    while i < count
        invariant
            i <= count,
            count == l.len(),
            archive_entries(archive) == l,
            zip_listing(docx@) == Ok::<Listing, Seq<char>>(l),
            index_parts(l, i as nat) == Ok::<Seq<Seq<char>>, ApiErrorView>(texts(parts@)),
        decreases count - i,
    {
        proof {
            if index_part(l[i as int]) is Err {
                lemma_index_parts_stay(l, (i + 1) as nat, l.len());
            }
        }
        let header = match entry_header(&mut archive, i) {
            Err(why) => {
                return Err(ApiError::internal_with("failed to read DOCX entry: ", &why));
            },
            Ok(header) => header,
        };
        if is_docx_xml_template_target(&header.name) {
            let data = match entry_data(&mut archive, i) {
                Err(why) => {
                    return Err(ApiError::internal_with("failed to read DOCX XML entry: ", &why));
                },
                Ok(data) => data,
            };
            let text = chars_of(&markup_text(data));
            if text.len() > 0 {
                assert(texts(parts@.push(text)) == texts(parts@).push(text@));
                parts.push(text);
            }
        }
        i = i + 1;
    }
    let all = join_chars(&parts, '\n');
    Ok(string_of(all.as_slice()))
}

/// A failure among the first entries is the failure of the whole document.
proof fn lemma_index_parts_stay(l: Listing, n: nat, m: nat)
    requires
        n <= m,
        index_parts(l, n) is Err,
    ensures
        index_parts(l, m) == index_parts(l, n),
    decreases m,
{
    if n < m {
        lemma_index_parts_stay(l, n, (m - 1) as nat);
    }
}

// What holds of all of this

/// The text in the data of a markup entry is the texts of its text elements with a space between
/// every two of them; data that is no UTF-8 holds none.
pub proof fn lemma_markup_text(data: Seq<u8>)
    ensures
        valid_utf8(data) ==> data_text(data) == joined(node_texts(decode_utf8(data)), ' '),
        !valid_utf8(data) ==> data_text(data) == Seq::<char>::empty(),
{
}

proof fn lemma_parts_are(l: Listing, lines: Seq<Seq<char>>, n: nat)
    requires
        lines.len() == l.len(),
        n <= l.len(),
        forall|i: int|
            0 <= i < n ==> {
                &&& #[trigger] l[i] matches Ok(entry)
                &&& is_target(entry.name) ==> (entry.data matches Ok(data) && lines[i] == data_text(
                    data,
                ))
                &&& !is_target(entry.name) ==> lines[i].len() == 0
            },
    ensures
        index_parts(l, n) == Ok::<Seq<Seq<char>>, ApiErrorView>(
            lines.take(n as int).filter(|t: Seq<char>| t.len() > 0),
        ),
    decreases n,
{
    reveal(Seq::filter);
    if n == 0 {
        assert(lines.take(0) =~= Seq::<Seq<char>>::empty());
    } else {
        lemma_parts_are(l, lines, (n - 1) as nat);
        assert(lines.take(n as int).drop_last() =~= lines.take(n - 1));
        assert(l[n - 1] is Ok);
    }
}

/// The text of a document is the texts of its markup entries that hold any, in the order of the
/// entries, with a line break between every two of them. `lines` holds the text of each entry.
pub proof fn lemma_document_text(bytes: Seq<u8>, l: Listing, lines: Seq<Seq<char>>)
    requires
        zip_listing(bytes) == Ok::<Listing, Seq<char>>(l),
        lines.len() == l.len(),
        forall|i: int|
            0 <= i < l.len() ==> {
                &&& #[trigger] l[i] matches Ok(entry)
                &&& is_target(entry.name) ==> (entry.data matches Ok(data) && lines[i]
                    == if valid_utf8(data) {
                    joined(node_texts(decode_utf8(data)), ' ')
                } else {
                    Seq::<char>::empty()
                })
                &&& !is_target(entry.name) ==> lines[i].len() == 0
            },
    ensures
        docx_index(bytes) == Ok::<Seq<char>, ApiErrorView>(
            joined(lines.filter(|t: Seq<char>| t.len() > 0), '\n'),
        ),
{
    lemma_parts_are(l, lines, l.len());
    assert(lines.take(l.len() as int) =~= lines);
}

/// A document cannot be read if it is no archive, or for the first entry that cannot be opened or
/// the first markup entry whose data cannot be unpacked.
pub proof fn lemma_document_unreadable(bytes: Seq<u8>, l: Listing, n: int)
    requires
        0 <= n < l.len(),
        forall|i: int|
            0 <= i < n ==> (#[trigger] l[i] matches Ok(entry) && (is_target(entry.name)
                ==> entry.data is Ok)),
    ensures
        zip_listing(bytes) matches Err(why) ==> docx_index(bytes) == Err::<Seq<char>, ApiErrorView>(
            ApiErrorView::BadRequest("invalid DOCX archive: "@ + why),
        ),
        zip_listing(bytes) == Ok::<Listing, Seq<char>>(l) ==> match l[n] {
            Err(why) => docx_index(bytes) == Err::<Seq<char>, ApiErrorView>(
                ApiErrorView::Internal("failed to read DOCX entry: "@ + why),
            ),
            Ok(entry) => is_target(entry.name) ==> (entry.data matches Err(why) ==> docx_index(bytes)
                == Err::<Seq<char>, ApiErrorView>(
                ApiErrorView::Internal("failed to read DOCX XML entry: "@ + why),
            )),
        },
{
    let lines = Seq::new(
        l.len(),
        |i: int|
            if l[i] is Ok && is_target(l[i]->Ok_0.name) && l[i]->Ok_0.data is Ok {
                data_text(l[i]->Ok_0.data->Ok_0)
            } else {
                Seq::<char>::empty()
            },
    );
    lemma_parts_are(l, lines, n as nat);
    if index_part(l[n]) is Err {
        lemma_index_parts_stay(l, (n + 1) as nat, l.len());
    }
}

} // verus!
