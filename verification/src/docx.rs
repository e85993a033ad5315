//! Word processor documents as templates: which are accepted.

use vstd::prelude::*;
use crate::archive::{archive_entries, entry_count, entry_header, open_archive, zip_listing,
    EntryHeader, Listing};
use crate::error::{outcome, ApiError, ApiErrorView};
use crate::search::{begins_with, contains, ends_with, finishes_with, has_part, lemma_occurs_at,
    occurs_at, starts_with};
use crate::text::{chars_of, same_text};

verus! {

// Names of entries

/// A path that could lead out of the place where an archive is unpacked: empty, absolute, with a
/// step upwards or with a drive.
pub open spec fn unsafe_path(path: Seq<char>) -> bool {
    ||| path.len() == 0
    ||| path[0] == '/'
    ||| path[0] == '\\'
    ||| has_part(path, ".."@)
    ||| path.contains(':')
}

/// Whether the path could lead out of the place where an archive is unpacked.
pub fn is_unsafe_archive_path(path: &str) -> (b: bool)
    ensures
        b == unsafe_path(path@),
{
    let v = chars_of(path);
    if v.len() == 0 || v[0] == '/' || v[0] == '\\' || contains(path, "..") {
        return true;
    }
    let mut i: usize = 0;
    while i < v.len()
        invariant
            i <= v@.len(),
            v@ == path@,
            forall|j: int| 0 <= j < i ==> v@[j] != ':',
        decreases v@.len() - i,
    {
        if v[i] == ':' {
            assert(path@[i as int] == ':');
            return true;
        }
        i = i + 1;
    }
    false
}

/// The entries whose placeholders are filled in: the XML files of the main part.
pub open spec fn is_target(name: Seq<char>) -> bool {
    begins_with(name, "word/"@) && finishes_with(name, ".xml"@)
}

/// Whether the placeholders of the entry are filled in.
pub fn is_docx_xml_template_target(name: &str) -> (b: bool)
    ensures
        b == is_target(name@),
{
    starts_with(name, "word/") && ends_with(name, ".xml")
}

// Checking

/// The greatest size that all entries of a template may have together when unpacked.
pub const MAX_UNPACKED: u64 = 52_428_800;

/// What has been seen of the entries of a template so far.
pub struct DocxCheck {
    pub has_content_types: bool,
    pub has_document_xml: bool,
    pub total_unpacked: u64,
}

/// `a + b`, or the greatest `u64` where that is greater.
pub open spec fn capped_sum(a: u64, b: u64) -> u64 {
    if a + b > u64::MAX {
        u64::MAX
    } else {
        (a + b) as u64
    }
}

impl DocxCheck {
    /// Nothing seen yet.
    pub fn new() -> (check: DocxCheck)
        ensures
            !check.has_content_types,
            !check.has_document_xml,
            check.total_unpacked == 0,
    {
        DocxCheck { has_content_types: false, has_document_xml: false, total_unpacked: 0 }
    }

    /// Takes note of the next entry, or says why the template is refused.
    pub fn note(&mut self, entry: &Result<EntryHeader, String>) -> (res: Result<(), ApiError>)
        ensures
            match *entry {
                Err(why) => outcome(res) == Err::<(), ApiErrorView>(
                    ApiErrorView::BadRequest("invalid DOCX archive entry: "@ + why@),
                ) && *final(self) == *old(self),
                Ok(header) => if unsafe_path(header.name@) {
                    outcome(res) == Err::<(), ApiErrorView>(
                        ApiErrorView::BadRequest("invalid DOCX: unsafe archive path"@),
                    ) && *final(self) == *old(self)
                } else {
                    &&& final(self).has_content_types == (old(self).has_content_types
                        || header.name@ == "[Content_Types].xml"@)
                    &&& final(self).has_document_xml == (old(self).has_document_xml || header.name@
                        == "word/document.xml"@)
                    &&& final(self).total_unpacked == capped_sum(
                        old(self).total_unpacked,
                        header.size,
                    )
                    &&& outcome(res) == if final(self).total_unpacked > MAX_UNPACKED {
                        Err::<(), ApiErrorView>(
                            ApiErrorView::BadRequest(
                                "invalid DOCX: uncompressed size is too large"@,
                            ),
                        )
                    } else {
                        Ok(())
                    }
                },
            },
    {
        let header = match entry {
            Err(why) => {
                return Err(ApiError::bad_request_with("invalid DOCX archive entry: ", why));
            },
            Ok(header) => header,
        };
        if is_unsafe_archive_path(&header.name) {
            return Err(ApiError::bad_request("invalid DOCX: unsafe archive path"));
        }
        if same_text(&header.name, "[Content_Types].xml") {
            self.has_content_types = true;
        }
        if same_text(&header.name, "word/document.xml") {
            self.has_document_xml = true;
        }
        self.total_unpacked = self.total_unpacked.saturating_add(header.size);
        if self.total_unpacked > MAX_UNPACKED {
            return Err(ApiError::bad_request("invalid DOCX: uncompressed size is too large"));
        }
        Ok(())
    }

    /// The verdict after the last entry.
    pub fn finish(&self) -> (res: Result<(), ApiError>)
        ensures
            outcome(res) == if self.has_content_types && self.has_document_xml {
                Ok(())
            } else {
                Err::<(), ApiErrorView>(
                    ApiErrorView::BadRequest("invalid DOCX: required DOCX entries are missing"@),
                )
            },
    {
        if !self.has_content_types || !self.has_document_xml {
            return Err(ApiError::bad_request("invalid DOCX: required DOCX entries are missing"));
        }
        Ok(())
    }
}

/// The sizes of the first `n` entries together.
pub open spec fn total_size(l: Listing, n: nat) -> nat
    decreases n,
{
    if n == 0 {
        0
    } else {
        total_size(l, (n - 1) as nat) + match l[n - 1] {
            Ok(entry) => entry.size as nat,
            Err(_) => 0,
        }
    }
}

/// Why the entry at `i` makes a template unacceptable, if it does.
pub open spec fn entry_fault(l: Listing, i: int) -> Option<ApiErrorView> {
    match l[i] {
        Err(why) => Some(ApiErrorView::BadRequest("invalid DOCX archive entry: "@ + why)),
        Ok(entry) => if unsafe_path(entry.name) {
            Some(ApiErrorView::BadRequest("invalid DOCX: unsafe archive path"@))
        } else if total_size(l, (i + 1) as nat) > MAX_UNPACKED {
            Some(ApiErrorView::BadRequest("invalid DOCX: uncompressed size is too large"@))
        } else {
            None
        },
    }
}

/// The first fault among the first `n` entries.
pub open spec fn first_fault(l: Listing, n: nat) -> Option<ApiErrorView>
    decreases n,
{
    if n == 0 {
        None
    } else {
        match first_fault(l, (n - 1) as nat) {
            Some(fault) => Some(fault),
            None => entry_fault(l, n - 1),
        }
    }
}

/// Whether one of the first `n` entries has this name.
pub open spec fn has_entry(l: Listing, name: Seq<char>, n: nat) -> bool {
    exists|i: int| 0 <= i < n && i < l.len() && (#[trigger] l[i] matches Ok(entry) && entry.name == name)
}

/// What a template with these entries comes to: the first fault of an entry, or the fault that an
/// entry is missing, or none.
pub open spec fn listing_check(l: Listing) -> Result<(), ApiErrorView> {
    match first_fault(l, l.len()) {
        Some(fault) => Err(fault),
        None => if has_entry(l, "[Content_Types].xml"@, l.len()) && has_entry(
            l,
            "word/document.xml"@,
            l.len(),
        ) {
            Ok(())
        } else {
            Err(ApiErrorView::BadRequest("invalid DOCX: required DOCX entries are missing"@))
        },
    }
}

/// What a template comes to.
pub open spec fn docx_check(bytes: Seq<u8>) -> Result<(), ApiErrorView> {
    if bytes.len() < 4 || bytes[0] != 0x50 || bytes[1] != 0x4b {
        Err(ApiErrorView::BadRequest("invalid DOCX: file is not a ZIP container"@))
    } else {
        match zip_listing(bytes) {
            Err(why) => Err(ApiErrorView::BadRequest("invalid DOCX archive: "@ + why)),
            Ok(l) => listing_check(l),
        }
    }
}

/// Refuses what is no acceptable template.
pub fn validate_docx_template(bytes: &[u8]) -> (res: Result<(), ApiError>)
    ensures
        outcome(res) == docx_check(bytes@),
{
    if bytes.len() < 4 || bytes[0] != 0x50 || bytes[1] != 0x4b {
        return Err(ApiError::bad_request("invalid DOCX: file is not a ZIP container"));
    }
    let mut archive = match open_archive(bytes) {
        Err(why) => {
            return Err(ApiError::bad_request_with("invalid DOCX archive: ", &why));
        },
        Ok(archive) => archive,
    };
    let ghost l = archive_entries(archive);
    let count = entry_count(&archive);
    let mut check = DocxCheck::new();
    let mut i: usize = 0;
    while i < count
        invariant
            i <= count,
            count == l.len(),
            archive_entries(archive) == l,
            zip_listing(bytes@) == Ok::<Listing, Seq<char>>(l),
            bytes@.len() >= 4,
            bytes@[0] == 0x50,
            bytes@[1] == 0x4b,
            first_fault(l, i as nat) is None,
            check.total_unpacked == total_size(l, i as nat),
            check.total_unpacked <= MAX_UNPACKED,
            check.has_content_types == has_entry(l, "[Content_Types].xml"@, i as nat),
            check.has_document_xml == has_entry(l, "word/document.xml"@, i as nat),
        decreases count - i,
    {
        let entry = entry_header(&mut archive, i);
        let noted = check.note(&entry);
        proof {
            lemma_has_entry_step(l, "[Content_Types].xml"@, i as nat);
            lemma_has_entry_step(l, "word/document.xml"@, i as nat);
            if entry_fault(l, i as int) is Some {
                lemma_first_fault_stays(l, (i + 1) as nat, l.len());
            }
        }
        match noted {
            Err(error) => {
                return Err(error);
            },
            Ok(_) => {},
        }
        i = i + 1;
    }
    check.finish()
}

proof fn lemma_has_entry_step(l: Listing, name: Seq<char>, n: nat)
    requires
        n < l.len(),
    ensures
        has_entry(l, name, n + 1) == (has_entry(l, name, n) || (l[n as int] matches Ok(entry)
            && entry.name == name)),
{
    if has_entry(l, name, n) {
        let i = choose|i: int|
            0 <= i < n && i < l.len() && (#[trigger] l[i] matches Ok(entry) && entry.name == name);
        assert(0 <= i < n + 1 && i < l.len() && l[i] is Ok);
    }
    if l[n as int] matches Ok(entry) && entry.name == name {
        assert(has_entry(l, name, n + 1));
    }
}

/// A fault among the first entries is the fault of all.
proof fn lemma_first_fault_stays(l: Listing, n: nat, m: nat)
    requires
        n <= m,
        first_fault(l, n) is Some,
    ensures
        first_fault(l, m) == first_fault(l, n),
    decreases m,
{
    if n < m {
        lemma_first_fault_stays(l, n, (m - 1) as nat);
    }
}

// What holds of accepted templates

/// Whether every entry can be opened and stays where an archive is unpacked.
pub open spec fn all_plain(l: Listing) -> bool {
    forall|i: int| 0 <= i < l.len() ==> (#[trigger] l[i] matches Ok(entry) && !unsafe_path(entry.name))
}

proof fn lemma_no_fault(l: Listing, n: nat, i: int)
    requires
        first_fault(l, n) is None,
        0 <= i < n,
    ensures
        entry_fault(l, i) is None,
    decreases n,
{
    if i < n - 1 {
        lemma_no_fault(l, (n - 1) as nat, i);
    }
}

/// A template that passed the check is an archive whose entries can all be opened, do not lead out
/// of it, are not too large together, and among which the two are that a document needs.
pub proof fn lemma_checked_template(template: Seq<u8>)
    requires
        docx_check(template) is Ok,
    ensures
        zip_listing(template) matches Ok(l) && all_plain(l) && total_size(l, l.len())
            <= MAX_UNPACKED && has_entry(l, "[Content_Types].xml"@, l.len()) && has_entry(
            l,
            "word/document.xml"@,
            l.len(),
        ),
{
    let l = zip_listing(template)->Ok_0;
    assert forall|i: int| 0 <= i < l.len() implies (#[trigger] l[i] matches Ok(entry)
        && !unsafe_path(entry.name)) by {
        lemma_no_fault(l, l.len(), i);
    }
    if l.len() > 0 {
        lemma_no_fault(l, l.len(), l.len() - 1);
    }
}

/// Entries that can all be opened and stay where they are unpacked can only be too large.
pub proof fn lemma_only_size_fault(l: Listing, n: nat)
    requires
        all_plain(l),
        n <= l.len(),
    ensures
        first_fault(l, n) matches Some(error) ==> error == ApiErrorView::BadRequest(
            "invalid DOCX: uncompressed size is too large"@,
        ),
    decreases n,
{
    if n > 0 {
        lemma_only_size_fault(l, (n - 1) as nat);
        assert(l[n - 1] is Ok);
    }
}

/// An entry is still there when the names stay.
pub proof fn lemma_entry_kept(l: Listing, made: Listing, name: Seq<char>)
    requires
        made.len() == l.len(),
        forall|i: int|
            0 <= i < l.len() ==> (#[trigger] l[i] matches Ok(entry) && (made[i] matches Ok(other)
                && other.name == entry.name)),
        has_entry(l, name, l.len()),
    ensures
        has_entry(made, name, made.len()),
{
    let i = choose|i: int|
        0 <= i < l.len() && i < l.len() && (#[trigger] l[i] matches Ok(entry) && entry.name == name);
    assert(l[i] is Ok);
    assert(made[i] is Ok);
}

/// A path is refused if it is empty, begins with a slash or a backslash, or holds a colon or two
/// dots in a row, and for nothing else.
pub proof fn lemma_unsafe_path(path: Seq<char>)
    ensures
        unsafe_path(path) <==> {
            ||| path.len() == 0
            ||| path[0] == '/'
            ||| path[0] == '\\'
            ||| exists|i: int| 0 <= i < path.len() && #[trigger] path[i] == ':'
            ||| exists|i: int, j: int|
                0 <= i && j == i + 1 && j < path.len() && #[trigger] path[i] == '.'
                    && #[trigger] path[j] == '.'
        },
{
    reveal_strlit("..");
    if has_part(path, ".."@) {
        let i = choose|i: int| occurs_at(path, ".."@, i);
        lemma_occurs_at(path, ".."@, i);
        assert(".."@[0] == '.' && ".."@[1] == '.');
        assert(path[i + 0] == '.' && path[i + 1] == '.');
    }
    if exists|i: int, j: int|
        0 <= i && j == i + 1 && j < path.len() && #[trigger] path[i] == '.' && #[trigger] path[j]
            == '.' {
        let (i, j) = choose|i: int, j: int|
            0 <= i && j == i + 1 && j < path.len() && #[trigger] path[i] == '.'
                && #[trigger] path[j] == '.';
        assert(path.subrange(i, i + 2) =~= ".."@);
        assert(occurs_at(path, ".."@, i));
    }
    if exists|i: int| 0 <= i < path.len() && #[trigger] path[i] == ':' {
        let i = choose|i: int| 0 <= i < path.len() && #[trigger] path[i] == ':';
        assert(path.contains(':'));
    }
}

/// The entries that are filled in are those whose names begin with `word/` and end with `.xml`.
pub proof fn lemma_target(name: Seq<char>)
    ensures
        is_target(name) <==> exists|middle: Seq<char>|
            name == #[trigger] ("word/"@ + middle + ".xml"@),
{
    reveal_strlit("word/");
    reveal_strlit(".xml");
    let a = "word/"@;
    let b = ".xml"@;
    if is_target(name) {
        if name.len() < 9 {
            let at = name.len() - 4;
            assert(name.subrange(at, at + 4)[0] == '.');
            if at < 5 {
                assert(name.subrange(0, 5)[at] == a[at]);
                assert(name[at] == '.');
            }
        }
        let middle = name.subrange(5, name.len() - 4);
        assert(name =~= a + middle + b) by {
            assert(name.subrange(0, 5) == a);
            assert(name.subrange(name.len() - 4, name.len() as int) == b);
            assert forall|i: int| 0 <= i < name.len() implies name[i] == (a + middle + b)[i] by {
                if i < 5 {
                    assert(name.subrange(0, 5)[i] == a[i]);
                } else if i >= name.len() - 4 {
                    let k = i - (name.len() - 4);
                    assert(name.subrange(name.len() - 4, name.len() as int)[k] == b[k]);
                }
            }
        }
    }
    if exists|middle: Seq<char>| name == #[trigger] (a + middle + b) {
        let middle = choose|middle: Seq<char>| name == #[trigger] (a + middle + b);
        assert(name.subrange(0, 5) =~= a);
        assert(name.subrange(name.len() - 4, name.len() as int) =~= b);
    }
}

proof fn lemma_total_size(l: Listing, upto: Seq<nat>, n: nat)
    requires
        n <= l.len(),
        upto.len() == l.len() + 1,
        upto[0] == 0,
        forall|i: int| 0 <= i < n ==> #[trigger] l[i] is Ok,
        forall|i: int, j: int|
            0 <= i < n && j == i + 1 ==> #[trigger] upto[j] == #[trigger] upto[i] + l[i]->Ok_0.size,
    ensures
        total_size(l, n) == upto[n as int],
    decreases n,
{
    if n > 0 {
        lemma_total_size(l, upto, (n - 1) as nat);
        assert(l[n - 1] is Ok);
        assert(upto[n as int] == upto[n - 1] + l[n - 1]->Ok_0.size);
    }
}

proof fn lemma_no_fault_yet(l: Listing, upto: Seq<nat>, n: nat)
    requires
        n <= l.len(),
        upto.len() == l.len() + 1,
        upto[0] == 0,
        forall|i: int|
            0 <= i < n ==> (#[trigger] l[i] matches Ok(entry) && !unsafe_path(entry.name)),
        forall|i: int, j: int|
            0 <= i < n && j == i + 1 ==> #[trigger] upto[j] == #[trigger] upto[i] + l[i]->Ok_0.size,
        upto[n as int] <= 52_428_800,
    ensures
        first_fault(l, n) is None,
    decreases n,
{
    if n > 0 {
        assert(l[n - 1] is Ok);
        assert(upto[n as int] == upto[n - 1] + l[n - 1]->Ok_0.size);
        assert forall|i: int| 0 <= i < n implies #[trigger] l[i] is Ok by {}
        lemma_no_fault_yet(l, upto, (n - 1) as nat);
        lemma_total_size(l, upto, n);
    }
}

/// A template is accepted if it is an archive whose entries can all be opened, whose names are not
/// empty, do not begin with a slash or a backslash and hold neither a colon nor two dots in a row,
/// whose sizes come to at most 50 MiB, and among which are the list of content types and the main
/// document. `upto` holds the sizes added up, entry by entry.
pub proof fn lemma_template_is_accepted(
    bytes: Seq<u8>,
    l: Listing,
    upto: Seq<nat>,
    types: int,
    document: int,
)
    requires
        bytes.len() >= 4,
        bytes[0] == 0x50,
        bytes[1] == 0x4b,
        zip_listing(bytes) == Ok::<Listing, Seq<char>>(l),
        forall|i: int|
            0 <= i < l.len() ==> {
            &&& #[trigger] l[i] matches Ok(entry)
            &&& entry.name.len() > 0
            &&& entry.name[0] != '/'
            &&& entry.name[0] != '\\'
            &&& forall|j: int| 0 <= j < entry.name.len() ==> #[trigger] entry.name[j] != ':'
            &&& forall|j: int, k: int|
                0 <= j && k == j + 1 && k < entry.name.len() ==> !(#[trigger] entry.name[j] == '.'
                    && #[trigger] entry.name[k] == '.')
            },
        upto.len() == l.len() + 1,
        upto[0] == 0,
        forall|i: int, j: int|
            0 <= i < l.len() && j == i + 1 ==> #[trigger] upto[j] == #[trigger] upto[i]
                + l[i]->Ok_0.size,
        upto.last() <= 52_428_800,
        0 <= types < l.len(),
        l[types]->Ok_0.name == "[Content_Types].xml"@,
        0 <= document < l.len(),
        l[document]->Ok_0.name == "word/document.xml"@,
    ensures
        docx_check(bytes) is Ok,
{
    assert forall|i: int| 0 <= i < l.len() implies (#[trigger] l[i] matches Ok(entry)
        && !unsafe_path(entry.name)) by {
        lemma_unsafe_path(l[i]->Ok_0.name);
    }
    lemma_no_fault_yet(l, upto, l.len());
    assert(l[types] is Ok && l[document] is Ok);
}

/// An accepted template is an archive whose entries can all be opened, whose names are not empty,
/// do not begin with a slash or a backslash and hold neither a colon nor two dots in a row, whose
/// sizes come to at most 50 MiB, and among which are the list of content types and the main
/// document.
pub proof fn lemma_template_was_accepted(bytes: Seq<u8>, l: Listing, upto: Seq<nat>)
    requires
        docx_check(bytes) is Ok,
        zip_listing(bytes) == Ok::<Listing, Seq<char>>(l),
        upto.len() == l.len() + 1,
        upto[0] == 0,
        forall|i: int, j: int|
            0 <= i < l.len() && j == i + 1 ==> #[trigger] upto[j] == #[trigger] upto[i]
                + l[i]->Ok_0.size,
    ensures
        bytes.len() >= 4,
        bytes[0] == 0x50,
        bytes[1] == 0x4b,
        forall|i: int|
            0 <= i < l.len() ==> {
            &&& #[trigger] l[i] matches Ok(entry)
            &&& entry.name.len() > 0
            &&& entry.name[0] != '/'
            &&& entry.name[0] != '\\'
            &&& forall|j: int| 0 <= j < entry.name.len() ==> #[trigger] entry.name[j] != ':'
            &&& forall|j: int, k: int|
                0 <= j && k == j + 1 && k < entry.name.len() ==> !(#[trigger] entry.name[j] == '.'
                    && #[trigger] entry.name[k] == '.')
            },
        upto.last() <= 52_428_800,
        exists|i: int|
            0 <= i < l.len() && (#[trigger] l[i])->Ok_0.name == "[Content_Types].xml"@,
        exists|i: int| 0 <= i < l.len() && (#[trigger] l[i])->Ok_0.name == "word/document.xml"@,
{
    lemma_checked_template(bytes);
    assert forall|i: int| 0 <= i < l.len() implies {
            &&& #[trigger] l[i] matches Ok(entry)
            &&& entry.name.len() > 0
            &&& entry.name[0] != '/'
            &&& entry.name[0] != '\\'
            &&& forall|j: int| 0 <= j < entry.name.len() ==> #[trigger] entry.name[j] != ':'
            &&& forall|j: int, k: int|
                0 <= j && k == j + 1 && k < entry.name.len() ==> !(#[trigger] entry.name[j] == '.'
                    && #[trigger] entry.name[k] == '.')
            } by {
        assert(l[i] is Ok);
        lemma_unsafe_path(l[i]->Ok_0.name);
    }
    assert forall|i: int| 0 <= i < l.len() implies #[trigger] l[i] is Ok by {}
    lemma_total_size(l, upto, l.len());
}

/// The first entry at fault decides why a template is refused: one that cannot be opened, one whose
/// name is refused, or one with which the sizes come to more than 50 MiB.
pub proof fn lemma_template_is_refused(bytes: Seq<u8>, l: Listing, upto: Seq<nat>, n: int)
    requires
        bytes.len() >= 4,
        bytes[0] == 0x50,
        bytes[1] == 0x4b,
        zip_listing(bytes) == Ok::<Listing, Seq<char>>(l),
        0 <= n < l.len(),
        forall|i: int|
            0 <= i < n ==> (#[trigger] l[i] matches Ok(entry) && !unsafe_path(entry.name)),
        upto.len() == l.len() + 1,
        upto[0] == 0,
        forall|i: int, j: int|
            0 <= i <= n && j == i + 1 ==> #[trigger] upto[j] == #[trigger] upto[i]
                + l[i]->Ok_0.size,
        upto[n] <= 52_428_800,
    ensures
        match l[n] {
            Err(why) => docx_check(bytes) == Err::<(), ApiErrorView>(
                ApiErrorView::BadRequest("invalid DOCX archive entry: "@ + why),
            ),
            Ok(entry) => {
                &&& unsafe_path(entry.name) ==> docx_check(bytes) == Err::<(), ApiErrorView>(
                    ApiErrorView::BadRequest("invalid DOCX: unsafe archive path"@),
                )
                &&& !unsafe_path(entry.name) && upto[n + 1] > 52_428_800 ==> docx_check(bytes)
                    == Err::<(), ApiErrorView>(
                    ApiErrorView::BadRequest("invalid DOCX: uncompressed size is too large"@),
                )
            },
        },
{
    lemma_no_fault_yet(l, upto, n as nat);
    if l[n] is Ok {
        assert(upto[n + 1] == upto[n] + l[n]->Ok_0.size);
        assert forall|i: int| 0 <= i < n + 1 implies #[trigger] l[i] is Ok by {}
        lemma_total_size(l, upto, (n + 1) as nat);
    }
    if entry_fault(l, n) is Some {
        lemma_first_fault_stays(l, (n + 1) as nat, l.len());
    }
}

/// What does not begin with `PK`, what is no archive, and an archive without the list of content
/// types or without the main document is refused.
pub proof fn lemma_no_template(bytes: Seq<u8>, l: Listing, upto: Seq<nat>)
    ensures
        bytes.len() < 4 || bytes[0] != 0x50 || bytes[1] != 0x4b ==> docx_check(bytes) == Err::<
            (),
            ApiErrorView,
        >(ApiErrorView::BadRequest("invalid DOCX: file is not a ZIP container"@)),
        bytes.len() >= 4 && bytes[0] == 0x50 && bytes[1] == 0x4b ==> {
            &&& zip_listing(bytes) matches Err(why) ==> docx_check(bytes) == Err::<
                (),
                ApiErrorView,
            >(ApiErrorView::BadRequest("invalid DOCX archive: "@ + why))
            &&& {
                &&& zip_listing(bytes) == Ok::<Listing, Seq<char>>(l)
                &&& forall|i: int|
                    0 <= i < l.len() ==> (#[trigger] l[i] matches Ok(entry) && !unsafe_path(
                        entry.name,
                    ))
                &&& upto.len() == l.len() + 1
                &&& upto[0] == 0
                &&& forall|i: int, j: int|
                    0 <= i < l.len() && j == i + 1 ==> #[trigger] upto[j] == #[trigger] upto[i]
                        + l[i]->Ok_0.size
                &&& upto.last() <= 52_428_800
                &&& (forall|i: int|
                    0 <= i < l.len() ==> (#[trigger] l[i])->Ok_0.name != "[Content_Types].xml"@) || (
                forall|i: int|
                    0 <= i < l.len() ==> (#[trigger] l[i])->Ok_0.name != "word/document.xml"@)
            } ==> docx_check(bytes) == Err::<(), ApiErrorView>(
                ApiErrorView::BadRequest("invalid DOCX: required DOCX entries are missing"@),
            )
        },
{
    if zip_listing(bytes) == Ok::<Listing, Seq<char>>(l) && (forall|i: int|
        0 <= i < l.len() ==> (#[trigger] l[i] matches Ok(entry) && !unsafe_path(entry.name)))
        && upto.len() == l.len() + 1 && upto[0] == 0 && (forall|i: int, j: int|
        0 <= i < l.len() && j == i + 1 ==> #[trigger] upto[j] == #[trigger] upto[i]
            + l[i]->Ok_0.size) && upto.last() <= 52_428_800 {
        lemma_no_fault_yet(l, upto, l.len());
    }
}

/// What is checked entry by entry never goes beyond the greatest number, and 50 MiB is the limit.
pub proof fn lemma_capped_sum(a: u64, b: u64)
    ensures
        MAX_UNPACKED == 52_428_800,
        a + b <= u64::MAX ==> capped_sum(a, b) == a + b,
        a + b > u64::MAX ==> capped_sum(a, b) == u64::MAX,
{
}

} // verus!
