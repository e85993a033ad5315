//! Filling values into word processor documents.

use vstd::prelude::*;
use vstd::utf8::{decode_utf8, encode_utf8, valid_utf8};
use crate::archive::{add_directory, all_safe, archive_entries, entry_count, entry_data,
    entry_header, finish_archive, listing_of, names_directory, new_writer, open_archive,
    packed_bound, reads_back, start_file, within_limit, write_data, written_entries, zip_listing, zip_packed,
    EntryHeader, EntryModel, Listing};
use crate::docx::{all_plain, docx_check, is_docx_xml_template_target, is_target,
    is_unsafe_archive_path, lemma_checked_template, lemma_entry_kept, lemma_only_size_fault,
    unsafe_path};
use crate::encoding::{bytes_of, text_from_utf8, utf8_fault};
use crate::error::{outcome, ApiError, ApiErrorView};
use crate::parts::may_not_end;
use crate::search::{ends_with, finishes_with};
use crate::template::{endless_parts, handlebars_text, json_text, run_engine};
use crate::text::{concat3, result_texts};

verus! {

/// What is done with an entry of a template.
#[derive(Clone, Copy, PartialEq, Eq, Structural, Debug)]
pub enum EntryStep {
    /// Written again as a directory.
    Directory,
    /// Written again with its placeholders filled in.
    FillIn,
    /// Written again as it is.
    Copy,
}

/// What is done with the entry of this name, which is a directory or is not.
pub open spec fn step_of(is_dir: bool, name: Seq<char>) -> EntryStep {
    if is_dir || finishes_with(name, "/"@) {
        EntryStep::Directory
    } else if is_target(name) {
        EntryStep::FillIn
    } else {
        EntryStep::Copy
    }
}

/// What is done with the entry of this name.
pub open spec fn step_for(name: Seq<char>) -> EntryStep {
    step_of(names_directory(name), name)
}

/// Exactly the entries that are directories are written again as directories.
pub proof fn lemma_directory_step(name: Seq<char>)
    ensures
        step_for(name) == EntryStep::Directory <==> names_directory(name),
{
    reveal_strlit("/");
    if finishes_with(name, "/"@) {
        assert(name.subrange(name.len() - 1, name.len() as int)[0] == "/"@[0]);
    }
}

/// What is done with an entry, and its name, or why the template cannot be filled in.
pub fn entry_step(entry: Result<EntryHeader, String>) -> (res: Result<
    (EntryStep, String),
    ApiError,
>)
    ensures
        match entry {
            Err(why) => res matches Err(error) && error@ == ApiErrorView::Internal(
                "failed to read DOCX entry: "@ + why@,
            ),
            Ok(header) => if unsafe_path(header.name@) {
                res matches Err(error) && error@ == ApiErrorView::BadRequest(
                    "invalid DOCX template: unsafe archive path"@,
                )
            } else {
                res matches Ok((step, name)) && step == step_of(header.is_dir, header.name@)
                    && name@ == header.name@
            },
        },
{
    let header = match entry {
        Err(why) => {
            return Err(ApiError::internal_with("failed to read DOCX entry: ", &why));
        },
        Ok(header) => header,
    };
    if is_unsafe_archive_path(&header.name) {
        return Err(ApiError::bad_request("invalid DOCX template: unsafe archive path"));
    }
    if header.is_dir || ends_with(&header.name, "/") {
        Ok((EntryStep::Directory, header.name))
    } else if is_docx_xml_template_target(&header.name) {
        Ok((EntryStep::FillIn, header.name))
    } else {
        Ok((EntryStep::Copy, header.name))
    }
}

/// The refusal of a template for the reason that the template engine gives.
pub open spec fn engine_error(why: Seq<char>) -> ApiErrorView {
    ApiErrorView::BadRequest("template render failed: "@ + why)
}

/// Whether the template engine refused, for whatever reason.
pub open spec fn engine_refusal(error: ApiErrorView) -> bool {
    exists|why: Seq<char>| error == #[trigger] engine_error(why)
}

/// What the template engine's answer comes to.
pub open spec fn engine_outcome(answer: Result<Seq<char>, Seq<char>>) -> Result<
    Seq<char>,
    ApiErrorView,
> {
    match answer {
        Ok(text) => Ok(text),
        Err(why) => Err(engine_error(why)),
    }
}

/// What the template engine's answer comes to.
pub fn engine_answer(answer: Result<String, String>) -> (res: Result<String, ApiError>)
    ensures
        outcome(res) == engine_outcome(result_texts(answer)),
{
    match answer {
        Ok(text) => Ok(text),
        Err(why) => Err(ApiError::bad_request_with("template render failed: ", &why)),
    }
}

/// Why a template cannot be filled in.
pub enum Fault {
    /// The service says why.
    Known(ApiErrorView),
    /// The template engine says why.
    Engine,
}

impl Fault {
    /// Whether the error reports this fault.
    pub open spec fn reported_by(self, error: ApiErrorView) -> bool {
        match self {
            Fault::Known(known) => error == known,
            Fault::Engine => engine_refusal(error),
        }
    }
}

/// What the data of a markup entry becomes when the values are filled in.
pub open spec fn filled(name: Seq<char>, data: Seq<u8>, values: Seq<char>) -> Result<
    Seq<u8>,
    Fault,
> {
    if !valid_utf8(data) {
        Err(
            Fault::Known(
                ApiErrorView::Internal(
                    "DOCX XML contains invalid utf-8 at "@ + name + ": "@ + utf8_fault(data),
                ),
            ),
        )
    } else if may_not_end(decode_utf8(data)) {
        Err(Fault::Known(engine_error(endless_parts())))
    } else {
        match handlebars_text(decode_utf8(data), values) {
            Some(text) => Ok(encode_utf8(text)),
            None => Err(Fault::Engine),
        }
    }
}

/// Fills the values into the data of a markup entry.
pub fn fill_in(name: &str, data: Vec<u8>, values: &serde_json::Value) -> (res: Result<
    Vec<u8>,
    ApiError,
>)
    ensures
        match (filled(name@, data@, json_text(*values)), res) {
            (Ok(out), Ok(bytes)) => bytes@ == out,
            (Err(fault), Err(error)) => fault.reported_by(error@),
            _ => false,
        },
{
    let xml = match text_from_utf8(data) {
        Err(why) => {
            let at = concat3("DOCX XML contains invalid utf-8 at ", name, ": ");
            return Err(ApiError::internal_with(&at, &why));
        },
        Ok(xml) => xml,
    };
    match engine_answer(run_engine(&xml, values)) {
        Ok(text) => Ok(bytes_of(&text)),
        Err(error) => Err(error),
    }
}

/// What an entry of a template becomes: its name and its data, or why the template cannot be
/// filled in.
pub open spec fn entry_output(entry: Result<EntryModel, Seq<char>>, values: Seq<char>) -> Result<
    (Seq<char>, Seq<u8>),
    Fault,
> {
    match entry {
        Err(why) => Err(
            Fault::Known(ApiErrorView::Internal("failed to read DOCX entry: "@ + why)),
        ),
        Ok(entry) => if unsafe_path(entry.name) {
            Err(
                Fault::Known(
                    ApiErrorView::BadRequest("invalid DOCX template: unsafe archive path"@),
                ),
            )
        } else if step_for(entry.name) == EntryStep::Directory {
            Ok((entry.name, Seq::empty()))
        } else {
            match entry.data {
                Err(why) => Err(
                    Fault::Known(ApiErrorView::Internal("failed to read DOCX data: "@ + why)),
                ),
                Ok(data) => if step_for(entry.name) == EntryStep::FillIn {
                    match filled(entry.name, data, values) {
                        Ok(out) => Ok((entry.name, out)),
                        Err(fault) => Err(fault),
                    }
                } else {
                    Ok((entry.name, data))
                },
            }
        },
    }
}

/// What the first `n` entries become, or the first refusal among them.
pub open spec fn outputs(l: Listing, values: Seq<char>, n: nat) -> Result<
    Seq<(Seq<char>, Seq<u8>)>,
    Fault,
>
    decreases n,
{
    if n == 0 {
        Ok(Seq::empty())
    } else {
        match outputs(l, values, (n - 1) as nat) {
            Err(fault) => Err(fault),
            Ok(done) => match entry_output(l[n - 1], values) {
                Err(fault) => Err(fault),
                Ok(out) => Ok(done.push(out)),
            },
        }
    }
}

/// What the entries of a template become, or the first refusal among them.
pub open spec fn rendered_entries(l: Listing, values: Seq<char>) -> Result<
    Seq<(Seq<char>, Seq<u8>)>,
    Fault,
> {
    outputs(l, values, l.len())
}

/// Whether all that is written for the template is small enough to be written without fail.
pub open spec fn packs_safely(l: Listing, values: Seq<char>) -> bool {
    forall|n: nat|
        n <= l.len() ==> (#[trigger] outputs(l, values, n) matches Ok(entries) ==> all_safe(entries))
}

/// A failure of the archive writer.
pub open spec fn writer_failure(error: ApiErrorView) -> bool {
    exists|why: Seq<char>|
        {
            ||| error == #[trigger] writer_error("failed to write DOCX directory: "@, why)
            ||| error == writer_error("failed to start DOCX file: "@, why)
            ||| error == writer_error("failed to write DOCX file: "@, why)
            ||| error == writer_error("failed to finalize DOCX archive: "@, why)
        }
}

pub open spec fn writer_error(what: Seq<char>, why: Seq<char>) -> ApiErrorView {
    ApiErrorView::Internal(what + why)
}

/// Whether the bytes are the archive of these entries.
pub open spec fn holds(bytes: Seq<u8>, entries: Seq<(Seq<char>, Seq<u8>)>) -> bool {
    &&& bytes == zip_packed(entries)
    &&& 22 <= bytes.len() <= packed_bound(entries)
    &&& bytes[0] == 0x50
    &&& bytes[1] == 0x4b
    &&& reads_back(entries) ==> zip_listing(bytes) == Ok::<Listing, Seq<char>>(
        listing_of(entries),
    )
}

/// Whether the result is what filling in the values can come to: an archive of what the entries
/// become, or the first refusal among them. The archive writer fails only where something that is
/// written is too large for it.
pub open spec fn renders(
    template: Seq<u8>,
    values: Seq<char>,
    res: Result<Seq<u8>, ApiErrorView>,
) -> bool {
    match zip_listing(template) {
        Err(why) => res == Err::<Seq<u8>, ApiErrorView>(
            ApiErrorView::BadRequest("invalid DOCX archive: "@ + why),
        ),
        Ok(l) => {
            let plan = rendered_entries(l, values);
            &&& res matches Ok(bytes) ==> plan is Ok && holds(bytes, plan->Ok_0)
            &&& res matches Err(error) ==> (plan matches Err(fault) && fault.reported_by(error))
                || writer_failure(error)
            &&& packs_safely(l, values) ==> match plan {
                Ok(_) => res is Ok,
                Err(fault) => res matches Err(error) && fault.reported_by(error),
            }
        },
    }
}

/// Fills the values into a template: an archive of the same entries in the same order, those of
/// the main part's markup filled in and the others as they were.
pub fn render_docx_template(template_docx: &[u8], values: &serde_json::Value) -> (res: Result<
    Vec<u8>,
    ApiError,
>)
    ensures
        renders(template_docx@, json_text(*values), outcome(res)),
{
    let mut archive = match open_archive(template_docx) {
        Err(why) => {
            return Err(ApiError::bad_request_with("invalid DOCX archive: ", &why));
        },
        Ok(archive) => archive,
    };
    let ghost l = archive_entries(archive);
    let ghost v = json_text(*values);
    let count = entry_count(&archive);
    let mut writer = new_writer();
    let mut i: usize = 0;
    while i < count
        invariant
            i <= count,
            count == l.len(),
            v == json_text(*values),
            archive_entries(archive) == l,
            zip_listing(template_docx@) == Ok::<Listing, Seq<char>>(l),
            outputs(l, v, i as nat) == Ok::<Seq<(Seq<char>, Seq<u8>)>, Fault>(
                written_entries(writer),
            ),
        decreases count - i,
    {
        proof {
            if entry_output(l[i as int], v) is Err {
                lemma_outputs_stay(l, v, (i + 1) as nat, l.len());
            }
        }
        let entry = entry_header(&mut archive, i);
        let (step, name) = match entry_step(entry) {
            Err(error) => {
                return Err(error);
            },
            Ok(step) => step,
        };
        if step == EntryStep::Directory {
            proof {
                lemma_directory_step(name@);
            }
            match add_directory(&mut writer, &name) {
                Err(why) => {
                    return Err(writer_refusal("failed to write DOCX directory: ", &why));
                },
                Ok(_) => {},
            }
        } else {
            let data = match entry_data(&mut archive, i) {
                Err(why) => {
                    return Err(ApiError::internal_with("failed to read DOCX data: ", &why));
                },
                Ok(data) => data,
            };
            let out_data = if step == EntryStep::FillIn {
                match fill_in(&name, data, values) {
                    Err(error) => {
                        return Err(error);
                    },
                    Ok(out) => out,
                }
            } else {
                data
            };
            proof {
                lemma_directory_step(name@);
            }
            match start_file(&mut writer, &name) {
                Err(why) => {
                    return Err(writer_refusal("failed to start DOCX file: ", &why));
                },
                Ok(_) => {},
            }
            proof {
                let next = outputs(l, v, (i + 1) as nat)->Ok_0;
                assert(written_entries(writer).drop_last().push((name@, out_data@)) == next);
                if packs_safely(l, v) {
                    assert(next[next.len() - 1].1 == out_data@);
                }
            }
            match write_data(&mut writer, out_data.as_slice()) {
                Err(why) => {
                    return Err(writer_refusal("failed to write DOCX file: ", &why));
                },
                Ok(_) => {},
            }
        }
        i = i + 1;
    }
    match finish_archive(writer) {
        Err(why) => Err(writer_refusal("failed to finalize DOCX archive: ", &why)),
        Ok(bytes) => Ok(bytes),
    }
}

/// A failure of the archive writer: what failed and why.
fn writer_refusal(what: &str, why: &str) -> (error: ApiError)
    requires
        what@ == "failed to write DOCX directory: "@ || what@ == "failed to start DOCX file: "@
            || what@ == "failed to write DOCX file: "@ || what@
            == "failed to finalize DOCX archive: "@,
    ensures
        writer_failure(error@),
{
    let error = ApiError::internal_with(what, why);
    assert(error@ == writer_error(what@, why@));
    assert(writer_error("failed to write DOCX directory: "@, why@) is Internal);
    error
}

/// A refusal among the first entries is the refusal of the whole template.
proof fn lemma_outputs_stay(l: Listing, values: Seq<char>, n: nat, m: nat)
    requires
        n <= m,
        outputs(l, values, n) is Err,
    ensures
        outputs(l, values, m) == outputs(l, values, n),
    decreases m,
{
    if n < m {
        lemma_outputs_stay(l, values, n, (m - 1) as nat);
    }
}

// What holds of templates that passed the check

/// Why an entry that can be opened cannot be filled in, if it cannot.
pub open spec fn filling_fault(entry: EntryModel, values: Seq<char>) -> Option<Fault> {
    if step_for(entry.name) == EntryStep::Directory {
        None
    } else {
        match entry.data {
            Err(why) => Some(
                Fault::Known(ApiErrorView::Internal("failed to read DOCX data: "@ + why)),
            ),
            Ok(data) => if step_for(entry.name) == EntryStep::FillIn {
                match filled(entry.name, data, values) {
                    Err(fault) => Some(fault),
                    Ok(_) => None,
                }
            } else {
                None
            },
        }
    }
}

/// Whether the refusal comes of filling in one of the entries.
pub open spec fn comes_of_filling_in(l: Listing, values: Seq<char>, error: ApiErrorView) -> bool {
    exists|i: int|
        0 <= i < l.len() && (#[trigger] l[i] matches Ok(entry) && (filling_fault(
            entry,
            values,
        ) matches Some(fault) && fault.reported_by(error)))
}

proof fn lemma_refusal_source(l: Listing, values: Seq<char>, n: nat, error: ApiErrorView)
    requires
        all_plain(l),
        n <= l.len(),
        outputs(l, values, n) matches Err(fault) && fault.reported_by(error),
    ensures
        comes_of_filling_in(l, values, error),
    decreases n,
{
    if n > 0 {
        if outputs(l, values, (n - 1) as nat) is Err {
            lemma_refusal_source(l, values, (n - 1) as nat, error);
        } else {
            assert(l[n - 1] is Ok);
            assert(filling_fault(l[n - 1]->Ok_0, values) == Some(outputs(l, values, n)->Err_0));
        }
    }
}

/// Filling in a template that passed the check is refused for what an entry holds, never for its
/// name or for the archive; beyond that only the writer of the archive can fail.
pub proof fn lemma_refusal_after_check(template: Seq<u8>, values: Seq<char>, error: ApiErrorView)
    requires
        docx_check(template) is Ok,
        renders(template, values, Err(error)),
    ensures
        writer_failure(error) || comes_of_filling_in(
            zip_listing(template)->Ok_0,
            values,
            error,
        ),
{
    lemma_checked_template(template);
    let l = zip_listing(template)->Ok_0;
    if !writer_failure(error) {
        lemma_refusal_source(l, values, l.len(), error);
    }
}

proof fn lemma_outputs_count(l: Listing, values: Seq<char>, n: nat)
    requires
        outputs(l, values, n) is Ok,
    ensures
        outputs(l, values, n)->Ok_0.len() == n,
    decreases n,
{
    if n > 0 {
        lemma_outputs_count(l, values, (n - 1) as nat);
    }
}

proof fn lemma_outputs_entry(l: Listing, values: Seq<char>, n: nat, i: int)
    requires
        outputs(l, values, n) is Ok,
        0 <= i < n,
    ensures
        entry_output(l[i], values) == Ok::<(Seq<char>, Seq<u8>), Fault>(
            outputs(l, values, n)->Ok_0[i],
        ),
    decreases n,
{
    lemma_outputs_count(l, values, (n - 1) as nat);
    if i < n - 1 {
        lemma_outputs_entry(l, values, (n - 1) as nat, i);
    }
}

/// Filling in keeps the entries of a template: as many, with the same names, in the same order.
/// What is not markup of the main part keeps its data.
pub proof fn lemma_filling_in_keeps_entries(l: Listing, values: Seq<char>)
    requires
        rendered_entries(l, values) is Ok,
    ensures
        rendered_entries(l, values)->Ok_0.len() == l.len(),
        forall|i: int|
            0 <= i < l.len() ==> {
                &&& #[trigger] l[i] matches Ok(entry)
                &&& rendered_entries(l, values)->Ok_0[i].0 == entry.name
                &&& step_for(entry.name) == EntryStep::Copy ==> entry.data == Ok::<
                    Seq<u8>,
                    Seq<char>,
                >(rendered_entries(l, values)->Ok_0[i].1)
            },
{
    let entries = rendered_entries(l, values)->Ok_0;
    lemma_outputs_count(l, values, l.len());
    assert forall|i: int| 0 <= i < l.len() implies {
        &&& #[trigger] l[i] matches Ok(entry)
        &&& entries[i].0 == entry.name
        &&& step_for(entry.name) == EntryStep::Copy ==> entry.data == Ok::<Seq<u8>, Seq<char>>(
            entries[i].1,
        )
    } by {
        lemma_outputs_entry(l, values, l.len(), i);
    }
}

/// Whether an entry that is unpacked again is what became of the entry of the template.
pub open spec fn made_from(
    made: Result<EntryModel, Seq<char>>,
    entry: Result<EntryModel, Seq<char>>,
    values: Seq<char>,
) -> bool {
    &&& entry matches Ok(old)
    &&& made matches Ok(new)
    &&& new.name == old.name
    &&& !unsafe_path(new.name)
    &&& new.data matches Ok(data)
    &&& match step_for(old.name) {
        EntryStep::Directory => data.len() == 0,
        EntryStep::FillIn => old.data is Ok && filled(old.name, old.data->Ok_0, values) == Ok::<
            Seq<u8>,
            Fault,
        >(data),
        EntryStep::Copy => old.data == Ok::<Seq<u8>, Seq<char>>(data),
    }
}

/// A filled-in template unpacks to the entries of the template: as many, with the same names, in the
/// same order, the markup of the main part filled in and all else as it was; as far as an archive of
/// them is read as it was written.
pub proof fn lemma_filled_in_unpacks(template: Seq<u8>, values: Seq<char>, bytes: Seq<u8>)
    requires
        renders(template, values, Ok(bytes)),
        zip_listing(template) matches Ok(l) ==> (rendered_entries(l, values) matches Ok(entries)
            ==> reads_back(entries)),
    ensures
        zip_listing(template) matches Ok(l) && (zip_listing(bytes) matches Ok(made) && made.len()
            == l.len() && forall|i: int|
            0 <= i < l.len() ==> made_from(#[trigger] made[i], l[i], values)),
{
    let l = zip_listing(template)->Ok_0;
    let entries = rendered_entries(l, values)->Ok_0;
    lemma_outputs_count(l, values, l.len());
    let made = listing_of(entries);
    assert forall|i: int| 0 <= i < l.len() implies made_from(#[trigger] made[i], l[i], values) by {
        lemma_outputs_entry(l, values, l.len(), i);
    }
}

/// A document made from a template that passed the check would pass the check again, unless it has
/// grown too large; as far as an archive of its entries is read as it was written.
pub proof fn lemma_filled_in_is_document(template: Seq<u8>, values: Seq<char>, bytes: Seq<u8>)
    requires
        docx_check(template) is Ok,
        renders(template, values, Ok(bytes)),
        reads_back(rendered_entries(zip_listing(template)->Ok_0, values)->Ok_0),
    ensures
        docx_check(bytes) matches Err(error) ==> error == ApiErrorView::BadRequest(
            "invalid DOCX: uncompressed size is too large"@,
        ),
{
    lemma_checked_template(template);
    let l = zip_listing(template)->Ok_0;
    lemma_filling_in_keeps_entries(l, values);
    let entries = rendered_entries(l, values)->Ok_0;
    let made = listing_of(entries);
    assert forall|i: int| 0 <= i < made.len() implies (#[trigger] made[i] matches Ok(entry)
        && !unsafe_path(entry.name)) by {
        assert(l[i] is Ok);
    }
    lemma_only_size_fault(made, made.len());
    lemma_entry_kept(l, made, "[Content_Types].xml"@);
    lemma_entry_kept(l, made, "word/document.xml"@);
}

// What becomes of the entries

/// What a markup entry becomes is what the template engine makes of the whole of its text: where
/// the engine gives a text, the entry holds the UTF-8 form of that text.
pub proof fn lemma_filled_whole(name: Seq<char>, data: Seq<u8>, values: Seq<char>)
    ensures
        !valid_utf8(data) ==> filled(name, data, values) == Err::<Seq<u8>, Fault>(
            Fault::Known(
                ApiErrorView::Internal(
                    "DOCX XML contains invalid utf-8 at "@ + name + ": "@ + utf8_fault(data),
                ),
            ),
        ),
        valid_utf8(data) && may_not_end(decode_utf8(data)) ==> filled(name, data, values) == Err::<
            Seq<u8>,
            Fault,
        >(
            Fault::Known(
                ApiErrorView::BadRequest(
                    "template render failed: "@ + "parts may include each other without end"@,
                ),
            ),
        ),
        valid_utf8(data) && !may_not_end(decode_utf8(data)) ==> match handlebars_text(
            decode_utf8(data),
            values,
        ) {
            Some(text) => filled(name, data, values) == Ok::<Seq<u8>, Fault>(encode_utf8(text)),
            None => filled(name, data, values) == Err::<Seq<u8>, Fault>(Fault::Engine),
        },
{
}

/// A fault that is known is reported as it is, and a refusal of the template engine as a bad
/// request that gives the engine's reason.
pub proof fn lemma_fault_is_reported(fault: Fault, error: ApiErrorView)
    requires
        fault.reported_by(error),
    ensures
        match fault {
            Fault::Known(known) => error == known,
            Fault::Engine => exists|why: Seq<char>|
                error == ApiErrorView::BadRequest(#[trigger] ("template render failed: "@ + why)),
        },
{
    if fault == Fault::Engine {
        let why = choose|why: Seq<char>| error == #[trigger] engine_error(why);
        assert(error == ApiErrorView::BadRequest("template render failed: "@ + why));
    }
}

/// The template engine's text is taken as it is, and its reason for a refusal is given.
pub proof fn lemma_engine_outcome(text: Seq<char>)
    ensures
        engine_outcome(Ok(text)) == Ok::<Seq<char>, ApiErrorView>(text),
        engine_outcome(Err(text)) == Err::<Seq<char>, ApiErrorView>(
            ApiErrorView::BadRequest("template render failed: "@ + text),
        ),
{
}

/// A directory stays one, what is markup of the main part is filled in, and all else is copied.
pub proof fn lemma_step(is_dir: bool, name: Seq<char>)
    ensures
        step_of(is_dir, name) == if is_dir || (name.len() > 0 && name.last() == '/') {
            EntryStep::Directory
        } else if is_target(name) {
            EntryStep::FillIn
        } else {
            EntryStep::Copy
        },
{
    reveal_strlit("/");
    if finishes_with(name, "/"@) {
        assert(name.subrange(name.len() - 1, name.len() as int)[0] == "/"@[0]);
    }
    if name.len() > 0 && name.last() == '/' {
        assert(name.subrange(name.len() - 1, name.len() as int) =~= "/"@);
    }
}

/// A document that is made from a template is the archive of as many entries, with the same names
/// in the same order. An entry that is a directory holds nothing; an XML file of the main part holds
/// the UTF-8 form of what the template engine makes of the whole of its text; any other entry holds
/// what it held.
pub proof fn lemma_made_document(template: Seq<u8>, l: Listing, values: Seq<char>, bytes: Seq<u8>)
    requires
        zip_listing(template) == Ok::<Listing, Seq<char>>(l),
        renders(template, values, Ok(bytes)),
    ensures
        exists|entries: Seq<(Seq<char>, Seq<u8>)>|
            {
                &&& bytes == #[trigger] zip_packed(entries)
                &&& entries.len() == l.len()
                &&& forall|i: int|
                    0 <= i < l.len() ==> {
                &&& #[trigger] l[i] matches Ok(entry)
                &&& !unsafe_path(entry.name)
                &&& entries[i].0 == entry.name
                &&& (entry.name.last() == '/' || entry.name.last() == '\\') ==> entries[i].1.len() == 0
                &&& !(entry.name.last() == '/' || entry.name.last() == '\\') && is_target(entry.name) ==> {
                    &&& entry.data matches Ok(data)
                    &&& valid_utf8(data)
                    &&& !may_not_end(decode_utf8(data))
                    &&& handlebars_text(decode_utf8(data), values) matches Some(text)
                    &&& entries[i].1 == encode_utf8(text)
                }
                &&& !(entry.name.last() == '/' || entry.name.last() == '\\') && !is_target(entry.name) ==> entry.data == Ok::<
                    Seq<u8>,
                    Seq<char>,
                >(entries[i].1)
                    }
                &&& reads_back(entries) ==> zip_listing(bytes) == Ok::<Listing, Seq<char>>(
                    listing_of(entries),
                )
            },
{
    let entries = rendered_entries(l, values)->Ok_0;
    lemma_outputs_count(l, values, l.len());
    assert(bytes == zip_packed(entries));
    assert forall|i: int| 0 <= i < l.len() implies {
                &&& #[trigger] l[i] matches Ok(entry)
                &&& !unsafe_path(entry.name)
                &&& entries[i].0 == entry.name
                &&& (entry.name.last() == '/' || entry.name.last() == '\\') ==> entries[i].1.len() == 0
                &&& !(entry.name.last() == '/' || entry.name.last() == '\\') && is_target(entry.name) ==> {
                    &&& entry.data matches Ok(data)
                    &&& valid_utf8(data)
                    &&& !may_not_end(decode_utf8(data))
                    &&& handlebars_text(decode_utf8(data), values) matches Some(text)
                    &&& entries[i].1 == encode_utf8(text)
                }
                &&& !(entry.name.last() == '/' || entry.name.last() == '\\') && !is_target(entry.name) ==> entry.data == Ok::<
                    Seq<u8>,
                    Seq<char>,
                >(entries[i].1)
    } by {
        lemma_outputs_entry(l, values, l.len(), i);
        lemma_directory_step(l[i]->Ok_0.name);
    }
}

/// What is unpacked from a document that was made from a template, as far as an archive of its
/// entries is read as it was written: the entries of the template with the same names in the same
/// order, each XML file of the main part holding the UTF-8 form of what the template engine makes of
/// the whole of its text.
pub proof fn lemma_unpacked_document(
    template: Seq<u8>,
    l: Listing,
    values: Seq<char>,
    bytes: Seq<u8>,
)
    requires
        zip_listing(template) == Ok::<Listing, Seq<char>>(l),
        renders(template, values, Ok(bytes)),
        reads_back(rendered_entries(l, values)->Ok_0),
    ensures
        zip_listing(bytes) matches Ok(unpacked) && unpacked.len() == l.len() && forall|i: int|
            0 <= i < l.len() ==> {
                &&& #[trigger] l[i] matches Ok(old)
                &&& unpacked[i] matches Ok(entry)
                &&& entry.name == old.name
                &&& !unsafe_path(old.name)
                &&& entry.data matches Ok(made)
                &&& entry.size == made.len()
                &&& (old.name.last() == '/' || old.name.last() == '\\') ==> made.len() == 0
                &&& !(old.name.last() == '/' || old.name.last() == '\\') && is_target(old.name) ==> {
                    &&& old.data matches Ok(data)
                    &&& valid_utf8(data)
                    &&& handlebars_text(decode_utf8(data), values) matches Some(text)
                    &&& made == encode_utf8(text)
                }
                &&& !(old.name.last() == '/' || old.name.last() == '\\') && !is_target(old.name)
                    ==> old.data == Ok::<Seq<u8>, Seq<char>>(made)
            },
{
    let entries = rendered_entries(l, values)->Ok_0;
    lemma_outputs_count(l, values, l.len());
    let unpacked = listing_of(entries);
    assert forall|i: int| 0 <= i < l.len() implies {
                &&& #[trigger] l[i] matches Ok(old)
                &&& unpacked[i] matches Ok(entry)
                &&& entry.name == old.name
                &&& !unsafe_path(old.name)
                &&& entry.data matches Ok(made)
                &&& entry.size == made.len()
                &&& (old.name.last() == '/' || old.name.last() == '\\') ==> made.len() == 0
                &&& !(old.name.last() == '/' || old.name.last() == '\\') && is_target(old.name) ==> {
                    &&& old.data matches Ok(data)
                    &&& valid_utf8(data)
                    &&& handlebars_text(decode_utf8(data), values) matches Some(text)
                    &&& made == encode_utf8(text)
                }
                &&& !(old.name.last() == '/' || old.name.last() == '\\') && !is_target(old.name)
                    ==> old.data == Ok::<Seq<u8>, Seq<char>>(made)
    } by {
        lemma_outputs_entry(l, values, l.len(), i);
        lemma_directory_step(l[i]->Ok_0.name);
        assert(within_limit(entries[i]));
    }
}

proof fn lemma_outputs_are(
    l: Listing,
    values: Seq<char>,
    entries: Seq<(Seq<char>, Seq<u8>)>,
    n: nat,
)
    requires
        entries.len() == l.len(),
        n <= l.len(),
        forall|i: int|
            0 <= i < n ==> {
                &&& #[trigger] l[i] matches Ok(entry)
                &&& !unsafe_path(entry.name)
                &&& entries[i].0 == entry.name
                &&& (entry.name.last() == '/' || entry.name.last() == '\\') ==> entries[i].1.len() == 0
                &&& !(entry.name.last() == '/' || entry.name.last() == '\\') && is_target(entry.name) ==> {
                    &&& entry.data matches Ok(data)
                    &&& valid_utf8(data)
                    &&& !may_not_end(decode_utf8(data))
                    &&& handlebars_text(decode_utf8(data), values) matches Some(text)
                    &&& entries[i].1 == encode_utf8(text)
                }
                &&& !(entry.name.last() == '/' || entry.name.last() == '\\') && !is_target(entry.name) ==> entry.data == Ok::<
                    Seq<u8>,
                    Seq<char>,
                >(entries[i].1)
            },
    ensures
        outputs(l, values, n) == Ok::<Seq<(Seq<char>, Seq<u8>)>, Fault>(entries.take(n as int)),
    decreases n,
{
    if n == 0 {
        assert(entries.take(0) =~= Seq::<(Seq<char>, Seq<u8>)>::empty());
    } else {
        lemma_outputs_are(l, values, entries, (n - 1) as nat);
        let i = n - 1;
        assert(l[i] is Ok);
        lemma_directory_step(l[i]->Ok_0.name);
        assert(entries.take(i).push(entries[i]) =~= entries.take(n as int));
        let out = entry_output(l[i], values)->Ok_0;
        assert(out.0 == entries[i].0);
        assert(out.1 =~= entries[i].1);
    }
}

proof fn lemma_packs_safely(
    l: Listing,
    values: Seq<char>,
    entries: Seq<(Seq<char>, Seq<u8>)>,
    n: nat,
)
    requires
        entries.len() == l.len(),
        n <= l.len(),
        forall|i: int|
            0 <= i < n ==> {
                &&& #[trigger] l[i] matches Ok(entry)
                &&& !unsafe_path(entry.name)
                &&& entries[i].0 == entry.name
                &&& (entry.name.last() == '/' || entry.name.last() == '\\') ==> entries[i].1.len() == 0
                &&& !(entry.name.last() == '/' || entry.name.last() == '\\') && is_target(entry.name) ==> {
                    &&& entry.data matches Ok(data)
                    &&& valid_utf8(data)
                    &&& !may_not_end(decode_utf8(data))
                    &&& handlebars_text(decode_utf8(data), values) matches Some(text)
                    &&& entries[i].1 == encode_utf8(text)
                }
                &&& !(entry.name.last() == '/' || entry.name.last() == '\\') && !is_target(entry.name) ==> entry.data == Ok::<
                    Seq<u8>,
                    Seq<char>,
                >(entries[i].1)
            },
        forall|i: int| 0 <= i < n ==> (#[trigger] entries[i]).1.len() <= 0x8000_0000,
        n < l.len() ==> entry_output(l[n as int], values) is Err,
    ensures
        packs_safely(l, values),
{
    assert forall|k: nat| k <= l.len() implies (#[trigger] outputs(l, values, k) matches Ok(done)
        ==> all_safe(done)) by {
        if k <= n {
            lemma_outputs_are(l, values, entries, k);
            assert forall|i: int| 0 <= i < k implies within_limit(
                #[trigger] entries.take(k as int)[i],
            ) by {
                assert(entries.take(k as int)[i] == entries[i]);
            }
        } else {
            lemma_outputs_are(l, values, entries, n);
            lemma_outputs_stay(l, values, (n + 1) as nat, k);
        }
    }
}

/// A template whose entries can all be opened, have names that are not refused and hold what can be
/// filled in is made into a document: filling in is not refused, as far as no entry comes to more
/// than 2 GiB. `entries` holds what becomes of each of them.
pub proof fn lemma_filling_in_succeeds(
    template: Seq<u8>,
    l: Listing,
    values: Seq<char>,
    entries: Seq<(Seq<char>, Seq<u8>)>,
    error: ApiErrorView,
)
    requires
        zip_listing(template) == Ok::<Listing, Seq<char>>(l),
        entries.len() == l.len(),
        forall|i: int|
            0 <= i < l.len() ==> {
                &&& #[trigger] l[i] matches Ok(entry)
                &&& !unsafe_path(entry.name)
                &&& entries[i].0 == entry.name
                &&& (entry.name.last() == '/' || entry.name.last() == '\\') ==> entries[i].1.len() == 0
                &&& !(entry.name.last() == '/' || entry.name.last() == '\\') && is_target(entry.name) ==> {
                    &&& entry.data matches Ok(data)
                    &&& valid_utf8(data)
                    &&& !may_not_end(decode_utf8(data))
                    &&& handlebars_text(decode_utf8(data), values) matches Some(text)
                    &&& entries[i].1 == encode_utf8(text)
                }
                &&& !(entry.name.last() == '/' || entry.name.last() == '\\') && !is_target(entry.name) ==> entry.data == Ok::<
                    Seq<u8>,
                    Seq<char>,
                >(entries[i].1)
            },
        forall|i: int| 0 <= i < l.len() ==> (#[trigger] entries[i]).1.len() <= 0x8000_0000,
    ensures
        !renders(template, values, Err(error)),
        forall|bytes: Seq<u8>| #[trigger]
            renders(template, values, Ok(bytes)) ==> bytes == zip_packed(entries),
{
    lemma_packs_safely(l, values, entries, l.len());
    lemma_outputs_are(l, values, entries, l.len());
    assert(entries.take(l.len() as int) =~= entries);
}

/// The first entry that cannot be filled in decides why a template is refused.
pub proof fn lemma_filling_in_is_refused(
    template: Seq<u8>,
    l: Listing,
    values: Seq<char>,
    entries: Seq<(Seq<char>, Seq<u8>)>,
    n: int,
    res: Result<Seq<u8>, ApiErrorView>,
)
    requires
        zip_listing(template) == Ok::<Listing, Seq<char>>(l),
        entries.len() == l.len(),
        0 <= n < l.len(),
        forall|i: int|
            0 <= i < n ==> {
                &&& #[trigger] l[i] matches Ok(entry)
                &&& !unsafe_path(entry.name)
                &&& entries[i].0 == entry.name
                &&& (entry.name.last() == '/' || entry.name.last() == '\\') ==> entries[i].1.len() == 0
                &&& !(entry.name.last() == '/' || entry.name.last() == '\\') && is_target(entry.name) ==> {
                    &&& entry.data matches Ok(data)
                    &&& valid_utf8(data)
                    &&& !may_not_end(decode_utf8(data))
                    &&& handlebars_text(decode_utf8(data), values) matches Some(text)
                    &&& entries[i].1 == encode_utf8(text)
                }
                &&& !(entry.name.last() == '/' || entry.name.last() == '\\') && !is_target(entry.name) ==> entry.data == Ok::<
                    Seq<u8>,
                    Seq<char>,
                >(entries[i].1)
            },
        forall|i: int| 0 <= i < n ==> (#[trigger] entries[i]).1.len() <= 0x8000_0000,
        renders(template, values, res),
    ensures
        match l[n] {
            Err(why) => res == Err::<Seq<u8>, ApiErrorView>(
                ApiErrorView::Internal("failed to read DOCX entry: "@ + why),
            ),
            Ok(entry) => {
                &&& unsafe_path(entry.name) ==> res == Err::<Seq<u8>, ApiErrorView>(
                    ApiErrorView::BadRequest("invalid DOCX template: unsafe archive path"@),
                )
                &&& !unsafe_path(entry.name) && !(entry.name.last() == '/' || entry.name.last() == '\\') ==> match entry.data {
                    Err(why) => res == Err::<Seq<u8>, ApiErrorView>(
                        ApiErrorView::Internal("failed to read DOCX data: "@ + why),
                    ),
                    Ok(data) => is_target(entry.name) ==> {
                        &&& !valid_utf8(data) ==> res == Err::<Seq<u8>, ApiErrorView>(
                            ApiErrorView::Internal(
                                "DOCX XML contains invalid utf-8 at "@ + entry.name + ": "@
                                    + utf8_fault(data),
                            ),
                        )
                        &&& valid_utf8(data) && may_not_end(decode_utf8(data)) ==> res == Err::<
                            Seq<u8>,
                            ApiErrorView,
                        >(
                            ApiErrorView::BadRequest(
                                "template render failed: "@
                                    + "parts may include each other without end"@,
                            ),
                        )
                        &&& valid_utf8(data) && !may_not_end(decode_utf8(data)) && handlebars_text(
                            decode_utf8(data),
                            values,
                        ) is None ==> exists|why: Seq<char>|
                            res == Err::<Seq<u8>, ApiErrorView>(
                                ApiErrorView::BadRequest(
                                    #[trigger] ("template render failed: "@ + why),
                                ),
                            )
                    },
                }
            },
        },
{
    if l[n] is Ok {
        lemma_directory_step(l[n]->Ok_0.name);
    }
    if let Err(fault) = entry_output(l[n], values) {
        lemma_packs_safely(l, values, entries, n as nat);
        lemma_outputs_are(l, values, entries, n as nat);
        lemma_outputs_stay(l, values, (n + 1) as nat, l.len());
        assert(res is Err);
        lemma_fault_is_reported(fault, res->Err_0);
    }
}

/// What is no archive cannot be filled in.
pub proof fn lemma_no_archive(template: Seq<u8>, values: Seq<char>, res: Result<Seq<u8>, ApiErrorView>)
    requires
        renders(template, values, res),
    ensures
        zip_listing(template) matches Err(why) ==> res == Err::<Seq<u8>, ApiErrorView>(
            ApiErrorView::BadRequest("invalid DOCX archive: "@ + why),
        ),
{
}

/// A failure of the archive writer is a failure of the service that says what could not be written.
pub proof fn lemma_writer_failures(error: ApiErrorView)
    requires
        writer_failure(error),
    ensures
        exists|why: Seq<char>|
            {
                ||| error == ApiErrorView::Internal(
                    #[trigger] ("failed to write DOCX directory: "@ + why),
                )
                ||| error == ApiErrorView::Internal("failed to start DOCX file: "@ + why)
                ||| error == ApiErrorView::Internal("failed to write DOCX file: "@ + why)
                ||| error == ApiErrorView::Internal("failed to finalize DOCX archive: "@ + why)
            },
{
    let why = choose|why: Seq<char>|
        {
            ||| error == #[trigger] writer_error("failed to write DOCX directory: "@, why)
            ||| error == writer_error("failed to start DOCX file: "@, why)
            ||| error == writer_error("failed to write DOCX file: "@, why)
            ||| error == writer_error("failed to finalize DOCX archive: "@, why)
        };
    let what = "failed to write DOCX directory: "@ + why;
}

} // verus!
