//! Forms with which files are uploaded.

use vstd::prelude::*;
use crate::text::{opt_text, same_text, trim, trimmed};

verus! {

/// What a field of an upload form is read as.
#[derive(Clone, Copy, PartialEq, Eq, Structural, Debug)]
pub enum FormField {
    /// As the text that names what is uploaded.
    Text,
    /// As the file.
    File,
    /// Not at all.
    Other,
}

/// What the field `name` of a form is read as whose text stands in the field `text_name`.
pub fn form_field(name: &str, text_name: &str) -> (field: FormField)
    ensures
        field == if name@ == text_name@ {
            FormField::Text
        } else if name@ == "file"@ {
            FormField::File
        } else {
            FormField::Other
        },
{
    if same_text(name, text_name) {
        FormField::Text
    } else if same_text(name, "file") {
        FormField::File
    } else {
        FormField::Other
    }
}

/// What was read from the fields of an upload form.
pub struct UploadForm {
    pub text: Option<String>,
    pub file_name: Option<String>,
    pub file: Option<Vec<u8>>,
}

/// What was read from the fields of an upload form.
pub struct UploadFormView {
    pub text: Option<Seq<char>>,
    pub file_name: Option<Seq<char>>,
    pub file: Option<Seq<u8>>,
}

impl View for UploadForm {
    type V = UploadFormView;

    open spec fn view(&self) -> UploadFormView {
        UploadFormView {
            text: opt_text(self.text),
            file_name: opt_text(self.file_name),
            file: match self.file {
                Some(file) => Some(file@),
                None => None,
            },
        }
    }
}

/// What a field of an upload form holds.
pub enum FieldInput {
    Text(Seq<char>),
    File(Option<Seq<char>>, Seq<u8>),
}

impl UploadFormView {
    /// The form with one more field read: a text that is not blank and a file take the place of
    /// what was read before.
    pub open spec fn with(self, input: FieldInput) -> UploadFormView {
        match input {
            FieldInput::Text(text) => if trimmed(text).len() == 0 {
                self
            } else {
                UploadFormView { text: Some(trimmed(text)), ..self }
            },
            FieldInput::File(name, bytes) => UploadFormView {
                file_name: name,
                file: Some(bytes),
                ..self
            },
        }
    }
}

/// The form after these fields.
pub open spec fn form_after(inputs: Seq<FieldInput>) -> UploadFormView
    decreases inputs.len(),
{
    if inputs.len() == 0 {
        UploadFormView { text: None, file_name: None, file: None }
    } else {
        form_after(inputs.drop_last()).with(inputs.last())
    }
}

impl UploadForm {
    /// A form of which nothing was read yet.
    pub fn new() -> (form: UploadForm)
        ensures
            form@ == form_after(Seq::empty()),
    {
        UploadForm { text: None, file_name: None, file: None }
    }

    /// Reads the text.
    pub fn add_text(&mut self, text: &str)
        ensures
            final(self)@ == old(self)@.with(FieldInput::Text(text@)),
    {
        let t = trim(text);
        if !same_text(&t, "") {
            proof {
                reveal_strlit("");
                if t@.len() == 0 {
                    assert(t@ == ""@);
                }
            }
            self.text = Some(t);
        } else {
            proof {
                reveal_strlit("");
            }
        }
    }

    /// Reads the file.
    pub fn add_file(&mut self, name: Option<String>, bytes: Vec<u8>)
        ensures
            final(self)@ == old(self)@.with(FieldInput::File(opt_text(name), bytes@)),
    {
        self.file_name = name;
        self.file = Some(bytes);
    }
}

/// The last file in a form counts, whatever texts follow it.
pub proof fn lemma_last_file_counts(
    before: Seq<FieldInput>,
    name: Option<Seq<char>>,
    bytes: Seq<u8>,
    after: Seq<FieldInput>,
)
    requires
        forall|i: int| 0 <= i < after.len() ==> #[trigger] after[i] is Text,
    ensures
        form_after(before.push(FieldInput::File(name, bytes)) + after).file == Some(bytes),
        form_after(before.push(FieldInput::File(name, bytes)) + after).file_name == name,
    decreases after.len(),
{
    let all = before.push(FieldInput::File(name, bytes)) + after;
    if after.len() == 0 {
        assert(all.drop_last() == before);
        assert(all.last() == FieldInput::File(name, bytes));
    } else {
        assert(all.drop_last() == before.push(FieldInput::File(name, bytes)) + after.drop_last());
        assert(all.last() == after[after.len() - 1]);
        lemma_last_file_counts(before, name, bytes, after.drop_last());
    }
}

/// The last text in a form that is not blank counts, whatever files and blank texts follow it.
pub proof fn lemma_last_text_counts(before: Seq<FieldInput>, text: Seq<char>, after: Seq<FieldInput>)
    requires
        trimmed(text).len() > 0,
        forall|i: int|
            0 <= i < after.len() ==> (#[trigger] after[i] matches FieldInput::Text(t) ==> trimmed(
                t,
            ).len() == 0),
    ensures
        form_after(before.push(FieldInput::Text(text)) + after).text == Some(trimmed(text)),
    decreases after.len(),
{
    let all = before.push(FieldInput::Text(text)) + after;
    if after.len() == 0 {
        assert(all.drop_last() == before);
        assert(all.last() == FieldInput::Text(text));
    } else {
        assert(all.drop_last() == before.push(FieldInput::Text(text)) + after.drop_last());
        assert(all.last() == after[after.len() - 1]);
        lemma_last_text_counts(before, text, after.drop_last());
    }
}

/// A form of which nothing was read holds nothing. A file takes the place of what was read of files
/// before, under its name, and leaves the text; a text that is not blank takes the place of what
/// was read of texts before, without the white space around it, and leaves the file; a blank text
/// changes nothing.
pub proof fn lemma_field_by_field(
    before: Seq<FieldInput>,
    name: Option<Seq<char>>,
    bytes: Seq<u8>,
    text: Seq<char>,
)
    ensures
        form_after(Seq::<FieldInput>::empty()).text is None,
        form_after(Seq::<FieldInput>::empty()).file_name is None,
        form_after(Seq::<FieldInput>::empty()).file is None,
        form_after(before.push(FieldInput::File(name, bytes))).file == Some(bytes),
        form_after(before.push(FieldInput::File(name, bytes))).file_name == name,
        form_after(before.push(FieldInput::File(name, bytes))).text == form_after(before).text,
        form_after(before.push(FieldInput::Text(text))).file == form_after(before).file,
        form_after(before.push(FieldInput::Text(text))).file_name == form_after(before).file_name,
        form_after(before.push(FieldInput::Text(text))).text == if trimmed(text).len() > 0 {
            Some(trimmed(text))
        } else {
            form_after(before).text
        },
        form_after(before).with(FieldInput::Text(text)) == form_after(
            before.push(FieldInput::Text(text)),
        ),
        form_after(before).with(FieldInput::File(name, bytes)) == form_after(
            before.push(FieldInput::File(name, bytes)),
        ),
{
    assert(before.push(FieldInput::File(name, bytes)).drop_last() == before);
    assert(before.push(FieldInput::Text(text)).drop_last() == before);
}

/// Reading a field changes what is read there, and nothing else, whatever was read before.
pub proof fn lemma_field_read(
    form: UploadFormView,
    name: Option<Seq<char>>,
    bytes: Seq<u8>,
    text: Seq<char>,
)
    ensures
        form.with(FieldInput::File(name, bytes)).file == Some(bytes),
        form.with(FieldInput::File(name, bytes)).file_name == name,
        form.with(FieldInput::File(name, bytes)).text == form.text,
        form.with(FieldInput::Text(text)).file == form.file,
        form.with(FieldInput::Text(text)).file_name == form.file_name,
        form.with(FieldInput::Text(text)).text == if trimmed(text).len() > 0 {
            Some(trimmed(text))
        } else {
            form.text
        },
{
}

/// What is said of a form is said of the texts and bytes that were read.
pub proof fn lemma_form_view(form: UploadForm)
    ensures
        match form.text {
            Some(text) => form@.text == Some(text@),
            None => form@.text is None,
        },
        match form.file_name {
            Some(name) => form@.file_name == Some(name@),
            None => form@.file_name is None,
        },
        match form.file {
            Some(file) => form@.file == Some(file@),
            None => form@.file is None,
        },
{
}

} // verus!
