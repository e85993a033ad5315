//! Documents made from templates.

use vstd::prelude::*;
use crate::catalog::TemplateRecord;
use crate::crypto::{decrypt_bytes, decrypted, gcm_opened, max_plaintext};
use crate::document::{new_record, DocumentModel, DocumentRecord};
use crate::encoding::{lossy, lossy_text};
use crate::error::{outcome, ApiError, ApiErrorView};
use crate::extraction::{docx_index, extract_docx_index_text};
use crate::filename::{attachment, content_disposition, header_char, header_text, lemma_attachment,
    lemma_sanitized_is_safe, safe_char, sanitize_filename, sanitized};
use crate::filling::{engine_answer, engine_error, engine_outcome, engine_refusal,
    render_docx_template, renders};
use crate::index::{cut_for_index, normalize_text_for_index, normalized, INDEX_CHARS};
use crate::parts::may_not_end;
use crate::search::occurs_at;
use crate::template::{endless_parts, handlebars_text, has_placeholder, json_text, run_engine,
    values_to_index_text};
use crate::text::{at_most, chars_of, concat3, opt_str, result_texts, same_text, string_of, trim,
    trim_chars, trimmed};

verus! {

// The form of the output

/// The form in which a document is made.
#[derive(Clone, Copy, PartialEq, Eq, Structural, Debug)]
pub enum OutputFormat {
    Pdf,
    Docx,
}

/// A capital letter of ASCII as a small one, any other character as it is.
pub open spec fn lower(c: char) -> char {
    if 'A' <= c <= 'Z' {
        (c as u32 + 32) as char
    } else {
        c
    }
}

/// The text with its capital letters of ASCII as small ones.
pub open spec fn lowered(s: Seq<char>) -> Seq<char> {
    s.map_values(|c: char| lower(c))
}

/// The text with its capital letters of ASCII as small ones.
fn lower_chars(s: &[char]) -> (out: Vec<char>)
    ensures
        out@ == lowered(s@),
{
    let mut out: Vec<char> = Vec::new();
    let mut i: usize = 0;
    while i < s.len()
        invariant
            i <= s@.len(),
            out@ == lowered(s@).take(i as int),
        decreases s@.len() - i,
    {
        let c = s[i];
        let low = if 'A' <= c && c <= 'Z' {
            (c as u8 + 32) as char
        } else {
            c
        };
        assert(low == lower(c));
        assert(lowered(s@).take(i as int).push(low) == lowered(s@).take(i + 1));
        out.push(low);
        i = i + 1;
    }
    assert(lowered(s@).take(i as int) == lowered(s@));
    out
}

/// The form that was asked for, in whatever case and with white space around it; PDF where nothing
/// was said.
pub open spec fn wanted_format(value: Option<Seq<char>>) -> Result<OutputFormat, ApiErrorView> {
    let asked = match value {
        Some(text) => lowered(trimmed(text)),
        None => "pdf"@,
    };
    if asked == "pdf"@ {
        Ok(OutputFormat::Pdf)
    } else if asked == "docx"@ {
        Ok(OutputFormat::Docx)
    } else {
        Err(ApiErrorView::BadRequest("output_format must be either 'pdf' or 'docx'"@))
    }
}

/// The form that was asked for.
pub fn parse_output_format(value: Option<&str>) -> (res: Result<OutputFormat, ApiError>)
    ensures
        match res {
            Ok(format) => wanted_format(opt_str(value)) == Ok::<OutputFormat, ApiErrorView>(format),
            Err(error) => wanted_format(opt_str(value)) == Err::<OutputFormat, ApiErrorView>(
                error@,
            ),
        },
{
    let asked = match value {
        Some(text) => {
            let v = chars_of(text);
            let low = lower_chars(trim_chars(v.as_slice()));
            string_of(low.as_slice())
        },
        None => "pdf".to_owned(),
    };
    if same_text(&asked, "pdf") {
        Ok(OutputFormat::Pdf)
    } else if same_text(&asked, "docx") {
        Ok(OutputFormat::Docx)
    } else {
        Err(ApiError::bad_request("output_format must be either 'pdf' or 'docx'"))
    }
}

/// The type of a file of this form.
pub open spec fn format_mime(format: OutputFormat) -> Seq<char> {
    match format {
        OutputFormat::Pdf => "application/pdf"@,
        OutputFormat::Docx =>
        "application/vnd.openxmlformats-officedocument.wordprocessingml.document"@,
    }
}

/// The ending of the name of a file of this form.
pub open spec fn format_ext(format: OutputFormat) -> Seq<char> {
    match format {
        OutputFormat::Pdf => "pdf"@,
        OutputFormat::Docx => "docx"@,
    }
}

/// The type of a file of this form.
pub fn mime_of(format: OutputFormat) -> (mime: &'static str)
    ensures
        mime@ == format_mime(format),
{
    match format {
        OutputFormat::Pdf => "application/pdf",
        OutputFormat::Docx =>
        "application/vnd.openxmlformats-officedocument.wordprocessingml.document",
    }
}

/// The ending of the name of a file of this form.
pub fn extension_of(format: OutputFormat) -> (ext: &'static str)
    ensures
        ext@ == format_ext(format),
{
    match format {
        OutputFormat::Pdf => "pdf",
        OutputFormat::Docx => "docx",
    }
}

// From the template to the document

/// What is read of a template to make a document from it.
pub struct TemplateSource {
    pub name: String,
    pub body: String,
    pub template_type: String,
    pub docx_ciphertext: Option<Vec<u8>>,
    pub docx_nonce: Option<Vec<u8>>,
}

/// What is read of a template to make a document from it.
pub struct TemplateSourceView {
    pub name: Seq<char>,
    pub body: Seq<char>,
    pub template_type: Seq<char>,
    pub docx_ciphertext: Option<Seq<u8>>,
    pub docx_nonce: Option<Seq<u8>>,
}

/// The bytes of an optional vector.
pub open spec fn opt_bytes(v: Option<Vec<u8>>) -> Option<Seq<u8>> {
    match v {
        Some(bytes) => Some(bytes@),
        None => None,
    }
}

impl View for TemplateSource {
    type V = TemplateSourceView;

    open spec fn view(&self) -> TemplateSourceView {
        TemplateSourceView {
            name: self.name@,
            body: self.body@,
            template_type: self.template_type@,
            docx_ciphertext: opt_bytes(self.docx_ciphertext),
            docx_nonce: opt_bytes(self.docx_nonce),
        }
    }
}

/// What a template was made into.
pub enum Product {
    /// A text, to be printed as PDF.
    Text(String),
    /// A document, to be converted to PDF.
    Convert(Vec<u8>),
    /// A document, to be handed out as it is.
    Docx(Vec<u8>),
}

/// What a template was made into.
pub enum ProductView {
    Text(Seq<char>),
    Convert(Seq<u8>),
    Docx(Seq<u8>),
}

impl View for Product {
    type V = ProductView;

    open spec fn view(&self) -> ProductView {
        match self {
            Product::Text(text) => ProductView::Text(text@),
            Product::Convert(bytes) => ProductView::Convert(bytes@),
            Product::Docx(bytes) => ProductView::Docx(bytes@),
        }
    }
}

/// What a template was made into, and the text under which it is found.
pub struct Rendering {
    pub product: Product,
    pub index_text: String,
}

/// What a template was made into, and the text under which it is found.
pub struct RenderingView {
    pub product: ProductView,
    pub index_text: Seq<char>,
}

impl View for Rendering {
    type V = RenderingView;

    open spec fn view(&self) -> RenderingView {
        RenderingView { product: self.product@, index_text: self.index_text@ }
    }
}

/// What comes of a text template when the template engine has answered.
pub open spec fn text_rendering(
    answer: Result<Seq<char>, Seq<char>>,
    format: OutputFormat,
) -> Result<RenderingView, ApiErrorView> {
    match engine_outcome(answer) {
        Err(error) => Err(error),
        Ok(text) => match format {
            OutputFormat::Pdf => Ok(
                RenderingView { product: ProductView::Text(text), index_text: normalized(text) },
            ),
            OutputFormat::Docx => Err(
                ApiErrorView::BadRequest("DOCX output is available only for DOCX templates"@),
            ),
        },
    }
}

/// What comes of a text template when the template engine has answered.
pub fn finish_text(answer: Result<String, String>, format: OutputFormat) -> (res: Result<
    Rendering,
    ApiError,
>)
    ensures
        outcome(res) == text_rendering(result_texts(answer), format),
{
    let text = match engine_answer(answer) {
        Err(error) => {
            return Err(error);
        },
        Ok(text) => text,
    };
    match format {
        OutputFormat::Pdf => {
            let index_text = normalize_text_for_index(&text);
            Ok(Rendering { product: Product::Text(text), index_text })
        },
        OutputFormat::Docx => Err(
            ApiError::bad_request("DOCX output is available only for DOCX templates"),
        ),
    }
}

/// Whether the result is what a text template can be made into. A template without placeholders
/// comes out as it is.
pub open spec fn text_rendered(
    body: Seq<char>,
    values: Seq<char>,
    format: OutputFormat,
    res: Result<RenderingView, ApiErrorView>,
) -> bool {
    &&& if may_not_end(body) {
        res == text_rendering(Err(endless_parts()), format)
    } else {
        match handlebars_text(body, values) {
            Some(text) => res == text_rendering(Ok(text), format),
            None => res matches Err(error) && engine_refusal(error),
        }
    }
    &&& !has_placeholder(body) ==> res == text_rendering(Ok(body), format)
}

/// Makes a text template into a document.
pub fn render_text(body: &str, values: &serde_json::Value, format: OutputFormat) -> (res: Result<
    Rendering,
    ApiError,
>)
    ensures
        text_rendered(body@, json_text(*values), format, outcome(res)),
{
    let answer = run_engine(body, values);
    assert(answer matches Err(why) ==> engine_error(why@) is BadRequest);
    finish_text(answer, format)
}

/// The text under which a document is found that was made from the values: the text that it
/// holds, or the values where it cannot be read.
pub open spec fn docx_text(index: Result<Seq<char>, ApiErrorView>, values: Seq<char>) -> Seq<char> {
    let text = match index {
        Ok(text) => text,
        Err(_) => values,
    };
    normalized(at_most(text, INDEX_CHARS as nat))
}

/// The text under which a document is found that was made from the values.
pub fn document_text(extracted: Result<String, ApiError>, values: &serde_json::Value) -> (text: String)
    ensures
        text@ == docx_text(outcome(extracted), json_text(*values)),
{
    let text = match extracted {
        Ok(text) => text,
        Err(_) => values_to_index_text(values),
    };
    normalize_text_for_index(&cut_for_index(&text))
}

/// A document in the form that was asked for.
pub open spec fn product_of(bytes: Seq<u8>, format: OutputFormat) -> ProductView {
    match format {
        OutputFormat::Pdf => ProductView::Convert(bytes),
        OutputFormat::Docx => ProductView::Docx(bytes),
    }
}

/// Whether the result is what a document template can be made into.
pub open spec fn docx_rendering(
    template: Seq<u8>,
    values: Seq<char>,
    format: OutputFormat,
    res: Result<RenderingView, ApiErrorView>,
) -> bool {
    match res {
        Err(error) => renders(template, values, Err(error)),
        Ok(rendering) => exists|bytes: Seq<u8>|
            {
                &&& #[trigger] renders(template, values, Ok(bytes))
                &&& rendering.product == product_of(bytes, format)
                &&& rendering.index_text == docx_text(docx_index(bytes), values)
            },
    }
}

/// Makes a document template into a document.
pub fn render_docx(template: &[u8], values: &serde_json::Value, format: OutputFormat) -> (res: Result<
    Rendering,
    ApiError,
>)
    ensures
        docx_rendering(template@, json_text(*values), format, outcome(res)),
{
    let docx = match render_docx_template(template, values) {
        Err(error) => {
            return Err(error);
        },
        Ok(docx) => docx,
    };
    let index_text = document_text(extract_docx_index_text(docx.as_slice()), values);
    assert(renders(template@, json_text(*values), Ok(docx@)));
    let product = match format {
        OutputFormat::Pdf => Product::Convert(docx),
        OutputFormat::Docx => Product::Docx(docx),
    };
    Ok(Rendering { product, index_text })
}

/// The file of a document template, or why it cannot be had.
pub open spec fn template_file(key: Seq<u8>, template: TemplateSourceView) -> Result<
    Seq<u8>,
    ApiErrorView,
> {
    match (template.docx_ciphertext, template.docx_nonce) {
        (None, _) => Err(
            ApiErrorView::Internal("DOCX template storage is corrupted: ciphertext missing"@),
        ),
        (Some(_), None) => Err(
            ApiErrorView::Internal("DOCX template storage is corrupted: nonce missing"@),
        ),
        (Some(ciphertext), Some(nonce)) => decrypted(key, nonce, ciphertext),
    }
}

/// The file of a document template.
pub fn open_template(key: &[u8; 32], template: &TemplateSource) -> (res: Result<Vec<u8>, ApiError>)
    ensures
        outcome(res) == template_file(key@, template@),
{
    match (&template.docx_ciphertext, &template.docx_nonce) {
        (None, _) => Err(
            ApiError::internal("DOCX template storage is corrupted: ciphertext missing"),
        ),
        (Some(_), None) => Err(
            ApiError::internal("DOCX template storage is corrupted: nonce missing"),
        ),
        (Some(ciphertext), Some(nonce)) => decrypt_bytes(
            key,
            nonce.as_slice(),
            ciphertext.as_slice(),
        ),
    }
}

/// Whether the result is what a template can be made into.
pub open spec fn template_rendering(
    key: Seq<u8>,
    template: Option<TemplateSourceView>,
    values: Seq<char>,
    asked: Option<Seq<char>>,
    res: Result<RenderingView, ApiErrorView>,
) -> bool {
    match (template, wanted_format(asked)) {
        (None, _) => res == Err::<RenderingView, ApiErrorView>(
            ApiErrorView::NotFound("template not found"@),
        ),
        (Some(_), Err(error)) => res == Err::<RenderingView, ApiErrorView>(error),
        (Some(template), Ok(format)) => if template.template_type == "docx"@ {
            match template_file(key, template) {
                Err(error) => res == Err::<RenderingView, ApiErrorView>(error),
                Ok(file) => docx_rendering(file, values, format, res),
            }
        } else {
            text_rendered(template.body, values, format, res)
        },
    }
}

/// What is found of a template.
pub open spec fn opt_source(template: Option<&TemplateSource>) -> Option<TemplateSourceView> {
    match template {
        Some(template) => Some(template@),
        None => None,
    }
}

/// Makes the template that was found into a document of the form that was asked for.
pub fn render_template(
    key: &[u8; 32],
    template: Option<&TemplateSource>,
    values: &serde_json::Value,
    output_format: Option<&str>,
) -> (res: Result<Rendering, ApiError>)
    ensures
        template_rendering(
            key@,
            opt_source(template),
            json_text(*values),
            opt_str(output_format),
            outcome(res),
        ),
{
    let template = match template {
        None => {
            return Err(ApiError::not_found("template not found"));
        },
        Some(template) => template,
    };
    let format = match parse_output_format(output_format) {
        Err(error) => {
            return Err(error);
        },
        Ok(format) => format,
    };
    if same_text(&template.template_type, "docx") {
        let file = match open_template(key, template) {
            Err(error) => {
                return Err(error);
            },
            Ok(file) => file,
        };
        render_docx(file.as_slice(), values, format)
    } else {
        render_text(&template.body, values, format)
    }
}

/// The form of a document that comes of this product.
pub open spec fn product_format(product: ProductView) -> OutputFormat {
    match product {
        ProductView::Docx(_) => OutputFormat::Docx,
        _ => OutputFormat::Pdf,
    }
}

impl Product {
    /// The form of a document that comes of this product.
    pub fn format(&self) -> (format: OutputFormat)
        ensures
            format == product_format(self@),
    {
        match self {
            Product::Docx(_) => OutputFormat::Docx,
            _ => OutputFormat::Pdf,
        }
    }
}

// Converting

/// What a conversion comes to: `status` is how the converter ended, `success` whether that is
/// success, and `stderr` what it complained of.
pub fn conversion_result(success: bool, status: &str, stderr: &[u8]) -> (res: Result<(), ApiError>)
    ensures
        outcome(res) == if success {
            Ok(())
        } else {
            Err(
                ApiErrorView::Internal(
                    "libreoffice conversion failed with status "@ + status@ + ": "@ + lossy(stderr@),
                ),
            )
        },
{
    if success {
        return Ok(());
    }
    let what = concat3("libreoffice conversion failed with status ", status, ": ");
    Err(ApiError::internal_with(&what, &lossy_text(stderr)))
}

// From the document to the answer

/// The title of a document: the one that was given, without the white space at its ends, or the
/// name of the template where none was given or a blank one.
pub open spec fn rendered_title(title: Option<Seq<char>>, template_name: Seq<char>) -> Seq<char> {
    match title {
        Some(title) => if trimmed(title).len() == 0 {
            template_name
        } else {
            trimmed(title)
        },
        None => template_name,
    }
}

/// The file name of a document.
pub open spec fn rendered_filename(title: Seq<char>, format: OutputFormat) -> Seq<char> {
    sanitized(title) + "."@ + format_ext(format)
}

/// The title of a document.
fn choose_title(title: Option<&str>, template_name: &str) -> (out: String)
    ensures
        out@ == rendered_title(opt_str(title), template_name@),
{
    match title {
        Some(title) => {
            let t = trim(title);
            proof {
                reveal_strlit("");
                if t@.len() == 0 {
                    assert(t@ == ""@);
                }
            }
            if same_text(&t, "") {
                template_name.to_owned()
            } else {
                t
            }
        },
        None => template_name.to_owned(),
    }
}

/// A document that is handed out as it was made, with the headers that go with it, and its record
/// where it is stored as well.
pub struct RenderedFile {
    pub bytes: Vec<u8>,
    pub content_type: String,
    pub disposition: String,
    pub record: Option<DocumentRecord>,
}

/// Hands out a document as it was made: `bytes` in the form `format`, and stores it as well where
/// `save` says so.
pub fn deliver(
    key: &[u8; 32],
    template_name: &str,
    title: Option<&str>,
    format: OutputFormat,
    bytes: Vec<u8>,
    index_text: String,
    save: Option<bool>,
    user: &str,
) -> (res: Result<RenderedFile, ApiError>)
    ensures
        match res {
            Ok(file) => {
                let name = rendered_title(opt_str(title), template_name@);
                &&& save == Some(true) ==> bytes@.len() <= max_plaintext()
                &&& file.bytes@ == bytes@
                &&& file.content_type@ == format_mime(format)
                &&& file.disposition@ == attachment(rendered_filename(name, format))
                &&& file.record is Some <==> save == Some(true)
                &&& file.record matches Some(record) ==> record.stores(
                    key@,
                    (DocumentModel {
                        title: name,
                        filename: rendered_filename(name, format),
                        mime_type: format_mime(format),
                        file: bytes@,
                        extracted_text: index_text@,
                        uploaded_by: user@,
                    }),
                )
            },
            Err(error) => save == Some(true) && bytes@.len() > max_plaintext() && error@
                == ApiErrorView::Internal("encryption failed: aead::Error"@),
        },
{
    let name = choose_title(title, template_name);
    let filename = concat3(&sanitize_filename(&name), ".", extension_of(format));
    let wanted = match save {
        Some(save) => save,
        None => false,
    };
    let record = if wanted {
        match new_record(
            key,
            &name,
            &filename,
            mime_of(format),
            bytes.as_slice(),
            index_text,
            user,
        ) {
            Err(error) => {
                return Err(error);
            },
            Ok(record) => Some(record),
        }
    } else {
        None
    };
    Ok(
        RenderedFile {
            bytes,
            content_type: mime_of(format).to_owned(),
            disposition: content_disposition(&filename),
            record,
        },
    )
}

// What holds of all of this

/// A document that is made has the form that was asked for, and only a document template is made
/// into a DOCX document.
pub proof fn lemma_rendered_form(
    key: Seq<u8>,
    template: Option<TemplateSourceView>,
    values: Seq<char>,
    asked: Option<Seq<char>>,
    res: Result<RenderingView, ApiErrorView>,
)
    requires
        template_rendering(key, template, values, asked, res),
    ensures
        res matches Ok(rendering) ==> wanted_format(asked) == Ok::<OutputFormat, ApiErrorView>(
            product_format(rendering.product),
        ) && template is Some && (product_format(rendering.product) == OutputFormat::Docx
            ==> template->Some_0.template_type == "docx"@),
{
}

/// What the index holds of a document that was made is a normalized text: its words on a single
/// line, cut to the length that the index takes.
pub proof fn lemma_rendered_index(
    key: Seq<u8>,
    template: Option<TemplateSourceView>,
    values: Seq<char>,
    asked: Option<Seq<char>>,
    res: Result<RenderingView, ApiErrorView>,
)
    requires
        template_rendering(key, template, values, asked, res),
    ensures
        res matches Ok(rendering) ==> exists|text: Seq<char>|
            rendering.index_text == #[trigger] normalized(text),
{
}

/// What is read of a stored template to make a document from it.
pub open spec fn source_of(record: TemplateRecord) -> TemplateSourceView {
    TemplateSourceView {
        name: record.name@,
        body: record.body@,
        template_type: record.template_type@,
        docx_ciphertext: opt_bytes(record.docx_ciphertext),
        docx_nonce: opt_bytes(record.docx_nonce),
    }
}

/// A document template that was stored is filled in as it was uploaded.
pub proof fn lemma_stored_docx_is_filled_in(
    record: TemplateRecord,
    key: Seq<u8>,
    name: Seq<char>,
    filename: Seq<char>,
    file: Seq<u8>,
    values: Seq<char>,
    asked: Option<Seq<char>>,
    res: Result<RenderingView, ApiErrorView>,
)
    requires
        record.stores_docx(key, name, filename, file),
        template_rendering(key, Some(source_of(record)), values, asked, res),
    ensures
        match wanted_format(asked) {
            Ok(format) => docx_rendering(file, values, format, res),
            Err(error) => res == Err::<RenderingView, ApiErrorView>(error),
        },
{
}

/// A text template that was stored is filled in as it was uploaded, and is not made into a DOCX
/// document.
pub proof fn lemma_stored_text_is_filled_in(
    record: TemplateRecord,
    key: Seq<u8>,
    name: Seq<char>,
    body: Seq<char>,
    values: Seq<char>,
    asked: Option<Seq<char>>,
    res: Result<RenderingView, ApiErrorView>,
)
    requires
        record.stores_text(name, body),
        template_rendering(key, Some(source_of(record)), values, asked, res),
    ensures
        match wanted_format(asked) {
            Ok(format) => text_rendered(body, values, format, res) && (format
                == OutputFormat::Docx ==> res is Err),
            Err(error) => res == Err::<RenderingView, ApiErrorView>(error),
        },
{
    reveal_strlit("text");
    reveal_strlit("docx");
    assert("text"@[0] != "docx"@[0]);
}

/// The headers of a document that was made can be sent, whatever its title.
pub proof fn lemma_rendered_headers(title: Seq<char>, format: OutputFormat)
    ensures
        header_text(format_mime(format)),
        header_text(attachment(rendered_filename(title, format))),
        forall|i: int|
            0 <= i < rendered_filename(title, format).len() ==> safe_char(
                #[trigger] rendered_filename(title, format)[i],
            ),
{
    reveal_strlit("application/pdf");
    reveal_strlit("application/vnd.openxmlformats-officedocument.wordprocessingml.document");
    reveal_strlit(".");
    reveal_strlit("pdf");
    reveal_strlit("docx");
    lemma_sanitized_is_safe(title);
    let name = rendered_filename(title, format);
    let front = sanitized(title) + "."@;
    assert forall|i: int| 0 <= i < name.len() implies safe_char(#[trigger] name[i]) by {
        if i < sanitized(title).len() {
            assert(name[i] == sanitized(title)[i]);
        } else if i < front.len() {
            assert(name[i] == '.');
        } else {
            assert(name[i] == format_ext(format)[i - front.len()]);
        }
    }
    lemma_attachment(name);
    assert forall|i: int| 0 <= i < format_mime(format).len() implies header_char(
        #[trigger] format_mime(format)[i],
    ) by {}
}

/// A document is made as PDF where nothing was said or `pdf` was asked for, and as DOCX where `docx`
/// was, in capital or small letters and with white space around them; whatever else is asked for is
/// refused.
pub proof fn lemma_format_asked_for(text: Seq<char>)
    ensures
        wanted_format(None) == Ok::<OutputFormat, ApiErrorView>(OutputFormat::Pdf),
        ({
            let t = trimmed(text);
            wanted_format(Some(text)) == if t.len() == 3 && (t[0] == 'p' || t[0] == 'P') && (t[1] == 'd' || t[1] == 'D') && (t[2]
            == 'f' || t[2] == 'F') {
                Ok::<OutputFormat, ApiErrorView>(OutputFormat::Pdf)
            } else if t.len() == 4 && (t[0] == 'd' || t[0] == 'D') && (t[1] == 'o' || t[1] == 'O') && (t[2]
            == 'c' || t[2] == 'C') && (t[3] == 'x' || t[3] == 'X') {
                Ok(OutputFormat::Docx)
            } else {
                Err(ApiErrorView::BadRequest("output_format must be either 'pdf' or 'docx'"@))
            }
        }),
{
    reveal_strlit("pdf");
    reveal_strlit("docx");
    let t = trimmed(text);
    let low = lowered(t);
    assert(low.len() == t.len());
    assert("pdf"@.len() == 3 && "docx"@.len() == 4);
    assert forall|i: int| 0 <= i < t.len() implies #[trigger] low[i] == lower(t[i]) by {}
    if t.len() == 3 {
        lemma_lower(t[0]);
        lemma_lower(t[1]);
        lemma_lower(t[2]);
        if low == "pdf"@ {
            assert(low[0] == 'p' && low[1] == 'd' && low[2] == 'f');
        } else if t.len() == 3 && (t[0] == 'p' || t[0] == 'P') && (t[1] == 'd' || t[1] == 'D') && (t[2]
            == 'f' || t[2] == 'F') {
            assert(low =~= "pdf"@);
        }
    }
    if t.len() == 4 {
        lemma_lower(t[0]);
        lemma_lower(t[1]);
        lemma_lower(t[2]);
        lemma_lower(t[3]);
        if low == "docx"@ {
            assert(low[0] == 'd' && low[1] == 'o' && low[2] == 'c' && low[3] == 'x');
        } else if t.len() == 4 && (t[0] == 'd' || t[0] == 'D') && (t[1] == 'o' || t[1] == 'O') && (t[2]
            == 'c' || t[2] == 'C') && (t[3] == 'x' || t[3] == 'X') {
            assert(low =~= "docx"@);
        }
    }
}

proof fn lemma_lower(c: char)
    ensures
        lower(c) == 'p' <==> (c == 'p' || c == 'P'),
        lower(c) == 'd' <==> (c == 'd' || c == 'D'),
        lower(c) == 'f' <==> (c == 'f' || c == 'F'),
        lower(c) == 'o' <==> (c == 'o' || c == 'O'),
        lower(c) == 'c' <==> (c == 'c' || c == 'C'),
        lower(c) == 'x' <==> (c == 'x' || c == 'X'),
{
    if 'A' <= c <= 'Z' {
        assert(lower(c) as u32 == c as u32 + 32);
    }
}

/// A PDF document and a DOCX document have these types and endings, and each product has its form.
pub proof fn lemma_forms(text: Seq<char>, bytes: Seq<u8>)
    ensures
        format_mime(OutputFormat::Pdf) == "application/pdf"@,
        format_mime(OutputFormat::Docx)
            == "application/vnd.openxmlformats-officedocument.wordprocessingml.document"@,
        format_ext(OutputFormat::Pdf) == "pdf"@,
        format_ext(OutputFormat::Docx) == "docx"@,
        product_of(bytes, OutputFormat::Pdf) == ProductView::Convert(bytes),
        product_of(bytes, OutputFormat::Docx) == ProductView::Docx(bytes),
        product_format(ProductView::Text(text)) == OutputFormat::Pdf,
        product_format(ProductView::Convert(bytes)) == OutputFormat::Pdf,
        product_format(ProductView::Docx(bytes)) == OutputFormat::Docx,
{
}

/// A text template is printed as what the template engine makes of the whole of it, and found under
/// the words of that; it is not made into a DOCX document.
pub proof fn lemma_text_is_made(
    body: Seq<char>,
    values: Seq<char>,
    format: OutputFormat,
    res: Result<RenderingView, ApiErrorView>,
)
    requires
        text_rendered(body, values, format, res),
    ensures
        !may_not_end(body) ==> match handlebars_text(body, values) {
            Some(text) => match format {
                OutputFormat::Pdf => res matches Ok(rendering) && rendering.product
                    == ProductView::Text(text) && rendering.index_text == normalized(text),
                OutputFormat::Docx => res == Err::<RenderingView, ApiErrorView>(
                    ApiErrorView::BadRequest("DOCX output is available only for DOCX templates"@),
                ),
            },
            None => exists|why: Seq<char>|
                res == Err::<RenderingView, ApiErrorView>(
                    ApiErrorView::BadRequest(#[trigger] ("template render failed: "@ + why)),
                ),
        },
        may_not_end(body) ==> res == Err::<RenderingView, ApiErrorView>(
            ApiErrorView::BadRequest(
                "template render failed: "@ + "parts may include each other without end"@,
            ),
        ),
        (forall|i: int, j: int|
            0 <= i && j == i + 1 && j < body.len() ==> !(#[trigger] body[i] == '{'
                && #[trigger] body[j] == '{')) && format == OutputFormat::Pdf ==> (
        res matches Ok(rendering) && rendering.product == ProductView::Text(body)
            && rendering.index_text == normalized(body)),
{
    reveal_strlit("{{");
    if has_placeholder(body) {
        let i = choose|i: int| occurs_at(body, "{{"@, i);
        assert(body.subrange(i, i + 2)[0] == '{' && body.subrange(i, i + 2)[1] == '{');
        assert(body[i] == '{' && body[i + 1] == '{');
    }
    if !may_not_end(body) && handlebars_text(body, values) is None {
        let why = choose|why: Seq<char>| res->Err_0 == #[trigger] engine_error(why);
        assert(res->Err_0 == ApiErrorView::BadRequest("template render failed: "@ + why));
    }
}

/// What comes of a text template when the template engine has answered.
pub proof fn lemma_engine_has_answered(text: Seq<char>)
    ensures
        text_rendering(Ok(text), OutputFormat::Pdf) == Ok::<RenderingView, ApiErrorView>(
            (RenderingView { product: ProductView::Text(text), index_text: normalized(text) }),
        ),
        text_rendering(Ok(text), OutputFormat::Docx) == Err::<RenderingView, ApiErrorView>(
            ApiErrorView::BadRequest("DOCX output is available only for DOCX templates"@),
        ),
        text_rendering(Err(text), OutputFormat::Pdf) == Err::<RenderingView, ApiErrorView>(
            ApiErrorView::BadRequest("template render failed: "@ + text),
        ),
        text_rendering(Err(text), OutputFormat::Docx) == Err::<RenderingView, ApiErrorView>(
            ApiErrorView::BadRequest("template render failed: "@ + text),
        ),
{
}

/// A document is found under the words of the text that was read in it, of its first 400 000
/// characters where there are more, or under those of the values where it could not be read.
pub proof fn lemma_document_is_found(text: Seq<char>, error: ApiErrorView, values: Seq<char>)
    ensures
        text.len() <= 400_000 ==> docx_text(Ok(text), values) == normalized(text),
        text.len() > 400_000 ==> docx_text(Ok(text), values) == normalized(text.take(400_000)),
        values.len() <= 400_000 ==> docx_text(Err(error), values) == normalized(values),
        values.len() > 400_000 ==> docx_text(Err(error), values) == normalized(
            values.take(400_000),
        ),
{
}

/// A document template is made into the document that filling in the values gives: that very
/// document where DOCX was asked for, and what it is converted to where PDF was. It is found under
/// the text in that document. It is refused for what filling in is refused for.
pub proof fn lemma_docx_is_made(
    template: Seq<u8>,
    values: Seq<char>,
    format: OutputFormat,
    res: Result<RenderingView, ApiErrorView>,
)
    requires
        docx_rendering(template, values, format, res),
    ensures
        match res {
            Err(error) => renders(template, values, Err(error)),
            Ok(rendering) => exists|bytes: Seq<u8>|
                {
                    &&& #[trigger] renders(template, values, Ok(bytes))
                    &&& rendering.product == match format {
                        OutputFormat::Pdf => ProductView::Convert(bytes),
                        OutputFormat::Docx => ProductView::Docx(bytes),
                    }
                    &&& docx_index(bytes) matches Ok(text) ==> rendering.index_text == normalized(
                        at_most(text, 400_000),
                    )
                    &&& docx_index(bytes) is Err ==> rendering.index_text == normalized(
                        at_most(values, 400_000),
                    )
                },
        },
{
    if let Ok(rendering) = res {
        let bytes = choose|bytes: Seq<u8>|
            {
                &&& #[trigger] renders(template, values, Ok(bytes))
                &&& rendering.product == product_of(bytes, format)
                &&& rendering.index_text == docx_text(docx_index(bytes), values)
            };
        assert(renders(template, values, Ok(bytes)));
    }
}

/// The file of a document template is what AES-256-GCM finds in it, all of it.
pub proof fn lemma_template_is_opened(key: Seq<u8>, template: TemplateSourceView)
    ensures
        template.docx_ciphertext is None ==> template_file(key, template) == Err::<
            Seq<u8>,
            ApiErrorView,
        >(ApiErrorView::Internal("DOCX template storage is corrupted: ciphertext missing"@)),
        template.docx_ciphertext is Some && template.docx_nonce is None ==> template_file(
            key,
            template,
        ) == Err::<Seq<u8>, ApiErrorView>(
            ApiErrorView::Internal("DOCX template storage is corrupted: nonce missing"@),
        ),
        template.docx_ciphertext matches Some(ciphertext) ==> (template.docx_nonce matches Some(
            nonce,
        ) ==> {
            &&& nonce.len() != 12 ==> template_file(key, template) == Err::<Seq<u8>, ApiErrorView>(
                ApiErrorView::Internal("invalid nonce length"@),
            )
            &&& nonce.len() == 12 ==> match gcm_opened(key, nonce, ciphertext) {
                Some(file) => template_file(key, template) == Ok::<Seq<u8>, ApiErrorView>(file),
                None => template_file(key, template) == Err::<Seq<u8>, ApiErrorView>(
                    ApiErrorView::Internal("decryption failed: aead::Error"@),
                ),
            }
        }),
{
}

/// A template that is not there is not found, a form that there is not is refused, and else a
/// document template is made from its file and any other template from its body.
pub proof fn lemma_template_is_made(
    key: Seq<u8>,
    template: TemplateSourceView,
    values: Seq<char>,
    asked: Option<Seq<char>>,
    res: Result<RenderingView, ApiErrorView>,
)
    ensures
        template_rendering(key, None, values, asked, res) ==> res == Err::<
            RenderingView,
            ApiErrorView,
        >(ApiErrorView::NotFound("template not found"@)),
        template_rendering(key, Some(template), values, asked, res) ==> match wanted_format(asked) {
            Err(error) => res == Err::<RenderingView, ApiErrorView>(error),
            Ok(format) => {
                &&& template.template_type != "docx"@ ==> text_rendered(
                    template.body,
                    values,
                    format,
                    res,
                )
                &&& template.template_type == "docx"@ ==> match template_file(key, template) {
                    Err(error) => res == Err::<RenderingView, ApiErrorView>(error),
                    Ok(file) => docx_rendering(file, values, format, res),
                }
            },
        },
{
}

/// A document has the title that was given, without the white space around it, and the name of the
/// template where none was given or a blank one. Its file has that title as its name, made safe, and
/// the ending of its form.
pub proof fn lemma_rendered_names(title: Seq<char>, name: Seq<char>)
    ensures
        rendered_title(None, name) == name,
        trimmed(title).len() == 0 ==> rendered_title(Some(title), name) == name,
        trimmed(title).len() > 0 ==> rendered_title(Some(title), name) == trimmed(title),
        rendered_filename(title, OutputFormat::Pdf) == sanitized(title) + ".pdf"@,
        rendered_filename(title, OutputFormat::Docx) == sanitized(title) + ".docx"@,
{
    reveal_strlit(".");
    reveal_strlit("pdf");
    reveal_strlit("docx");
    reveal_strlit(".pdf");
    reveal_strlit(".docx");
    assert(sanitized(title) + "."@ + "pdf"@ =~= sanitized(title) + ".pdf"@);
    assert(sanitized(title) + "."@ + "docx"@ =~= sanitized(title) + ".docx"@);
}

/// What is said of templates and of what they were made into is said of their texts and bytes.
pub proof fn lemma_render_views(
    source: TemplateSource,
    rendering: Rendering,
    record: TemplateRecord,
    bytes: Option<Vec<u8>>,
)
    ensures
        source@.name == source.name@,
        source@.body == source.body@,
        source@.template_type == source.template_type@,
        source@.docx_ciphertext == opt_bytes(source.docx_ciphertext),
        source@.docx_nonce == opt_bytes(source.docx_nonce),
        opt_source(Some(&source)) == Some(source@),
        opt_source(None) is None,
        rendering@.index_text == rendering.index_text@,
        match rendering.product {
            Product::Text(text) => rendering@.product == ProductView::Text(text@),
            Product::Convert(file) => rendering@.product == ProductView::Convert(file@),
            Product::Docx(file) => rendering@.product == ProductView::Docx(file@),
        },
        match bytes {
            Some(file) => opt_bytes(bytes) == Some(file@),
            None => opt_bytes(bytes) is None,
        },
        source_of(record).name == record.name@,
        source_of(record).body == record.body@,
        source_of(record).template_type == record.template_type@,
        source_of(record).docx_ciphertext == opt_bytes(record.docx_ciphertext),
        source_of(record).docx_nonce == opt_bytes(record.docx_nonce),
{
}

} // verus!
