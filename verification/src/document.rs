//! Stored documents: taken in, kept encrypted, handed out again.

use vstd::prelude::*;
use crate::crypto::{decrypt_bytes, decrypted, encrypt_bytes, gcm_opened, gcm_sealed, max_plaintext,
    sha256, sha256_digest, NONCE_LEN};
use crate::error::{outcome, ApiError, ApiErrorView};
use crate::filename::{attachment, content_disposition, header_text, is_header_text,
    lemma_attachment, lemma_sanitized_is_safe, sanitize_filename, sanitized};
use crate::form::{UploadForm, UploadFormView};
use crate::index::{normalize_text_for_index, normalized};
use crate::number::{decimal, decimal_text};
use crate::text::{concat3, opt_text, result_texts, same_text, trim, trimmed};

verus! {

// Taking in

/// Whether the bytes begin as a PDF file does, with `%PDF-`.
pub open spec fn begins_as_pdf(file: Seq<u8>) -> bool {
    file.len() >= 5 && file.take(5) == seq![0x25u8, 0x50, 0x44, 0x46, 0x2d]
}

/// Whether the bytes begin as a PDF file does.
pub fn is_pdf(file: &[u8]) -> (b: bool)
    ensures
        b == begins_as_pdf(file@),
{
    let b = file.len() >= 5 && file[0] == 0x25 && file[1] == 0x50 && file[2] == 0x44 && file[3]
        == 0x46 && file[4] == 0x2d;
    proof {
        let mark = seq![0x25u8, 0x50, 0x44, 0x46, 0x2d];
        if file@.len() >= 5 {
            let front = file@.take(5);
            if front == mark {
                assert(front[0] == mark[0] && front[1] == mark[1] && front[2] == mark[2] && front[3]
                    == mark[3] && front[4] == mark[4]);
            }
            if b {
                assert(front =~= mark);
            }
        }
    }
    b
}

/// The refusal of a file that is larger than `max` bytes; `what` says which.
pub open spec fn too_large(what: Seq<char>, max: nat) -> ApiErrorView {
    ApiErrorView::BadRequest(what + " too large, max "@ + decimal_text(max) + " bytes"@)
}

/// The refusal of a file that is larger than `max` bytes.
pub fn too_large_error(what: &str, max: usize) -> (error: ApiError)
    ensures
        error@ == too_large(what@, max as nat),
{
    let head = concat3(what, " too large, max ", &decimal(max));
    ApiError::bad_request_with(&head, " bytes")
}

/// A document that is taken in.
pub struct NewDocument {
    pub title: String,
    pub filename: String,
    pub file: Vec<u8>,
}

/// Why the form gives no document, if it does not.
pub open spec fn upload_fault(form: UploadFormView, max: nat) -> Option<ApiErrorView> {
    match form.file {
        None => Some(ApiErrorView::BadRequest("file is required"@)),
        Some(file) => if file.len() > max {
            Some(too_large("file"@, max))
        } else if !begins_as_pdf(file) {
            Some(ApiErrorView::BadRequest("only PDF files are supported"@))
        } else {
            None
        },
    }
}

/// The file name in the form, or `document.pdf`.
pub open spec fn upload_filename(form: UploadFormView) -> Seq<char> {
    match form.file_name {
        Some(name) => name,
        None => "document.pdf"@,
    }
}

/// The title in the form, or the file name.
pub open spec fn upload_title(form: UploadFormView) -> Seq<char> {
    match form.text {
        Some(title) => title,
        None => upload_filename(form),
    }
}

/// The file in the form, if it is a PDF file of at most `max` bytes.
pub fn readable_file(form: &UploadForm, max: usize) -> (res: Result<&Vec<u8>, ApiError>)
    ensures
        match res {
            Ok(file) => upload_fault(form@, max as nat) is None && Some(file@) == form@.file,
            Err(error) => upload_fault(form@, max as nat) == Some(error@),
        },
{
    let file = match &form.file {
        None => {
            return Err(ApiError::bad_request("file is required"));
        },
        Some(file) => file,
    };
    if file.len() > max {
        return Err(too_large_error("file", max));
    }
    if !is_pdf(file.as_slice()) {
        return Err(ApiError::bad_request("only PDF files are supported"));
    }
    Ok(file)
}

/// Takes in the document in the form, if it is a PDF file of at most `max` bytes.
pub fn accept_document(form: UploadForm, max: usize) -> (res: Result<NewDocument, ApiError>)
    ensures
        match res {
            Ok(document) => upload_fault(form@, max as nat) is None && Some(document.file@)
                == form@.file && document.filename@ == upload_filename(form@) && document.title@
                == upload_title(form@),
            Err(error) => upload_fault(form@, max as nat) == Some(error@),
        },
{
    match readable_file(&form, max) {
        Err(error) => {
            return Err(error);
        },
        Ok(_) => {},
    }
    let file = match form.file {
        None => {
            return Err(ApiError::bad_request("file is required"));
        },
        Some(file) => file,
    };
    let filename = match form.file_name {
        Some(name) => name,
        None => "document.pdf".to_owned(),
    };
    let title = match form.text {
        Some(title) => title,
        None => filename.clone(),
    };
    Ok(NewDocument { title, filename, file })
}

// Text

/// What the answer of the reader of PDF files comes to: the text in the file, or why it cannot be
/// read.
pub open spec fn pdf_outcome(answer: Result<Seq<char>, Seq<char>>) -> Result<
    Seq<char>,
    ApiErrorView,
> {
    match answer {
        Ok(text) => Ok(text),
        Err(why) => Err(ApiErrorView::BadRequest("failed to parse PDF text: "@ + why)),
    }
}

/// What the reader's answer comes to.
pub fn pdf_answer(answer: Result<String, String>) -> (res: Result<String, ApiError>)
    ensures
        outcome(res) == pdf_outcome(result_texts(answer)),
{
    match answer {
        Ok(text) => Ok(text),
        Err(why) => Err(ApiError::bad_request_with("failed to parse PDF text: ", &why)),
    }
}

/// The text under which the file is found, if it holds one that is not blank. Where there is none,
/// the pages have to be recognised.
pub open spec fn usable_text(extracted: Result<Seq<char>, ApiErrorView>) -> Option<Seq<char>> {
    match extracted {
        Ok(text) => if trimmed(text).len() == 0 {
            None
        } else {
            Some(text)
        },
        Err(_) => None,
    }
}

/// The text under which the file is found, if it holds one that is not blank.
pub fn embedded_text(extracted: Result<String, ApiError>) -> (text: Option<String>)
    ensures
        opt_text(text) == usable_text(outcome(extracted)),
{
    match extracted {
        Ok(text) => {
            proof {
                reveal_strlit("");
                if trimmed(text@).len() == 0 {
                    assert(trimmed(text@) == ""@);
                }
            }
            if same_text(&trim(&text), "") {
                None
            } else {
                Some(text)
            }
        },
        Err(_) => None,
    }
}

/// Takes in the document in the form, with the text that it holds, if it holds any. `extracted` is
/// what the reader of PDF files found in the file.
pub fn upload_document(
    form: UploadForm,
    max: usize,
    extracted: Result<String, String>,
) -> (res: Result<(NewDocument, Option<String>), ApiError>)
    ensures
        match res {
            Ok((document, text)) => upload_fault(form@, max as nat) is None && Some(document.file@)
                == form@.file && document.filename@ == upload_filename(form@) && document.title@
                == upload_title(form@) && opt_text(text) == usable_text(
                pdf_outcome(result_texts(extracted)),
            ),
            Err(error) => upload_fault(form@, max as nat) == Some(error@),
        },
{
    let document = match accept_document(form, max) {
        Err(error) => {
            return Err(error);
        },
        Ok(document) => document,
    };
    Ok((document, embedded_text(pdf_answer(extracted))))
}

// Keeping

/// Whether the number is a random identifier: of version 4, and of the variant that such
/// identifiers have.
pub open spec fn is_random_id(id: u128) -> bool {
    &&& id / 0x1000_0000_0000_0000_0000 % 16 == 4
    &&& id / 0x4000_0000_0000_0000 % 4 == 2
}

/// `uuid::Uuid::new_v4`: an identifier of which only its version and its variant are known.
#[verifier::external_body]
pub(crate) fn fresh_id() -> (id: u128)
    ensures
        is_random_id(id),
{
    uuid::Uuid::new_v4().as_u128()
}

/// A document as it is stored.
pub struct DocumentRecord {
    pub id: u128,
    pub title: String,
    pub filename: String,
    pub mime_type: String,
    pub file_size: i64,
    pub ciphertext: Vec<u8>,
    pub nonce: Vec<u8>,
    pub checksum: Vec<u8>,
    pub extracted_text: String,
    pub uploaded_by: String,
}

/// What is known of a document before it is stored.
pub struct DocumentModel {
    pub title: Seq<char>,
    pub filename: Seq<char>,
    pub mime_type: Seq<char>,
    pub file: Seq<u8>,
    pub extracted_text: Seq<char>,
    pub uploaded_by: Seq<char>,
}

impl DocumentRecord {
    /// Whether the record stores the document under the key: the file is there only in encrypted
    /// form, beside its size and its checksum.
    pub open spec fn stores(&self, key: Seq<u8>, document: DocumentModel) -> bool {
        &&& is_random_id(self.id)
        &&& self.title@ == document.title
        &&& self.filename@ == document.filename
        &&& self.mime_type@ == document.mime_type
        &&& self.file_size == document.file.len()
        &&& self.nonce@.len() == NONCE_LEN
        &&& self.ciphertext@ == gcm_sealed(key, self.nonce@, document.file)
        &&& decrypted(key, self.nonce@, self.ciphertext@) == Ok::<Seq<u8>, ApiErrorView>(
            document.file,
        )
        &&& self.checksum@ == sha256_digest(document.file)
        &&& self.extracted_text@ == document.extracted_text
        &&& self.uploaded_by@ == document.uploaded_by
    }
}

/// The record that stores a file, if it is not too long to be encrypted.
pub fn new_record(
    key: &[u8; 32],
    title: &str,
    filename: &str,
    mime_type: &str,
    file: &[u8],
    extracted_text: String,
    uploaded_by: &str,
) -> (res: Result<DocumentRecord, ApiError>)
    ensures
        match res {
            Ok(record) => file@.len() <= max_plaintext() && record.stores(
                key@,
                (DocumentModel {
                    title: title@,
                    filename: filename@,
                    mime_type: mime_type@,
                    file: file@,
                    extracted_text: extracted_text@,
                    uploaded_by: uploaded_by@,
                }),
            ),
            Err(error) => file@.len() > max_plaintext() && error@ == ApiErrorView::Internal(
                "encryption failed: aead::Error"@,
            ),
        },
{
    let (nonce, ciphertext) = match encrypt_bytes(key, file) {
        Err(error) => {
            return Err(error);
        },
        Ok(sealed) => sealed,
    };
    Ok(
        DocumentRecord {
            id: fresh_id(),
            title: title.to_owned(),
            filename: filename.to_owned(),
            mime_type: mime_type.to_owned(),
            file_size: file.len() as i64,
            ciphertext,
            nonce,
            checksum: sha256(file),
            extracted_text,
            uploaded_by: uploaded_by.to_owned(),
        },
    )
}

/// The record of a document that was taken in, found under `text`.
pub fn store_document(
    key: &[u8; 32],
    document: &NewDocument,
    text: &str,
    uploaded_by: &str,
) -> (res: Result<DocumentRecord, ApiError>)
    ensures
        match res {
            Ok(record) => document.file@.len() <= max_plaintext() && record.stores(
                key@,
                (DocumentModel {
                    title: document.title@,
                    filename: document.filename@,
                    mime_type: "application/pdf"@,
                    file: document.file@,
                    extracted_text: normalized(text@),
                    uploaded_by: uploaded_by@,
                }),
            ),
            Err(error) => document.file@.len() > max_plaintext() && error@
                == ApiErrorView::Internal("encryption failed: aead::Error"@),
        },
{
    new_record(
        key,
        &document.title,
        &document.filename,
        "application/pdf",
        document.file.as_slice(),
        normalize_text_for_index(text),
        uploaded_by,
    )
}

// Handing out

/// What is read of a stored document to hand it out.
pub struct StoredDocument {
    pub filename: String,
    pub mime_type: String,
    pub ciphertext: Vec<u8>,
    pub nonce: Vec<u8>,
}

/// What is read of a stored document to hand it out.
pub struct StoredDocumentView {
    pub filename: Seq<char>,
    pub mime_type: Seq<char>,
    pub ciphertext: Seq<u8>,
    pub nonce: Seq<u8>,
}

impl View for StoredDocument {
    type V = StoredDocumentView;

    open spec fn view(&self) -> StoredDocumentView {
        StoredDocumentView {
            filename: self.filename@,
            mime_type: self.mime_type@,
            ciphertext: self.ciphertext@,
            nonce: self.nonce@,
        }
    }
}

/// A document that is handed out, with the headers that go with it.
pub struct Download {
    pub bytes: Vec<u8>,
    pub content_type: String,
    pub disposition: String,
}

/// A document that is handed out, with the headers that go with it.
pub struct DownloadView {
    pub bytes: Seq<u8>,
    pub content_type: Seq<char>,
    pub disposition: Seq<char>,
}

impl View for Download {
    type V = DownloadView;

    open spec fn view(&self) -> DownloadView {
        DownloadView {
            bytes: self.bytes@,
            content_type: self.content_type@,
            disposition: self.disposition@,
        }
    }
}

/// The type under which a document is handed out: its own, where a header can carry that.
pub open spec fn download_type(mime_type: Seq<char>) -> Seq<char> {
    if header_text(mime_type) {
        mime_type
    } else {
        "application/pdf"@
    }
}

/// What handing out comes to.
pub open spec fn downloaded(key: Seq<u8>, row: Option<StoredDocumentView>) -> Result<
    DownloadView,
    ApiErrorView,
> {
    match row {
        None => Err(ApiErrorView::NotFound("document not found"@)),
        Some(row) => match decrypted(key, row.nonce, row.ciphertext) {
            Err(error) => Err(error),
            Ok(bytes) => Ok(
                DownloadView {
                    bytes,
                    content_type: download_type(row.mime_type),
                    disposition: attachment(sanitized(row.filename)),
                },
            ),
        },
    }
}

/// Hands out the document in the row that was found.
pub fn download_document(key: &[u8; 32], row: Option<StoredDocument>) -> (res: Result<
    Download,
    ApiError,
>)
    ensures
        outcome(res) == downloaded(
            key@,
            match row {
                Some(row) => Some(row@),
                None => None,
            },
        ),
{
    let row = match row {
        None => {
            return Err(ApiError::not_found("document not found"));
        },
        Some(row) => row,
    };
    let bytes = match decrypt_bytes(key, row.nonce.as_slice(), row.ciphertext.as_slice()) {
        Err(error) => {
            return Err(error);
        },
        Ok(bytes) => bytes,
    };
    let content_type = if is_header_text(&row.mime_type) {
        row.mime_type
    } else {
        "application/pdf".to_owned()
    };
    let disposition = content_disposition(&sanitize_filename(&row.filename));
    Ok(Download { bytes, content_type, disposition })
}

/// What is read of a record to hand it out.
pub open spec fn row_of(record: DocumentRecord) -> StoredDocumentView {
    StoredDocumentView {
        filename: record.filename@,
        mime_type: record.mime_type@,
        ciphertext: record.ciphertext@,
        nonce: record.nonce@,
    }
}

/// A document that was stored is handed out byte for byte as it was taken in, under its type and
/// name, and with the size and the checksum that it was stored with.
pub proof fn lemma_stored_comes_back(record: DocumentRecord, key: Seq<u8>, document: DocumentModel)
    requires
        record.stores(key, document),
    ensures
        downloaded(key, Some(row_of(record))) matches Ok(download) && download.bytes
            == document.file && sha256_digest(download.bytes) == record.checksum@
            && download.bytes.len() == record.file_size && download.content_type == download_type(
            document.mime_type,
        ) && download.disposition == attachment(sanitized(document.filename)),
{
}

/// The headers of a document that is handed out can be sent, whatever its name and its type.
pub proof fn lemma_download_headers(key: Seq<u8>, row: Option<StoredDocumentView>)
    ensures
        downloaded(key, row) matches Ok(download) ==> header_text(download.content_type)
            && header_text(download.disposition),
{
    if let Some(row) = row {
        lemma_sanitized_is_safe(row.filename);
        lemma_attachment(sanitized(row.filename));
        reveal_strlit("application/pdf");
    }
}

/// What the removal of a document comes to when it took so many rows out.
pub fn delete_document(rows_affected: u64) -> (res: Result<bool, ApiError>)
    ensures
        outcome(res) == if rows_affected == 0 {
            Err(ApiErrorView::NotFound("document not found"@))
        } else {
            Ok(true)
        },
{
    if rows_affected == 0 {
        return Err(ApiError::not_found("document not found"));
    }
    Ok(true)
}

// What holds of all of this

/// A PDF file begins with the five characters `%PDF-`, and whatever begins so is taken for one.
pub proof fn lemma_pdf_mark(file: Seq<u8>)
    ensures
        begins_as_pdf(file) <==> (file.len() >= 5 && file[0] == 0x25 && file[1] == 0x50 && file[2]
            == 0x44 && file[3] == 0x46 && file[4] == 0x2d),
{
    let mark = seq![0x25u8, 0x50, 0x44, 0x46, 0x2d];
    if file.len() >= 5 {
        let front = file.take(5);
        if front == mark {
            assert(front[0] == mark[0] && front[1] == mark[1] && front[2] == mark[2] && front[3]
                == mark[3] && front[4] == mark[4]);
        }
        if file[0] == 0x25 && file[1] == 0x50 && file[2] == 0x44 && file[3] == 0x46 && file[4]
            == 0x2d {
            assert(front =~= mark);
        }
    }
}

/// A form without a file, with one that is too large, or with one that is no PDF file is refused in
/// this order, and no other form is.
pub proof fn lemma_upload_refused(form: UploadFormView, max: nat)
    ensures
        match form.file {
            None => upload_fault(form, max) == Some(ApiErrorView::BadRequest("file is required"@)),
            Some(file) => {
                &&& file.len() > max ==> upload_fault(form, max) == Some(
                    ApiErrorView::BadRequest(
                        "file"@ + " too large, max "@ + decimal_text(max) + " bytes"@,
                    ),
                )
                &&& file.len() <= max && (file.len() < 5 || file[0] != 0x25 || file[1] != 0x50
                    || file[2] != 0x44 || file[3] != 0x46 || file[4] != 0x2d) ==> upload_fault(
                    form,
                    max,
                ) == Some(ApiErrorView::BadRequest("only PDF files are supported"@))
                &&& 5 <= file.len() <= max && file[0] == 0x25 && file[1] == 0x50 && file[2] == 0x44
                    && file[3] == 0x46 && file[4] == 0x2d ==> upload_fault(form, max) is None
            },
        },
{
    if let Some(file) = form.file {
        lemma_pdf_mark(file);
    }
}

/// The refusal of a file that is too large says which file it is and how many bytes it may have.
pub proof fn lemma_too_large(what: Seq<char>, max: nat)
    ensures
        too_large(what, max) == ApiErrorView::BadRequest(
            what + " too large, max "@ + decimal_text(max) + " bytes"@,
        ),
{
}

/// A document has the title and the file name in the form; without a file name it is called
/// `document.pdf`, and without a title its title is its file name.
pub proof fn lemma_upload_names(form: UploadFormView)
    ensures
        form.file_name matches Some(name) ==> upload_filename(form) == name,
        form.file_name is None ==> upload_filename(form) == "document.pdf"@,
        form.text matches Some(title) ==> upload_title(form) == title,
        form.text is None ==> (form.file_name matches Some(name) ==> upload_title(form) == name),
        form.text is None && form.file_name is None ==> upload_title(form) == "document.pdf"@,
{
}

/// The whole text that a file holds is used unless it is blank; where the file cannot be read there
/// is none.
pub proof fn lemma_embedded_text(text: Seq<char>, error: ApiErrorView)
    ensures
        trimmed(text).len() > 0 ==> usable_text(pdf_outcome(Ok(text))) == Some(text),
        trimmed(text).len() == 0 ==> usable_text(pdf_outcome(Ok(text))) is None,
        usable_text(pdf_outcome(Err(text))) is None,
        pdf_outcome(Ok(text)) == Ok::<Seq<char>, ApiErrorView>(text),
        pdf_outcome(Err(text)) == Err::<Seq<char>, ApiErrorView>(
            ApiErrorView::BadRequest("failed to parse PDF text: "@ + text),
        ),
        trimmed(text).len() > 0 ==> usable_text(Ok(text)) == Some(text),
        trimmed(text).len() == 0 ==> usable_text(Ok(text)) is None,
        usable_text(Err(error)) is None,
{
}

/// A record holds what is known of the document: its title, its file name, its type, the size and
/// the checksum of its file, its text and who stored it. The file is there in encrypted form, and
/// what AES-256-GCM finds in it is the whole file.
pub proof fn lemma_record_holds(record: DocumentRecord, key: Seq<u8>, document: DocumentModel)
    requires
        record.stores(key, document),
    ensures
        record.title@ == document.title,
        record.filename@ == document.filename,
        record.mime_type@ == document.mime_type,
        record.file_size == document.file.len(),
        record.nonce@.len() == 12,
        record.ciphertext@ == gcm_sealed(key, record.nonce@, document.file),
        gcm_opened(key, record.nonce@, record.ciphertext@) == Some(document.file),
        record.checksum@ == sha256_digest(document.file),
        record.extracted_text@ == document.extracted_text,
        record.uploaded_by@ == document.uploaded_by,
        record.id / 0x1000_0000_0000_0000_0000 % 16 == 4,
        record.id / 0x4000_0000_0000_0000 % 4 == 2,
{
}

/// A document that is not there is not found. One that is there is handed out as AES-256-GCM finds
/// it, all of it, under its type where a header can carry that and else as PDF, and under its name
/// made safe.
pub proof fn lemma_handed_out(key: Seq<u8>, row: StoredDocumentView)
    ensures
        downloaded(key, None) == Err::<DownloadView, ApiErrorView>(
            ApiErrorView::NotFound("document not found"@),
        ),
        row.nonce.len() == 12 ==> match gcm_opened(key, row.nonce, row.ciphertext) {
            Some(file) => {
                &&& downloaded(key, Some(row)) matches Ok(download)
                &&& download.bytes == file
                &&& header_text(row.mime_type) ==> download.content_type == row.mime_type
                &&& !header_text(row.mime_type) ==> download.content_type == "application/pdf"@
                &&& download.disposition == "attachment; filename=\""@ + sanitized(row.filename)
                    + "\""@
            },
            None => downloaded(key, Some(row)) == Err::<DownloadView, ApiErrorView>(
                ApiErrorView::Internal("decryption failed: aead::Error"@),
            ),
        },
        row.nonce.len() != 12 ==> downloaded(key, Some(row)) == Err::<DownloadView, ApiErrorView>(
            ApiErrorView::Internal("invalid nonce length"@),
        ),
{
}

/// What is said of a stored document and of one that is handed out is said of its texts and bytes.
pub proof fn lemma_document_views(stored: StoredDocument, download: Download, record: DocumentRecord)
    ensures
        stored@.filename == stored.filename@,
        stored@.mime_type == stored.mime_type@,
        stored@.ciphertext == stored.ciphertext@,
        stored@.nonce == stored.nonce@,
        download@.bytes == download.bytes@,
        download@.content_type == download.content_type@,
        download@.disposition == download.disposition@,
        row_of(record).filename == record.filename@,
        row_of(record).mime_type == record.mime_type@,
        row_of(record).ciphertext == record.ciphertext@,
        row_of(record).nonce == record.nonce@,
{
}

} // verus!
