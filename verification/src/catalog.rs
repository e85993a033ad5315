//! The templates that documents are made from.

use vstd::prelude::*;
use vstd::utf8::encode_utf8;
use crate::crypto::{decrypted, encrypt_bytes, gcm_opened, gcm_sealed, max_plaintext, NONCE_LEN};
use crate::document::{fresh_id, is_random_id, too_large, too_large_error};
use crate::docx::{docx_check, validate_docx_template};
use crate::error::{outcome, ApiError, ApiErrorView};
use crate::filename::{sanitize_filename, sanitized};
use crate::form::{UploadForm, UploadFormView};
use crate::number::decimal_text;
use crate::text::{trim, trimmed};

verus! {

/// How many bytes the body of a text template may have.
pub const BODY_BYTES: usize = 200_000;

/// How many bytes the name of a document template may have.
pub const NAME_BYTES: usize = 200;

/// A template as it is stored. A text template has a body; a document template has a file, which is
/// there only in encrypted form.
pub struct TemplateRecord {
    pub id: u128,
    pub name: String,
    pub body: String,
    pub template_type: String,
    pub docx_ciphertext: Option<Vec<u8>>,
    pub docx_nonce: Option<Vec<u8>>,
    pub docx_filename: Option<String>,
}

impl TemplateRecord {
    /// Whether the record stores the text template of this name and body.
    pub open spec fn stores_text(&self, name: Seq<char>, body: Seq<char>) -> bool {
        &&& is_random_id(self.id)
        &&& self.name@ == name
        &&& self.body@ == body
        &&& self.template_type@ == "text"@
        &&& self.docx_ciphertext is None
        &&& self.docx_nonce is None
        &&& self.docx_filename is None
    }

    /// Whether the record stores the document template of this name and file under the key.
    pub open spec fn stores_docx(
        &self,
        key: Seq<u8>,
        name: Seq<char>,
        filename: Seq<char>,
        file: Seq<u8>,
    ) -> bool {
        &&& is_random_id(self.id)
        &&& self.name@ == name
        &&& self.body@ == Seq::<char>::empty()
        &&& self.template_type@ == "docx"@
        &&& self.docx_filename matches Some(stored)
        &&& stored@ == filename
        &&& self.docx_nonce matches Some(nonce)
        &&& self.docx_ciphertext matches Some(ciphertext)
        &&& nonce@.len() == NONCE_LEN
        &&& ciphertext@ == gcm_sealed(key, nonce@, file)
        &&& decrypted(key, nonce@, ciphertext@) == Ok::<Seq<u8>, ApiErrorView>(file)
    }
}

// Text templates

/// Why a text template of this name and body is refused, if it is.
pub open spec fn text_template_fault(name: Seq<char>, body: Seq<char>) -> Option<ApiErrorView> {
    if trimmed(name).len() == 0 {
        Some(ApiErrorView::BadRequest("template name is required"@))
    } else if trimmed(body).len() == 0 {
        Some(ApiErrorView::BadRequest("template body is required"@))
    } else if encode_utf8(trimmed(body)).len() > BODY_BYTES {
        Some(ApiErrorView::BadRequest("template body is too large (max 200000 chars)"@))
    } else {
        None
    }
}

/// How many bytes the text takes.
fn byte_len(s: &str) -> (n: usize)
    ensures
        n == encode_utf8(s@).len(),
        n == 0 <==> s@.len() == 0,
{
    proof {
        lemma_no_bytes(s@);
    }
    s.as_bytes().len()
}

/// Only the empty text takes no bytes.
proof fn lemma_no_bytes(s: Seq<char>)
    ensures
        encode_utf8(s).len() == 0 <==> s.len() == 0,
{
    reveal_with_fuel(encode_utf8, 1);
}

/// The record of a text template; the white space at the ends of its name and body is dropped.
pub fn upsert_template(name: &str, body: &str) -> (res: Result<TemplateRecord, ApiError>)
    ensures
        match res {
            Ok(record) => text_template_fault(name@, body@) is None && record.stores_text(
                trimmed(name@),
                trimmed(body@),
            ),
            Err(error) => text_template_fault(name@, body@) == Some(error@),
        },
{
    let name = trim(name);
    let body = trim(body);
    if byte_len(&name) == 0 {
        return Err(ApiError::bad_request("template name is required"));
    }
    if byte_len(&body) == 0 {
        return Err(ApiError::bad_request("template body is required"));
    }
    if byte_len(&body) > BODY_BYTES {
        return Err(ApiError::bad_request("template body is too large (max 200000 chars)"));
    }
    Ok(
        TemplateRecord {
            id: fresh_id(),
            name,
            body,
            template_type: "text".to_owned(),
            docx_ciphertext: None,
            docx_nonce: None,
            docx_filename: None,
        },
    )
}

// Document templates

/// Why a document template is refused, if it is.
pub open spec fn docx_template_fault(form: UploadFormView, max: nat) -> Option<ApiErrorView> {
    match (form.text, form.file) {
        (None, _) => Some(ApiErrorView::BadRequest("name is required"@)),
        (Some(name), file) => if encode_utf8(name).len() > NAME_BYTES {
            Some(ApiErrorView::BadRequest("template name is too long (max 200 chars)"@))
        } else {
            match file {
                None => Some(ApiErrorView::BadRequest("DOCX file is required"@)),
                Some(file) => if file.len() > max {
                    Some(too_large("template file"@, max))
                } else {
                    match docx_check(file) {
                        Err(error) => Some(error),
                        Ok(_) => if file.len() > max_plaintext() {
                            Some(ApiErrorView::Internal("encryption failed: aead::Error"@))
                        } else {
                            None
                        },
                    }
                },
            }
        },
    }
}

/// The name under which the file of a document template is kept.
pub open spec fn docx_filename(form: UploadFormView) -> Seq<char> {
    match form.file_name {
        Some(name) => sanitized(name),
        None => "template.docx"@,
    }
}

/// The record of the document template in the form, if it is one of at most `max` bytes.
pub fn upload_docx_template(key: &[u8; 32], form: UploadForm, max: usize) -> (res: Result<
    TemplateRecord,
    ApiError,
>)
    ensures
        match res {
            Ok(record) => docx_template_fault(form@, max as nat) is None && record.stores_docx(
                key@,
                form@.text->Some_0,
                docx_filename(form@),
                form@.file->Some_0,
            ),
            Err(error) => docx_template_fault(form@, max as nat) == Some(error@),
        },
{
    let name = match form.text {
        None => {
            return Err(ApiError::bad_request("name is required"));
        },
        Some(name) => name,
    };
    if byte_len(&name) > NAME_BYTES {
        return Err(ApiError::bad_request("template name is too long (max 200 chars)"));
    }
    let file = match form.file {
        None => {
            return Err(ApiError::bad_request("DOCX file is required"));
        },
        Some(file) => file,
    };
    if file.len() > max {
        return Err(too_large_error("template file", max));
    }
    match validate_docx_template(file.as_slice()) {
        Err(error) => {
            return Err(error);
        },
        Ok(_) => {},
    }
    let filename = match form.file_name {
        Some(name) => sanitize_filename(&name),
        None => "template.docx".to_owned(),
    };
    let (nonce, ciphertext) = match encrypt_bytes(key, file.as_slice()) {
        Err(error) => {
            return Err(error);
        },
        Ok(sealed) => sealed,
    };
    Ok(
        TemplateRecord {
            id: fresh_id(),
            name,
            body: String::new(),
            template_type: "docx".to_owned(),
            docx_ciphertext: Some(ciphertext),
            docx_nonce: Some(nonce),
            docx_filename: Some(filename),
        },
    )
}

/// What the removal of a template comes to when it took so many rows out.
pub fn delete_template(rows_affected: u64) -> (res: Result<bool, ApiError>)
    ensures
        outcome(res) == if rows_affected == 0 {
            Err(ApiErrorView::NotFound("template not found"@))
        } else {
            Ok(true)
        },
{
    if rows_affected == 0 {
        return Err(ApiError::not_found("template not found"));
    }
    Ok(true)
}

// What holds of all of this

/// A text template is refused without a name, without a body, or with a body of more than 200 000
/// bytes, in this order, and no other is; white space around them does not count.
pub proof fn lemma_text_template_refused(name: Seq<char>, body: Seq<char>)
    ensures
        trimmed(name).len() == 0 ==> text_template_fault(name, body) == Some(
            ApiErrorView::BadRequest("template name is required"@),
        ),
        trimmed(name).len() > 0 && trimmed(body).len() == 0 ==> text_template_fault(name, body)
            == Some(ApiErrorView::BadRequest("template body is required"@)),
        trimmed(name).len() > 0 && trimmed(body).len() > 0 && encode_utf8(trimmed(body)).len()
            > 200_000 ==> text_template_fault(name, body) == Some(
            ApiErrorView::BadRequest("template body is too large (max 200000 chars)"@),
        ),
        trimmed(name).len() > 0 && trimmed(body).len() > 0 && encode_utf8(trimmed(body)).len()
            <= 200_000 ==> text_template_fault(name, body) is None,
{
}

/// The record of a text template holds its name and its whole body, and no file.
pub proof fn lemma_text_record_holds(record: TemplateRecord, name: Seq<char>, body: Seq<char>)
    requires
        record.stores_text(name, body),
    ensures
        record.name@ == name,
        record.body@ == body,
        record.template_type@ == "text"@,
        record.docx_ciphertext is None,
        record.docx_nonce is None,
        record.docx_filename is None,
        record.id / 0x1000_0000_0000_0000_0000 % 16 == 4,
        record.id / 0x4000_0000_0000_0000 % 4 == 2,
{
}

/// A document template is refused without a name, with one of more than 200 bytes, without a file,
/// with one that is too large, for what the check finds in the file, or because the file cannot be
/// encrypted, in this order, and no other is.
pub proof fn lemma_docx_template_refused(form: UploadFormView, max: nat)
    ensures
        form.text is None ==> docx_template_fault(form, max) == Some(
            ApiErrorView::BadRequest("name is required"@),
        ),
        form.text matches Some(name) ==> {
            &&& encode_utf8(name).len() > 200 ==> docx_template_fault(form, max) == Some(
                ApiErrorView::BadRequest("template name is too long (max 200 chars)"@),
            )
            &&& encode_utf8(name).len() <= 200 ==> match form.file {
                None => docx_template_fault(form, max) == Some(
                    ApiErrorView::BadRequest("DOCX file is required"@),
                ),
                Some(file) => {
                    &&& file.len() > max ==> docx_template_fault(form, max) == Some(
                        ApiErrorView::BadRequest(
                            "template file"@ + " too large, max "@ + decimal_text(max)
                                + " bytes"@,
                        ),
                    )
                    &&& file.len() <= max ==> match docx_check(file) {
                        Err(error) => docx_template_fault(form, max) == Some(error),
                        Ok(_) => {
                            &&& file.len() > 68_719_476_736 ==> docx_template_fault(form, max)
                                == Some(ApiErrorView::Internal("encryption failed: aead::Error"@))
                            &&& file.len() <= 68_719_476_736 ==> docx_template_fault(
                                form,
                                max,
                            ) is None
                        },
                    }
                },
            }
        },
{
}

/// The record of a document template holds its name and the name of its file. The file is there in
/// encrypted form, and what AES-256-GCM finds in it is the whole file.
pub proof fn lemma_docx_record_holds(
    record: TemplateRecord,
    key: Seq<u8>,
    name: Seq<char>,
    filename: Seq<char>,
    file: Seq<u8>,
)
    requires
        record.stores_docx(key, name, filename, file),
    ensures
        record.name@ == name,
        record.body@.len() == 0,
        record.template_type@ == "docx"@,
        record.docx_filename matches Some(stored) && stored@ == filename,
        record.docx_nonce matches Some(nonce) && nonce@.len() == 12 && (
        record.docx_ciphertext matches Some(ciphertext) && ciphertext@ == gcm_sealed(
            key,
            nonce@,
            file,
        ) && gcm_opened(key, nonce@, ciphertext@) == Some(file)),
        record.id / 0x1000_0000_0000_0000_0000 % 16 == 4,
        record.id / 0x4000_0000_0000_0000 % 4 == 2,
{
}

/// The file of a document template keeps its name, made safe, and is called `template.docx` where it
/// has none.
pub proof fn lemma_docx_filename(form: UploadFormView)
    ensures
        form.file_name matches Some(name) ==> docx_filename(form) == sanitized(name),
        form.file_name is None ==> docx_filename(form) == "template.docx"@,
{
}

} // verus!
