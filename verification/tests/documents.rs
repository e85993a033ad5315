use std::io::{Cursor, Read, Write};

use iedocs::archive::EntryHeader;
use iedocs::catalog::{delete_template, upload_docx_template, upsert_template, TemplateRecord};
use iedocs::crypto::{decrypt_bytes, encrypt_bytes, encrypt_with_nonce, sha256};
use iedocs::document::{
    accept_document, delete_document, download_document, embedded_text, is_pdf, pdf_answer,
    readable_file, store_document, upload_document, NewDocument, StoredDocument,
};
use iedocs::docx::{is_docx_xml_template_target, is_unsafe_archive_path, validate_docx_template};
use iedocs::encoding::bytes_of;
use iedocs::error::ApiError;
use iedocs::extraction::{extract_docx_index_text, markup_text};
use iedocs::filling::{engine_answer, entry_step, fill_in, render_docx_template, EntryStep};
use iedocs::form::{form_field, FormField, UploadForm};
use iedocs::ocr::{is_page_name, order_pages, text_before, OcrRun};
use iedocs::parts::includes_without_end;
use iedocs::render::{
    conversion_result, deliver, document_text, finish_text, open_template, parse_output_format,
    render_template, OutputFormat, Product, TemplateSource,
};
use iedocs::template::{run_engine, values_to_index_text};

const KEY: [u8; 32] = [9; 32];

fn hex(bytes: &[u8]) -> String {
    bytes.iter().map(|b| format!("{:02x}", b)).collect()
}

fn json(text: &str) -> serde_json::Value {
    serde_json::from_str(text).unwrap()
}

fn zip_of(entries: &[(&str, &[u8])]) -> Vec<u8> {
    let mut writer = zip::ZipWriter::new(Cursor::new(Vec::new()));
    let options = zip::write::FileOptions::default();
    for (name, data) in entries {
        if name.ends_with('/') {
            writer.add_directory(*name, options).unwrap();
        } else {
            writer.start_file(*name, options).unwrap();
            writer.write_all(data).unwrap();
        }
    }
    writer.finish().unwrap().into_inner()
}

fn unzip(bytes: &[u8]) -> Vec<(String, Vec<u8>)> {
    let mut archive = zip::ZipArchive::new(Cursor::new(bytes)).unwrap();
    (0..archive.len())
        .map(|i| {
            let mut entry = archive.by_index(i).unwrap();
            let mut data = Vec::new();
            entry.read_to_end(&mut data).unwrap();
            (entry.name().to_owned(), data)
        })
        .collect()
}

fn template_docx() -> Vec<u8> {
    zip_of(&[
        ("[Content_Types].xml", b"<Types/>"),
        ("word/", b""),
        ("word/document.xml", b"<w:p><w:t>Dear {{name}}</w:t></w:p>"),
        ("word/media/image.png", b"\x89PNG {{name}}"),
    ])
}

fn pdf_with(content: &str) -> Vec<u8> {
    let stream = format!("BT /F1 12 Tf 72 700 Td ({}) Tj ET", content);
    let objects = [
        "<< /Type /Catalog /Pages 2 0 R >>".to_owned(),
        "<< /Type /Pages /Kids [3 0 R] /Count 1 >>".to_owned(),
        "<< /Type /Page /Parent 2 0 R /MediaBox [0 0 612 792] /Contents 4 0 R \
         /Resources << /Font << /F1 5 0 R >> >> >>"
            .to_owned(),
        format!("<< /Length {} >>\nstream\n{}\nendstream", stream.len(), stream),
        "<< /Type /Font /Subtype /Type1 /BaseFont /Helvetica /Encoding /WinAnsiEncoding >>".to_owned(),
    ];
    let mut out = String::from("%PDF-1.4\n");
    let mut offsets = Vec::new();
    for (i, object) in objects.iter().enumerate() {
        offsets.push(out.len());
        out.push_str(&format!("{} 0 obj\n{}\nendobj\n", i + 1, object));
    }
    let xref = out.len();
    out.push_str(&format!("xref\n0 {}\n0000000000 65535 f \n", objects.len() + 1));
    for offset in offsets {
        out.push_str(&format!("{:010} 00000 n \n", offset));
    }
    out.push_str(&format!(
        "trailer\n<< /Size {} /Root 1 0 R >>\nstartxref\n{}\n%%EOF\n",
        objects.len() + 1,
        xref
    ));
    out.into_bytes()
}

fn message<T>(res: Result<T, ApiError>) -> String {
    match res {
        Ok(_) => panic!("accepted"),
        Err(error) => error.message(),
    }
}

// Encryption

#[test]
fn encryption_is_aes_256_gcm() {
    let sealed = encrypt_with_nonce(&[0; 32], &[0; 12], b"").unwrap();
    assert_eq!(hex(&sealed), "530f8afbc74536b9a963b4f1c4cb738b");
    let sealed = encrypt_with_nonce(&[0; 32], &[0; 12], &[0; 16]).unwrap();
    assert_eq!(
        hex(&sealed),
        "cea7403d4d606b6e074ec5d3baf39d18d0d1c8a799996bf0265b98b5d48ab919"
    );
}

#[test]
fn what_is_encrypted_is_decrypted() {
    for plain in [&b""[..], b"x", b"a longer text than a block of the cipher"] {
        let (nonce, sealed) = encrypt_bytes(&KEY, plain).unwrap();
        assert_eq!(nonce.len(), 12);
        assert_eq!(sealed.len(), plain.len() + 16);
        assert_eq!(decrypt_bytes(&KEY, &nonce, &sealed).unwrap(), plain);
    }
}

#[test]
fn changed_ciphertexts_are_refused() {
    let (nonce, mut sealed) = encrypt_bytes(&KEY, b"secret").unwrap();
    assert_eq!(
        message(decrypt_bytes(&[8; 32], &nonce, &sealed)),
        "internal error: decryption failed: aead::Error"
    );
    sealed[0] ^= 1;
    assert_eq!(
        message(decrypt_bytes(&KEY, &nonce, &sealed)),
        "internal error: decryption failed: aead::Error"
    );
    assert_eq!(
        message(decrypt_bytes(&KEY, &nonce, b"short")),
        "internal error: decryption failed: aead::Error"
    );
    assert_eq!(
        message(decrypt_bytes(&KEY, &nonce[1..], &sealed)),
        "internal error: invalid nonce length"
    );
}

#[test]
fn checksums_are_sha_256() {
    assert_eq!(
        hex(&sha256(b"abc")),
        "ba7816bf8f01cfea414140de5dae2223b00361a396177a9cb410ff61f20015ad"
    );
}

// Forms

#[test]
fn form_fields_are_told_apart() {
    assert_eq!(form_field("title", "title"), FormField::Text);
    assert_eq!(form_field("name", "name"), FormField::Text);
    assert_eq!(form_field("name", "title"), FormField::Other);
    assert_eq!(form_field("file", "title"), FormField::File);
    assert_eq!(form_field("", "title"), FormField::Other);
}

#[test]
fn later_fields_count() {
    let mut form = UploadForm::new();
    form.add_text(" first ");
    form.add_file(Some("a.pdf".to_owned()), b"%PDF-a".to_vec());
    form.add_text("  ");
    form.add_file(None, b"%PDF-b".to_vec());
    assert_eq!(form.text, Some("first".to_owned()));
    assert_eq!(form.file_name, None);
    assert_eq!(form.file, Some(b"%PDF-b".to_vec()));
    form.add_text("second");
    assert_eq!(form.text, Some("second".to_owned()));
}

// Documents

fn form_with(text: Option<&str>, name: Option<&str>, file: Option<&[u8]>) -> UploadForm {
    UploadForm {
        text: text.map(|s| s.to_owned()),
        file_name: name.map(|s| s.to_owned()),
        file: file.map(|b| b.to_vec()),
    }
}

#[test]
fn pdf_files_are_known_by_their_beginning() {
    assert!(is_pdf(b"%PDF-1.7"));
    assert!(is_pdf(b"%PDF-"));
    assert!(!is_pdf(b"%PDF"));
    assert!(!is_pdf(b"PK\x03\x04"));
    assert!(!is_pdf(b""));
}

#[test]
fn documents_are_taken_in() {
    let d = accept_document(form_with(Some("T"), Some("f.pdf"), Some(b"%PDF-x")), 6)
        .unwrap_or_else(|e| panic!("{}", e.message()));
    assert_eq!((d.title.as_str(), d.filename.as_str()), ("T", "f.pdf"));
    assert_eq!(d.file, b"%PDF-x");
    let d = accept_document(form_with(None, Some("f.pdf"), Some(b"%PDF-x")), 6).ok().unwrap();
    assert_eq!((d.title.as_str(), d.filename.as_str()), ("f.pdf", "f.pdf"));
    let d = accept_document(form_with(None, None, Some(b"%PDF-x")), 6).ok().unwrap();
    assert_eq!((d.title.as_str(), d.filename.as_str()), ("document.pdf", "document.pdf"));
}

#[test]
fn other_files_are_refused() {
    let refusal = |file: Option<&[u8]>, max: usize| message(accept_document(form_with(None, None, file), max));
    assert_eq!(refusal(None, 9), "bad request: file is required");
    assert_eq!(refusal(Some(b"%PDF-123"), 7), "bad request: file too large, max 7 bytes");
    assert_eq!(refusal(Some(b"not a pdf"), 9), "bad request: only PDF files are supported");
    assert_eq!(refusal(Some(b"not a pdf"), 8), "bad request: file too large, max 8 bytes");
}

fn read_pdf(file: &[u8]) -> Result<String, String> {
    pdf_extract::extract_text_from_mem(file).map_err(|e| e.to_string())
}

#[test]
fn only_acceptable_files_are_read() {
    let form = form_with(None, None, Some(b"%PDF-x"));
    assert_eq!(readable_file(&form, 6).unwrap(), b"%PDF-x");
    assert_eq!(message(readable_file(&form, 5)), "bad request: file too large, max 5 bytes");
    let form = form_with(None, None, None);
    assert_eq!(message(readable_file(&form, 5)), "bad request: file is required");
    let form = form_with(None, None, Some(b"text"));
    assert_eq!(message(readable_file(&form, 5)), "bad request: only PDF files are supported");
}

#[test]
fn embedded_text_is_read() {
    let file = pdf_with("Hello index");
    let form = form_with(Some("T"), None, Some(&file));
    let (document, text) = upload_document(form, file.len(), read_pdf(&file)).ok().unwrap();
    assert_eq!(document.file, file);
    assert_eq!((document.title.as_str(), document.filename.as_str()), ("T", "document.pdf"));
    assert!(text.unwrap().contains("Hello index"));
}

#[test]
fn scans_have_no_embedded_text() {
    let file = pdf_with("");
    let upload = |file: &[u8], extracted: Result<String, String>| {
        upload_document(form_with(None, None, Some(file)), file.len(), extracted)
    };
    assert_eq!(upload(&file, read_pdf(&file)).ok().unwrap().1, None);
    assert_eq!(upload(b"%PDF-broken", read_pdf(b"%PDF-broken")).ok().unwrap().1, None);
    assert_eq!(upload(&file, Err("the reader panicked".to_owned())).ok().unwrap().1, None);
    assert_eq!(
        message(upload(b"text", Ok("text".to_owned()))),
        "bad request: only PDF files are supported"
    );
    assert_eq!(
        message(pdf_answer(Err("why".to_owned()))),
        "bad request: failed to parse PDF text: why"
    );
    assert_eq!(embedded_text(Ok(" \n".to_owned())), None);
    assert_eq!(embedded_text(Ok(" a ".to_owned())), Some(" a ".to_owned()));
    assert_eq!(embedded_text(Err(ApiError::internal("x"))), None);
}

fn new_document() -> NewDocument {
    NewDocument {
        title: "Contract".to_owned(),
        filename: "my contract.pdf".to_owned(),
        file: b"%PDF-content".to_vec(),
    }
}

#[test]
fn documents_are_stored_encrypted() {
    let record = store_document(&KEY, &new_document(), " a \n b ", "admin")
        .unwrap_or_else(|e| panic!("{}", e.message()));
    assert_eq!(record.title, "Contract");
    assert_eq!(record.filename, "my contract.pdf");
    assert_eq!(record.mime_type, "application/pdf");
    assert_eq!(record.file_size, 12);
    assert_eq!(record.extracted_text, "a b");
    assert_eq!(record.uploaded_by, "admin");
    assert_eq!(record.checksum, sha256(b"%PDF-content"));
    assert_ne!(record.ciphertext, b"%PDF-content".to_vec());
    let id = uuid::Uuid::from_u128(record.id);
    assert_eq!(id.get_version_num(), 4);
    assert_eq!(id.get_variant(), uuid::Variant::RFC4122);
}

#[test]
fn stored_documents_come_back() {
    let record = store_document(&KEY, &new_document(), "", "admin").ok().unwrap();
    let row = StoredDocument {
        filename: record.filename,
        mime_type: record.mime_type,
        ciphertext: record.ciphertext,
        nonce: record.nonce,
    };
    let download = download_document(&KEY, Some(row)).ok().unwrap();
    assert_eq!(download.bytes, b"%PDF-content");
    assert_eq!(sha256(&download.bytes), record.checksum);
    assert_eq!(download.content_type, "application/pdf");
    assert_eq!(download.disposition, "attachment; filename=\"my_contract.pdf\"");
}

#[test]
fn types_that_no_header_carries_are_replaced() {
    let (nonce, ciphertext) = encrypt_bytes(&KEY, b"x").unwrap();
    for (mime, expected) in [("text/plain", "text/plain"), ("a\nb", "application/pdf"), ("", "")] {
        let row = StoredDocument {
            filename: "ж".to_owned(),
            mime_type: mime.to_owned(),
            ciphertext: ciphertext.clone(),
            nonce: nonce.clone(),
        };
        let download = download_document(&KEY, Some(row)).ok().unwrap();
        assert_eq!(download.content_type, expected);
        assert_eq!(download.disposition, "attachment; filename=\"_\"");
    }
}

#[test]
fn what_is_not_there_is_not_found() {
    assert_eq!(message(download_document(&KEY, None)), "not found: document not found");
    assert_eq!(message(delete_document(0)), "not found: document not found");
    assert_eq!(message(delete_template(0)), "not found: template not found");
    assert!(delete_document(1).unwrap());
    assert!(delete_template(2).unwrap());
}

// Document templates

#[test]
fn paths_that_lead_out_are_unsafe() {
    for path in ["", "/etc", "\\x", "a/../b", "..", "c:x", "a:b"] {
        assert!(is_unsafe_archive_path(path), "{:?}", path);
    }
    for path in ["word/document.xml", "a.b", ".", "a\\b", "[Content_Types].xml"] {
        assert!(!is_unsafe_archive_path(path), "{:?}", path);
    }
}

#[test]
fn markup_of_the_main_part_is_filled_in() {
    assert!(is_docx_xml_template_target("word/document.xml"));
    assert!(is_docx_xml_template_target("word/sub/header1.xml"));
    assert!(!is_docx_xml_template_target("word/document.xml.rels"));
    assert!(!is_docx_xml_template_target("docProps/core.xml"));
    assert!(!is_docx_xml_template_target("Word/document.xml"));
}

#[test]
fn sound_templates_are_accepted() {
    assert!(validate_docx_template(&template_docx()).is_ok());
}

#[test]
fn unsound_templates_are_refused() {
    let refusal = |bytes: &[u8]| message(validate_docx_template(bytes));
    let no_zip = "bad request: invalid DOCX: file is not a ZIP container";
    assert_eq!(refusal(b""), no_zip);
    assert_eq!(refusal(b"PK\x03"), no_zip);
    assert_eq!(refusal(b"%PDF-1.4"), no_zip);
    assert!(refusal(b"PK\x03\x04 no archive").starts_with("bad request: invalid DOCX archive: "));
    assert_eq!(
        refusal(&zip_of(&[("[Content_Types].xml", b"x"), ("../evil", b"x")])),
        "bad request: invalid DOCX: unsafe archive path"
    );
    assert_eq!(
        refusal(&zip_of(&[("word/document.xml", b"x")])),
        "bad request: invalid DOCX: required DOCX entries are missing"
    );
    assert_eq!(
        refusal(&zip_of(&[("[Content_Types].xml", b"x")])),
        "bad request: invalid DOCX: required DOCX entries are missing"
    );
    let large = vec![0_u8; 52_428_801];
    assert_eq!(
        refusal(&zip_of(&[("a", &large)])),
        "bad request: invalid DOCX: uncompressed size is too large"
    );
}

#[test]
fn templates_may_unpack_to_fifty_megabytes() {
    let large = vec![0_u8; 52_428_800 - 2];
    let bytes = zip_of(&[("[Content_Types].xml", b"x"), ("word/document.xml", b"x"), ("a", &large)]);
    assert!(validate_docx_template(&bytes).is_ok());
    let bytes = zip_of(&[("[Content_Types].xml", b"xx"), ("word/document.xml", b"x"), ("a", &large)]);
    assert_eq!(
        message(validate_docx_template(&bytes)),
        "bad request: invalid DOCX: uncompressed size is too large"
    );
}

#[test]
fn entries_are_sorted_into_steps() {
    let header = |name: &str, is_dir: bool| EntryHeader { name: name.to_owned(), size: 1, is_dir };
    let step = |name: &str, is_dir: bool| entry_step(Ok(header(name, is_dir))).ok().unwrap();
    assert_eq!(step("word/", true).0, EntryStep::Directory);
    assert_eq!(step("word/document.xml", false).0, EntryStep::FillIn);
    assert_eq!(step("a.bin", false), (EntryStep::Copy, "a.bin".to_owned()));
    assert_eq!(
        message(entry_step(Ok(header("/a", false)))),
        "bad request: invalid DOCX template: unsafe archive path"
    );
    assert_eq!(
        message(entry_step(Err("why".to_owned()))),
        "internal error: failed to read DOCX entry: why"
    );
}

#[test]
fn values_are_filled_in() {
    let values = json("{\"name\": \"Ann & Co\"}");
    let out = render_docx_template(&template_docx(), &values).unwrap();
    assert_eq!(
        unzip(&out),
        vec![
            ("[Content_Types].xml".to_owned(), b"<Types/>".to_vec()),
            ("word/".to_owned(), Vec::new()),
            (
                "word/document.xml".to_owned(),
                b"<w:p><w:t>Dear Ann &amp; Co</w:t></w:p>".to_vec()
            ),
            ("word/media/image.png".to_owned(), b"\x89PNG {{name}}".to_vec()),
        ]
    );
    assert!(validate_docx_template(&out).is_ok());
    assert_eq!(extract_docx_index_text(&out).unwrap(), "Dear Ann & Co");
}

#[test]
fn templates_without_placeholders_stay_as_they_are() {
    for body in ["", "plain", "{ name }", "a\\b \\ \\\\", "}} {", "x\r\ny\n", "{", "ж\t\\{"] {
        let bytes = zip_of(&[("word/a.xml", body.as_bytes())]);
        let out = render_docx_template(&bytes, &json("{}")).unwrap();
        assert_eq!(unzip(&out)[0].1, body.as_bytes(), "{:?}", body);
    }
}

#[test]
fn templates_that_cannot_be_filled_in_are_refused() {
    let refusal = |bytes: &[u8]| message(render_docx_template(bytes, &json("{}")));
    assert!(refusal(b"no archive").starts_with("bad request: invalid DOCX archive: "));
    assert_eq!(
        refusal(&zip_of(&[("a:b", b"x")])),
        "bad request: invalid DOCX template: unsafe archive path"
    );
    assert!(refusal(&zip_of(&[("word/a.xml", b"{{#if}")]))
        .starts_with("bad request: template render failed: "));
    assert!(refusal(&zip_of(&[("word/a.xml", b"\xff")]))
        .starts_with("internal error: DOCX XML contains invalid utf-8 at word/a.xml: "));
    assert_eq!(
        message(engine_answer(Err("why".to_owned()))),
        "bad request: template render failed: why"
    );
    let filled = fill_in("word/a.xml", b"{{x}}!".to_vec(), &json("{\"x\": 5}")).unwrap();
    assert_eq!(filled, b"5!");
}

#[test]
fn damaged_entries_are_refused() {
    let mut bytes = zip_of(&[("word/a.xml", b"some text that is stored")]);
    let at = bytes.windows(4).position(|w| w == b"some").unwrap_or(45);
    bytes[at] ^= 0xff;
    let refusal = message(render_docx_template(&bytes, &json("{}")));
    assert!(refusal.starts_with("internal error: failed to read DOCX data: "), "{}", refusal);
    let refusal = message(extract_docx_index_text(&bytes));
    assert!(refusal.starts_with("internal error: failed to read DOCX XML entry: "), "{}", refusal);
}

#[test]
fn index_text_is_read_entry_by_entry() {
    let bytes = zip_of(&[
        ("word/document.xml", b"<w:t>one</w:t><w:t>two</w:t>"),
        ("word/styles.xml", b"<w:styles/>"),
        ("word/bad.xml", b"\xff<w:t>no</w:t>"),
        ("docProps/core.xml", b"<w:t>no</w:t>"),
        ("word/footer1.xml", b"<w:t>three</w:t>"),
    ]);
    assert_eq!(extract_docx_index_text(&bytes).unwrap(), "one two\nthree");
    assert!(message(extract_docx_index_text(b"x")).starts_with("bad request: invalid DOCX archive: "));
    assert_eq!(markup_text(b"<w:t>x</w:t>".to_vec()), "x");
    assert_eq!(markup_text(vec![0xff]), "");
    assert_eq!(bytes_of("ж"), "ж".as_bytes());
}

#[test]
fn text_templates_are_checked() {
    let record = upsert_template(" Letter ", " Dear {{name}}\n").ok().unwrap();
    assert_eq!(record.name, "Letter");
    assert_eq!(record.body, "Dear {{name}}");
    assert_eq!(record.template_type, "text");
    assert!(record.docx_ciphertext.is_none());
    assert!(record.docx_nonce.is_none());
    assert!(record.docx_filename.is_none());
    assert_eq!(message(upsert_template("  ", "")), "bad request: template name is required");
    assert_eq!(message(upsert_template("a", " \n")), "bad request: template body is required");
    assert!(upsert_template("a", &"x".repeat(200_000)).is_ok());
    let too_large = "bad request: template body is too large (max 200000 chars)";
    assert_eq!(message(upsert_template("a", &"x".repeat(200_001))), too_large);
    assert_eq!(message(upsert_template("a", &"ж".repeat(100_001))), too_large);
}

#[test]
fn document_templates_are_stored() {
    let file = template_docx();
    let form = form_with(Some("Offer"), Some("my offer.docx"), Some(&file));
    let record = upload_docx_template(&KEY, form, file.len()).ok().unwrap();
    assert_eq!(record.name, "Offer");
    assert_eq!(record.body, "");
    assert_eq!(record.template_type, "docx");
    assert_eq!(record.docx_filename.unwrap(), "my_offer.docx");
    let stored = decrypt_bytes(&KEY, &record.docx_nonce.unwrap(), &record.docx_ciphertext.unwrap());
    assert_eq!(stored.unwrap(), file);
    let form = form_with(Some("Offer"), None, Some(&file));
    let record = upload_docx_template(&KEY, form, file.len()).ok().unwrap();
    assert_eq!(record.docx_filename.unwrap(), "template.docx");
}

#[test]
fn document_templates_are_checked() {
    let refusal = |name: Option<&str>, file: Option<&[u8]>, max: usize| {
        message(upload_docx_template(&KEY, form_with(name, None, file), max))
    };
    assert_eq!(refusal(None, None, 9), "bad request: name is required");
    let long = "ж".repeat(101);
    assert_eq!(
        refusal(Some(&long), None, 9),
        "bad request: template name is too long (max 200 chars)"
    );
    assert_eq!(refusal(Some("a"), None, 9), "bad request: DOCX file is required");
    assert_eq!(
        refusal(Some("a"), Some(b"0123456789"), 9),
        "bad request: template file too large, max 9 bytes"
    );
    assert_eq!(
        refusal(Some("a"), Some(b"012345678"), 9),
        "bad request: invalid DOCX: file is not a ZIP container"
    );
}

// Documents from templates

fn source(record: TemplateRecord) -> TemplateSource {
    TemplateSource {
        name: record.name,
        body: record.body,
        template_type: record.template_type,
        docx_ciphertext: record.docx_ciphertext,
        docx_nonce: record.docx_nonce,
    }
}

fn text_source(body: &str) -> TemplateSource {
    source(upsert_template("Letter", body).ok().unwrap())
}

fn docx_source() -> TemplateSource {
    let file = template_docx();
    let form = form_with(Some("Offer"), None, Some(&file));
    source(upload_docx_template(&KEY, form, file.len()).ok().unwrap())
}

#[test]
fn output_formats_are_read() {
    assert_eq!(parse_output_format(None).unwrap(), OutputFormat::Pdf);
    assert_eq!(parse_output_format(Some(" PDF ")).unwrap(), OutputFormat::Pdf);
    assert_eq!(parse_output_format(Some("DocX")).unwrap(), OutputFormat::Docx);
    for value in ["", "doc", "pdf docx", "РDF"] {
        assert_eq!(
            message(parse_output_format(Some(value))),
            "bad request: output_format must be either 'pdf' or 'docx'"
        );
    }
}

#[test]
fn text_templates_are_printed() {
    let t = text_source("Dear {{name}},\n\n  yours");
    let r = render_template(&KEY, Some(&t), &json("{\"name\": \"Ann\"}"), None).ok().unwrap();
    assert_eq!(r.product.format(), OutputFormat::Pdf);
    assert_eq!(r.index_text, "Dear Ann, yours");
    match r.product {
        Product::Text(text) => assert_eq!(text, "Dear Ann,\n\n  yours"),
        _ => panic!("not a text"),
    }
    assert_eq!(
        message(render_template(&KEY, Some(&t), &json("{}"), Some("docx"))),
        "bad request: DOCX output is available only for DOCX templates"
    );
    let bad = text_source("{{#each}}");
    assert!(message(render_template(&KEY, Some(&bad), &json("{}"), Some("docx")))
        .starts_with("bad request: template render failed: "));
    assert_eq!(
        message(finish_text(Err("why".to_owned()), OutputFormat::Docx)),
        "bad request: template render failed: why"
    );
}

#[test]
fn document_templates_are_filled_in() {
    let t = docx_source();
    let values = json("{\"name\": \"Ann\"}");
    let r = render_template(&KEY, Some(&t), &values, Some("docx")).ok().unwrap();
    assert_eq!(r.index_text, "Dear Ann");
    assert_eq!(r.product.format(), OutputFormat::Docx);
    match r.product {
        Product::Docx(bytes) => {
            assert_eq!(unzip(&bytes)[2].1, b"<w:p><w:t>Dear Ann</w:t></w:p>")
        }
        _ => panic!("no document"),
    }
    let r = render_template(&KEY, Some(&t), &values, Some("pdf")).ok().unwrap();
    assert_eq!(r.product.format(), OutputFormat::Pdf);
    assert!(matches!(r.product, Product::Convert(_)));
    assert_eq!(r.index_text, "Dear Ann");
}

#[test]
fn damaged_storage_is_reported() {
    let render = |t: &TemplateSource| message(render_template(&KEY, Some(t), &json("{}"), None));
    let mut t = docx_source();
    let nonce = t.docx_nonce.take();
    assert_eq!(
        render(&t),
        "internal error: DOCX template storage is corrupted: nonce missing"
    );
    t.docx_nonce = Some(vec![1, 2, 3]);
    assert_eq!(render(&t), "internal error: invalid nonce length");
    t.docx_nonce = nonce;
    assert!(open_template(&KEY, &t).is_ok());
    assert_eq!(
        message(open_template(&[1; 32], &t)),
        "internal error: decryption failed: aead::Error"
    );
    t.docx_ciphertext = None;
    assert_eq!(
        render(&t),
        "internal error: DOCX template storage is corrupted: ciphertext missing"
    );
    assert_eq!(
        message(render_template(&KEY, None, &json("{}"), Some("odt"))),
        "not found: template not found"
    );
    assert_eq!(
        message(render_template(&KEY, Some(&t), &json("{}"), Some("odt"))),
        "bad request: output_format must be either 'pdf' or 'docx'"
    );
}

#[test]
fn documents_without_text_are_found_by_their_values() {
    let values = json("{\"a\": [1, \"x  y\"]}");
    assert_eq!(values_to_index_text(&values), "{\"a\":[1,\"x  y\"]}");
    assert_eq!(document_text(Err(ApiError::internal("x")), &values), "{\"a\":[1,\"x y\"]}");
    assert_eq!(document_text(Ok(" t  u ".to_owned()), &values), "t u");
}

#[test]
fn documents_are_delivered() {
    let file = deliver(
        &KEY, "Offer 1", Some("  "), OutputFormat::Docx, b"doc".to_vec(), "idx".to_owned(), None, "u",
    )
    .ok()
    .unwrap();
    assert_eq!(file.bytes, b"doc");
    assert_eq!(
        file.content_type,
        "application/vnd.openxmlformats-officedocument.wordprocessingml.document"
    );
    assert_eq!(file.disposition, "attachment; filename=\"Offer_1.docx\"");
    assert!(file.record.is_none());
    let file = deliver(
        &KEY, "Offer", None, OutputFormat::Pdf, b"pdf".to_vec(), "idx".to_owned(), Some(false), "u",
    )
    .ok()
    .unwrap();
    assert!(file.record.is_none());
    assert_eq!(file.disposition, "attachment; filename=\"Offer.pdf\"");
}

#[test]
fn delivered_documents_can_be_stored() {
    let file = deliver(
        &KEY, "Offer", Some(" For Ann "), OutputFormat::Pdf, b"pdf".to_vec(), "idx".to_owned(),
        Some(true), "admin",
    )
    .ok()
    .unwrap();
    assert_eq!(file.content_type, "application/pdf");
    let record = file.record.unwrap();
    assert_eq!(record.title, "For Ann");
    assert_eq!(record.filename, "For_Ann.pdf");
    assert_eq!(record.mime_type, "application/pdf");
    assert_eq!(record.file_size, 3);
    assert_eq!(record.extracted_text, "idx");
    assert_eq!(record.uploaded_by, "admin");
    assert_eq!(record.checksum, sha256(b"pdf"));
    assert_eq!(decrypt_bytes(&KEY, &record.nonce, &record.ciphertext).unwrap(), b"pdf");
}

#[test]
fn failed_conversions_are_reported() {
    assert!(conversion_result(true, "exit status: 0", b"noise").is_ok());
    assert_eq!(
        message(conversion_result(false, "exit status: 1", b"bad \xff")),
        "internal error: libreoffice conversion failed with status exit status: 1: bad \u{fffd}"
    );
}

// Recognition

#[test]
fn pages_are_told_from_other_files() {
    assert!(is_page_name("page-1.png"));
    assert!(is_page_name("page-.png"));
    assert!(!is_page_name("scan.pdf"));
    assert!(!is_page_name("page-1.jpg"));
    assert!(!is_page_name("xpage-1.png"));
}

#[test]
fn pages_stand_in_order() {
    let names: Vec<String> = ["page-2.png", "scan.pdf", "page-10.png", "page-1.png", "page-10.png"]
        .iter()
        .map(|s| s.to_string())
        .collect();
    let mut expected: Vec<std::path::PathBuf> = names
        .iter()
        .filter(|n| n.ends_with(".png"))
        .map(|n| std::path::PathBuf::from(n))
        .collect();
    expected.sort();
    let pages: Vec<std::path::PathBuf> =
        order_pages(&names).into_iter().map(std::path::PathBuf::from).collect();
    assert_eq!(pages, expected);
}

#[test]
fn texts_are_ordered_as_their_bytes_are() {
    let texts = ["", "a", "ab", "b", "ж", "\u{ffff}", "\u{10000}", "é"];
    for a in texts {
        for b in texts {
            assert_eq!(text_before(a, b), a <= b, "{:?} {:?}", a, b);
        }
    }
}

#[test]
fn recognised_pages_come_together() {
    let names: Vec<String> =
        ["page-2.png", "page-1.png", "page-3.png"].iter().map(|s| s.to_string()).collect();
    let mut run = OcrRun::start(true, &names);
    let mut seen = Vec::new();
    while let Some(page) = run.next_page() {
        let success = page != "page-2.png";
        run.take_output(success, format!("text of {}", page).as_bytes());
        seen.push(page);
    }
    assert_eq!(seen, ["page-1.png", "page-2.png", "page-3.png"]);
    assert_eq!(run.into_text(), "text of page-1.png\ntext of page-3.png\n");
    let run = OcrRun::start(false, &names);
    assert!(run.next_page().is_none());
    assert_eq!(run.into_text(), "");
    let mut run = OcrRun::start(true, &names[..1].to_vec());
    run.take_output(true, b"\xd0\x96 \xff");
    assert_eq!(run.into_text(), "Ж \u{fffd}\n");
}

#[test]
fn encrypted_entries_are_refused() {
    let plain = zip_of(&[("word/a.xml", b"some text")]);
    let central = plain.windows(4).position(|w| w == b"PK\x01\x02").unwrap();
    let mut encrypted = plain.clone();
    encrypted[central + 8] |= 1;
    let refusal = "unsupported Zip archive: Password required to decrypt file";
    assert_eq!(
        message(validate_docx_template(&encrypted)),
        format!("bad request: invalid DOCX archive entry: {}", refusal)
    );
    assert_eq!(
        message(render_docx_template(&encrypted, &json("{}"))),
        format!("internal error: failed to read DOCX entry: {}", refusal)
    );
    assert_eq!(
        message(extract_docx_index_text(&encrypted)),
        format!("internal error: failed to read DOCX entry: {}", refusal)
    );
}

#[test]
fn entries_with_a_stray_encryption_field_are_refused() {
    let plain = zip_of(&[("word/a.xml", b"some text")]);
    let central = plain.windows(4).position(|w| w == b"PK\x01\x02").unwrap();
    let end = plain.windows(4).position(|w| w == b"PK\x05\x06").unwrap();
    let name_len = "word/a.xml".len();
    let mut bytes = plain.clone();
    bytes[central + 30] = 11;
    let field = [0x01, 0x99, 7, 0, 2, 0, b'A', b'E', 3, 0, 0];
    let at = central + 46 + name_len;
    for (k, b) in field.iter().enumerate() {
        bytes.insert(at + k, *b);
    }
    let size_at = end + field.len() + 12;
    bytes[size_at] += field.len() as u8;
    assert_eq!(
        message(validate_docx_template(&bytes)),
        "bad request: invalid DOCX archive entry: unsupported Zip archive: \
         Password required to decrypt file"
    );
}

#[test]
fn directories_may_end_in_a_backslash() {
    let bytes = zip_of(&[("word\\", b"lost"), ("a", b"kept")]);
    let out = render_docx_template(&bytes, &json("{}")).unwrap();
    assert_eq!(
        unzip(&out),
        vec![("word\\".to_owned(), Vec::new()), ("a".to_owned(), b"kept".to_vec())]
    );
}

#[test]
fn archives_may_be_empty() {
    let out = render_docx_template(&zip_of(&[]), &json("{}")).unwrap();
    assert!(out.starts_with(b"PK"));
    assert!(unzip(&out).is_empty());
    assert_eq!(extract_docx_index_text(&out).unwrap(), "");
}

#[test]
fn names_beyond_ascii_are_kept() {
    let bytes = zip_of(&[("word/документ.xml", "{{имя}}".as_bytes())]);
    let out = render_docx_template(&bytes, &json("{\"имя\": \"Анна\"}")).unwrap();
    assert_eq!(
        unzip(&out),
        vec![("word/документ.xml".to_owned(), "Анна".as_bytes().to_vec())]
    );
}

#[test]
fn last_names_with_control_characters_are_kept() {
    for name in [
        "\u{6}\u{7}",
        "PK\u{6}\u{7}",
        "\u{6}\u{7}-sixteen-bytes",
        "\u{7}-seventeen-bytes",
        "\u{6}\u{7}--eighteen-bytes",
        "K\u{6}\u{7}--nineteen-bytes",
        "PK\u{6}\u{7}-of-two-and-twenty",
        "-PK\u{6}\u{7}-twenty-bytes--",
    ] {
        let bytes = zip_of(&[("word/a.xml", b"{{n}}"), (name, b"last")]);
        let out = render_docx_template(&bytes, &json("{\"n\": 1}")).unwrap();
        assert_eq!(
            unzip(&out),
            vec![
                ("word/a.xml".to_owned(), b"1".to_vec()),
                (name.to_owned(), b"last".to_vec()),
            ]
        );
    }
}

#[test]
fn a_last_name_can_be_taken_for_a_mark() {
    let name = "PK\u{6}\u{7}-sixteen-of-them";
    assert_eq!(name.len(), 20);
    let bytes = zip_of(&[("word/a.xml", b"{{n}}"), (name, b"last")]);
    assert_eq!(
        message(render_docx_template(&bytes, &json("{}"))),
        "bad request: invalid DOCX archive: unsupported Zip archive: \
         Support for multi-disk files is not implemented"
    );
}

#[test]
fn parts_that_can_include_themselves_are_refused() {
    let values = json("{}");
    let refusal = "bad request: template render failed: parts may include each other without end";
    for body in [
        "{{#*inline \"a\"}}{{> a}}{{/inline}}{{> a}}",
        "{{~ # *inline \"a\" ~}}{{~# > a}}{{/}}{{/}}{{> a}}",
        "{{#*inline 'a'}}{{#if x}}{{else if y}}{{> a}}{{/if}}{{/inline}}",
        "{{#*inline \"a\"}}{{!-- {{/inline}} --}}{{> (lookup this \"x\")}}{{/inline}}{{> a}}",
        "{{#*inline \"a\"}}{{! {{/inline}}{{> a}}{{/inline}}",
        "{{#*inline \"a\"}}\\{{/inline}}{{> a}}{{/inline}}",
        "{{#*inline \"a\"}}{{x \"}}{{/inline}}\"}}{{> a}}{{/inline}}",
        "{{#*inline \"a\"}}{{x \"\\\"}}{{/inline}}\"}}{{> a}}{{/inline}}",
        "{{#*inline \"a\"}}{{x '\\'}}{{/inline}}'}}{{> a}}{{/inline}}",
        "{{#*inline \"a\"}}{{x.[}}{{/inline}}]}}{{> a}}{{/inline}}",
        "{{#*inline \"a\"}}{{{{raw}}}}{{/inline}}{{{{/raw}}}}{{> a}}{{/inline}}",
        "{{#*inline \"a\"}}{{> b}}{{/inline}}{{#*inline \"b\"}}{{> a}}{{/inline}}{{> a}}",
        "{{#*inline \"a\"}}{{> b}}{{/inline}}{{#*inline \"b\"}}{{> c}}{{/inline}}\
         {{#*inline \"c\"}}{{#> d}}{{> b}}{{/d}}{{/inline}}",
        "{{#*inline name}}{{> a}}{{/inline}}",
        "{{#*inline \"'a'\"}}{{> 'a'}}{{/inline}}",
        "{{#*inline \"[a b]\"}}{{> [a b]}}{{/inline}}",
        "{{#*inline \"$a.b\"}}{{> $a.b}}{{/inline}}",
    ] {
        assert!(includes_without_end(body), "{}", body);
        let t = text_source(body);
        assert_eq!(message(render_template(&KEY, Some(&t), &values, None)), refusal);
        let bytes = zip_of(&[("word/a.xml", body.as_bytes())]);
        assert_eq!(message(render_docx_template(&bytes, &values)), refusal);
    }
}

#[test]
fn inline_parts_are_filled_in() {
    let values = json("{\"n\": \"x\"}");
    for (body, expected) in [
        ("{{#*inline \"a\"}}[{{n}}]{{/inline}}{{> a}}{{#if n}}{{> a}}{{/if}}", "[x][x]"),
        ("{{#*inline \"a\"}}<{{> @partial-block}}>{{/inline}}{{#> a}}in{{/a}}", "<in>"),
        ("{{#> missing}}default {{n}}{{/missing}}", "default x"),
        ("{{#each this}}{{@key}}{{/each}}", "n"),
    ] {
        assert!(!includes_without_end(body), "{}", body);
        assert_eq!(run_engine(body, &values).unwrap(), expected);
    }
    assert!(run_engine("{{> nowhere}}", &values).is_err());
    assert_eq!(
        run_engine("{{#*inline \"a\"}}{{> a}}{{/inline}}", &values),
        Err("parts may include each other without end".to_owned())
    );
}

#[test]
fn parts_may_include_others() {
    let values = json("{\"n\": \"x\"}");
    for (body, expected) in [
        // between two parts
        ("{{#*inline \"a\"}}1{{/inline}}{{> a}}{{#*inline \"b\"}}2{{/inline}}{{> b}}", "12"),
        ("{{#*inline \"a\"}}1{{/}}{{> a}}{{#*inline \"b\"}}2{{/}}{{> b}}", "12"),
        // inside a part, in either order
        ("{{#*inline \"a\"}}<{{> b}}>{{/inline}}{{#*inline \"b\"}}{{n}}{{/inline}}{{> a}}", "<x>"),
        ("{{#*inline \"b\"}}{{n}}{{/inline}}{{#*inline \"a\"}}{{> b}}{{> b}}{{/inline}}{{> a}}", "xx"),
        (
            "{{#*inline \"a\"}}1{{> b}}{{> c}}{{/inline}}{{#*inline \"b\"}}2{{> c}}{{/inline}}\
             {{#*inline \"c\"}}3{{/inline}}{{> a}}",
            "1233",
        ),
        // a part that defines a part
        ("{{#*inline \"a\"}}{{#*inline \"b\"}}2{{/inline}}1{{> b}}{{/inline}}{{> a}}", "12"),
        // a block that is handed to a part
        ("{{#*inline \"a\"}}<{{> @partial-block}}>{{/inline}}{{#*inline \"b\"}}{{#> a}}{{n}}{{/a}}{{/inline}}{{> b}}", "<x>"),
        // what looks like a tag
        ("{{#*inline \"a\"}}{{! {{> a }}1{{/inline}}{{> a}}", "1"),
        ("{{#*inline \"a\"}}{{!-- {{> a}} --}}1{{/inline}}{{> a}}", "1"),
        ("{{#*inline \"a\"}}\\{{> a}}{{/inline}}{{> a}}", "{{> a}}"),
        ("{{#*inline \"a\"}}{{lookup this \"{{> a}}\"}}1{{/inline}}{{> a}}", "1"),
        ("{{#*inline \"a\"}}{{{{raw}}}}{{> a}}{{{{/raw}}}}{{/inline}}{{> a}}", "{{> a}}"),
        ("{{#*inline \"a\"}}{{lookup this \"\\\"{{> a}}\"}}1{{/inline}}{{> a}}", "1"),
        ("{{#*inline \"a\"}}{{lookup this '\\'{{> a}}'}}1{{/inline}}{{> a}}", "1"),
        ("{{#*inline \"a\"}}{{this.[{{> a}}]}}1{{/inline}}{{> a}}", "1"),
        // behind two backslashes stands a tag
        ("{{#*inline \"a\"}}1{{/inline}}\\\\{{> a}}", "\\1"),
        // outside of parts a name may be computed
        ("{{#*inline \"x\"}}1{{/inline}}{{> (lookup this \"n\")}}{{#*inline \"b\"}}{{/inline}}", "1"),
        // names in quotes and in brackets
        ("{{#*inline \"'a b'\"}}1{{/inline}}{{#*inline \"c\"}}{{> 'a b'}}{{/inline}}{{> c}}", "1"),
        ("{{#*inline \"[a b]\"}}1{{/inline}}{{#*inline \"c\"}}{{> [a b]}}{{/inline}}{{> c}}", "1"),
    ] {
        assert!(!includes_without_end(body), "{}", body);
        assert_eq!(run_engine(body, &values).unwrap_or_else(|e| panic!("{}: {}", body, e)), expected);
        let t = text_source(body);
        assert!(render_template(&KEY, Some(&t), &values, None).is_ok(), "{}", body);
    }
}

#[test]
fn parts_are_kept_apart_where_tags_are_unclear() {
    let unclear = "{{#each [\"}}\"]}}{{/each}}";
    let between = "{{#*inline \"a\"}}1{{/inline}}{{> a}}{{#*inline \"b\"}}2{{/inline}}";
    assert!(!includes_without_end(between));
    assert!(includes_without_end(&format!("{}{}", unclear, between)));
    assert!(!includes_without_end(&format!("{}{}", unclear, "{{#*inline \"a\"}}1{{/inline}}{{> a}}")));
    assert!(!includes_without_end(unclear));
}

#[test]
fn relations_and_properties_are_not_filled_in() {
    let bytes = zip_of(&[
        ("word/document.xml", b"<w:t>{{n}}</w:t>"),
        ("word/_rels/document.xml.rels", b"{{n}}"),
        ("docProps/core.xml", b"{{n}}"),
    ]);
    let out = render_docx_template(&bytes, &json("{\"n\": \"A<B\"}")).unwrap();
    assert_eq!(
        unzip(&out),
        vec![
            ("word/document.xml".to_owned(), b"<w:t>A&lt;B</w:t>".to_vec()),
            ("word/_rels/document.xml.rels".to_owned(), b"{{n}}".to_vec()),
            ("docProps/core.xml".to_owned(), b"{{n}}".to_vec()),
        ]
    );
    assert_eq!(render_docx_template(&bytes, &json("{\"n\": \"A<B\"}")).unwrap(), out);
}

#[test]
fn archives_are_not_longer_than_their_entries_call_for() {
    let mut state = 1_u64;
    let mut noise = Vec::new();
    for _ in 0..300_000 {
        state = state.wrapping_mul(6_364_136_223_846_793_005).wrapping_add(1_442_695_040_888_963_407);
        noise.push((state >> 56) as u8);
    }
    for len in [0, 1, 2, 31, 33, 47, 49, 1000, 40_000, 300_000] {
        let bytes = zip_of(&[("a", &noise[..len])]);
        let out = render_docx_template(&bytes, &json("{}")).unwrap();
        assert!(out.len() <= 128 + 2 * len + 2 + 1024, "{}", len);
        assert_eq!(unzip(&out)[0].1, &noise[..len]);
    }
}

#[test]
fn archives_may_hold_many_entries() {
    for count in [65_534, 65_535, 65_536, 65_540] {
        let entries: Vec<(&str, &[u8])> = (0..count).map(|_| ("d/", &b""[..])).collect();
        let out = render_docx_template(&zip_of(&entries), &json("{}")).unwrap();
        let names = unzip(&out);
        assert_eq!(names.len(), count);
        assert!(names.iter().all(|(name, data)| name == "d/" && data.is_empty()));
    }
}
