# iedocs

A small electronic document service, with its rules written in Verus and proved.

- `src/` is the library: what is accepted and what is refused, what is stored and what comes back,
  how templates are filled in, how text is indexed and laid out, who may log in. Every function
  states what it returns, and Verus checks that it does. What the library takes from other crates
  (zip archives, AES-GCM, Handlebars, password hashes and so on) stands behind small functions
  marked `#[verifier::external_body]`; the comment above each says what is claimed of the crate.
- `app/` is the program around it: HTTP with axum, PostgreSQL with sqlx, JSON Web Tokens, the
  extraction of text from PDF files, the fonts and the places of lines in a printed PDF, and the
  programs `pdftoppm`, `tesseract` and LibreOffice.
- `tests/` runs the library.

The statements that span several functions are the public proof functions, for example that a stored
document is handed out byte for byte as it came in (`document::lemma_stored_comes_back`), that a
document made from a checked template is again a document (`filling::lemma_filled_in_is_document`), or
that printing keeps the words of a text (`layout::lemma_print_keeps_words`).
