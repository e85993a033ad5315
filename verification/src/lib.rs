//! The rules of a small electronic document service.
//!
//! Documents come in as PDF files, are stored encrypted and are found by the words in them
//! ([`document`], [`form`], [`crypto`], [`index`], [`ocr`]). Templates, plain texts or word
//! processor documents with placeholders, are stored as well and are made into documents
//! ([`catalog`], [`template`], [`tags`], [`parts`], [`docx`], [`filling`], [`extraction`],
//! [`archive`], [`word`], [`render`], [`layout`]). Around these stand the settings and the logins
//! ([`config`], [`auth`]), the names of files ([`filename`]) and the refusals ([`error`]). The rest
//! is about texts and numbers ([`text`], [`words`], [`search`], [`encoding`], [`number`]).

pub mod archive;
pub mod auth;
pub mod catalog;
pub mod config;
pub mod crypto;
pub mod document;
pub mod docx;
pub mod encoding;
pub mod error;
pub mod extraction;
pub mod filename;
pub mod filling;
pub mod form;
pub mod index;
pub mod layout;
pub mod number;
pub mod ocr;
pub mod parts;
pub mod render;
pub mod search;
pub mod tags;
pub mod template;
pub mod text;
pub mod word;
pub mod words;
