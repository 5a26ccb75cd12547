//! A personal document library: the rules by which documents are taken in, checked, made safe to
//! look at, searched, classified and kept.
pub mod archive;
pub mod batches;
pub mod bytes;
pub mod classification;
pub mod collections;
pub mod content;
pub mod copies;
pub mod csv;
pub mod data;
pub mod digest;
pub mod documents;
pub mod error;
pub mod extraction;
pub mod formats;
pub mod images;
pub mod imports;
pub mod indexing;
pub mod limits;
pub mod locations;
pub mod markup;
pub mod models;
pub mod package;
pub mod parts;
pub mod paths;
pub mod pdf_security;
pub mod pdf_text;
pub mod preview;
pub mod receive;
pub mod recovery;
pub mod relations;
pub mod runs;
pub mod sanitize;
pub mod scanning;
pub mod search;
pub mod slides;
pub mod spreadsheet;
pub mod table;
pub mod text;
pub mod workbook;
pub mod worksheet;
pub mod written_pdf;
pub mod written_sheet;
pub mod written_strings;
pub mod written_text;
pub mod xml;
