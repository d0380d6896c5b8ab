//! Verified core of a multi-format document viewer: colours, image decoding,
//! script classification, spreadsheet helpers, CSV, Markdown, RTF and
//! OpenDocument parsing.

pub mod chars;
pub mod color;
pub mod csv;
pub mod flow;
pub mod image;
pub mod markdown;
pub mod numbering;
pub mod package;
pub mod pptx;
pub mod odf;
pub mod rtf;
pub mod script;
pub mod sheet;
pub mod text;
pub mod wordbody;
pub mod wordstyle;
pub mod xlsx;
pub mod xml;
