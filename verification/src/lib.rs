//! Handover documents: Excel workbooks as XML, and back.
//!
//! An xlsx file is a ZIP archive of XML parts. [`convert`] reads it and writes a handover
//! document, an XML file of its own form that holds the worksheets with their values, formats,
//! merged cells and images. [`search`] finds cells in such a document, [`plan`] says what has
//! to be done to restore the workbook from it, and [`catalog`] and [`requests`] hold the rules
//! of a server that offers documents for reading, searching, editing and downloading.
//!
//! Nothing here reads or writes files. Floating-point numbers are read by the caller: see
//! [`floats`] and [`numbers`].

pub mod agreement;
pub mod anchorlaws;
pub mod archive;
pub mod catalog;
pub mod cataloglaws;
pub mod celllaws;
pub mod cellref;
pub mod color;
pub mod convert;
pub mod document;
pub mod drawing;
pub mod export;
pub mod exportlaws;
pub mod fidelity;
pub mod floats;
pub mod lines;
pub mod lookup;
pub mod numbers;
pub mod order;
pub mod pieces;
pub mod plan;
pub mod planlaws;
pub mod rangelaws;
pub mod readback;
pub mod requests;
pub mod restore;
pub mod search;
pub mod sheet;
pub mod stringlaws;
pub mod stylelaws;
pub mod styles;
pub mod tablelaws;
pub mod text;
pub mod textlaws;
pub mod workbook;
pub mod workbooklaws;
pub mod worksheet;
pub mod writelaws;
pub mod xml;

pub use archive::get_file_hash;
pub use cellref::{cell_ref_to_row_col, col_num_to_str};
pub use convert::{convert_excel_to_xml, is_cache_valid};
pub use xml::xml_escape;
