//! Validation of Modelo 720 files (AEAT, BOE record format): fixed-width
//! 500-character records in windows-1252, checked for structure, field
//! contents and cross totals; and the generator and importer of such files,
//! with the laws that tie them together (`roundtrip`).
pub mod text;
pub mod encoding;
pub mod report;
pub mod parser;
pub mod nif;
pub mod structure;
pub mod tipo1;
pub mod tipo2;
pub mod cross;
pub mod generator;
pub mod import;
pub mod roundtrip;
pub mod display;
pub mod editor;
pub mod validation;

pub use generator::{generate_file, Tipo1Fields, Tipo2Fields};
pub use import::import_from_bytes;
pub use parser::Record;
pub use report::{Severity, ValidationError};
pub use validation::{
    try_validate, validate, validate_decoded, FileSummary, T2Detail, ValidationResult,
};
