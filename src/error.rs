//! The errors of importing and exporting trees.

use vstd::prelude::*;

use yaml_rust::{EmitError, ScanError};

use crate::tree::TreeError;

verus! {

#[verifier::external_type_specification]
#[verifier::external_body]
pub struct ExScanError(ScanError);

#[verifier::external_type_specification]
#[verifier::external_body]
pub struct ExEmitError(EmitError);

#[verifier::external_type_specification]
#[verifier::external_body]
pub struct ExIoError(std::io::Error);

/// Why a tree could not be exported.
#[derive(Debug)]
pub enum ExportError {
    /// The destination could not be written.
    IO(std::io::Error),
    /// The YAML text could not be emitted.
    Emit(EmitError),
    /// The tree breaks a rule that an exported tree must obey.
    Validation(TreeError),
}

/// Why a tree could not be imported.
#[derive(Debug)]
pub enum ImportError {
    /// The source could not be read.
    IO(std::io::Error),
    /// The source is not valid YAML.
    Scan(ScanError),
    /// The document breaks a rule that a tree must obey.
    Validation(TreeError),
    /// The source holds no document, or more than one.
    MultipleDocumentsProvided(),
}

} // verus!
