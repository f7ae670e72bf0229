//! Typed error surface of the library.

use crate::text::{cat3, cat7, decimal, decimal_u64, opt_text, text};
use vstd::prelude::*;
use vstd::string::*;

verus! {

/// Stable machine-readable category for every failure.
#[derive(Debug, Clone, Copy, PartialEq, Eq, Structural)]
pub enum ErrorCode {
    Arrow,
    Io,
    ContractInvalidJson,
    ContractUnknownField,
    ContractInvalidBound,
    ContractInvalidRatio,
    ContractInvalidType,
    ContractDraft,
    ContractDuplicateRule,
    ContractTypeMismatch,
    ReferenceUnbound,
    SchemaMismatch,
    MissingColumn,
    UnsupportedType,
    DuplicateKey,
    NoKeyColumns,
    ResourceLimit,
    CorruptPartition,
    FingerprintVersion,
    ReceiptInvalid,
    ReceiptInvalidSignature,
    ReceiptUntrustedSigner,
    Cancelled,
}

impl ErrorCode {
    /// The stable external spelling of a code.
    pub open spec fn spelling(self) -> Seq<char> {
        match self {
            ErrorCode::Arrow => "PF_ARROW"@,
            ErrorCode::Io => "PF_IO"@,
            ErrorCode::ContractInvalidJson => "PF_CONTRACT_INVALID_JSON"@,
            ErrorCode::ContractUnknownField => "PF_CONTRACT_UNKNOWN_FIELD"@,
            ErrorCode::ContractInvalidBound => "PF_CONTRACT_INVALID_BOUND"@,
            ErrorCode::ContractInvalidRatio => "PF_CONTRACT_INVALID_RATIO"@,
            ErrorCode::ContractInvalidType => "PF_CONTRACT_INVALID_TYPE"@,
            ErrorCode::ContractDraft => "PF_DRAFT_CONTRACT"@,
            ErrorCode::ContractDuplicateRule => "PF_CONTRACT_DUPLICATE_RULE"@,
            ErrorCode::ContractTypeMismatch => "PF_CONTRACT_TYPE_MISMATCH"@,
            ErrorCode::ReferenceUnbound => "PF_REFERENCE_UNBOUND"@,
            ErrorCode::SchemaMismatch => "PF_SCHEMA_MISMATCH"@,
            ErrorCode::MissingColumn => "PF_MISSING_COLUMN"@,
            ErrorCode::UnsupportedType => "PF_UNSUPPORTED_TYPE"@,
            ErrorCode::DuplicateKey => "PF_DUPLICATE_KEY"@,
            ErrorCode::NoKeyColumns => "PF_NO_KEY_COLUMNS"@,
            ErrorCode::ResourceLimit => "PF_RESOURCE_LIMIT"@,
            ErrorCode::CorruptPartition => "PF_CORRUPT_PARTITION"@,
            ErrorCode::FingerprintVersion => "PF_FINGERPRINT_VERSION"@,
            ErrorCode::ReceiptInvalid => "PF_RECEIPT_INVALID"@,
            ErrorCode::ReceiptInvalidSignature => "PF_RECEIPT_INVALID_SIGNATURE"@,
            ErrorCode::ReceiptUntrustedSigner => "PF_RECEIPT_UNTRUSTED_SIGNER"@,
            ErrorCode::Cancelled => "PF_CANCELLED"@,
        }
    }

    /// Stable external spelling used by callers and serialized diagnostics.
    pub fn as_str(self) -> (r: &'static str)
        ensures
            r@ == self.spelling(),
    {
        match self {
            ErrorCode::Arrow => "PF_ARROW",
            ErrorCode::Io => "PF_IO",
            ErrorCode::ContractInvalidJson => "PF_CONTRACT_INVALID_JSON",
            ErrorCode::ContractUnknownField => "PF_CONTRACT_UNKNOWN_FIELD",
            ErrorCode::ContractInvalidBound => "PF_CONTRACT_INVALID_BOUND",
            ErrorCode::ContractInvalidRatio => "PF_CONTRACT_INVALID_RATIO",
            ErrorCode::ContractInvalidType => "PF_CONTRACT_INVALID_TYPE",
            ErrorCode::ContractDraft => "PF_DRAFT_CONTRACT",
            ErrorCode::ContractDuplicateRule => "PF_CONTRACT_DUPLICATE_RULE",
            ErrorCode::ContractTypeMismatch => "PF_CONTRACT_TYPE_MISMATCH",
            ErrorCode::ReferenceUnbound => "PF_REFERENCE_UNBOUND",
            ErrorCode::SchemaMismatch => "PF_SCHEMA_MISMATCH",
            ErrorCode::MissingColumn => "PF_MISSING_COLUMN",
            ErrorCode::UnsupportedType => "PF_UNSUPPORTED_TYPE",
            ErrorCode::DuplicateKey => "PF_DUPLICATE_KEY",
            ErrorCode::NoKeyColumns => "PF_NO_KEY_COLUMNS",
            ErrorCode::ResourceLimit => "PF_RESOURCE_LIMIT",
            ErrorCode::CorruptPartition => "PF_CORRUPT_PARTITION",
            ErrorCode::FingerprintVersion => "PF_FINGERPRINT_VERSION",
            ErrorCode::ReceiptInvalid => "PF_RECEIPT_INVALID",
            ErrorCode::ReceiptInvalidSignature => "PF_RECEIPT_INVALID_SIGNATURE",
            ErrorCode::ReceiptUntrustedSigner => "PF_RECEIPT_UNTRUSTED_SIGNER",
            ErrorCode::Cancelled => "PF_CANCELLED",
        }
    }
}

/// Errors of profiling, validation, diffing, and receipts. Errors of outside
/// libraries are carried by their text.
#[derive(Debug)]
pub enum ProofFrameError {
    /// A versioned contract failed syntax or semantic validation.
    Contract { code: ErrorCode, message: String, path: Option<String> },
    /// An error surfaced by the underlying Arrow library.
    Arrow(String),
    /// A filesystem error.
    Io(String),
    /// A contract regular expression failed to compile.
    Regex(String),
    /// A JSON document could not be produced or consumed.
    Json(String),
    /// Persisted diff bytes were not valid UTF-8.
    Utf8(String),
    /// A validation contract could not be parsed.
    InvalidContract(String),
    /// A report or evidence document handed to the renderer was not usable.
    Review(String),
    /// A required key or contract column is absent from the schema.
    MissingColumn(String),
    /// A column type has no canonical encoding.
    UnsupportedType(String),
    /// Two datasets have incompatible schemas for the requested operation.
    SchemaMismatch(String),
    /// A diff key column contained duplicate values.
    DuplicateKey(String),
    /// A diff was requested without any key columns.
    NoKeyColumns,
    /// Persisted partition data was truncated or corrupt.
    CorruptData(String),
    /// A proof receipt was malformed or failed a structural check.
    InvalidReceipt(String),
    /// An operation asked for more memory, temporary storage, or output than allowed.
    ResourceLimit { resource: &'static str, requested: u64, used: u64, limit: u64 },
    /// A cooperative cancellation token stopped the operation.
    Cancelled,
}

/// An error with its texts as character sequences.
pub enum ErrorView {
    Contract { code: ErrorCode, message: Seq<char>, path: Option<Seq<char>> },
    Arrow(Seq<char>),
    Io(Seq<char>),
    Regex(Seq<char>),
    Json(Seq<char>),
    Utf8(Seq<char>),
    InvalidContract(Seq<char>),
    Review(Seq<char>),
    MissingColumn(Seq<char>),
    UnsupportedType(Seq<char>),
    SchemaMismatch(Seq<char>),
    DuplicateKey(Seq<char>),
    NoKeyColumns,
    CorruptData(Seq<char>),
    InvalidReceipt(Seq<char>),
    ResourceLimit { resource: Seq<char>, requested: u64, used: u64, limit: u64 },
    Cancelled,
}

impl View for ProofFrameError {
    type V = ErrorView;

    open spec fn view(&self) -> ErrorView {
        match *self {
            ProofFrameError::Contract { code, message, path } => ErrorView::Contract {
                code,
                message: message@,
                path: opt_text(path),
            },
            ProofFrameError::Arrow(m) => ErrorView::Arrow(m@),
            ProofFrameError::Io(m) => ErrorView::Io(m@),
            ProofFrameError::Regex(m) => ErrorView::Regex(m@),
            ProofFrameError::Json(m) => ErrorView::Json(m@),
            ProofFrameError::Utf8(m) => ErrorView::Utf8(m@),
            ProofFrameError::InvalidContract(m) => ErrorView::InvalidContract(m@),
            ProofFrameError::Review(m) => ErrorView::Review(m@),
            ProofFrameError::MissingColumn(m) => ErrorView::MissingColumn(m@),
            ProofFrameError::UnsupportedType(m) => ErrorView::UnsupportedType(m@),
            ProofFrameError::SchemaMismatch(m) => ErrorView::SchemaMismatch(m@),
            ProofFrameError::DuplicateKey(m) => ErrorView::DuplicateKey(m@),
            ProofFrameError::NoKeyColumns => ErrorView::NoKeyColumns,
            ProofFrameError::CorruptData(m) => ErrorView::CorruptData(m@),
            ProofFrameError::InvalidReceipt(m) => ErrorView::InvalidReceipt(m@),
            ProofFrameError::ResourceLimit { resource, requested, used, limit } => {
                ErrorView::ResourceLimit { resource: resource@, requested, used, limit }
            },
            ProofFrameError::Cancelled => ErrorView::Cancelled,
        }
    }
}

impl ErrorView {
    /// The category of an error.
    pub open spec fn code(self) -> ErrorCode {
        match self {
            ErrorView::Contract { code, .. } => code,
            ErrorView::Arrow(_) => ErrorCode::Arrow,
            ErrorView::Io(_) => ErrorCode::Io,
            ErrorView::Regex(_) => ErrorCode::ContractInvalidBound,
            ErrorView::Json(_) => ErrorCode::ContractInvalidJson,
            ErrorView::InvalidContract(_) => ErrorCode::ContractInvalidJson,
            ErrorView::Review(_) => ErrorCode::ContractInvalidJson,
            ErrorView::Utf8(_) => ErrorCode::CorruptPartition,
            ErrorView::CorruptData(_) => ErrorCode::CorruptPartition,
            ErrorView::MissingColumn(_) => ErrorCode::MissingColumn,
            ErrorView::UnsupportedType(_) => ErrorCode::UnsupportedType,
            ErrorView::SchemaMismatch(_) => ErrorCode::SchemaMismatch,
            ErrorView::DuplicateKey(_) => ErrorCode::DuplicateKey,
            ErrorView::NoKeyColumns => ErrorCode::NoKeyColumns,
            ErrorView::InvalidReceipt(_) => ErrorCode::ReceiptInvalid,
            ErrorView::ResourceLimit { .. } => ErrorCode::ResourceLimit,
            ErrorView::Cancelled => ErrorCode::Cancelled,
        }
    }

    /// The human-readable sentence of an error.
    pub open spec fn message(self) -> Seq<char> {
        match self {
            ErrorView::Contract { message, .. } => message,
            ErrorView::Arrow(m) => m,
            ErrorView::Io(m) => m,
            ErrorView::Regex(m) => m,
            ErrorView::Json(m) => m,
            ErrorView::Utf8(m) => m,
            ErrorView::InvalidContract(m) => m,
            ErrorView::Review(m) => m,
            ErrorView::MissingColumn(m) => "Key column `"@ + m + "` is missing"@,
            ErrorView::UnsupportedType(m) => "Unsupported Arrow type `"@ + m
                + "` for canonical fingerprinting"@,
            ErrorView::SchemaMismatch(m) => "Schemas differ; "@ + m + ""@,
            ErrorView::DuplicateKey(m) => "Duplicate key `"@ + m
                + "`; diff keys must be unique"@,
            ErrorView::NoKeyColumns => "At least one key column is required"@,
            ErrorView::CorruptData(m) => m,
            ErrorView::InvalidReceipt(m) => m,
            ErrorView::ResourceLimit { resource, requested, used, limit } => {
                "Resource limit exceeded for "@ + resource + ": requested "@ + decimal(
                    requested as nat,
                ) + " with "@ + decimal(used as nat) + " used and "@ + decimal(limit as nat)
                    + " allowed"@
            },
            ErrorView::Cancelled => "Operation cancelled"@,
        }
    }
}

impl ProofFrameError {
    /// A contract failure with its category and path.
    pub fn contract(code: ErrorCode, message: String, path: Option<String>) -> (r: Self)
        ensures
            r@ == (ErrorView::Contract { code, message: message@, path: opt_text(path) }),
    {
        ProofFrameError::Contract { code, message, path }
    }

    /// Return the stable machine-readable category for this error.
    pub fn code(&self) -> (r: ErrorCode)
        ensures
            r == self@.code(),
    {
        match self {
            ProofFrameError::Contract { code, .. } => *code,
            ProofFrameError::Arrow(_) => ErrorCode::Arrow,
            ProofFrameError::Io(_) => ErrorCode::Io,
            ProofFrameError::Regex(_) => ErrorCode::ContractInvalidBound,
            ProofFrameError::Json(_) => ErrorCode::ContractInvalidJson,
            ProofFrameError::InvalidContract(_) => ErrorCode::ContractInvalidJson,
            ProofFrameError::Review(_) => ErrorCode::ContractInvalidJson,
            ProofFrameError::Utf8(_) => ErrorCode::CorruptPartition,
            ProofFrameError::CorruptData(_) => ErrorCode::CorruptPartition,
            ProofFrameError::MissingColumn(_) => ErrorCode::MissingColumn,
            ProofFrameError::UnsupportedType(_) => ErrorCode::UnsupportedType,
            ProofFrameError::SchemaMismatch(_) => ErrorCode::SchemaMismatch,
            ProofFrameError::DuplicateKey(_) => ErrorCode::DuplicateKey,
            ProofFrameError::NoKeyColumns => ErrorCode::NoKeyColumns,
            ProofFrameError::InvalidReceipt(_) => ErrorCode::ReceiptInvalid,
            ProofFrameError::ResourceLimit { .. } => ErrorCode::ResourceLimit,
            ProofFrameError::Cancelled => ErrorCode::Cancelled,
        }
    }

    /// JSON-style path associated with a structured input failure.
    pub fn path(&self) -> (r: Option<&str>)
        ensures
            match self@ {
                ErrorView::Contract { path: Some(p), .. } => r is Some && r.unwrap()@ == p,
                _ => r is None,
            },
    {
        match self {
            ProofFrameError::Contract { path: Some(p), .. } => Some(p.as_str()),
            _ => None,
        }
    }

    /// The human-readable sentence of this error.
    pub fn to_message(&self) -> (r: String)
        ensures
            r@ == self@.message(),
    {
        match self {
            ProofFrameError::Contract { message, .. } => message.clone(),
            ProofFrameError::Arrow(m) => m.clone(),
            ProofFrameError::Io(m) => m.clone(),
            ProofFrameError::Regex(m) => m.clone(),
            ProofFrameError::Json(m) => m.clone(),
            ProofFrameError::Utf8(m) => m.clone(),
            ProofFrameError::InvalidContract(m) => m.clone(),
            ProofFrameError::Review(m) => m.clone(),
            ProofFrameError::MissingColumn(m) => cat3("Key column `", m.as_str(), "` is missing"),
            ProofFrameError::UnsupportedType(m) => cat3(
                "Unsupported Arrow type `",
                m.as_str(),
                "` for canonical fingerprinting",
            ),
            ProofFrameError::SchemaMismatch(m) => cat3("Schemas differ; ", m.as_str(), ""),
            ProofFrameError::DuplicateKey(m) => cat3(
                "Duplicate key `",
                m.as_str(),
                "`; diff keys must be unique",
            ),
            ProofFrameError::NoKeyColumns => text("At least one key column is required"),
            ProofFrameError::CorruptData(m) => m.clone(),
            ProofFrameError::InvalidReceipt(m) => m.clone(),
            ProofFrameError::ResourceLimit { resource, requested, used, limit } => {
                let requested = decimal_u64(*requested);
                let used = decimal_u64(*used);
                let limit = decimal_u64(*limit);
                let mut r = cat7(
                    "Resource limit exceeded for ",
                    resource,
                    ": requested ",
                    requested.as_str(),
                    " with ",
                    used.as_str(),
                    " used and ",
                );
                r.append(limit.as_str());
                r.append(" allowed");
                r
            },
            ProofFrameError::Cancelled => text("Operation cancelled"),
        }
    }
}

} // verus!
