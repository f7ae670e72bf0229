//! The choices of a caller, as names and numbers.

use crate::diff::accumulate::DiffOutput;
use crate::fingerprint::FingerprintVersion;
use crate::error::{ErrorCode, ErrorView, ProofFrameError};
use crate::numbers::blank;
use crate::pii::options::{
    nameless_key, run_key_id, wrong_key, PiiFingerprintMode, PiiFingerprintOptions,
};
use crate::receipt::crypto::base64_decoded;
use crate::resource::ResourceLimits;
use crate::text::{cat3, str_eq, text};
use vstd::prelude::*;
use vstd::string::*;

verus! {

/// The fingerprint version with a name.
pub fn parse_fingerprint_version(version: &str) -> (r: Result<FingerprintVersion, ProofFrameError>)
    ensures
        if version@ == "v1"@ || version@ == "pf-fp-v1"@ {
            r matches Ok(v) && v == FingerprintVersion::V1
        } else if version@ == "v2"@ || version@ == "pf-fp-v2"@ {
            r matches Ok(v) && v == FingerprintVersion::V2
        } else {
            r matches Err(e) && e@ == ErrorView::InvalidContract(
                "Unsupported fingerprint version `"@ + version@ + "`; expected v1 or v2"@,
            )
        },
{
    if str_eq(version, "v1") || str_eq(version, "pf-fp-v1") {
        Ok(FingerprintVersion::V1)
    } else if str_eq(version, "v2") || str_eq(version, "pf-fp-v2") {
        Ok(FingerprintVersion::V2)
    } else {
        Err(
            ProofFrameError::InvalidContract(
                cat3("Unsupported fingerprint version `", version, "`; expected v1 or v2"),
            ),
        )
    }
}

/// The limits of an execution.
pub fn limits(memory: u64, temp: u64, output: u64, samples: usize) -> (r: ResourceLimits)
    ensures
        r.max_memory_bytes == memory,
        r.max_temp_bytes == temp,
        r.max_output_records == output,
        r.max_samples == samples,
{
    ResourceLimits {
        max_memory_bytes: memory,
        max_temp_bytes: temp,
        max_output_records: output,
        max_samples: samples,
    }
}

/// The number of workers, where a caller asks for one: never none at all.
pub fn worker_count(threads: Option<usize>) -> (r: Result<Option<usize>, ProofFrameError>)
    ensures
        if threads == Some(0usize) {
            r matches Err(e) && e@ == ErrorView::InvalidContract("threads must be at least 1"@)
        } else {
            r matches Ok(n) && n == threads
        },
{
    match threads {
        Some(0) => Err(ProofFrameError::InvalidContract(text("threads must be at least 1"))),
        _ => Ok(threads),
    }
}

/// Where a diff is written, and in which format.
pub fn diff_output(path: Option<String>, format: &str) -> (r: Result<
    Option<DiffOutput>,
    ProofFrameError,
>)
    ensures
        match path {
            None => r matches Ok(o) && o is None,
            Some(p) => if format@ == "jsonl"@ {
                r matches Ok(o) && o == Some(DiffOutput::JsonLines(p))
            } else if format@ == "arrow"@ || format@ == "ipc"@ {
                r matches Ok(o) && o == Some(DiffOutput::ArrowIpc(p))
            } else {
                r matches Err(e) && e@ == ErrorView::InvalidContract(
                    "Unsupported diff output format `"@ + format@ + "`; expected jsonl or arrow"@,
                )
            },
        },
{
    match path {
        None => Ok(None),
        Some(p) => if str_eq(format, "jsonl") {
            Ok(Some(DiffOutput::JsonLines(p)))
        } else if str_eq(format, "arrow") || str_eq(format, "ipc") {
            Ok(Some(DiffOutput::ArrowIpc(p)))
        } else {
            Err(
                ProofFrameError::InvalidContract(
                    cat3(
                        "Unsupported diff output format `",
                        format,
                        "`; expected jsonl or arrow",
                    ),
                ),
            )
        },
    }
}

/// The error of a request for fingerprints of personal data.
pub open spec fn pii_request_error(
    mode: Seq<char>,
    has_key: bool,
    has_key_id: bool,
) -> Option<Seq<char>> {
    if mode == "unlinkable"@ {
        if has_key || has_key_id {
            Some("unlinkable PII mode does not accept fingerprint_key or key_id"@)
        } else {
            None
        }
    } else if mode == "stable"@ {
        if !has_key {
            Some("stable PII mode requires a 32-byte fingerprint_key"@)
        } else if !has_key_id {
            Some("stable PII mode requires key_id"@)
        } else {
            None
        }
    } else {
        Some(
            "Unsupported PII fingerprint_mode `"@ + mode + "`; expected stable or unlinkable"@,
        )
    }
}

/// The policy for fingerprints of personal data that a caller asks for.
pub fn pii_options(mode: &str, key: Option<String>, key_id: Option<String>) -> (r: Result<
    PiiFingerprintOptions,
    ProofFrameError,
>)
    ensures
        match pii_request_error(mode@, key is Some, key_id is Some) {
            Some(m) => r matches Err(e) && e@ == ErrorView::InvalidContract(m),
            None => if mode@ == "unlinkable"@ {
                match r {
                    Ok(o) => o.mode() == PiiFingerprintMode::Unlinkable && o.key_id()
                        == run_key_id(o.key()),
                    Err(e) => e@ is InvalidContract,
                }
            } else {
                match base64_decoded(key.unwrap()@) {
                    Ok(b) => if b.len() != 32 {
                        r matches Err(e) && e@ == wrong_key()
                    } else if blank(key_id.unwrap()@) {
                        r matches Err(e) && e@ == nameless_key()
                    } else {
                        r matches Ok(o) && o.mode() == PiiFingerprintMode::Stable && o.key()
                            == b && o.key_id() == key_id.unwrap()@
                    },
                    Err(_) => r matches Err(e) && e@ == wrong_key(),
                }
            },
        },
{
    if str_eq(mode, "unlinkable") {
        if key.is_some() || key_id.is_some() {
            return Err(
                ProofFrameError::InvalidContract(
                    text("unlinkable PII mode does not accept fingerprint_key or key_id"),
                ),
            );
        }
        return PiiFingerprintOptions::unlinkable();
    }
    if str_eq(mode, "stable") {
        let encoded = match key {
            Some(k) => k,
            None => {
                return Err(
                    ProofFrameError::InvalidContract(
                        text("stable PII mode requires a 32-byte fingerprint_key"),
                    ),
                );
            },
        };
        let name = match key_id {
            Some(k) => k,
            None => {
                return Err(
                    ProofFrameError::InvalidContract(text("stable PII mode requires key_id")),
                );
            },
        };
        return PiiFingerprintOptions::stable_base64(encoded.as_str(), name);
    }
    Err(
        ProofFrameError::InvalidContract(
            cat3(
                "Unsupported PII fingerprint_mode `",
                mode,
                "`; expected stable or unlinkable",
            ),
        ),
    )
}

/// The class of exceptions that an error belongs to.
#[derive(Debug, Clone, Copy, PartialEq, Eq, Structural)]
pub enum ErrorClass {
    Contract,
    Schema,
    ResourceLimit,
    CorruptData,
    Io,
    Arrow,
    Receipt,
    General,
}

/// The class of exceptions that a code belongs to.
pub open spec fn class_of(code: ErrorCode) -> ErrorClass {
    match code {
        ErrorCode::ContractInvalidJson => ErrorClass::Contract,
        ErrorCode::ContractUnknownField => ErrorClass::Contract,
        ErrorCode::ContractInvalidBound => ErrorClass::Contract,
        ErrorCode::ContractDraft => ErrorClass::Contract,
        ErrorCode::ContractTypeMismatch => ErrorClass::Contract,
        ErrorCode::SchemaMismatch => ErrorClass::Schema,
        ErrorCode::MissingColumn => ErrorClass::Schema,
        ErrorCode::UnsupportedType => ErrorClass::Schema,
        ErrorCode::ResourceLimit => ErrorClass::ResourceLimit,
        ErrorCode::CorruptPartition => ErrorClass::CorruptData,
        ErrorCode::Io => ErrorClass::Io,
        ErrorCode::Arrow => ErrorClass::Arrow,
        ErrorCode::ReceiptInvalid => ErrorClass::Receipt,
        ErrorCode::ReceiptInvalidSignature => ErrorClass::Receipt,
        ErrorCode::ReceiptUntrustedSigner => ErrorClass::Receipt,
        _ => ErrorClass::General,
    }
}

/// The class of exceptions that a code belongs to.
pub fn error_class(code: ErrorCode) -> (r: ErrorClass)
    ensures
        r == class_of(code),
{
    match code {
        ErrorCode::ContractInvalidJson => ErrorClass::Contract,
        ErrorCode::ContractUnknownField => ErrorClass::Contract,
        ErrorCode::ContractInvalidBound => ErrorClass::Contract,
        ErrorCode::ContractDraft => ErrorClass::Contract,
        ErrorCode::ContractTypeMismatch => ErrorClass::Contract,
        ErrorCode::SchemaMismatch => ErrorClass::Schema,
        ErrorCode::MissingColumn => ErrorClass::Schema,
        ErrorCode::UnsupportedType => ErrorClass::Schema,
        ErrorCode::ResourceLimit => ErrorClass::ResourceLimit,
        ErrorCode::CorruptPartition => ErrorClass::CorruptData,
        ErrorCode::Io => ErrorClass::Io,
        ErrorCode::Arrow => ErrorClass::Arrow,
        ErrorCode::ReceiptInvalid => ErrorClass::Receipt,
        ErrorCode::ReceiptInvalidSignature => ErrorClass::Receipt,
        ErrorCode::ReceiptUntrustedSigner => ErrorClass::Receipt,
        _ => ErrorClass::General,
    }
}

/// What an exception says of a refused reservation.
#[derive(Debug, Clone, Copy)]
pub struct ResourceDetail {
    pub resource: &'static str,
    pub requested_bytes: u64,
    pub used_bytes: u64,
    pub limit_bytes: u64,
    pub remaining_bytes: u64,
}

/// What an exception says of a refused reservation; nothing for any other error.
pub fn resource_detail(error: &ProofFrameError) -> (r: Option<ResourceDetail>)
    ensures
        match *error {
            ProofFrameError::ResourceLimit { resource, requested, used, limit } => {
                &&& r matches Some(d)
                &&& d.resource == resource
                &&& d.requested_bytes == requested
                &&& d.used_bytes == used
                &&& d.limit_bytes == limit
                &&& d.remaining_bytes == if limit >= used {
                    limit - used
                } else {
                    0
                }
            },
            _ => r is None,
        },
{
    match error {
        ProofFrameError::ResourceLimit { resource, requested, used, limit } => {
            let remaining: u64 = if *limit >= *used {
                *limit - *used
            } else {
                0
            };
            Some(
                ResourceDetail {
                    resource: *resource,
                    requested_bytes: *requested,
                    used_bytes: *used,
                    limit_bytes: *limit,
                    remaining_bytes: remaining,
                },
            )
        },
        _ => None,
    }
}

} // verus!
