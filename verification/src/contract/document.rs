//! Choice of the contract version of a document.

use crate::contract::ast::{
    fail, failure, outcome, ContractAst, ContractAstV2, ContractStatus, ContractVersion,
};
use crate::contract::json::Json;
use crate::error::{ErrorCode, ErrorView, ProofFrameError};
use crate::text::{cat3, str_eq, text};
use vstd::prelude::*;

verus! {

/// A contract of either version.
#[derive(Debug)]
pub enum ContractDocument {
    V1(ContractAst),
    V2(ContractAstV2),
}

/// The error of a document whose version is missing or unknown.
pub open spec fn version_error(value: Json) -> Option<ErrorView> {
    match value.spec_field("version"@) {
        Some(Json::Text(v)) => if v@ == "proofframe.contract.v1"@ || v@
            == "proofframe.contract.v2"@ {
            None
        } else {
            Some(
                failure(
                    ErrorCode::ContractInvalidJson,
                    "Unsupported contract version `"@ + v@ + "`"@,
                    "$.version"@,
                ),
            )
        },
        _ => Some(
            failure(
                ErrorCode::ContractInvalidJson,
                "Contract version must be a string"@,
                "$.version"@,
            ),
        ),
    }
}

/// The version that a document declares.
pub fn declared_version(value: &Json) -> (r: Result<ContractVersion, ProofFrameError>)
    ensures
        outcome(r, version_error(*value)),
        r matches Ok(v) ==> (v == ContractVersion::V1 <==> (value.spec_field("version"@) matches Some(
            Json::Text(t),
        ) && t@ == "proofframe.contract.v1"@)),
{
    proof {
        reveal_strlit("proofframe.contract.v1");
        reveal_strlit("proofframe.contract.v2");
        assert("proofframe.contract.v1"@[21] != "proofframe.contract.v2"@[21]);
    }
    match value.field("version") {
        Some(Json::Text(v)) => {
            if str_eq(v.as_str(), "proofframe.contract.v1") {
                Ok(ContractVersion::V1)
            } else if str_eq(v.as_str(), "proofframe.contract.v2") {
                Ok(ContractVersion::V2)
            } else {
                Err(
                    fail(
                        ErrorCode::ContractInvalidJson,
                        cat3("Unsupported contract version `", v.as_str(), "`"),
                        text("$.version"),
                    ),
                )
            }
        },
        _ => Err(
            fail(
                ErrorCode::ContractInvalidJson,
                text("Contract version must be a string"),
                text("$.version"),
            ),
        ),
    }
}

impl ContractDocument {
    /// The version of the contract.
    pub fn version(&self) -> (r: ContractVersion)
        ensures
            r == (match *self {
                ContractDocument::V1(_) => ContractVersion::V1,
                ContractDocument::V2(_) => ContractVersion::V2,
            }),
    {
        match self {
            ContractDocument::V1(_) => ContractVersion::V1,
            ContractDocument::V2(_) => ContractVersion::V2,
        }
    }

    /// The contract, if it is of version 2.
    pub fn as_v2(&self) -> (r: Option<&ContractAstV2>)
        ensures
            match *self {
                ContractDocument::V1(_) => r is None,
                ContractDocument::V2(c) => r matches Some(x) && *x == c,
            },
    {
        match self {
            ContractDocument::V1(_) => None,
            ContractDocument::V2(c) => Some(c),
        }
    }

    /// The error of a document that is still a draft.
    pub open spec fn draft_error(self) -> Option<ErrorView> {
        match self {
            ContractDocument::V2(c) => if c.status == ContractStatus::Draft {
                Some(
                    failure(
                        ErrorCode::ContractDraft,
                        "A draft contract must be activated before it can be executed"@,
                        "$.status"@,
                    ),
                )
            } else {
                None
            },
            ContractDocument::V1(_) => None,
        }
    }

    /// Rejects a draft: only an active contract is compiled and executed.
    pub fn ensure_active(&self) -> (r: Result<(), ProofFrameError>)
        ensures
            outcome(r, self.draft_error()),
    {
        match self {
            ContractDocument::V2(c) => {
                if c.status == ContractStatus::Draft {
                    Err(
                        fail(
                            ErrorCode::ContractDraft,
                            text("A draft contract must be activated before it can be executed"),
                            text("$.status"),
                        ),
                    )
                } else {
                    Ok(())
                }
            },
            ContractDocument::V1(_) => Ok(()),
        }
    }
}

} // verus!
