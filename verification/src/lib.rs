//! Data contracts over columnar tables: canonical fingerprints, rule compilation and
//! execution, exact distinct state, keyed diffs, personal-data detection, leakage
//! checks, and signed evidence. Every function states its behaviour as a contract.
#![allow(unused_imports)]

pub mod bytes;
pub mod canonical;
pub mod contract;
pub mod diff;
pub mod digest;
pub mod distinct;
pub mod encoding;
pub mod error;
pub mod evidence;
pub mod execution;
pub mod fingerprint;
pub mod leakage;
pub mod numbers;
pub mod pii;
pub mod profile;
pub mod receipt;
pub mod reservations;
pub mod resource;
pub mod review;
pub mod sharing;
pub mod surface;
pub mod text;
pub mod tracking;
pub mod value;

pub use contract::ast::{
    BoundAst, CompareOpAst, CompositeNullPolicyAst, CompositeUniqueAst, ContractAst, ContractAstV2,
    ContractStatus, ContractVersion, CountRangeAst, DatasetRulesAst, NaNPolicyAst, NullPolicyAst,
    ReferenceAst, ReferenceNullPolicyAst, RuleAst, RuleAstV2, TypeAst,
};
pub use contract::bounds::TypedBound;
pub use contract::compile::{ColumnPlan, CompiledContract};
pub use contract::dataset::{DatasetPlan, RowCountDeltaPlan, SumBounds};
pub use contract::document::ContractDocument;
pub use contract::rules::{CompiledRules, KernelKind, NaNPolicy};
pub use diff::accumulate::{DiffMetrics, DiffOutput, DiffReport};
pub use diff::options::DiffOptions;
pub use diff::partition::fuzz_partition_bytes;
pub use distinct::merge::DuplicateSample;
pub use distinct::order::{ValueKind, ValueRef};
pub use distinct::state::{ExactMetrics, ExactState, ExactSummary};
pub use error::{ErrorCode, ErrorView, ProofFrameError};
pub use execution::executor::{ExecutionOptions, SpillPolicy};
pub use execution::reference_state::ReferenceOutcome;
pub use execution::references::ReferenceBindings;
pub use execution::report::{ExecutionMetrics, FastValidationReport};
pub use execution::validation::Finding;
pub use fingerprint::{Fingerprint, FingerprintOptions, FingerprintVersion};
pub use leakage::{LeakageOptions, LeakageReport};
pub use pii::options::{PiiFingerprintMode, PiiFingerprintOptions};
pub use pii::scan::{PiiFinding, PiiReport};
pub use profile::columns::DistinctMode;
pub use profile::legacy::{ColumnContract, Contract};
pub use profile::scan::{ColumnProfile, Profile, ValidationReport};
pub use resource::{
    CancellationToken, MemoryReservation, ResourceAccount, ResourceLimits, TempReservation,
};
pub use review::{review_html, review_markdown};
