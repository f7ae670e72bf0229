//! Contracts with floating-point bounds, and what they are in the contract language.

use crate::contract::ast::{
    outcome, BoundAst, ContractAst, ContractVersion, RuleAst, Spelling, DEFAULT_MAX_FINDINGS,
};
use crate::contract::rules::{copy_texts, opt_texts};
use crate::error::{ErrorCode, ErrorView, ProofFrameError};
use crate::numbers::{binary_places, exponent64, finite64, is_finite64, significand64};
use crate::text::{opt_text, text};
use vstd::arithmetic::power2::{lemma2_to64, lemma_pow2_pos, lemma_pow2_unfold, pow2};
use vstd::prelude::*;

verus! {

/// A floating-point bound: its bit pattern, its display text, and its spelling in the
/// contract language.
#[derive(Debug)]
pub struct FloatBound {
    pub bits: u64,
    pub shown: String,
    pub spelling: Spelling,
}

/// Rule set applied to a single column during validation.
#[derive(Debug)]
pub struct ColumnContract {
    pub required: bool,
    pub not_null: bool,
    pub unique: bool,
    pub min: Option<FloatBound>,
    pub max: Option<FloatBound>,
    pub pattern: Option<String>,
    pub allowed: Option<Vec<String>>,
}

/// Validation contract: rules for columns by their names, and a bound on findings. Each
/// column is named once, and they stand in the order of their names.
#[derive(Debug)]
pub struct Contract {
    pub columns: Vec<(String, ColumnContract)>,
    pub max_findings: usize,
}

impl Default for ColumnContract {
    fn default() -> (r: Self)
        ensures
            !r.required && !r.not_null && !r.unique,
            r.min is None && r.max is None,
            r.pattern is None && r.allowed is None,
    {
        ColumnContract {
            required: false,
            not_null: false,
            unique: false,
            min: None,
            max: None,
            pattern: None,
            allowed: None,
        }
    }
}

impl Contract {
    /// A contract that names no column.
    pub fn empty() -> (r: Self)
        ensures
            r.columns@.len() == 0,
            r.max_findings == DEFAULT_MAX_FINDINGS,
    {
        Contract { columns: Vec::new(), max_findings: DEFAULT_MAX_FINDINGS }
    }
}

/// Whether a finite 64-bit float is an integer: its significand is a multiple of the power
/// of two that divides it.
pub open spec fn whole64(bits: u64) -> bool {
    exponent64(bits) >= 1075 || significand64(bits) % pow2(binary_places(bits)) == 0
}

proof fn halving(s: nat, p: nat)
    requires
        p > 0,
    ensures
        s % 2 == 0 ==> (s % pow2(p) == 0 <==> (s / 2) % pow2((p - 1) as nat) == 0),
        s % 2 == 1 ==> s % pow2(p) != 0,
{
    lemma_pow2_unfold(p);
    lemma_pow2_pos((p - 1) as nat);
    let m = pow2((p - 1) as nat);
    let h = s / 2;
    assert(pow2(p) == 2 * m);
    if s % 2 == 0 {
        assert(s == 2 * h);
        assert((2 * h) % (2 * m) == 2 * (h % m)) by (nonlinear_arith)
            requires
                m > 0,
        {
            let q = h / m;
            let r = h % m;
            vstd::arithmetic::div_mod::lemma_fundamental_div_mod(h as int, m as int);
            assert(2 * h == (2 * m) * q + 2 * r);
            vstd::arithmetic::div_mod::lemma_fundamental_div_mod_converse(
                (2 * h) as int,
                (2 * m) as int,
                q as int,
                (2 * r) as int,
            );
        }
    } else if s % pow2(p) == 0 {
        vstd::arithmetic::div_mod::lemma_fundamental_div_mod(s as int, (2 * m) as int);
        let q = s as int / (2 * m) as int;
        assert(s == (2 * m) * q);
        assert((2 * m) * q == 2 * (m * q)) by (nonlinear_arith);
        assert(false);
    }
}

/// Whether a finite 64-bit float is an integer.
pub fn is_whole64(bits: u64) -> (r: bool)
    requires
        finite64(bits),
    ensures
        r == whole64(bits),
{
    let exponent: u64 = (bits / 0x10_0000_0000_0000) % 2048;
    let fraction: u64 = bits % 0x10_0000_0000_0000;
    if exponent >= 1075 {
        return true;
    }
    let (significand, places): (u64, u64) = if exponent == 0 {
        (fraction, 1074)
    } else {
        (0x10_0000_0000_0000 + fraction, 1075 - exponent)
    };
    let mut s: u64 = significand;
    let mut p: u64 = places;
    while p > 0
        invariant
            significand == significand64(bits),
            places == binary_places(bits),
            exponent64(bits) < 1075,
            (s as nat % pow2(p as nat) == 0) == (significand as nat % pow2(places as nat) == 0),
        decreases p,
    {
        proof {
            halving(s as nat, p as nat);
        }
        if s % 2 != 0 {
            return false;
        }
        s = s / 2;
        p = p - 1;
    }
    proof {
        lemma2_to64();
        assert(pow2(0) == 1);
    }
    true
}

/// The error for a bound that is no number.
pub open spec fn infinite_bound() -> ErrorView {
    ErrorView::Contract {
        code: ErrorCode::ContractInvalidBound,
        message: "Legacy floating-point bounds must be finite"@,
        path: None,
    }
}

/// Whether two spellings are alike.
pub open spec fn same_spelling(a: Spelling, b: Spelling) -> bool {
    a.text@ == b.text@ && a.float64 == b.float64 && a.float32 == b.float32
}

/// Whether a bound of the contract language is a floating-point bound: text where that is
/// an integer, and a number where it is not.
pub open spec fn same_bound(a: BoundAst, b: FloatBound) -> bool {
    &&& a is Text == whole64(b.bits)
    &&& same_spelling(a.spelling(), b.spelling)
}

/// The bound of the contract language for a floating-point bound.
pub fn legacy_bound(bound: &FloatBound) -> (r: Result<BoundAst, ProofFrameError>)
    ensures
        if finite64(bound.bits) {
            r matches Ok(b) && same_bound(b, *bound)
        } else {
            r matches Err(e) && e@ == infinite_bound()
        },
{
    if !is_finite64(bound.bits) {
        return Err(
            ProofFrameError::Contract {
                code: ErrorCode::ContractInvalidBound,
                message: text("Legacy floating-point bounds must be finite"),
                path: None,
            },
        );
    }
    let spelling = Spelling {
        text: text(bound.spelling.text.as_str()),
        float64: bound.spelling.float64,
        float32: bound.spelling.float32,
    };
    if is_whole64(bound.bits) {
        Ok(BoundAst::Text(spelling))
    } else {
        Ok(BoundAst::Number(spelling))
    }
}

/// Whether an optional bound is no number.
pub open spec fn bad_bound(bound: Option<FloatBound>) -> bool {
    bound matches Some(b) && !finite64(b.bits)
}

fn legacy_optional(bound: &Option<FloatBound>) -> (r: Result<Option<BoundAst>, ProofFrameError>)
    ensures
        outcome(
            r,
            if bad_bound(*bound) {
                Some(infinite_bound())
            } else {
                None
            },
        ),
        r matches Ok(b) ==> same_optional(b, *bound),
{
    match bound {
        None => Ok(None),
        Some(b) => match legacy_bound(b) {
            Ok(x) => Ok(Some(x)),
            Err(e) => Err(e),
        },
    }
}

/// Whether optional bounds are alike.
pub open spec fn same_optional(a: Option<BoundAst>, b: Option<FloatBound>) -> bool {
    match b {
        None => a is None,
        Some(y) => a matches Some(x) && same_bound(x, y),
    }
}

/// Whether a rule set of the contract language says what a rule set says.
pub open spec fn same_rules(a: RuleAst, b: ColumnContract) -> bool {
    &&& a.required == b.required
    &&& a.not_null == b.not_null
    &&& a.unique == b.unique
    &&& same_optional(a.min, b.min)
    &&& same_optional(a.max, b.max)
    &&& a.nan is None
    &&& opt_text(a.pattern) == opt_text(b.pattern)
    &&& opt_texts(a.allowed) == opt_texts(b.allowed)
}

/// Whether a bound of one of the first `n` columns is no number.
pub open spec fn has_bad_bound(columns: Seq<(String, ColumnContract)>) -> bool {
    exists|i: int|
        #![trigger columns[i]]
        0 <= i < columns.len() && (bad_bound(columns[i].1.min) || bad_bound(columns[i].1.max))
}

/// The rule set of the contract language for a rule set.
fn legacy_rules(rule: &ColumnContract) -> (r: Result<RuleAst, ProofFrameError>)
    ensures
        outcome(
            r,
            if bad_bound(rule.min) || bad_bound(rule.max) {
                Some(infinite_bound())
            } else {
                None
            },
        ),
        r matches Ok(a) ==> same_rules(a, *rule),
{
    let min = legacy_optional(&rule.min)?;
    let max = legacy_optional(&rule.max)?;
    let pattern = match &rule.pattern {
        None => None,
        Some(p) => Some(text(p.as_str())),
    };
    let allowed = match &rule.allowed {
        None => None,
        Some(values) => Some(copy_texts(values)),
    };
    Ok(
        RuleAst {
            required: rule.required,
            not_null: rule.not_null,
            unique: rule.unique,
            min,
            max,
            nan: None,
            pattern,
            allowed,
        },
    )
}

/// The contract of version 1 that says what a contract says.
pub fn legacy_contract_ast(contract: &Contract) -> (r: Result<ContractAst, ProofFrameError>)
    ensures
        outcome(
            r,
            if has_bad_bound(contract.columns@) {
                Some(infinite_bound())
            } else {
                None
            },
        ),
        r matches Ok(a) ==> {
            &&& a.version == ContractVersion::V1
            &&& a.max_findings == contract.max_findings
            &&& a.columns@.len() == contract.columns@.len()
            &&& forall|i: int|
                #![trigger a.columns@[i]]
                0 <= i < a.columns@.len() ==> a.columns@[i].0@ == contract.columns@[i].0@
                    && same_rules(a.columns@[i].1, contract.columns@[i].1)
        },
{
    let mut columns: Vec<(String, RuleAst)> = Vec::new();
    let mut i: usize = 0;
    while i < contract.columns.len()
        invariant
            i <= contract.columns@.len(),
            columns@.len() == i,
            forall|k: int|
                #![trigger contract.columns@[k]]
                0 <= k < i ==> !bad_bound(contract.columns@[k].1.min) && !bad_bound(
                    contract.columns@[k].1.max,
                ),
            forall|k: int|
                #![trigger columns@[k]]
                0 <= k < i ==> columns@[k].0@ == contract.columns@[k].0@ && same_rules(
                    columns@[k].1,
                    contract.columns@[k].1,
                ),
        decreases contract.columns@.len() - i,
    {
        let entry = &contract.columns[i];
        let rule = match legacy_rules(&entry.1) {
            Ok(x) => x,
            Err(e) => {
                assert(bad_bound(contract.columns@[i as int].1.min) || bad_bound(
                    contract.columns@[i as int].1.max,
                ));
                return Err(e);
            },
        };
        columns.push((text(entry.0.as_str()), rule));
        i = i + 1;
    }
    Ok(
        ContractAst {
            version: ContractVersion::V1,
            columns,
            max_findings: contract.max_findings,
        },
    )
}

} // verus!
