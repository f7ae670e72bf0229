//! Strict reading and semantic checks of version 2 contracts.

use crate::contract::ast::{
    fail, failure, find_unknown, first_error, first_error_found, first_unknown, or_error, outcome,
    slices, CompositeUniqueAst, ContractAstV2, RatioRangeAst, ReferenceAst, RowRuleAst,
};
use crate::contract::json::{get, member, Json};
use crate::error::{ErrorCode, ErrorView, ProofFrameError};
use crate::numbers::{in_unit_interval, is_nan64, key64, order_key64};
use crate::text::{cat2, cat3, cat4, cat7, decimal, decimal_u64, str_eq, text, texts};
use vstd::prelude::*;

verus! {

/// A failure of a document's shape.
pub open spec fn shape_failure(message: Seq<char>, path: Seq<char>) -> ErrorView {
    failure(ErrorCode::ContractInvalidJson, message, path)
}

fn invalid(message: &str, path: String) -> (r: ProofFrameError)
    ensures
        r@ == shape_failure(message@, path@),
{
    fail(ErrorCode::ContractInvalidJson, text(message), path)
}

/// The path of one item of a list.
pub open spec fn item_path(list: Seq<char>, index: nat) -> Seq<char> {
    list + "["@ + decimal(index) + "]"@
}

/// The path of one item of a list.
pub fn index_path(list: &str, index: usize) -> (r: String)
    ensures
        r@ == item_path(list@, index as nat),
{
    let number = decimal_u64(index as u64);
    cat4(list, "[", number.as_str(), "]")
}

/// The path of a field of an item.
pub open spec fn field_path(parent: Seq<char>, field: Seq<char>) -> Seq<char> {
    parent + "."@ + field
}

/// The error for an object with a key that is not in a list, with a plain path.
pub open spec fn plain_unknown_error(
    object: Seq<(String, Json)>,
    allowed: Seq<Seq<char>>,
    parent: Seq<char>,
) -> Option<ErrorView> {
    match first_unknown(object, allowed) {
        Some(field) => Some(
            failure(
                ErrorCode::ContractUnknownField,
                "Unknown contract field `"@ + field + "`"@,
                field_path(parent, field),
            ),
        ),
        None => None,
    }
}

fn reject_unknown(object: &Vec<(String, Json)>, allowed: &Vec<&str>, parent: &str) -> (r: Result<
    (),
    ProofFrameError,
>)
    ensures
        outcome(r, plain_unknown_error(object@, slices(allowed@), parent@)),
{
    match find_unknown(object, allowed) {
        Some(field) => Err(
            fail(
                ErrorCode::ContractUnknownField,
                cat3("Unknown contract field `", field, "`"),
                cat3(parent, ".", field),
            ),
        ),
        None => Ok(()),
    }
}

/// The error for a value that must be an object with keys of a list.
pub open spec fn object_error(value: Json, allowed: Seq<Seq<char>>, path: Seq<char>) -> Option<
    ErrorView,
> {
    match value {
        Json::Object(o) => plain_unknown_error(o@, allowed, path),
        _ => Some(shape_failure("Expected a JSON object"@, path)),
    }
}

fn check_object(value: &Json, allowed: &Vec<&str>, path: &str) -> (r: Result<(), ProofFrameError>)
    ensures
        outcome(r, object_error(*value, slices(allowed@), path@)),
{
    match value {
        Json::Object(o) => reject_unknown(o, allowed, path),
        _ => Err(invalid("Expected a JSON object", text(path))),
    }
}

/// The fields of a version 2 document.
pub open spec fn document_fields() -> Seq<Seq<char>> {
    seq![
        "columns"@,
        "dataset_rules"@,
        "max_findings"@,
        "row_rules"@,
        "status"@,
        "suggested_from"@,
        "version"@,
    ]
}

/// The fields of a version 2 rule set.
pub open spec fn column_fields() -> Seq<Seq<char>> {
    seq![
        "allowed"@,
        "max"@,
        "max_length"@,
        "min"@,
        "min_length"@,
        "nan"@,
        "not_null"@,
        "pattern"@,
        "required"@,
        "type"@,
        "unique"@,
    ]
}

/// The fields of a row rule.
pub open spec fn row_rule_fields() -> Seq<Seq<char>> {
    seq!["assert"@, "compare"@, "name"@, "when"@]
}

/// The fields of a comparison.
pub open spec fn comparison_fields() -> Seq<Seq<char>> {
    seq!["left"@, "nulls"@, "op"@, "right"@]
}

/// The fields of an assertion.
pub open spec fn assertion_fields() -> Seq<Seq<char>> {
    seq!["allowed"@, "column"@, "max"@, "min"@, "nan"@, "not_null"@, "pattern"@]
}

/// The check of one column's rule set in version 2.
pub open spec fn column_check(columns: Seq<(String, Json)>) -> spec_fn(int) -> Option<ErrorView> {
    |i: int|
        object_error(columns[i].1, column_fields(), field_path("$.columns"@, columns[i].0@))
}

/// The check of an optional member of a row rule.
pub open spec fn part_error(
    rule: Seq<(String, Json)>,
    field: Seq<char>,
    allowed: Seq<Seq<char>>,
    path: Seq<char>,
) -> Option<ErrorView> {
    match member(rule, field) {
        Some(v) => object_error(v, allowed, field_path(path, field)),
        None => None,
    }
}

/// The check of one row rule's fields.
pub open spec fn row_rule_check(rules: Seq<Json>) -> spec_fn(int) -> Option<ErrorView> {
    |i: int|
        {
            let path = item_path("$.row_rules"@, i as nat);
            match rules[i] {
                Json::Object(rule) => or_error(
                    plain_unknown_error(rule@, row_rule_fields(), path),
                    or_error(
                        part_error(rule@, "compare"@, comparison_fields(), path),
                        or_error(
                            part_error(rule@, "when"@, comparison_fields(), path),
                            part_error(rule@, "assert"@, assertion_fields(), path),
                        ),
                    ),
                ),
                _ => Some(shape_failure("Expected a JSON object"@, path)),
            }
        }
}

/// The error of a version 2 document with a field that the language does not have.
pub open spec fn known_fields_error_v2(value: Json) -> Option<ErrorView> {
    match value {
        Json::Object(root) => or_error(
            plain_unknown_error(root@, document_fields(), "$"@),
            or_error(
                match member(root@, "columns"@) {
                    None => None,
                    Some(Json::Object(columns)) => first_error(
                        columns@.len(),
                        column_check(columns@),
                    ),
                    Some(_) => Some(shape_failure("Expected a JSON object"@, "$.columns"@)),
                },
                match member(root@, "row_rules"@) {
                    None => None,
                    Some(Json::Array(rules)) => first_error(rules@.len(), row_rule_check(rules@)),
                    Some(_) => Some(
                        shape_failure("row_rules must be an array"@, "$.row_rules"@),
                    ),
                },
            ),
        ),
        _ => Some(shape_failure("Expected a JSON object"@, "$"@)),
    }
}

fn check_columns(columns: &Vec<(String, Json)>) -> (r: Result<(), ProofFrameError>)
    ensures
        outcome(r, first_error(columns@.len(), column_check(columns@))),
{
    let allowed: Vec<&str> = vec![
        "allowed",
        "max",
        "max_length",
        "min",
        "min_length",
        "nan",
        "not_null",
        "pattern",
        "required",
        "type",
        "unique",
    ];
    assert(slices(allowed@) =~= column_fields());
    let ghost check = column_check(columns@);
    let mut i: usize = 0;
    while i < columns.len()
        invariant
            i <= columns@.len(),
            slices(allowed@) == column_fields(),
            check == column_check(columns@),
            first_error(i as nat, check) is None,
        decreases columns@.len() - i,
    {
        let path = cat3("$.columns", ".", columns[i].0.as_str());
        let r = check_object(&columns[i].1, &allowed, path.as_str());
        assert(outcome(r, check(i as int)));
        if r.is_err() {
            proof {
                first_error_found(columns@.len(), check, i as int);
            }
            return r;
        }
        i = i + 1;
    }
    Ok(())
}

fn check_part(
    rule: &Vec<(String, Json)>,
    field: &str,
    allowed: &Vec<&str>,
    path: &str,
) -> (r: Result<(), ProofFrameError>)
    ensures
        outcome(r, part_error(rule@, field@, slices(allowed@), path@)),
{
    match get(rule, field) {
        Some(v) => {
            let at = cat3(path, ".", field);
            check_object(v, allowed, at.as_str())
        },
        None => Ok(()),
    }
}

fn check_row_rule(rules: &Vec<Json>, i: usize) -> (r: Result<(), ProofFrameError>)
    requires
        i < rules@.len(),
    ensures
        outcome(r, row_rule_check(rules@)(i as int)),
{
    let fields: Vec<&str> = vec!["assert", "compare", "name", "when"];
    let comparison: Vec<&str> = vec!["left", "nulls", "op", "right"];
    let assertion: Vec<&str> = vec!["allowed", "column", "max", "min", "nan", "not_null", "pattern"];
    assert(slices(fields@) =~= row_rule_fields());
    assert(slices(comparison@) =~= comparison_fields());
    assert(slices(assertion@) =~= assertion_fields());
    let path = index_path("$.row_rules", i);
    match &rules[i] {
        Json::Object(rule) => {
            let r = reject_unknown(rule, &fields, path.as_str());
            if r.is_err() {
                return r;
            }
            let r = check_part(rule, "compare", &comparison, path.as_str());
            if r.is_err() {
                return r;
            }
            let r = check_part(rule, "when", &comparison, path.as_str());
            if r.is_err() {
                return r;
            }
            check_part(rule, "assert", &assertion, path.as_str())
        },
        _ => Err(invalid("Expected a JSON object", path)),
    }
}

fn check_row_rules(rules: &Vec<Json>) -> (r: Result<(), ProofFrameError>)
    ensures
        outcome(r, first_error(rules@.len(), row_rule_check(rules@))),
{
    let ghost check = row_rule_check(rules@);
    let mut i: usize = 0;
    while i < rules.len()
        invariant
            i <= rules@.len(),
            check == row_rule_check(rules@),
            first_error(i as nat, check) is None,
        decreases rules@.len() - i,
    {
        let r = check_row_rule(rules, i);
        if r.is_err() {
            proof {
                first_error_found(rules@.len(), check, i as int);
            }
            return r;
        }
        i = i + 1;
    }
    Ok(())
}

/// Rejects a version 2 document with a field that the language does not have.
pub fn validate_known_fields(value: &Json) -> (r: Result<(), ProofFrameError>)
    ensures
        outcome(r, known_fields_error_v2(*value)),
{
    let allowed: Vec<&str> = vec![
        "columns",
        "dataset_rules",
        "max_findings",
        "row_rules",
        "status",
        "suggested_from",
        "version",
    ];
    assert(slices(allowed@) =~= document_fields());
    match value {
        Json::Object(root) => {
            let r = reject_unknown(root, &allowed, "$");
            if r.is_err() {
                return r;
            }
            let r = match get(root, "columns") {
                None => Ok(()),
                Some(Json::Object(columns)) => check_columns(columns),
                Some(_) => Err(invalid("Expected a JSON object", text("$.columns"))),
            };
            if r.is_err() {
                return r;
            }
            match get(root, "row_rules") {
                None => Ok(()),
                Some(Json::Array(rules)) => check_row_rules(rules),
                Some(_) => Err(invalid("row_rules must be an array", text("$.row_rules"))),
            }
        },
        _ => Err(invalid("Expected a JSON object", text("$"))),
    }
}

/// The hint for a type name that the language does not have.
pub open spec fn type_hint(expected: Json) -> Seq<char> {
    match expected {
        Json::Text(t) => if t@ == "string"@ {
            " Use `utf8` for Arrow strings."@
        } else if t@ == "integer"@ {
            " Choose the Arrow width explicitly, for example `int64`."@
        } else if t@ == "decimal128"@ {
            " Use an object with name, precision and scale."@
        } else if t@ == "timestamp"@ {
            " Use an object with name, unit and optional timezone."@
        } else {
            ""@
        },
        _ => ""@,
    }
}

/// The debug spelling of a text in Rust.
pub uninterp spec fn debug_text(s: Seq<char>) -> Seq<char>;

/// `format!` with `{:?}` on a string slice: the debug spelling of the text.
#[verifier::external_body]
pub(crate) fn debug_string(value: &str) -> (r: String)
    ensures
        r@ == debug_text(value@),
{
    format!("{value:?}")
}

/// The error for a column whose expected type cannot be read, given the debug spelling of
/// the column's name.
pub open spec fn type_failure(quoted: Seq<char>, expected: Json, detail: Seq<char>) -> ErrorView {
    failure(
        ErrorCode::ContractInvalidType,
        "Column "@ + quoted + ", field `type`: "@ + detail + "."@ + type_hint(expected) + ""@,
        "$.columns["@ + quoted + "].type"@,
    )
}

/// The error for a column whose expected type cannot be read, given the debug spelling of
/// the column's name and the reason.
pub fn invalid_type_named(quoted: &str, expected: &Json, detail: &str) -> (r: ProofFrameError)
    ensures
        r@ == type_failure(quoted@, *expected, detail@),
{
    let hint = match expected {
        Json::Text(t) => {
            if str_eq(t.as_str(), "string") {
                " Use `utf8` for Arrow strings."
            } else if str_eq(t.as_str(), "integer") {
                " Choose the Arrow width explicitly, for example `int64`."
            } else if str_eq(t.as_str(), "decimal128") {
                " Use an object with name, precision and scale."
            } else if str_eq(t.as_str(), "timestamp") {
                " Use an object with name, unit and optional timezone."
            } else {
                ""
            }
        },
        _ => "",
    };
    fail(
        ErrorCode::ContractInvalidType,
        cat7("Column ", quoted, ", field `type`: ", detail, ".", hint, ""),
        cat3("$.columns[", quoted, "].type"),
    )
}

/// The error for a column whose expected type cannot be read, given the reason.
pub fn invalid_type(column: &str, expected: &Json, detail: &str) -> (r: ProofFrameError)
    ensures
        r@ == type_failure(debug_text(column@), *expected, detail@),
{
    let quoted = debug_string(column);
    invalid_type_named(quoted.as_str(), expected, detail)
}

/// Whether a name stands among the names of the first `n` row rules.
pub open spec fn row_name_taken(rules: Seq<RowRuleAst>, n: int, name: Seq<char>) -> bool {
    exists|j: int| 0 <= j < n && (#[trigger] rules[j]).name@ == name
}

/// The semantic check of one row rule.
pub open spec fn row_rule_semantics(rules: Seq<RowRuleAst>) -> spec_fn(int) -> Option<ErrorView> {
    |i: int|
        {
            let rule = rules[i];
            let path = item_path("$.row_rules"@, i as nat);
            if rule.name@.len() == 0 || row_name_taken(rules, i, rule.name@) {
                Some(
                    failure(
                        ErrorCode::ContractDuplicateRule,
                        "Row rule name `"@ + rule.name@ + "` is empty or duplicated"@,
                        path + ".name"@,
                    ),
                )
            } else if rule.compare is Some == (rule.when is Some && rule.assertion is Some) {
                Some(
                    shape_failure(
                        "A row rule must contain either compare or both when and assert"@,
                        path,
                    ),
                )
            } else {
                None
            }
        }
}

/// The error of one bound of a ratio range.
pub open spec fn ratio_bound_error(bound: Option<u64>, name: Seq<char>, path: Seq<char>) -> Option<
    ErrorView,
> {
    match bound {
        Some(b) => if in_unit_interval(b) {
            None
        } else {
            Some(
                failure(
                    ErrorCode::ContractInvalidRatio,
                    "Ratio bounds must be finite values between zero and one"@,
                    path + "."@ + name,
                ),
            )
        },
        None => None,
    }
}

/// The error of a ratio range.
pub open spec fn ratio_error(range: RatioRangeAst, path: Seq<char>) -> Option<ErrorView> {
    or_error(
        ratio_bound_error(range.min, "min"@, path),
        or_error(
            ratio_bound_error(range.max, "max"@, path),
            match (range.min, range.max) {
                (Some(low), Some(high)) => if key64(low) > key64(high) {
                    Some(
                        failure(
                            ErrorCode::ContractInvalidRatio,
                            "Ratio minimum exceeds maximum"@,
                            path,
                        ),
                    )
                } else {
                    None
                },
                _ => None,
            },
        ),
    )
}

fn check_ratio_bound(bound: Option<u64>, name: &str, path: &str) -> (r: Result<
    (),
    ProofFrameError,
>)
    ensures
        outcome(r, ratio_bound_error(bound, name@, path@)),
{
    match bound {
        Some(b) => {
            let key: i128 = order_key64(b);
            if !is_nan64(b) && 0 <= key && key <= 0x3FF0_0000_0000_0000 {
                Ok(())
            } else {
                Err(
                    fail(
                        ErrorCode::ContractInvalidRatio,
                        text("Ratio bounds must be finite values between zero and one"),
                        cat3(path, ".", name),
                    ),
                )
            }
        },
        None => Ok(()),
    }
}

/// Rejects a ratio range with a bound outside zero to one, or with its bounds crossed.
pub fn validate_ratio(range: &RatioRangeAst, path: &str) -> (r: Result<(), ProofFrameError>)
    ensures
        outcome(r, ratio_error(*range, path@)),
{
    let r = check_ratio_bound(range.min, "min", path);
    if r.is_err() {
        return r;
    }
    let r = check_ratio_bound(range.max, "max", path);
    if r.is_err() {
        return r;
    }
    match (range.min, range.max) {
        (Some(low), Some(high)) => {
            if order_key64(low) > order_key64(high) {
                Err(
                    fail(
                        ErrorCode::ContractInvalidRatio,
                        text("Ratio minimum exceeds maximum"),
                        text(path),
                    ),
                )
            } else {
                Ok(())
            }
        },
        _ => Ok(()),
    }
}

/// The check of one ratio rule.
pub open spec fn ratio_check(rules: Seq<(String, RatioRangeAst)>, prefix: Seq<char>) -> spec_fn(
    int,
) -> Option<ErrorView> {
    |i: int| ratio_error(rules[i].1, prefix + rules[i].0@)
}

/// The check of one composite uniqueness rule.
pub open spec fn composite_check(rules: Seq<CompositeUniqueAst>) -> spec_fn(int) -> Option<
    ErrorView,
> {
    |i: int|
        if rules[i].columns@.len() < 2 {
            Some(
                shape_failure(
                    "Composite uniqueness requires at least two columns"@,
                    item_path("$.dataset_rules.composite_unique"@, i as nat) + ".columns"@,
                ),
            )
        } else {
            None
        }
}

/// Whether a list names something twice.
pub open spec fn repeats(names: Seq<Seq<char>>) -> bool {
    exists|i: int, j: int| 0 <= i < j < names.len() && names[i] == names[j]
}

/// Whether a list names something twice.
pub fn has_duplicate(columns: &Vec<String>) -> (r: bool)
    ensures
        r == repeats(texts(columns@)),
{
    let ghost names = texts(columns@);
    let mut j: usize = 0;
    while j < columns.len()
        invariant
            j <= columns@.len(),
            names == texts(columns@),
            forall|a: int, b: int| 0 <= a < b < j ==> names[a] != names[b],
        decreases columns@.len() - j,
    {
        let mut i: usize = 0;
        while i < j
            invariant
                i <= j < columns@.len(),
                names == texts(columns@),
                forall|a: int| 0 <= a < i ==> names[a] != names[j as int],
            decreases j - i,
        {
            assert(names[i as int] == columns@[i as int]@);
            assert(names[j as int] == columns@[j as int]@);
            if str_eq(columns[i].as_str(), columns[j].as_str()) {
                return true;
            }
            i = i + 1;
        }
        j = j + 1;
    }
    false
}

/// Whether a name stands among the names of the first `n` reference rules.
pub open spec fn reference_name_taken(rules: Seq<ReferenceAst>, n: int, name: Seq<char>) -> bool {
    exists|j: int| 0 <= j < n && (#[trigger] rules[j]).name@ == name
}

/// The semantic check of one reference rule.
pub open spec fn reference_check(rules: Seq<ReferenceAst>) -> spec_fn(int) -> Option<ErrorView> {
    |i: int|
        {
            let rule = rules[i];
            let path = item_path("$.dataset_rules.references"@, i as nat);
            if rule.name@.len() == 0 || reference_name_taken(rules, i, rule.name@) {
                Some(
                    failure(
                        ErrorCode::ContractDuplicateRule,
                        "Reference rule name `"@ + rule.name@ + "` is empty or duplicated"@,
                        path + ".name"@,
                    ),
                )
            } else if rule.reference@.len() == 0 {
                Some(
                    shape_failure(
                        "A reference rule must name the reference dataset it binds to"@,
                        path + ".reference"@,
                    ),
                )
            } else if rule.columns@.len() == 0 {
                Some(
                    shape_failure(
                        "A reference rule requires at least one local key column"@,
                        path + ".columns"@,
                    ),
                )
            } else if rule.columns@.len() != rule.reference_columns@.len() {
                Some(
                    shape_failure(
                        "A reference rule pairs key columns by position, so both sides need equal lengths"@,
                        path + ".reference_columns"@,
                    ),
                )
            } else if repeats(texts(rule.columns@)) {
                Some(
                    shape_failure(
                        "A reference key repeats a local column"@,
                        path + ".columns"@,
                    ),
                )
            } else if repeats(texts(rule.reference_columns@)) {
                Some(
                    shape_failure(
                        "A reference key repeats a reference column"@,
                        path + ".reference_columns"@,
                    ),
                )
            } else {
                None
            }
        }
}

/// The first semantic error of a version 2 contract.
pub open spec fn semantics_error(contract: ContractAstV2) -> Option<ErrorView> {
    let rules = contract.dataset_rules;
    or_error(
        first_error(contract.row_rules@.len(), row_rule_semantics(contract.row_rules@)),
        or_error(
            first_error(
                rules.null_ratio@.len(),
                ratio_check(rules.null_ratio@, "$.dataset_rules.null_ratio."@),
            ),
            or_error(
                first_error(
                    rules.distinct_ratio@.len(),
                    ratio_check(rules.distinct_ratio@, "$.dataset_rules.distinct_ratio."@),
                ),
                or_error(
                    first_error(
                        rules.composite_unique@.len(),
                        composite_check(rules.composite_unique@),
                    ),
                    first_error(rules.references@.len(), reference_check(rules.references@)),
                ),
            ),
        ),
    )
}

fn check_row_semantics(rules: &Vec<RowRuleAst>, i: usize) -> (r: Result<(), ProofFrameError>)
    requires
        i < rules@.len(),
    ensures
        outcome(r, row_rule_semantics(rules@)(i as int)),
{
    let rule = &rules[i];
    let path = index_path("$.row_rules", i);
    let mut taken = rule.name.as_str().is_empty();
    let mut j: usize = 0;
    while j < i && !taken
        invariant
            i < rules@.len(),
            j <= i,
            *rule == rules@[i as int],
            taken ==> rule.name@.len() == 0 || row_name_taken(rules@, i as int, rule.name@),
            !taken ==> rule.name@.len() > 0 && forall|k: int|
                0 <= k < j ==> (#[trigger] rules@[k]).name@ != rule.name@,
        decreases i - j,
    {
        if str_eq(rules[j].name.as_str(), rule.name.as_str()) {
            taken = true;
            assert(rules@[j as int].name@ == rule.name@);
        }
        j = j + 1;
    }
    if taken {
        return Err(
            fail(
                ErrorCode::ContractDuplicateRule,
                cat3("Row rule name `", rule.name.as_str(), "` is empty or duplicated"),
                cat2(path.as_str(), ".name"),
            ),
        );
    }
    let direct = rule.compare.is_some();
    let conditional = rule.when.is_some() && rule.assertion.is_some();
    if direct == conditional {
        return Err(
            invalid("A row rule must contain either compare or both when and assert", path),
        );
    }
    Ok(())
}

fn check_reference(rules: &Vec<ReferenceAst>, i: usize) -> (r: Result<(), ProofFrameError>)
    requires
        i < rules@.len(),
    ensures
        outcome(r, reference_check(rules@)(i as int)),
{
    let rule = &rules[i];
    let path = index_path("$.dataset_rules.references", i);
    let mut taken = rule.name.as_str().is_empty();
    let mut j: usize = 0;
    while j < i && !taken
        invariant
            i < rules@.len(),
            j <= i,
            *rule == rules@[i as int],
            taken ==> rule.name@.len() == 0 || reference_name_taken(
                rules@,
                i as int,
                rule.name@,
            ),
            !taken ==> rule.name@.len() > 0 && forall|k: int|
                0 <= k < j ==> (#[trigger] rules@[k]).name@ != rule.name@,
        decreases i - j,
    {
        if str_eq(rules[j].name.as_str(), rule.name.as_str()) {
            taken = true;
            assert(rules@[j as int].name@ == rule.name@);
        }
        j = j + 1;
    }
    if taken {
        return Err(
            fail(
                ErrorCode::ContractDuplicateRule,
                cat3("Reference rule name `", rule.name.as_str(), "` is empty or duplicated"),
                cat2(path.as_str(), ".name"),
            ),
        );
    }
    if rule.reference.as_str().is_empty() {
        return Err(
            invalid(
                "A reference rule must name the reference dataset it binds to",
                cat2(path.as_str(), ".reference"),
            ),
        );
    }
    if rule.columns.len() == 0 {
        return Err(
            invalid(
                "A reference rule requires at least one local key column",
                cat2(path.as_str(), ".columns"),
            ),
        );
    }
    if rule.columns.len() != rule.reference_columns.len() {
        return Err(
            invalid(
                "A reference rule pairs key columns by position, so both sides need equal lengths",
                cat2(path.as_str(), ".reference_columns"),
            ),
        );
    }
    if has_duplicate(&rule.columns) {
        return Err(
            invalid("A reference key repeats a local column", cat2(path.as_str(), ".columns")),
        );
    }
    if has_duplicate(&rule.reference_columns) {
        return Err(
            invalid(
                "A reference key repeats a reference column",
                cat2(path.as_str(), ".reference_columns"),
            ),
        );
    }
    Ok(())
}

fn check_ratios(rules: &Vec<(String, RatioRangeAst)>, prefix: &str) -> (r: Result<
    (),
    ProofFrameError,
>)
    ensures
        outcome(r, first_error(rules@.len(), ratio_check(rules@, prefix@))),
{
    let ghost check = ratio_check(rules@, prefix@);
    let mut i: usize = 0;
    while i < rules.len()
        invariant
            i <= rules@.len(),
            check == ratio_check(rules@, prefix@),
            first_error(i as nat, check) is None,
        decreases rules@.len() - i,
    {
        let path = cat2(prefix, rules[i].0.as_str());
        let r = validate_ratio(&rules[i].1, path.as_str());
        assert(outcome(r, check(i as int)));
        if r.is_err() {
            proof {
                first_error_found(rules@.len(), check, i as int);
            }
            return r;
        }
        i = i + 1;
    }
    Ok(())
}

fn check_composites(rules: &Vec<CompositeUniqueAst>) -> (r: Result<(), ProofFrameError>)
    ensures
        outcome(r, first_error(rules@.len(), composite_check(rules@))),
{
    let ghost check = composite_check(rules@);
    let mut i: usize = 0;
    while i < rules.len()
        invariant
            i <= rules@.len(),
            check == composite_check(rules@),
            first_error(i as nat, check) is None,
        decreases rules@.len() - i,
    {
        if rules[i].columns.len() < 2 {
            let path = index_path("$.dataset_rules.composite_unique", i);
            proof {
                first_error_found(rules@.len(), check, i as int);
            }
            return Err(
                invalid(
                    "Composite uniqueness requires at least two columns",
                    cat2(path.as_str(), ".columns"),
                ),
            );
        }
        assert(check(i as int) is None);
        i = i + 1;
    }
    Ok(())
}

/// Rejects reference rules without a distinct name, a dataset, or keys that pair up.
pub fn validate_references(contract: &ContractAstV2) -> (r: Result<(), ProofFrameError>)
    ensures
        outcome(
            r,
            first_error(
                contract.dataset_rules.references@.len(),
                reference_check(contract.dataset_rules.references@),
            ),
        ),
{
    let rules = &contract.dataset_rules.references;
    let ghost check = reference_check(rules@);
    let mut i: usize = 0;
    while i < rules.len()
        invariant
            i <= rules@.len(),
            rules@ == contract.dataset_rules.references@,
            check == reference_check(rules@),
            first_error(i as nat, check) is None,
        decreases rules@.len() - i,
    {
        let r = check_reference(rules, i);
        if r.is_err() {
            proof {
                first_error_found(rules@.len(), check, i as int);
            }
            return r;
        }
        i = i + 1;
    }
    Ok(())
}

/// Rejects a version 2 contract whose rules make no sense.
pub fn validate_semantics(contract: &ContractAstV2) -> (r: Result<(), ProofFrameError>)
    ensures
        outcome(r, semantics_error(*contract)),
{
    let rows = &contract.row_rules;
    let ghost check = row_rule_semantics(rows@);
    let mut i: usize = 0;
    while i < rows.len()
        invariant
            i <= rows@.len(),
            rows@ == contract.row_rules@,
            check == row_rule_semantics(rows@),
            first_error(i as nat, check) is None,
        decreases rows@.len() - i,
    {
        let r = check_row_semantics(rows, i);
        if r.is_err() {
            proof {
                first_error_found(rows@.len(), check, i as int);
            }
            return r;
        }
        i = i + 1;
    }
    let r = check_ratios(&contract.dataset_rules.null_ratio, "$.dataset_rules.null_ratio.");
    if r.is_err() {
        return r;
    }
    let r = check_ratios(
        &contract.dataset_rules.distinct_ratio,
        "$.dataset_rules.distinct_ratio.",
    );
    if r.is_err() {
        return r;
    }
    let r = check_composites(&contract.dataset_rules.composite_unique);
    if r.is_err() {
        return r;
    }
    validate_references(contract)
}

} // verus!
