//! Which documents are read at all: those whose every field is known, of a version that is, and
//! that are no drafts.

use crate::contract::accepted::none_wrong;
use crate::contract::ast::{
    column_fields_error, first_unknown, known_fields_error, root_fields, rule_fields,
    ContractStatus,
};
use crate::contract::document::{version_error, ContractDocument};
use crate::contract::json::{member, Json};
use vstd::prelude::*;

verus! {

/// Whether every field of an object is one of some names.
pub open spec fn all_known(object: Seq<(String, Json)>, allowed: Seq<Seq<char>>) -> bool {
    forall|i: int| 0 <= i < object.len() ==> allowed.contains((#[trigger] object[i]).0@)
}

/// The first field that is not known is named; none is exactly where all are known.
pub proof fn unknown_fields_are_named(object: Seq<(String, Json)>, allowed: Seq<Seq<char>>)
    ensures
        first_unknown(object, allowed) is None <==> all_known(object, allowed),
        first_unknown(object, allowed) matches Some(field) ==> !allowed.contains(field) && exists|
            i: int,
        |
            0 <= i < object.len() && (#[trigger] object[i]).0@ == field && all_known(
                object.take(i),
                allowed,
            ),
    decreases object.len(),
{
    if object.len() > 0 {
        let rest = object.drop_first();
        unknown_fields_are_named(rest, allowed);
        if !allowed.contains(object[0].0@) {
            assert(object[0].0@ == object[0].0@ && all_known(object.take(0), allowed));
        } else {
            if all_known(rest, allowed) {
                assert forall|i: int| 0 <= i < object.len() implies allowed.contains(
                    (#[trigger] object[i]).0@,
                ) by {
                    if i > 0 {
                        assert(rest[i - 1] == object[i]);
                    }
                }
            }
            if all_known(object, allowed) {
                assert forall|i: int| 0 <= i < rest.len() implies allowed.contains(
                    (#[trigger] rest[i]).0@,
                ) by {
                    assert(rest[i] == object[i + 1]);
                }
            }
            if let Some(field) = first_unknown(rest, allowed) {
                let i = choose|i: int|
                    0 <= i < rest.len() && (#[trigger] rest[i]).0@ == field && all_known(
                        rest.take(i),
                        allowed,
                    );
                assert(object[i + 1] == rest[i]);
                let lead = object.take(i + 1);
                assert forall|j: int| 0 <= j < lead.len() implies allowed.contains(
                    (#[trigger] lead[j]).0@,
                ) by {
                    if j > 0 {
                        assert(rest.take(i)[j - 1] == lead[j]);
                    }
                }
            }
        }
    }
}

/// The value under a key is that of the first member with the key; there is none exactly where no
/// member has it.
pub proof fn members_are_looked_up_by_key(object: Seq<(String, Json)>, key: Seq<char>)
    ensures
        member(object, key) is None <==> forall|i: int|
            0 <= i < object.len() ==> (#[trigger] object[i]).0@ != key,
        member(object, key) matches Some(v) ==> exists|i: int|
            0 <= i < object.len() && (#[trigger] object[i]).0@ == key && object[i].1 == v && forall|
                j: int,
            |
                0 <= j < i ==> (#[trigger] object[j]).0@ != key,
    decreases object.len(),
{
    if object.len() > 0 {
        let rest = object.drop_first();
        members_are_looked_up_by_key(rest, key);
        if object[0].0@ != key {
            assert forall|i: int| 1 <= i < object.len() implies #[trigger] object[i] == rest[i
                - 1] by {}
            if let Some(v) = member(rest, key) {
                let i = choose|i: int|
                    0 <= i < rest.len() && (#[trigger] rest[i]).0@ == key && rest[i].1 == v
                        && forall|j: int| 0 <= j < i ==> (#[trigger] rest[j]).0@ != key;
                assert(object[i + 1] == rest[i]);
                assert forall|j: int| 0 <= j < i + 1 implies (#[trigger] object[j]).0@ != key by {
                    if j > 0 {
                        assert(rest[j - 1].0@ != key);
                    }
                }
            } else {
                assert forall|i: int| 0 <= i < object.len() implies (#[trigger] object[i]).0@
                    != key by {
                    if i > 0 {
                        assert(rest[i - 1].0@ != key);
                    }
                }
            }
        }
    }
}

/// Whether the rules of every column are an object of known rules.
pub open spec fn columns_known(columns: Seq<(String, Json)>) -> bool {
    forall|i: int|
        0 <= i < columns.len() ==> ((#[trigger] columns[i]).1 matches Json::Object(rule)
            && all_known(rule@, rule_fields()))
}

/// A version 1 document is read exactly where it is an object of known fields whose columns are
/// objects of known rules.
pub proof fn known_documents_are_read(value: Json)
    ensures
        known_fields_error(value) is None <==> (value matches Json::Object(root) && all_known(
            root@,
            root_fields(),
        ) && match member(root@, "columns"@) {
            None => true,
            Some(columns) => columns matches Json::Object(c) && columns_known(c@),
        }),
{
    if let Json::Object(root) = value {
        unknown_fields_are_named(root@, root_fields());
        if let Some(Json::Object(columns)) = member(root@, "columns"@) {
            let check = column_fields_error(columns@);
            none_wrong(columns@.len(), check);
            assert forall|i: int| 0 <= i < columns@.len() implies ((#[trigger] check(i)) is None
                <==> (columns@[i].1 matches Json::Object(rule) && all_known(
                rule@,
                rule_fields(),
            ))) by {
                if let Json::Object(rule) = columns@[i].1 {
                    unknown_fields_are_named(rule@, rule_fields());
                }
            }
            if forall|i: int| 0 <= i < columns@.len() ==> (#[trigger] check(i)) is None {
                assert forall|i: int| 0 <= i < columns@.len() implies ((#[trigger] columns@[i]).1
                    matches Json::Object(rule) && all_known(rule@, rule_fields())) by {
                    assert(check(i) is None);
                }
            }
        }
    }
}

/// A document is of a known version exactly where it says so in a text, and is executed unless it
/// is a draft.
pub proof fn versions_and_drafts_are_told(value: Json, document: ContractDocument)
    ensures
        version_error(value) is None <==> (value.spec_field("version"@) matches Some(Json::Text(v))
            && (v@ == "proofframe.contract.v1"@ || v@ == "proofframe.contract.v2"@)),
        document.draft_error() is Some <==> (document matches ContractDocument::V2(c) && c.status
            == ContractStatus::Draft),
{
}

} // verus!
