//! What a page without a file system can run, and what it shows.

use crate::contract::ast::outcome;
use crate::contract::json::{member, Json};
use crate::error::ProofFrameError;
use crate::review::{
    page_error, page_view, review_html, review_markdown, summary_error, summary_view,
};
use crate::review::escape::{html, markdown};
use crate::surface::members::{
    member_set, place_of, remove_member, removed_member_is_gone, set_member,
    set_member_is_read_back,
};
use crate::text::{str_eq, text, texts};
use crate::value::{
    copy_field, copy_metadata, same_field, same_metadata, DataType, Field, Schema,
};
use vstd::prelude::*;
use vstd::string::*;

verus! {

/// Whether a column is another, read as text where no value of it was seen.
pub open spec fn read_as_text(before: Field, after: Field) -> bool {
    if before.data_type is Null {
        &&& after.name@ == before.name@
        &&& after.data_type is Utf8
        &&& after.type_text@ == "Utf8"@
        &&& after.nullable
        &&& same_metadata(after.metadata@, before.metadata@)
    } else {
        same_field(after, before)
    }
}

/// Reads a column in which no value was seen as text that nobody filled in.
pub fn as_text_where_empty(schema: &Schema) -> (r: Schema)
    ensures
        r.fields@.len() == schema.fields@.len(),
        same_metadata(r.metadata@, schema.metadata@),
        forall|i: int|
            0 <= i < schema.fields@.len() ==> read_as_text(
                schema.fields@[i],
                #[trigger] r.fields@[i],
            ),
{
    let mut fields: Vec<Field> = Vec::new();
    let mut i: usize = 0;
    while i < schema.fields.len()
        invariant
            i <= schema.fields@.len(),
            fields@.len() == i,
            forall|k: int|
                0 <= k < i ==> read_as_text(schema.fields@[k], #[trigger] fields@[k]),
        decreases schema.fields@.len() - i,
    {
        let field = &schema.fields[i];
        let empty = match &field.data_type {
            DataType::Null => true,
            _ => false,
        };
        if empty {
            fields.push(
                Field {
                    name: text(field.name.as_str()),
                    data_type: DataType::Utf8,
                    type_text: text("Utf8"),
                    nullable: true,
                    metadata: copy_metadata(&field.metadata),
                },
            );
        } else {
            fields.push(copy_field(field));
        }
        i = i + 1;
    }
    Schema { fields, metadata: copy_metadata(&schema.metadata) }
}

/// The rule of a contract that needs a second dataset, which a page never binds.
pub open spec fn needs_reference(contract: Json) -> bool {
    match contract.spec_field("dataset_rules"@) {
        Some(rules) => match rules.spec_field("references"@) {
            Some(Json::Array(a)) => a@.len() > 0,
            _ => false,
        },
        None => false,
    }
}

/// The rule of a contract that a page cannot run.
pub fn unsupported_rule(contract: &Json) -> (r: Option<&'static str>)
    ensures
        if needs_reference(*contract) {
            r matches Some(s) && s@ == "references"@
        } else {
            r is None
        },
{
    match contract.field("dataset_rules") {
        Some(rules) => match rules.field("references") {
            Some(Json::Array(a)) => if a.len() > 0 {
                Some("references")
            } else {
                None
            },
            _ => None,
        },
        None => None,
    }
}

/// The rules of a contract that a page cannot run, as a list. What is no contract at all
/// has none.
pub fn unsupported_rules(contract: Option<&Json>) -> (r: String)
    ensures
        r@ == if contract is Some && needs_reference(*contract.unwrap()) {
            "[\"references\"]"@
        } else {
            "[]"@
        },
{
    match contract {
        Some(c) => match unsupported_rule(c) {
            Some(_) => text("[\"references\"]"),
            None => text("[]"),
        },
        None => text("[]"),
    }
}

/// Whether a contract is another without the rules that a page cannot run.
pub open spec fn runnable(before: Json, after: Json) -> bool {
    if !needs_reference(before) {
        after == before
    } else {
        &&& !needs_reference(after)
        &&& before matches Json::Object(a)
        &&& after matches Json::Object(b)
        &&& a@.len() == b@.len()
        &&& forall|key: Seq<char>|
            key != "dataset_rules"@ ==> #[trigger] member(b@, key) == member(a@, key)
        &&& forall|key: Seq<char>|
            key != "references"@ ==> #[trigger] after.spec_field("dataset_rules"@).unwrap().spec_field(
                key,
            ) == before.spec_field("dataset_rules"@).unwrap().spec_field(key)
    }
}

/// The contract without the rules that a page cannot run. What is left is not the contract
/// that was written.
pub fn without_unsupported(contract: Json) -> (r: Json)
    ensures
        runnable(contract, r),
{
    if unsupported_rule(&contract).is_none() {
        return contract;
    }
    let ghost before = contract;
    match contract {
        Json::Object(mut members) => {
            let ghost all = members@;
            let mut i: usize = 0;
            assert(all.skip(0) =~= all);
            while i < members.len()
                invariant
                    i <= members@.len(),
                    members@ == all,
                    before == contract,
                    before == Json::Object(members),
                    before.object() == Some(all),
                    needs_reference(before),
                    place_of(all, "dataset_rules"@) == match place_of(
                        all.skip(i as int),
                        "dataset_rules"@,
                    ) {
                        Some(k) => Some(k + i),
                        None => None,
                    },
                    member(all, "dataset_rules"@) == member(all.skip(i as int), "dataset_rules"@),
                decreases members@.len() - i,
            {
                let ghost rest = all.skip(i as int);
                assert(rest[0] == all[i as int]);
                if str_eq(members[i].0.as_str(), "dataset_rules") {
                    let (name, value) = members.remove(i);
                    let ghost given = value;
                    assert(member(all, "dataset_rules"@) == Some(given));
                    match value {
                        Json::Object(mut rules) => {
                            let ghost had = rules@;
                            remove_member(&mut rules, "references");
                            let put = Json::Object(rules);
                            let ghost kept = put;
                            members.insert(i, (name, put));
                            proof {
                                let after = Json::Object(members);
                                assert(place_of(all, "dataset_rules"@) == Some(i as int));
                                assert(member_set(all, members@, "dataset_rules"@, kept));
                                assert forall|key: Seq<char>| #[trigger]
                                    member(members@, key) == if key == "dataset_rules"@ {
                                        Some(kept)
                                    } else {
                                        member(all, key)
                                    } by {
                                    set_member_is_read_back(
                                        all,
                                        members@,
                                        "dataset_rules"@,
                                        kept,
                                        key,
                                    );
                                }
                                assert(after.spec_field("dataset_rules"@) == Some(kept));
                                assert forall|key: Seq<char>| #[trigger]
                                    kept.spec_field(key) == if key == "references"@ {
                                        None::<Json>
                                    } else {
                                        given.spec_field(key)
                                    } by {
                                    removed_member_is_gone(had, "references"@, key);
                                }
                                assert(kept.spec_field("references"@) is None);
                                assert(!needs_reference(after));
                                assert(before.spec_field("dataset_rules"@) == Some(given));
                                assert forall|key: Seq<char>| key != "dataset_rules"@ implies
                                    #[trigger] member(members@, key) == member(all, key) by {}
                                assert forall|key: Seq<char>| key != "references"@ implies
                                    #[trigger] after.spec_field(
                                    "dataset_rules"@,
                                ).unwrap().spec_field(key) == before.spec_field(
                                    "dataset_rules"@,
                                ).unwrap().spec_field(key) by {}
                                assert(all.len() == members@.len());
                                assert(runnable(before, after));
                            }
                            return Json::Object(members);
                        },
                        _ => {
                            proof {
                                assert(given.spec_field("references"@) is None);
                                assert(false);
                            }
                            return Json::Object(members);
                        },
                    }
                }
                assert(rest.drop_first() =~= all.skip(i + 1));
                i = i + 1;
            }
            proof {
                assert(all.skip(all.len() as int) =~= Seq::empty());
                assert(false);
            }
            Json::Object(members)
        },
        other => other,
    }
}

/// The contract with another status. Every literal of it stays as it was written.
pub fn set_contract_status(contract: Json, status: &str) -> (r: Result<Json, &'static str>)
    ensures
        match contract {
            Json::Object(o) => r matches Ok(Json::Object(x)) && has_status(o@, x@, status@),
            _ => r matches Err(m) && m@ == "contract is not a JSON object"@,
        },
{
    match contract {
        Json::Object(mut members) => {
            let ghost before = members@;
            let value = Json::Text(text(status));
            let ghost kept = value;
            set_member(&mut members, "status", value);
            assert(member_set(before, members@, "status"@, kept));
            assert(has_status(before, members@, status@));
            Ok(Json::Object(members))
        },
        _ => Err("contract is not a JSON object"),
    }
}

/// Whether the members of a contract are those of another with a status.
pub open spec fn has_status(
    before: Seq<(String, Json)>,
    after: Seq<(String, Json)>,
    status: Seq<char>,
) -> bool {
    exists|t: Json| #[trigger]
        member_set(before, after, "status"@, t) && (t matches Json::Text(s) && s@ == status)
}

/// The columns of a schema, as names and types.
pub open spec fn column_entry(field: Field, entry: Json) -> bool {
    &&& entry.object() is Some
    &&& entry.spec_field("name"@) matches Some(Json::Text(n)) && n@ == field.name@
    &&& entry.spec_field("type"@) matches Some(Json::Text(t)) && t@ == field.type_text@
}

/// The columns of a schema, as names and types.
pub fn schema_columns(schema: &Schema) -> (r: Vec<Json>)
    ensures
        r@.len() == schema.fields@.len(),
        forall|i: int|
            0 <= i < r@.len() ==> column_entry(schema.fields@[i], #[trigger] r@[i]),
{
    let mut out: Vec<Json> = Vec::new();
    let mut i: usize = 0;
    while i < schema.fields.len()
        invariant
            i <= schema.fields@.len(),
            out@.len() == i,
            forall|k: int|
                0 <= k < i ==> column_entry(schema.fields@[k], #[trigger] out@[k]),
        decreases schema.fields@.len() - i,
    {
        let field = &schema.fields[i];
        let mut members: Vec<(String, Json)> = Vec::new();
        members.push((text("name"), Json::Text(text(field.name.as_str()))));
        members.push((text("type"), Json::Text(text(field.type_text.as_str()))));
        proof {
            reveal_with_fuel(member, 3);
            reveal_strlit("name");
            reveal_strlit("type");
            assert("name"@[0] != "type"@[0]);
            assert(members@.drop_first()[0] == members@[1]);
        }
        out.push(Json::Object(members));
        assert(column_entry(schema.fields@[i as int], out@[i as int]));
        i = i + 1;
    }
    out
}

/// The name of a column of a result; nothing where it has none.
pub open spec fn shown_name(column: Json) -> Seq<char> {
    match column.spec_field("name"@) {
        Some(Json::Text(t)) => t@,
        _ => Seq::empty(),
    }
}

/// The names of the columns of a result.
pub open spec fn shown_names(result: Json) -> Seq<Seq<char>> {
    match result.spec_field("schema"@) {
        Some(Json::Array(a)) => Seq::new(a@.len(), |i: int| shown_name(a@[i])),
        _ => Seq::empty(),
    }
}

/// The names of the columns of a result.
pub fn result_names(result: &Json) -> (r: Vec<String>)
    ensures
        texts(r@) == shown_names(*result),
{
    let ghost wanted = shown_names(*result);
    let mut out: Vec<String> = Vec::new();
    match result.field("schema") {
        Some(Json::Array(columns)) => {
            let mut i: usize = 0;
            assert(texts(out@) =~= wanted.take(0));
            while i < columns.len()
                invariant
                    i <= columns@.len(),
                    wanted == Seq::new(columns@.len(), |k: int| shown_name(columns@[k])),
                    texts(out@) == wanted.take(i as int),
                decreases columns@.len() - i,
            {
                let ghost before = out@;
                match columns[i].field("name") {
                    Some(Json::Text(t)) => out.push(text(t.as_str())),
                    _ => out.push(String::new()),
                }
                assert(out@.last()@ =~= wanted[i as int]);
                assert(texts(out@) =~= texts(before).push(wanted[i as int]));
                assert(wanted.take(i + 1) =~= wanted.take(i as int).push(wanted[i as int]));
                i = i + 1;
            }
            assert(wanted.take(columns@.len() as int) =~= wanted);
        },
        _ => {
            assert(texts(out@) =~= wanted);
        },
    }
    out
}

/// A member of a result, or null.
pub open spec fn part(result: Json, key: Seq<char>) -> Json {
    match result.spec_field(key) {
        Some(v) => v,
        None => Json::Null,
    }
}

/// The page for a result.
pub fn review_report(result: &Json, contract: &Json, label: &str) -> (r: Result<
    String,
    ProofFrameError,
>)
    ensures
        outcome(r, page_error(part(*result, "report"@), part(*result, "evidence"@))),
        r matches Ok(s) ==> exists|names: Seq<String>| #[trigger]
            texts(names) == shown_names(*result) && s@ == html(
                page_view(
                    part(*result, "report"@),
                    part(*result, "evidence"@),
                    *contract,
                    label@,
                    names,
                ),
            ),
{
    let names = result_names(result);
    let nothing = Json::Null;
    let report = match result.field("report") {
        Some(v) => v,
        None => &nothing,
    };
    let evidence = match result.field("evidence") {
        Some(v) => v,
        None => &nothing,
    };
    assert(texts(names@) == shown_names(*result));
    review_html(report, evidence, contract, label, &names)
}

/// The summary for a result.
pub fn review_summary(result: &Json, label: &str) -> (r: Result<String, ProofFrameError>)
    ensures
        outcome(r, summary_error(part(*result, "report"@), part(*result, "evidence"@))),
        r matches Ok(s) ==> exists|names: Seq<String>| #[trigger]
            texts(names) == shown_names(*result) && s@ == markdown(
                summary_view(
                    part(*result, "report"@),
                    part(*result, "evidence"@),
                    label@,
                    names,
                ),
            ),
{
    let names = result_names(result);
    let nothing = Json::Null;
    let report = match result.field("report") {
        Some(v) => v,
        None => &nothing,
    };
    let evidence = match result.field("evidence") {
        Some(v) => v,
        None => &nothing,
    };
    assert(texts(names@) == shown_names(*result));
    review_markdown(report, evidence, label, &names)
}

/// What a page is told of a check: a run that skipped a rule is not a run of the contract
/// that was written, so it is incomplete and carries no evidence.
pub open spec fn payload(
    o: Seq<(String, Json)>,
    engine: Json,
    columns: Seq<Json>,
    print: Seq<char>,
    report: Json,
    evidence: Json,
    skipped: Option<Seq<char>>,
) -> bool {
    &&& o.len() >= 5
    &&& o[0].0@ == "engine"@ && o[0].1 == engine
    &&& o[1].0@ == "schema"@ && (o[1].1 matches Json::Array(a) && a@ == columns)
    &&& o[2].0@ == "fingerprint"@ && (o[2].1 matches Json::Text(t) && t@ == print)
    &&& o[3].0@ == "report"@ && o[3].1 == report
    &&& match skipped {
        None => o.len() == 5 && o[4].0@ == "evidence"@ && o[4].1 == evidence,
        Some(rule) => {
            &&& o.len() == 6
            &&& o[4].0@ == "status"@ && (o[4].1 matches Json::Text(t) && t@ == "incomplete"@)
            &&& o[5].0@ == "skipped_rules"@
            &&& o[5].1 matches Json::Array(a)
            &&& a@.len() == 1
            &&& a@[0] matches Json::Text(t)
            &&& t@ == rule
        },
    }
}

/// What a page is told of a check.
pub fn check_payload(
    engine: Json,
    columns: Vec<Json>,
    print: &str,
    report: Json,
    evidence: Json,
    skipped: Option<&'static str>,
) -> (r: Vec<(String, Json)>)
    ensures
        payload(
            r@,
            engine,
            columns@,
            print@,
            report,
            evidence,
            match skipped {
                Some(s) => Some(s@),
                None => None,
            },
        ),
{
    let mut out: Vec<(String, Json)> = Vec::new();
    out.push((text("engine"), engine));
    out.push((text("schema"), Json::Array(columns)));
    out.push((text("fingerprint"), Json::Text(text(print))));
    out.push((text("report"), report));
    match skipped {
        None => {
            out.push((text("evidence"), evidence));
        },
        Some(rule) => {
            let mut rules: Vec<Json> = Vec::new();
            rules.push(Json::Text(text(rule)));
            out.push((text("status"), Json::Text(text("incomplete"))));
            out.push((text("skipped_rules"), Json::Array(rules)));
        },
    }
    out
}

/// A run that skipped a rule never carries evidence.
pub proof fn partial_runs_carry_no_evidence(
    o: Seq<(String, Json)>,
    engine: Json,
    columns: Seq<Json>,
    print: Seq<char>,
    report: Json,
    evidence: Json,
    rule: Seq<char>,
)
    requires
        payload(o, engine, columns, print, report, evidence, Some(rule)),
    ensures
        member(o, "evidence"@) is None,
{
    reveal_strlit("engine");
    reveal_strlit("schema");
    reveal_strlit("fingerprint");
    reveal_strlit("report");
    reveal_strlit("status");
    reveal_strlit("skipped_rules");
    reveal_strlit("evidence");
    assert("evidence"@.len() == 8);
    assert("engine"@.len() == 6 && "schema"@.len() == 6 && "fingerprint"@.len() == 11
        && "report"@.len() == 6 && "status"@.len() == 6 && "skipped_rules"@.len() == 13);
    reveal_with_fuel(member, 7);
    let a = o.drop_first();
    let b = a.drop_first();
    let c = b.drop_first();
    let d = c.drop_first();
    let e = d.drop_first();
    assert(a[0] == o[1] && b[0] == o[2] && c[0] == o[3] && d[0] == o[4] && e[0] == o[5]);
    assert(e.drop_first() =~= Seq::empty());
}

} // verus!
