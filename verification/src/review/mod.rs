//! Offline, escaped views of one validation and its evidence.

pub mod disclose;
pub mod escape;
pub mod laws;
pub mod pages;

use crate::contract::ast::{or_error, outcome};
use crate::contract::json::Json;
use crate::digest::{hex, tagged_hex};
use crate::error::{ErrorView, ProofFrameError};
use crate::evidence::gives;
use crate::review::disclose::{indented, python_json};
use crate::review::escape::{
    bound, bounded, data, html, markdown, missing, missing_part, own, render_html, render_markdown,
    scalar, scalar_text, segment_views, shown, shown_of, Segment, SegmentView,
};
use crate::text::{cat2, cat3, chars_of, decimal, decimal_u64, from_chars, text, texts};
use vstd::prelude::*;
use vstd::string::*;

verus! {

/// The style sheet of the page.
pub const CSS: &'static str = "\n:root{color-scheme:light;--paper:#fff;--ground:#f5f7fb;--ink:#15253d;\n--blue:#2458a6;--warning:#8a4518;--green:#126044;--line:#d6dfea}\n*{box-sizing:border-box}body{margin:0;background:var(--ground);color:var(--ink);\nfont-family:Geist,'Segoe UI',system-ui,sans-serif;font-size:16px;line-height:24px}\nmain{max-width:1120px;margin:0 auto;padding:40px 24px 64px}\nheader{display:flex;justify-content:space-between;gap:16px;align-items:center;margin-bottom:32px}\n.brand{font-weight:700;letter-spacing:.04em}.badge{font-size:14px;line-height:20px;\npadding:4px 12px;border-radius:9999px;background:#fff0e4;color:var(--warning)}\n.pass{background:#e6f3ed;color:var(--green)}h1{font-size:36px;line-height:40px;\nmargin:8px 0 16px;font-weight:600;overflow-wrap:anywhere;text-wrap:balance}\nh2{font-size:20px;line-height:28px;margin:0 0 16px;font-weight:600}\nh3{font-size:16px;line-height:24px;margin:0}p{margin:8px 0 16px;text-wrap:pretty}\n.action{padding:32px;border:1px solid var(--line);border-radius:16px;background:var(--paper)}\n.eyebrow{color:var(--blue);font-size:14px;line-height:20px;font-weight:600}\n.muted{color:#53647b}.metrics{display:grid;grid-template-columns:repeat(3,1fr);\ngap:24px;margin:24px 0 32px}.metric{padding:16px 0}.value{display:block;\nfont-size:24px;line-height:32px;font-weight:600}.label{font-size:14px;line-height:20px}\nsection{margin-top:32px}a{color:var(--blue);text-underline-offset:4px}a:hover{color:var(--ink)}\na:focus-visible,summary:focus-visible{outline:3px solid var(--blue);outline-offset:4px}\nnav{display:flex;gap:24px;flex-wrap:wrap}code,pre{font-family:'Geist Mono',Consolas,monospace;\nfont-size:14px;line-height:20px;overflow-wrap:anywhere}pre{white-space:pre-wrap;\nbackground:#eaf0f8;border-radius:8px;padding:16px;margin:16px 0;max-height:320px;overflow:auto}\n.finding{padding:24px;border:1px solid var(--line);border-radius:8px;background:white;margin:16px 0;\noverflow-wrap:anywhere}.location{display:flex;gap:16px;flex-wrap:wrap}.location code{font-weight:600}\ndl{display:grid;grid-template-columns:200px minmax(0,1fr);gap:12px 24px;margin:0}\ndt{color:#53647b}dd{margin:0;overflow-wrap:anywhere}details{background:white;border:1px solid var(--line);\nborder-radius:8px;padding:16px;margin:16px 0}summary{cursor:pointer;font-weight:600}\nfooter{margin-top:40px;color:#53647b;font-size:14px;line-height:20px}\n.skip{position:absolute;left:-9999px}.skip:focus{position:static}\n@media(max-width:600px){main{padding:24px 16px 40px}.action{padding:24px 16px}\nh1{font-size:24px;line-height:32px}.metrics{gap:12px}.value{font-size:20px;line-height:28px}\ndl{grid-template-columns:1fr;gap:4px}dd{margin-bottom:12px}.finding{padding:16px}}\n@media print{body{background:white}main{padding:0}nav,.skip{display:none}pre{max-height:none}}\n";

/// A member of an object as it is shown, or other words where it is absent. A member that
/// is null is not absent.
pub open spec fn shown_or(value: Json, key: Seq<char>, other: Seq<char>) -> Seq<char> {
    match value.spec_field(key) {
        Some(v) => shown(v),
        None => other,
    }
}

fn get_or(value: &Json, key: &str, other: &str) -> (r: String)
    ensures
        r@ == shown_or(*value, key@, other@),
{
    match value.field(key) {
        Some(v) => shown_of(v),
        None => text(other),
    }
}

/// The findings of a report, if it holds a list.
pub open spec fn finding_list(report: Json) -> Option<Seq<Json>> {
    match report.spec_field("findings"@) {
        Some(Json::Array(a)) => Some(a@),
        _ => None,
    }
}

fn findings(report: &Json) -> (r: Result<&Vec<Json>, ProofFrameError>)
    ensures
        match finding_list(*report) {
            Some(list) => r matches Ok(x) && x@ == list,
            None => r matches Err(e) && e@ == missing_part("findings"@),
        },
{
    match report.field("findings") {
        Some(Json::Array(a)) => Ok(a),
        _ => Err(missing("findings")),
    }
}

/// The verdict of a report, if it holds one.
pub open spec fn verdict(report: Json) -> Option<bool> {
    match report.spec_field("valid"@) {
        Some(Json::Bool(b)) => Some(b),
        _ => None,
    }
}

fn valid(report: &Json) -> (r: Result<bool, ProofFrameError>)
    ensures
        match verdict(*report) {
            Some(b) => r matches Ok(x) && x == b,
            None => r matches Err(e) && e@ == missing_part("valid"@),
        },
{
    match report.field("valid") {
        Some(Json::Bool(b)) => Ok(*b),
        _ => Err(missing("valid")),
    }
}

/// The error of a value without a member.
pub open spec fn member_error(value: Json, key: Seq<char>, what: Seq<char>) -> Option<ErrorView> {
    if value.spec_field(key) is None {
        Some(missing_part(what))
    } else {
        None
    }
}

fn required<'a>(value: &'a Json, key: &str, what: &str) -> (r: Result<&'a Json, ProofFrameError>)
    ensures
        outcome(r, member_error(*value, key@, what@)),
        r matches Ok(v) ==> value.spec_field(key@) == Some(*v),
{
    match value.field(key) {
        Some(v) => Ok(v),
        None => Err(missing(what)),
    }
}

/// The error of a report about which no instruction can be given.
pub open spec fn action_error(report: Json) -> Option<ErrorView> {
    if finding_list(report) is None {
        Some(missing_part("findings"@))
    } else if verdict(report) is None {
        Some(missing_part("valid"@))
    } else if !verdict(report).unwrap() && finding_list(report).unwrap().len() > 0 {
        member_error(finding_list(report).unwrap()[0], "rule"@, "findings[].rule"@)
    } else {
        None
    }
}

/// The one instruction that the reader is to act on.
pub open spec fn title_view(report: Json) -> Seq<SegmentView> {
    let found = finding_list(report).unwrap();
    if verdict(report).unwrap() {
        seq![SegmentView::Own("Keep this result with your data"@)]
    } else if found.len() == 0 {
        seq![SegmentView::Own("Inspect the violations"@)]
    } else {
        seq![
            SegmentView::Data(bounded(shown_or(found[0], "column"@, "Dataset"@))),
            SegmentView::Own(" · row "@),
            SegmentView::Data(bounded(shown_or(found[0], "row"@, "—"@))),
        ]
    }
}

/// The sentence that explains the instruction.
pub open spec fn instruction_view(report: Json) -> Seq<SegmentView> {
    let found = finding_list(report).unwrap();
    if verdict(report).unwrap() {
        seq![SegmentView::Own("The declared contract passed on this dataset."@)]
    } else if found.len() == 0 {
        seq![SegmentView::Own("Rerun with --max-samples 20 to include finding details."@)]
    } else {
        seq![
            SegmentView::Own("Inspect the "@),
            SegmentView::Data(shown(found[0].spec_field("rule"@).unwrap())),
            SegmentView::Own(" rule in your contract. Rows are zero indexed."@),
        ]
    }
}

/// The instruction that the reader is to act on, and the sentence that explains it.
pub fn action(report: &Json) -> (r: Result<(Vec<Segment>, Vec<Segment>), ProofFrameError>)
    ensures
        outcome(r, action_error(*report)),
        r matches Ok(pair) ==> segment_views(pair.0@) == title_view(*report) && segment_views(
            pair.1@,
        ) == instruction_view(*report),
{
    let found = findings(report)?;
    let is_valid = valid(report)?;
    let mut title: Vec<Segment> = Vec::new();
    let mut instruction: Vec<Segment> = Vec::new();
    assert(segment_views(title@) =~= Seq::empty());
    assert(segment_views(instruction@) =~= Seq::empty());
    if is_valid {
        own(&mut title, "Keep this result with your data");
        own(&mut instruction, "The declared contract passed on this dataset.");
    } else if found.len() == 0 {
        own(&mut title, "Inspect the violations");
        own(&mut instruction, "Rerun with --max-samples 20 to include finding details.");
    } else {
        let rule = required(&found[0], "rule", "findings[].rule")?;
        let column = get_or(&found[0], "column", "Dataset");
        let row = get_or(&found[0], "row", "—");
        data(&mut title, bound(column.as_str()));
        own(&mut title, " · row ");
        data(&mut title, bound(row.as_str()));
        own(&mut instruction, "Inspect the ");
        data(&mut instruction, shown_of(rule));
        own(&mut instruction, " rule in your contract. Rows are zero indexed.");
    }
    assert(segment_views(title@) =~= title_view(*report));
    assert(segment_views(instruction@) =~= instruction_view(*report));
    Ok((title, instruction))
}

/// The list that a report holds under a key; an empty one where it holds none.
pub open spec fn list_or_empty(report: Json, key: Seq<char>) -> Seq<Json> {
    match report.spec_field(key) {
        Some(Json::Array(a)) => a@,
        _ => Seq::empty(),
    }
}

/// A value as an unsigned integer.
pub open spec fn as_unsigned(value: Json) -> Option<u64> {
    match value {
        Json::Number(n) => n.as_u64,
        _ => None,
    }
}

fn unsigned_of(value: &Json) -> (r: Option<u64>)
    ensures
        r == as_unsigned(*value),
{
    match value {
        Json::Number(n) => n.as_u64,
        _ => None,
    }
}

/// The name of the column at a schema index.
pub open spec fn column_label(index: Json, names: Seq<String>) -> Seq<char> {
    let position = match as_unsigned(index) {
        Some(p) => p,
        None => u64::MAX,
    };
    if position < names.len() {
        names[position as int]@
    } else {
        "column "@ + decimal(position as nat)
    }
}

/// The columns, among the first `n` of a report, whose row rules were never offered a
/// value.
pub open spec fn idle_columns(
    indices: Seq<Json>,
    counts: Seq<Json>,
    names: Seq<String>,
    n: nat,
) -> Seq<Seq<char>>
    decreases n,
{
    if n == 0 || n > indices.len() || n > counts.len() {
        Seq::empty()
    } else {
        let rest = idle_columns(indices, counts, names, (n - 1) as nat);
        if as_unsigned(counts[n - 1]) == Some(0u64) {
            rest.push(column_label(indices[n - 1], names))
        } else {
            rest
        }
    }
}

/// The columns of a report whose row rules were never offered a value. A contract can pass
/// because nothing was wrong or because nothing was asked; these are of the second kind.
pub open spec fn idle_view(report: Json, names: Seq<String>) -> Seq<Seq<char>> {
    let indices = list_or_empty(report, "evaluated_indices"@);
    let counts = list_or_empty(report, "evaluated_columns"@);
    idle_columns(
        indices,
        counts,
        names,
        if indices.len() < counts.len() {
            indices.len()
        } else {
            counts.len()
        },
    )
}

/// The columns whose row rules were never offered a value.
pub fn unexercised(report: &Json, names: &Vec<String>) -> (r: Vec<String>)
    ensures
        texts(r@) == idle_view(*report, names@),
{
    let mut out: Vec<String> = Vec::new();
    assert(texts(out@) =~= Seq::empty());
    let indices = match report.field("evaluated_indices") {
        Some(Json::Array(a)) => a,
        _ => {
            assert(idle_view(*report, names@) =~= Seq::empty());
            return out;
        },
    };
    let counts = match report.field("evaluated_columns") {
        Some(Json::Array(a)) => a,
        _ => {
            assert(idle_view(*report, names@) =~= Seq::empty());
            return out;
        },
    };
    let total: usize = if indices.len() < counts.len() {
        indices.len()
    } else {
        counts.len()
    };
    let mut i: usize = 0;
    while i < total
        invariant
            i <= total <= indices@.len(),
            total <= counts@.len(),
            texts(out@) == idle_columns(indices@, counts@, names@, i as nat),
        decreases total - i,
    {
        let seen = unsigned_of(&counts[i]);
        if seen == Some(0u64) {
            let position: u64 = match unsigned_of(&indices[i]) {
                Some(p) => p,
                None => u64::MAX,
            };
            let ghost before = out@;
            if position < names.len() as u64 {
                out.push(names[position as usize].clone());
            } else {
                let shown = decimal_u64(position);
                out.push(cat2("column ", shown.as_str()));
            }
            assert(texts(out@) =~= texts(before).push(column_label(indices@[i as int], names@)));
        }
        i = i + 1;
    }
    out
}

/// A value as a byte.
pub open spec fn as_byte(value: Json) -> Option<u8> {
    match as_unsigned(value) {
        Some(v) => if v < 256 {
            Some(v as u8)
        } else {
            None
        },
        None => None,
    }
}

/// The first `n` values as bytes, if they all are.
pub open spec fn byte_values(values: Seq<Json>, n: nat) -> Option<Seq<u8>>
    decreases n,
{
    if n == 0 || n > values.len() {
        Some(Seq::empty())
    } else {
        match byte_values(values, (n - 1) as nat) {
            Some(rest) => match as_byte(values[n - 1]) {
                Some(b) => Some(rest.push(b)),
                None => None,
            },
            None => None,
        }
    }
}

proof fn byte_values_stay(values: Seq<Json>, early: nat, late: nat)
    requires
        early <= late <= values.len(),
        byte_values(values, early) is None,
    ensures
        byte_values(values, late) is None,
    decreases late,
{
    if early < late {
        byte_values_stay(values, early, (late - 1) as nat);
    }
}

/// The fingerprint that evidence names, or the part that it lacks.
pub open spec fn fingerprint_view(evidence: Json) -> Result<Seq<char>, ErrorView> {
    match evidence.spec_field("dataset"@) {
        None => Err(missing_part("dataset"@)),
        Some(dataset) => match dataset.spec_field("fingerprint_version"@) {
            None => Err(missing_part("dataset.fingerprint_version"@)),
            Some(version) => match dataset.spec_field("fingerprint_digest"@) {
                Some(Json::Array(a)) => match byte_values(a@, a@.len()) {
                    Some(bytes) => Ok("pf-fp-"@ + scalar_text(version) + ":"@ + hex(bytes)),
                    None => Err(missing_part("dataset.fingerprint_digest"@)),
                },
                _ => Err(missing_part("dataset.fingerprint_digest"@)),
            },
        },
    }
}

/// The fingerprint that evidence names.
pub fn fingerprint(evidence: &Json) -> (r: Result<String, ProofFrameError>)
    ensures
        gives(r, fingerprint_view(*evidence)),
{
    let dataset = required(evidence, "dataset", "dataset")?;
    let version = required(dataset, "fingerprint_version", "dataset.fingerprint_version")?;
    let digest = match dataset.field("fingerprint_digest") {
        Some(Json::Array(a)) => a,
        _ => {
            return Err(missing("dataset.fingerprint_digest"));
        },
    };
    let mut bytes: Vec<u8> = Vec::new();
    let mut i: usize = 0;
    while i < digest.len()
        invariant
            i <= digest@.len(),
            byte_values(digest@, i as nat) == Some(bytes@),
            dataset.spec_field("fingerprint_version"@) is Some,
            evidence.spec_field("dataset"@) == Some(*dataset),
            dataset.spec_field("fingerprint_digest"@) matches Some(Json::Array(a)) && a == *digest,
        decreases digest@.len() - i,
    {
        match unsigned_of(&digest[i]) {
            Some(v) if v < 256 => {
                bytes.push(v as u8);
            },
            _ => {
                proof {
                    assert(byte_values(digest@, (i + 1) as nat) is None);
                    byte_values_stay(digest@, (i + 1) as nat, digest@.len());
                }
                return Err(missing("dataset.fingerprint_digest"));
            },
        }
        i = i + 1;
    }
    let plain = scalar(version);
    let prefix = cat3("pf-fp-", plain.as_str(), ":");
    Ok(tagged_hex(prefix.as_str(), bytes.as_slice()))
}

/// The version of the engine that evidence names, if it does.
pub open spec fn engine_view(evidence: Json) -> Option<Json> {
    match evidence.spec_field("engine"@) {
        Some(engine) => engine.spec_field("version"@),
        None => None,
    }
}

fn engine_version(evidence: &Json) -> (r: Result<&Json, ProofFrameError>)
    ensures
        match engine_view(*evidence) {
            Some(v) => r matches Ok(x) && *x == v,
            None => r matches Err(e) && e@ == missing_part("engine.version"@),
        },
{
    match evidence.field("engine") {
        Some(engine) => match engine.field("version") {
            Some(v) => Ok(v),
            None => Err(missing("engine.version")),
        },
        None => Err(missing("engine.version")),
    }
}

/// Whether a part of a contract holds anything to disclose.
pub open spec fn disclosable(value: Option<Json>) -> bool {
    match value {
        None => false,
        Some(Json::Null) => false,
        Some(Json::Object(o)) => o@.len() > 0,
        Some(Json::Array(a)) => a@.len() > 0,
        Some(_) => true,
    }
}

fn is_disclosable(value: Option<&Json>) -> (r: bool)
    ensures
        r == disclosable(
            match value {
                Some(v) => Some(*v),
                None => None,
            },
        ),
{
    match value {
        None => false,
        Some(Json::Null) => false,
        Some(Json::Object(o)) => o.len() > 0,
        Some(Json::Array(a)) => a.len() > 0,
        Some(_) => true,
    }
}

/// One finding on the page.
pub open spec fn finding_view(finding: Json) -> Seq<SegmentView> {
    seq![
        SegmentView::Own("<article class=\"finding\"><div class=\"location\"><code>"@),
        SegmentView::Data(shown_or(finding, "column"@, "Dataset"@)),
        SegmentView::Own("</code><span>row "@),
        SegmentView::Data(shown_or(finding, "row"@, "—"@)),
        SegmentView::Own("</span><span>"@),
        SegmentView::Data(shown(finding.spec_field("rule"@).unwrap())),
        SegmentView::Own("</span></div><p>"@),
        SegmentView::Data(shown_or(finding, "message"@, ""@)),
        SegmentView::Own("</p></article>"@),
    ]
}

/// The first `n` findings on the page.
pub open spec fn finding_views(found: Seq<Json>, n: nat) -> Seq<SegmentView>
    decreases n,
{
    if n == 0 || n > found.len() {
        Seq::empty()
    } else {
        finding_views(found, (n - 1) as nat) + finding_view(found[n - 1])
    }
}

/// The error of a finding, among the first `n`, without a rule.
pub open spec fn rules_error(found: Seq<Json>, n: nat) -> Option<ErrorView>
    decreases n,
{
    if n == 0 || n > found.len() {
        None
    } else {
        or_error(
            rules_error(found, (n - 1) as nat),
            member_error(found[n - 1], "rule"@, "findings[].rule"@),
        )
    }
}

proof fn rules_error_stays(found: Seq<Json>, early: nat, late: nat)
    requires
        early <= late <= found.len(),
        rules_error(found, early) is Some,
    ensures
        rules_error(found, late) == rules_error(found, early),
    decreases late,
{
    if early < late {
        rules_error_stays(found, early, (late - 1) as nat);
    }
}

/// Whether a report says that it is truncated.
pub open spec fn says_truncated(report: Json) -> bool {
    report.spec_field("truncated"@) matches Some(Json::Bool(b)) && b
}

/// The sampled findings on the page, with the sampling stated rather than implied.
pub open spec fn findings_view(report: Json) -> Seq<SegmentView> {
    let found = finding_list(report).unwrap();
    seq![
        SegmentView::Own("<section><h2>Where to investigate</h2><p class=\"muted\">"@),
        SegmentView::Own(decimal(found.len())),
        SegmentView::Own(" sampled finding(s). "@),
    ] + (if says_truncated(report) {
        seq![SegmentView::Own("This is not a complete list. "@)]
    } else {
        Seq::empty()
    }) + seq![
        SegmentView::Own(
            "A violation count is not a count of distinct failing rows. Unlisted rules are not marked as passed.</p>"@,
        ),
    ] + finding_views(found, found.len()) + seq![SegmentView::Own("</section>"@)]
}

fn findings_section(report: &Json, out: &mut Vec<Segment>) -> (r: Result<(), ProofFrameError>)
    requires
        finding_list(*report) is Some,
    ensures
        outcome(
            r,
            rules_error(finding_list(*report).unwrap(), finding_list(*report).unwrap().len()),
        ),
        r is Ok ==> segment_views(final(out)@) == segment_views(old(out)@) + findings_view(
            *report,
        ),
{
    let found = findings(report)?;
    let count = decimal_u64(found.len() as u64);
    own(out, "<section><h2>Where to investigate</h2><p class=\"muted\">");
    own(out, count.as_str());
    own(out, " sampled finding(s). ");
    let truncated = match report.field("truncated") {
        Some(Json::Bool(b)) => *b,
        _ => false,
    };
    if truncated {
        own(out, "This is not a complete list. ");
    }
    own(
        out,
        "A violation count is not a count of distinct failing rows. Unlisted rules are not marked as passed.</p>",
    );
    let ghost head = segment_views(out@);
    let mut i: usize = 0;
    assert(head + finding_views(found@, 0) =~= head);
    while i < found.len()
        invariant
            i <= found@.len(),
            finding_list(*report) == Some(found@),
            rules_error(found@, i as nat) is None,
            segment_views(out@) == head + finding_views(found@, i as nat),
        decreases found@.len() - i,
    {
        let finding = &found[i];
        proof {
            let step = member_error(*finding, "rule"@, "findings[].rule"@);
            assert(rules_error(found@, (i + 1) as nat) == step);
            if step is Some {
                rules_error_stays(found@, (i + 1) as nat, found@.len());
            }
        }
        let ghost before = segment_views(out@);
        let rule = required(finding, "rule", "findings[].rule")?;
        own(out, "<article class=\"finding\"><div class=\"location\"><code>");
        data(out, get_or(finding, "column", "Dataset"));
        own(out, "</code><span>row ");
        data(out, get_or(finding, "row", "—"));
        own(out, "</span><span>");
        data(out, shown_of(rule));
        own(out, "</span></div><p>");
        data(out, get_or(finding, "message", ""));
        own(out, "</p></article>");
        proof {
            assert(segment_views(out@) =~= before + finding_view(*finding));
            assert(head + finding_views(found@, i as nat) + finding_view(*finding) =~= head
                + finding_views(found@, (i + 1) as nat));
        }
        i = i + 1;
    }
    own(out, "</section>");
    assert(segment_views(out@) =~= segment_views(old(out)@) + findings_view(*report));
    Ok(())
}

/// The first `n` columns without a value, on the page.
pub open spec fn idle_items(idle: Seq<Seq<char>>, n: nat) -> Seq<SegmentView>
    decreases n,
{
    if n == 0 || n > idle.len() {
        Seq::empty()
    } else {
        idle_items(idle, (n - 1) as nat) + seq![
            SegmentView::Own("<article class=\"finding\"><div class=\"location\"><code>"@),
            SegmentView::Data(bounded(idle[n - 1])),
            SegmentView::Own("</code><span>0 values evaluated</span></div></article>"@),
        ]
    }
}

/// The columns without a value, on the page. Silence there would read as a pass.
pub open spec fn idle_section_view(idle: Seq<Seq<char>>) -> Seq<SegmentView> {
    if idle.len() == 0 {
        Seq::empty()
    } else {
        seq![
            SegmentView::Own("<section><h2>Rules that were never asked</h2><p>"@),
            SegmentView::Own(decimal(idle.len())),
            SegmentView::Own(
                " column(s) had no value for their rules to check. A rule that was never asked did not pass.</p>"@,
            ),
        ] + idle_items(idle, idle.len()) + seq![SegmentView::Own("</section>"@)]
    }
}

fn idle_section(report: &Json, names: &Vec<String>, out: &mut Vec<Segment>)
    ensures
        segment_views(final(out)@) == segment_views(old(out)@) + idle_section_view(
            idle_view(*report, names@),
        ),
{
    let idle = unexercised(report, names);
    let ghost all = idle_view(*report, names@);
    if idle.len() == 0 {
        assert(segment_views(out@) + idle_section_view(all) =~= segment_views(out@));
        return;
    }
    let count = decimal_u64(idle.len() as u64);
    own(out, "<section><h2>Rules that were never asked</h2><p>");
    own(out, count.as_str());
    own(
        out,
        " column(s) had no value for their rules to check. A rule that was never asked did not pass.</p>",
    );
    let ghost head = segment_views(out@);
    assert(head + idle_items(all, 0) =~= head);
    let mut i: usize = 0;
    while i < idle.len()
        invariant
            i <= idle@.len(),
            all == texts(idle@),
            segment_views(out@) == head + idle_items(all, i as nat),
        decreases idle@.len() - i,
    {
        let ghost before = segment_views(out@);
        own(out, "<article class=\"finding\"><div class=\"location\"><code>");
        data(out, bound(idle[i].as_str()));
        own(out, "</code><span>0 values evaluated</span></div></article>");
        assert(all[i as int] == idle@[i as int]@);
        assert(segment_views(out@) =~= head + idle_items(all, (i + 1) as nat));
        i = i + 1;
    }
    own(out, "</section>");
    assert(segment_views(out@) =~= segment_views(old(out)@) + idle_section_view(all));
}

/// One part of the declared rules on the page.
pub open spec fn part_view(contract: Json, name: Seq<char>, heading: Seq<char>) -> Seq<
    SegmentView,
> {
    if disclosable(contract.spec_field(name)) {
        seq![
            SegmentView::Own("<details><summary>"@),
            SegmentView::Own(heading),
            SegmentView::Own("</summary><pre>"@),
            SegmentView::Data(indented(contract.spec_field(name).unwrap(), ""@)),
            SegmentView::Own("</pre></details>"@),
        ]
    } else {
        Seq::empty()
    }
}

/// The declared rules on the page, in full rather than summarised.
pub open spec fn contract_view(contract: Json) -> Seq<SegmentView> {
    seq![
        SegmentView::Own("<section><h2>What was checked</h2>"@),
        SegmentView::Own("<p>These are the declared rules, not individual pass verdicts.</p>"@),
    ] + part_view(contract, "columns"@, "Columns"@) + part_view(
        contract,
        "row_rules"@,
        "Row rules"@,
    ) + part_view(contract, "dataset_rules"@, "Dataset rules"@) + seq![
        SegmentView::Own("</section>"@),
    ]
}

fn contract_part(contract: &Json, name: &str, heading: &str, out: &mut Vec<Segment>)
    ensures
        segment_views(final(out)@) == segment_views(old(out)@) + part_view(
            *contract,
            name@,
            heading@,
        ),
{
    let value = contract.field(name);
    if !is_disclosable(value) {
        assert(segment_views(out@) + part_view(*contract, name@, heading@) =~= segment_views(
            out@,
        ));
        return;
    }
    if let Some(part) = value {
        own(out, "<details><summary>");
        own(out, heading);
        own(out, "</summary><pre>");
        data(out, python_json(part, ""));
        own(out, "</pre></details>");
    }
    assert(segment_views(out@) =~= segment_views(old(out)@) + part_view(
        *contract,
        name@,
        heading@,
    ));
}

fn contract_section(contract: &Json, out: &mut Vec<Segment>)
    ensures
        segment_views(final(out)@) == segment_views(old(out)@) + contract_view(*contract),
{
    own(out, "<section><h2>What was checked</h2>");
    own(out, "<p>These are the declared rules, not individual pass verdicts.</p>");
    contract_part(contract, "columns", "Columns", out);
    contract_part(contract, "row_rules", "Row rules", out);
    contract_part(contract, "dataset_rules", "Dataset rules", out);
    own(out, "</section>");
    assert(segment_views(out@) =~= segment_views(old(out)@) + contract_view(*contract));
}

/// All above the metrics: the head of the document, the verdict, and the one instruction.
pub open spec fn action_view(report: Json, label: Seq<char>) -> Seq<SegmentView> {
    let is_valid = verdict(report).unwrap();
    seq![
        SegmentView::Own(
            "<!doctype html><html lang=\"en\"><head><meta charset=\"utf-8\"><meta name=\"viewport\" content=\"width=device-width,initial-scale=1\">"@,
        ),
        SegmentView::Own(
            "<meta http-equiv=\"Content-Security-Policy\" content=\"default-src &#39;none&#39;; style-src &#39;unsafe-inline&#39;; base-uri &#39;none&#39;; form-action &#39;none&#39;\">"@,
        ),
        SegmentView::Own("<title>ProofFrame review · "@),
        SegmentView::Data(bounded(label)),
        SegmentView::Own("</title><style>"@),
        SegmentView::Own(CSS@),
        SegmentView::Own("</style></head><body>"@),
        SegmentView::Own(
            "<a class=\"skip\" href=\"#main\">Skip to review</a><main id=\"main\">"@,
        ),
        SegmentView::Own(
            "<header><div class=\"brand\">ProofFrame / Data review</div><span class=\"badge "@,
        ),
        SegmentView::Own(
            if is_valid {
                "pass\">Contract passed</span></header>"@
            } else {
                "\">Contract violations</span></header>"@
            },
        ),
        SegmentView::Own(
            "<article class=\"action\"><div class=\"eyebrow\">Start here</div><h1>"@,
        ),
    ] + title_view(report) + seq![SegmentView::Own("</h1><p>"@)] + instruction_view(report) + seq![
        SegmentView::Own("</p><p class=\"muted\">"@),
        SegmentView::Data(bounded(label)),
        SegmentView::Own("</p>"@),
    ] + (if !is_valid && finding_list(report).unwrap().len() == 0 {
        seq![
            SegmentView::Own(
                "<pre>--max-samples 20</pre><p class=\"muted\">Finding details are off by default. "@,
            ),
            SegmentView::Own(
                "Enabling samples can include sensitive content in every artifact.</p>"@,
            ),
        ]
    } else {
        Seq::empty()
    }) + seq![
        SegmentView::Own(
            "<nav aria-label=\"Review files\"><a href=\"report.json\">Validation JSON</a>"@,
        ),
        SegmentView::Own(
            "<a href=\"evidence.json\">Evidence JSON</a><a href=\"summary.md\">CI summary</a></nav></article>"@,
        ),
    ]
}

fn append_all(out: &mut Vec<Segment>, more: &mut Vec<Segment>)
    ensures
        segment_views(final(out)@) == segment_views(old(out)@) + segment_views(old(more)@),
{
    out.append(more);
    assert(segment_views(out@) =~= segment_views(old(out)@) + segment_views(old(more)@));
}

fn action_section(report: &Json, label: &str, out: &mut Vec<Segment>) -> (r: Result<
    (),
    ProofFrameError,
>)
    ensures
        outcome(r, action_error(*report)),
        r is Ok ==> segment_views(final(out)@) == segment_views(old(out)@) + action_view(
            *report,
            label@,
        ),
{
    let (mut title, mut instruction) = action(report)?;
    let is_valid = valid(report)?;
    let found = findings(report)?;
    own(
        out,
        "<!doctype html><html lang=\"en\"><head><meta charset=\"utf-8\"><meta name=\"viewport\" content=\"width=device-width,initial-scale=1\">",
    );
    own(
        out,
        "<meta http-equiv=\"Content-Security-Policy\" content=\"default-src &#39;none&#39;; style-src &#39;unsafe-inline&#39;; base-uri &#39;none&#39;; form-action &#39;none&#39;\">",
    );
    own(out, "<title>ProofFrame review · ");
    data(out, bound(label));
    own(out, "</title><style>");
    own(out, CSS);
    own(out, "</style></head><body>");
    own(out, "<a class=\"skip\" href=\"#main\">Skip to review</a><main id=\"main\">");
    own(out, "<header><div class=\"brand\">ProofFrame / Data review</div><span class=\"badge ");
    if is_valid {
        own(out, "pass\">Contract passed</span></header>");
    } else {
        own(out, "\">Contract violations</span></header>");
    }
    own(out, "<article class=\"action\"><div class=\"eyebrow\">Start here</div><h1>");
    append_all(out, &mut title);
    own(out, "</h1><p>");
    append_all(out, &mut instruction);
    own(out, "</p><p class=\"muted\">");
    data(out, bound(label));
    own(out, "</p>");
    if !is_valid && found.len() == 0 {
        own(
            out,
            "<pre>--max-samples 20</pre><p class=\"muted\">Finding details are off by default. ",
        );
        own(out, "Enabling samples can include sensitive content in every artifact.</p>");
    }
    own(out, "<nav aria-label=\"Review files\"><a href=\"report.json\">Validation JSON</a>");
    own(
        out,
        "<a href=\"evidence.json\">Evidence JSON</a><a href=\"summary.md\">CI summary</a></nav></article>",
    );
    assert(segment_views(out@) =~= segment_views(old(out)@) + action_view(*report, label@));
    Ok(())
}

/// The error of a report without its two totals.
pub open spec fn totals_error(report: Json) -> Option<ErrorView> {
    or_error(
        member_error(report, "rows"@, "rows"@),
        member_error(report, "violation_count"@, "violation_count"@),
    )
}

/// One headline number.
pub open spec fn metric_view(value: Seq<char>, name: Seq<char>) -> Seq<SegmentView> {
    seq![
        SegmentView::Own("<div class=\"metric\"><span class=\"value\">"@),
        SegmentView::Data(value),
        SegmentView::Own("</span><span class=\"label\">"@),
        SegmentView::Own(name),
        SegmentView::Own("</span></div>"@),
    ]
}

/// The three headline numbers, stated as counts rather than as a verdict.
pub open spec fn metrics_view(report: Json) -> Seq<SegmentView> {
    seq![SegmentView::Own("<div class=\"metrics\">"@)] + metric_view(
        bounded(scalar_text(report.spec_field("violation_count"@).unwrap()) + " violations"@),
        "Exact total"@,
    ) + metric_view(shown(report.spec_field("rows"@).unwrap()), "Rows scanned"@) + metric_view(
        bounded(decimal(finding_list(report).unwrap().len())),
        "Sampled findings"@,
    ) + seq![SegmentView::Own("</div>"@)]
}

fn push_metric(out: &mut Vec<Segment>, value: String, name: &str)
    ensures
        segment_views(final(out)@) == segment_views(old(out)@) + metric_view(value@, name@),
{
    own(out, "<div class=\"metric\"><span class=\"value\">");
    data(out, value);
    own(out, "</span><span class=\"label\">");
    own(out, name);
    own(out, "</span></div>");
    assert(segment_views(out@) =~= segment_views(old(out)@) + metric_view(value@, name@));
}

fn metrics_section(report: &Json, out: &mut Vec<Segment>) -> (r: Result<(), ProofFrameError>)
    requires
        finding_list(*report) is Some,
    ensures
        outcome(r, totals_error(*report)),
        r is Ok ==> segment_views(final(out)@) == segment_views(old(out)@) + metrics_view(*report),
{
    let rows = required(report, "rows", "rows")?;
    let violations = required(report, "violation_count", "violation_count")?;
    let found = findings(report)?;
    let sampled = decimal_u64(found.len() as u64);
    let total = scalar(violations);
    let exact = cat2(total.as_str(), " violations");
    own(out, "<div class=\"metrics\">");
    push_metric(out, bound(exact.as_str()), "Exact total");
    push_metric(out, shown_of(rows), "Rows scanned");
    push_metric(out, bound(sampled.as_str()), "Sampled findings");
    own(out, "</div>");
    assert(segment_views(out@) =~= segment_views(old(out)@) + metrics_view(*report));
    Ok(())
}

/// A key with blanks for its underscores.
pub open spec fn spaced(key: Seq<char>) -> Seq<char> {
    Seq::new(
        key.len(),
        |i: int|
            if key[i] == '_' {
                ' '
            } else {
                key[i]
            },
    )
}

fn space_out(key: &str) -> (r: String)
    ensures
        r@ == spaced(key@),
{
    let chars = chars_of(key);
    let mut out: Vec<char> = Vec::new();
    let mut i: usize = 0;
    while i < chars.len()
        invariant
            i <= chars@.len(),
            chars@ == key@,
            out@ == spaced(key@).take(i as int),
        decreases chars@.len() - i,
    {
        let c: char = chars[i];
        if c == '_' {
            out.push(' ');
        } else {
            out.push(c);
        }
        assert(out@ =~= spaced(key@).take(i + 1));
        i = i + 1;
    }
    assert(out@ =~= spaced(key@));
    from_chars(&out)
}

/// One line of the identity.
pub open spec fn pair_view(key: Seq<char>, value: Seq<char>) -> Seq<SegmentView> {
    seq![
        SegmentView::Own("<dt>"@),
        SegmentView::Data(bounded(key)),
        SegmentView::Own("</dt><dd><code>"@),
        SegmentView::Data(bounded(value)),
        SegmentView::Own("</code></dd>"@),
    ]
}

/// A digest that a report names, or nothing.
pub open spec fn named_digest(report: Json, key: Seq<char>) -> Seq<char> {
    match report.spec_field(key) {
        Some(v) => scalar_text(v),
        None => Seq::empty(),
    }
}

/// The first `n` members of a group, one line each.
pub open spec fn group_views(members: Seq<(String, Json)>, n: nat) -> Seq<SegmentView>
    decreases n,
{
    if n == 0 || n > members.len() {
        Seq::empty()
    } else {
        group_views(members, (n - 1) as nat) + pair_view(
            spaced(members[n - 1].0@),
            scalar_text(members[n - 1].1),
        )
    }
}

/// A group of a report, one line for each member; nothing where it is no object.
pub open spec fn group_view(report: Json, group: Seq<char>) -> Seq<SegmentView> {
    match report.spec_field(group) {
        Some(Json::Object(o)) => group_views(o@, o@.len()),
        _ => Seq::empty(),
    }
}

/// What was scanned and under which limits, so that the result can be reproduced.
pub open spec fn identity_view(report: Json, evidence: Json) -> Seq<SegmentView> {
    seq![SegmentView::Own("<section><h2>Data identity and execution</h2><dl>"@)] + pair_view(
        "Dataset fingerprint"@,
        fingerprint_view(evidence)->Ok_0,
    ) + pair_view("Contract digest"@, named_digest(report, "contract_source_digest"@)) + pair_view(
        "Schema digest"@,
        named_digest(report, "schema_digest"@),
    ) + pair_view("Plan digest"@, named_digest(report, "compiled_plan_digest"@)) + pair_view(
        "Engine version"@,
        scalar_text(engine_view(evidence).unwrap()),
    ) + group_view(report, "resources"@) + group_view(report, "metrics"@) + seq![
        SegmentView::Own(
            "</dl><p class=\"muted\">Memory counters describe the engine, not total process memory.</p></section>"@,
        ),
    ]
}

/// The error of evidence without an identity.
pub open spec fn identity_error(evidence: Json) -> Option<ErrorView> {
    match fingerprint_view(evidence) {
        Err(v) => Some(v),
        Ok(_) => if engine_view(evidence) is None {
            Some(missing_part("engine.version"@))
        } else {
            None
        },
    }
}

fn push_pair(out: &mut Vec<Segment>, key: &str, value: &str)
    ensures
        segment_views(final(out)@) == segment_views(old(out)@) + pair_view(key@, value@),
{
    own(out, "<dt>");
    data(out, bound(key));
    own(out, "</dt><dd><code>");
    data(out, bound(value));
    own(out, "</code></dd>");
    assert(segment_views(out@) =~= segment_views(old(out)@) + pair_view(key@, value@));
}

fn digest_or_empty(report: &Json, key: &str) -> (r: String)
    ensures
        r@ == named_digest(*report, key@),
{
    match report.field(key) {
        Some(v) => scalar(v),
        None => String::new(),
    }
}

fn push_group(report: &Json, group: &str, out: &mut Vec<Segment>)
    ensures
        segment_views(final(out)@) == segment_views(old(out)@) + group_view(*report, group@),
{
    let ghost head = segment_views(out@);
    match report.field(group) {
        Some(Json::Object(o)) => {
            let mut i: usize = 0;
            assert(head + group_views(o@, 0) =~= head);
            while i < o.len()
                invariant
                    i <= o@.len(),
                    segment_views(out@) == head + group_views(o@, i as nat),
                decreases o@.len() - i,
            {
                let key = space_out(o[i].0.as_str());
                let value = scalar(&o[i].1);
                push_pair(out, key.as_str(), value.as_str());
                assert(segment_views(out@) =~= head + group_views(o@, (i + 1) as nat));
                i = i + 1;
            }
        },
        _ => {
            assert(head + group_view(*report, group@) =~= head);
        },
    }
}

fn identity_section(report: &Json, evidence: &Json, out: &mut Vec<Segment>) -> (r: Result<
    (),
    ProofFrameError,
>)
    ensures
        outcome(r, identity_error(*evidence)),
        r is Ok ==> segment_views(final(out)@) == segment_views(old(out)@) + identity_view(
            *report,
            *evidence,
        ),
{
    let print = fingerprint(evidence)?;
    let engine = engine_version(evidence)?;
    let version = scalar(engine);
    let contract = digest_or_empty(report, "contract_source_digest");
    let schema = digest_or_empty(report, "schema_digest");
    let plan = digest_or_empty(report, "compiled_plan_digest");
    own(out, "<section><h2>Data identity and execution</h2><dl>");
    push_pair(out, "Dataset fingerprint", print.as_str());
    push_pair(out, "Contract digest", contract.as_str());
    push_pair(out, "Schema digest", schema.as_str());
    push_pair(out, "Plan digest", plan.as_str());
    push_pair(out, "Engine version", version.as_str());
    push_group(report, "resources", out);
    push_group(report, "metrics", out);
    own(
        out,
        "</dl><p class=\"muted\">Memory counters describe the engine, not total process memory.</p></section>",
    );
    assert(segment_views(out@) =~= segment_views(old(out)@) + identity_view(*report, *evidence));
    Ok(())
}

/// The error of what a page is made from.
pub open spec fn page_error(report: Json, evidence: Json) -> Option<ErrorView> {
    or_error(
        action_error(report),
        or_error(
            totals_error(report),
            or_error(
                rules_error(finding_list(report).unwrap(), finding_list(report).unwrap().len()),
                identity_error(evidence),
            ),
        ),
    )
}

/// The pieces of a page.
pub open spec fn page_view(
    report: Json,
    evidence: Json,
    contract: Json,
    label: Seq<char>,
    column_names: Seq<String>,
) -> Seq<SegmentView> {
    action_view(report, label) + metrics_view(report) + findings_view(report) + idle_section_view(
        idle_view(report, column_names),
    ) + contract_view(contract) + identity_view(report, evidence) + seq![
        SegmentView::Own(
            "<footer>Generated from one validation and fingerprint scan. No external assets or telemetry.<br>"@,
        ),
        SegmentView::Own(
            "This HTML is not signed. Sign evidence.json separately to attest the engine result.<br>"@,
        ),
        SegmentView::Own(
            "Review contract literals, column names and enabled samples before sharing.</footer></main></body></html>"@,
        ),
    ]
}

/// The offline page for one validation and fingerprint scan: the tool's own words with the
/// words of the data escaped between them.
pub fn review_html(
    report: &Json,
    evidence: &Json,
    contract: &Json,
    label: &str,
    column_names: &Vec<String>,
) -> (r: Result<String, ProofFrameError>)
    ensures
        outcome(r, page_error(*report, *evidence)),
        r matches Ok(s) ==> s@ == html(
            page_view(*report, *evidence, *contract, label@, column_names@),
        ),
{
    let mut out: Vec<Segment> = Vec::new();
    assert(segment_views(out@) =~= Seq::empty());
    action_section(report, label, &mut out)?;
    metrics_section(report, &mut out)?;
    findings_section(report, &mut out)?;
    idle_section(report, column_names, &mut out);
    contract_section(contract, &mut out);
    identity_section(report, evidence, &mut out)?;
    own(
        &mut out,
        "<footer>Generated from one validation and fingerprint scan. No external assets or telemetry.<br>",
    );
    own(
        &mut out,
        "This HTML is not signed. Sign evidence.json separately to attest the engine result.<br>",
    );
    own(
        &mut out,
        "Review contract literals, column names and enabled samples before sharing.</footer></main></body></html>",
    );
    assert(segment_views(out@) =~= page_view(*report, *evidence, *contract, label@, column_names@));
    Ok(render_html(&out))
}

/// One finding of the summary.
pub open spec fn bullet_view(finding: Json) -> Seq<SegmentView> {
    seq![
        SegmentView::Own("- "@),
        SegmentView::Data(shown_or(finding, "column"@, "Dataset"@)),
        SegmentView::Own(", row "@),
        SegmentView::Data(shown_or(finding, "row"@, "None"@)),
        SegmentView::Own(": "@),
        SegmentView::Data(scalar_text(finding.spec_field("rule"@).unwrap())),
        SegmentView::Own(" — "@),
        SegmentView::Data(shown_or(finding, "message"@, ""@)),
        SegmentView::Own("\n"@),
    ]
}

/// The first `n` findings of the summary.
pub open spec fn bullet_views(found: Seq<Json>, n: nat) -> Seq<SegmentView>
    decreases n,
{
    if n == 0 || n > found.len() {
        Seq::empty()
    } else {
        bullet_views(found, (n - 1) as nat) + bullet_view(found[n - 1])
    }
}

fn markdown_findings(found: &Vec<Json>, out: &mut Vec<Segment>) -> (r: Result<
    (),
    ProofFrameError,
>)
    ensures
        outcome(r, rules_error(found@, found@.len())),
        r is Ok ==> segment_views(final(out)@) == segment_views(old(out)@) + bullet_views(
            found@,
            found@.len(),
        ),
{
    let ghost head = segment_views(out@);
    let mut i: usize = 0;
    assert(head + bullet_views(found@, 0) =~= head);
    while i < found.len()
        invariant
            i <= found@.len(),
            head == segment_views(old(out)@),
            rules_error(found@, i as nat) is None,
            segment_views(out@) == head + bullet_views(found@, i as nat),
        decreases found@.len() - i,
    {
        let finding = &found[i];
        proof {
            let step = member_error(*finding, "rule"@, "findings[].rule"@);
            assert(rules_error(found@, (i + 1) as nat) == step);
            if step is Some {
                rules_error_stays(found@, (i + 1) as nat, found@.len());
            }
        }
        let ghost before = segment_views(out@);
        let rule = required(finding, "rule", "findings[].rule")?;
        own(out, "- ");
        data(out, get_or(finding, "column", "Dataset"));
        own(out, ", row ");
        data(out, get_or(finding, "row", "None"));
        own(out, ": ");
        data(out, scalar(rule));
        own(out, " — ");
        data(out, get_or(finding, "message", ""));
        own(out, "\n");
        proof {
            assert(segment_views(out@) =~= before + bullet_view(*finding));
            assert(before + bullet_view(*finding) =~= head + bullet_views(
                found@,
                (i + 1) as nat,
            ));
        }
        i = i + 1;
    }
    Ok(())
}

/// The first `n` columns without a value, in the summary.
pub open spec fn idle_bullets(idle: Seq<Seq<char>>, n: nat) -> Seq<SegmentView>
    decreases n,
{
    if n == 0 || n > idle.len() {
        Seq::empty()
    } else {
        idle_bullets(idle, (n - 1) as nat) + seq![
            SegmentView::Own("- "@),
            SegmentView::Data(idle[n - 1]),
            SegmentView::Own(": 0 values evaluated\n"@),
        ]
    }
}

/// The columns without a value, in the summary.
pub open spec fn idle_summary(idle: Seq<Seq<char>>) -> Seq<SegmentView> {
    if idle.len() == 0 {
        Seq::empty()
    } else {
        seq![
            SegmentView::Own("\n**"@),
            SegmentView::Own(decimal(idle.len())),
            SegmentView::Own(
                " column(s) had no value for their rules to check.** A rule that was never asked did not pass.\n\n"@,
            ),
        ] + idle_bullets(idle, idle.len())
    }
}

fn markdown_idle(idle: &Vec<String>, out: &mut Vec<Segment>)
    ensures
        segment_views(final(out)@) == segment_views(old(out)@) + idle_summary(texts(idle@)),
{
    let ghost all = texts(idle@);
    if idle.len() == 0 {
        assert(segment_views(out@) + idle_summary(all) =~= segment_views(out@));
        return;
    }
    let count = decimal_u64(idle.len() as u64);
    own(out, "\n**");
    own(out, count.as_str());
    own(
        out,
        " column(s) had no value for their rules to check.** A rule that was never asked did not pass.\n\n",
    );
    let ghost head = segment_views(out@);
    assert(head + idle_bullets(all, 0) =~= head);
    let mut i: usize = 0;
    while i < idle.len()
        invariant
            i <= idle@.len(),
            all == texts(idle@),
            segment_views(out@) == head + idle_bullets(all, i as nat),
        decreases idle@.len() - i,
    {
        own(out, "- ");
        data(out, idle[i].clone());
        own(out, ": 0 values evaluated\n");
        assert(all[i as int] == idle@[i as int]@);
        assert(segment_views(out@) =~= head + idle_bullets(all, (i + 1) as nat));
        i = i + 1;
    }
    assert(segment_views(out@) =~= segment_views(old(out)@) + idle_summary(all));
}

/// The error of what a summary is made from.
pub open spec fn summary_error(report: Json, evidence: Json) -> Option<ErrorView> {
    or_error(
        action_error(report),
        or_error(
            member_error(report, "violation_count"@, "violation_count"@),
            or_error(
                member_error(report, "rows"@, "rows"@),
                or_error(
                    rules_error(
                        finding_list(report).unwrap(),
                        finding_list(report).unwrap().len(),
                    ),
                    match fingerprint_view(evidence) {
                        Err(v) => Some(v),
                        Ok(_) => None,
                    },
                ),
            ),
        ),
    )
}

/// The head of a summary: the instruction and the dataset.
pub open spec fn summary_head(report: Json, label: Seq<char>) -> Seq<SegmentView> {
    seq![SegmentView::Own("# ProofFrame data review\n\n**Start here:** "@)] + title_view(report)
        + seq![SegmentView::Own("\n\n"@)] + instruction_view(report) + seq![
        SegmentView::Own("\n\nDataset: "@),
        SegmentView::Data(label),
        SegmentView::Own("\n\n"@),
    ] + (if !verdict(report).unwrap() && finding_list(report).unwrap().len() == 0 {
        seq![SegmentView::Own("Finding details are off. Rerun with `--max-samples 20`.\n\n"@)]
    } else {
        Seq::empty()
    })
}

/// The totals of a summary.
pub open spec fn summary_totals(report: Json) -> Seq<SegmentView> {
    seq![
        SegmentView::Own(
            if verdict(report).unwrap() {
                "**Passed** · "@
            } else {
                "**Contract violations** · "@
            },
        ),
        SegmentView::Own(scalar_text(report.spec_field("violation_count"@).unwrap())),
        SegmentView::Own(" violations · "@),
        SegmentView::Own(scalar_text(report.spec_field("rows"@).unwrap())),
        SegmentView::Own(" rows\n\n"@),
        SegmentView::Own(decimal(finding_list(report).unwrap().len())),
        SegmentView::Own(
            " sampled finding(s); not a complete list when truncated. Violations are not a count of distinct failing rows.\n\n"@,
        ),
    ]
}

/// The foot of a summary.
pub open spec fn summary_foot(evidence: Json) -> Seq<SegmentView> {
    seq![
        SegmentView::Own("\nDataset fingerprint: "@),
        SegmentView::Own(fingerprint_view(evidence)->Ok_0),
        SegmentView::Own("\n\n"@),
        SegmentView::Own(
            "This review is local. Evidence is unsigned until signed separately.\n"@,
        ),
    ]
}

/// The pieces of a summary.
pub open spec fn summary_view(
    report: Json,
    evidence: Json,
    label: Seq<char>,
    column_names: Seq<String>,
) -> Seq<SegmentView> {
    let found = finding_list(report).unwrap();
    summary_head(report, label) + summary_totals(report) + bullet_views(found, found.len())
        + idle_summary(idle_view(report, column_names)) + summary_foot(evidence)
}

fn markdown_head(report: &Json, label: &str, out: &mut Vec<Segment>) -> (r: Result<
    (),
    ProofFrameError,
>)
    ensures
        outcome(r, action_error(*report)),
        r is Ok ==> segment_views(final(out)@) == segment_views(old(out)@) + summary_head(
            *report,
            label@,
        ),
{
    let (mut title, mut instruction) = action(report)?;
    let is_valid = valid(report)?;
    let found = findings(report)?;
    own(out, "# ProofFrame data review\n\n**Start here:** ");
    append_all(out, &mut title);
    own(out, "\n\n");
    append_all(out, &mut instruction);
    own(out, "\n\nDataset: ");
    data(out, text(label));
    own(out, "\n\n");
    if !is_valid && found.len() == 0 {
        own(out, "Finding details are off. Rerun with `--max-samples 20`.\n\n");
    }
    assert(segment_views(out@) =~= segment_views(old(out)@) + summary_head(*report, label@));
    Ok(())
}

fn markdown_totals(report: &Json, out: &mut Vec<Segment>) -> (r: Result<(), ProofFrameError>)
    requires
        finding_list(*report) is Some,
        verdict(*report) is Some,
    ensures
        outcome(
            r,
            or_error(
                member_error(*report, "violation_count"@, "violation_count"@),
                member_error(*report, "rows"@, "rows"@),
            ),
        ),
        r is Ok ==> segment_views(final(out)@) == segment_views(old(out)@) + summary_totals(
            *report,
        ),
{
    let is_valid = valid(report)?;
    let found = findings(report)?;
    let violations = required(report, "violation_count", "violation_count")?;
    let rows = required(report, "rows", "rows")?;
    if is_valid {
        own(out, "**Passed** · ");
    } else {
        own(out, "**Contract violations** · ");
    }
    let total = scalar(violations);
    let scanned = scalar(rows);
    let count = decimal_u64(found.len() as u64);
    own(out, total.as_str());
    own(out, " violations · ");
    own(out, scanned.as_str());
    own(out, " rows\n\n");
    own(out, count.as_str());
    own(
        out,
        " sampled finding(s); not a complete list when truncated. Violations are not a count of distinct failing rows.\n\n",
    );
    assert(segment_views(out@) =~= segment_views(old(out)@) + summary_totals(*report));
    Ok(())
}

/// The summary for a job or a pull request.
pub fn review_markdown(
    report: &Json,
    evidence: &Json,
    label: &str,
    column_names: &Vec<String>,
) -> (r: Result<String, ProofFrameError>)
    ensures
        outcome(r, summary_error(*report, *evidence)),
        r matches Ok(s) ==> s@ == markdown(
            summary_view(*report, *evidence, label@, column_names@),
        ),
{
    let mut out: Vec<Segment> = Vec::new();
    assert(segment_views(out@) =~= Seq::empty());
    markdown_head(report, label, &mut out)?;
    markdown_totals(report, &mut out)?;
    let found = findings(report)?;
    markdown_findings(found, &mut out)?;
    let idle = unexercised(report, column_names);
    markdown_idle(&idle, &mut out);
    let print = fingerprint(evidence)?;
    let ghost before = segment_views(out@);
    own(&mut out, "\nDataset fingerprint: ");
    own(&mut out, print.as_str());
    own(&mut out, "\n\n");
    own(&mut out, "This review is local. Evidence is unsigned until signed separately.\n");
    assert(segment_views(out@) =~= before + summary_foot(*evidence));
    assert(segment_views(out@) =~= summary_view(*report, *evidence, label@, column_names@));
    Ok(render_markdown(&out))
}

} // verus!
