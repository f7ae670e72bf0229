//! Scanning batches for personal data.

use crate::error::{ErrorView, ProofFrameError};
use crate::pii::detect::{detector_error, looks_like, sure, Detector};
use crate::pii::options::{fingerprint_of, PiiFingerprintMode, PiiFingerprintOptions};
use crate::text::{str_eq, text};
use crate::value::{same_schema, schema_eq, Batch, Cell, Field, Schema};
use vstd::prelude::*;
use vstd::string::*;

verus! {

/// A detection, which never carries the value.
#[derive(Debug)]
pub struct PiiFinding {
    /// Detected class, such as `email` or `payment_card`.
    pub kind: &'static str,
    /// How sure the detector is: `high` or `medium`.
    pub confidence: &'static str,
    /// Column of the value.
    pub column: String,
    /// Row of the value, counted from zero.
    pub row: u64,
    /// Fingerprint of the value.
    pub value_fingerprint: String,
}

/// A detection.
#[verifier::ext_equal]
pub struct FindingView {
    pub kind: Seq<char>,
    pub confidence: Seq<char>,
    pub column: Seq<char>,
    pub row: int,
    pub value_fingerprint: Seq<char>,
}

impl View for PiiFinding {
    type V = FindingView;

    open spec fn view(&self) -> FindingView {
        FindingView {
            kind: self.kind@,
            confidence: self.confidence@,
            column: self.column@,
            row: self.row as int,
            value_fingerprint: self.value_fingerprint@,
        }
    }
}

/// Detections.
pub open spec fn finding_views(findings: Seq<PiiFinding>) -> Seq<FindingView> {
    findings.map_values(|f: PiiFinding| f@)
}

/// The text of a cell that a scan looks at; nothing for a null. `shown` is the display text
/// of the cell, which stands for a cell that is no text itself.
pub open spec fn scanned_text(cell: Cell, shown: Seq<char>) -> Option<Seq<char>> {
    match cell {
        Cell::Null => None,
        Cell::Utf8(s) => Some(s@),
        Cell::LargeUtf8(s) => Some(s@),
        _ => Some(shown),
    }
}

/// The texts of a row.
pub open spec fn row_texts(batch: Batch, shown: Seq<Vec<String>>, row: int) -> Seq<
    Option<Seq<char>>,
> {
    Seq::new(
        batch.columns@.len(),
        |c: int| scanned_text(batch.columns@[c]@[row], shown[c]@[row]@),
    )
}

/// The texts of the rows of a batch.
pub open spec fn batch_texts(batch: Batch, shown: Seq<Vec<String>>) -> Seq<
    Seq<Option<Seq<char>>>,
> {
    Seq::new(batch.rows as nat, |r: int| row_texts(batch, shown, r))
}

/// The detection in a cell.
pub open spec fn cell_hits(field: Field, value: Option<Seq<char>>, row: int, key: Seq<u8>) -> Seq<
    FindingView,
> {
    match value {
        None => Seq::empty(),
        Some(v) => match looks_like(v) {
            None => Seq::empty(),
            Some(m) => seq![
                FindingView {
                    kind: m.kind,
                    confidence: m.confidence,
                    column: field.name@,
                    row,
                    value_fingerprint: fingerprint_of(key, v),
                },
            ],
        },
    }
}

/// The detections in the first cells of a row.
pub open spec fn row_hits(
    fields: Seq<Field>,
    values: Seq<Option<Seq<char>>>,
    n: nat,
    row: int,
    key: Seq<u8>,
) -> Seq<FindingView>
    decreases n,
{
    if n == 0 {
        Seq::empty()
    } else {
        row_hits(fields, values, (n - 1) as nat, row, key) + cell_hits(
            fields[n - 1],
            values[n - 1],
            row,
            key,
        )
    }
}

/// The detections in rows, row by row.
pub open spec fn hits(fields: Seq<Field>, rows: Seq<Seq<Option<Seq<char>>>>, key: Seq<u8>) -> Seq<
    FindingView,
>
    decreases rows.len(),
{
    if rows.len() == 0 {
        Seq::empty()
    } else {
        hits(fields, rows.drop_last(), key) + row_hits(
            fields,
            rows.last(),
            rows.last().len(),
            rows.len() - 1,
            key,
        )
    }
}

/// How many detections are of a kind.
pub open spec fn kind_count(found: Seq<FindingView>, kind: Seq<char>) -> nat
    decreases found.len(),
{
    if found.len() == 0 {
        0
    } else {
        kind_count(found.drop_last(), kind) + if found.last().kind == kind {
            1nat
        } else {
            0
        }
    }
}

/// The entry of a kind in a table of counts, where there is any detection of it.
pub open spec fn count_entry(found: Seq<FindingView>, kind: Seq<char>) -> Seq<(Seq<char>, nat)> {
    if kind_count(found, kind) == 0 {
        Seq::empty()
    } else {
        seq![(kind, kind_count(found, kind))]
    }
}

/// The counts of the kinds that were detected, in the order of their names.
pub open spec fn counts_of(found: Seq<FindingView>) -> Seq<(Seq<char>, nat)> {
    count_entry(found, "email"@) + count_entry(found, "iban"@) + count_entry(found, "ipv4"@)
        + count_entry(found, "payment_card"@) + count_entry(found, "phone"@)
}

/// Counts as numbers.
pub open spec fn count_views(counts: Seq<(&'static str, usize)>) -> Seq<(Seq<char>, nat)> {
    counts.map_values(|c: (&'static str, usize)| (c.0@, c.1 as nat))
}

/// The first detections, up to a limit.
pub open spec fn bounded(found: Seq<FindingView>, limit: nat) -> Seq<FindingView> {
    if found.len() <= limit {
        found
    } else {
        found.take(limit as int)
    }
}

/// Aggregated result of a scan with a bounded list of detections.
#[derive(Debug)]
pub struct PiiReport {
    pub detected: bool,
    pub scanned_rows: u64,
    pub finding_count: usize,
    pub counts_by_kind: Vec<(&'static str, usize)>,
    pub truncated: bool,
    pub findings: Vec<PiiFinding>,
    pub fingerprint_mode: PiiFingerprintMode,
    pub key_id: String,
}

/// A scan under way.
pub struct PiiScan {
    max_findings: usize,
    scanned_rows: u64,
    total: usize,
    email: usize,
    iban: usize,
    ipv4: usize,
    payment_card: usize,
    phone: usize,
    findings: Vec<PiiFinding>,
    rows: Ghost<Seq<Seq<Option<Seq<char>>>>>,
}

/// Adding one detection adds one to the count of its kind.
proof fn count_push(found: Seq<FindingView>, hit: FindingView, kind: Seq<char>)
    ensures
        kind_count(found.push(hit), kind) == kind_count(found, kind) + if hit.kind == kind {
            1nat
        } else {
            0
        },
{
    assert(found.push(hit).drop_last() =~= found);
}

/// A kind has no more detections than there are.
proof fn count_bound(found: Seq<FindingView>, kind: Seq<char>)
    ensures
        kind_count(found, kind) <= found.len(),
    decreases found.len(),
{
    if found.len() > 0 {
        count_bound(found.drop_last(), kind);
    }
}

/// Adds the entry of a kind to a table of counts.
fn push_count(
    counts: &mut Vec<(&'static str, usize)>,
    kind: &'static str,
    count: usize,
    Ghost(found): Ghost<Seq<FindingView>>,
)
    requires
        count == kind_count(found, kind@),
    ensures
        count_views(final(counts)@) == count_views(old(counts)@) + count_entry(found, kind@),
{
    if count > 0 {
        counts.push((kind, count));
    }
    assert(count_views(counts@) =~= count_views(old(counts)@) + count_entry(found, kind@));
}

impl PiiScan {
    /// The texts of the rows that were scanned.
    pub closed spec fn rows(&self) -> Seq<Seq<Option<Seq<char>>>> {
        self.rows@
    }

    /// The limit of the list of detections.
    pub closed spec fn max_findings(&self) -> nat {
        self.max_findings as nat
    }

    /// How many detections there are.
    pub closed spec fn found(&self) -> nat {
        self.total as nat
    }

    closed spec fn tallied(&self, found: Seq<FindingView>) -> bool {
        &&& self.total == found.len()
        &&& self.email == kind_count(found, "email"@)
        &&& self.iban == kind_count(found, "iban"@)
        &&& self.ipv4 == kind_count(found, "ipv4"@)
        &&& self.payment_card == kind_count(found, "payment_card"@)
        &&& self.phone == kind_count(found, "phone"@)
        &&& finding_views(self.findings@) == bounded(found, self.max_findings as nat)
    }

    /// The scan holds what was detected in its rows.
    pub closed spec fn wf(&self, schema: Schema, options: PiiFingerprintOptions) -> bool {
        &&& self.scanned_rows == self.rows@.len()
        &&& self.tallied(hits(schema.fields@, self.rows@, options.key()))
    }

    /// Starts a scan.
    pub fn begin(max_findings: usize) -> (r: Self)
        ensures
            r.rows() == Seq::<Seq<Option<Seq<char>>>>::empty(),
            r.max_findings() == max_findings,
            r.found() == 0,
            forall|schema: Schema, options: PiiFingerprintOptions| #[trigger]
                r.wf(schema, options),
    {
        let r = PiiScan {
            max_findings,
            scanned_rows: 0,
            total: 0,
            email: 0,
            iban: 0,
            ipv4: 0,
            payment_card: 0,
            phone: 0,
            findings: Vec::new(),
            rows: Ghost(Seq::empty()),
        };
        assert forall|schema: Schema, options: PiiFingerprintOptions| #[trigger]
            r.wf(schema, options) by {
            assert(hits(schema.fields@, r.rows@, options.key()) =~= Seq::empty());
            assert(finding_views(r.findings@) =~= Seq::empty());
        }
        r
    }

    /// Takes in the detection of one cell.
    #[verifier::spinoff_prover]
    #[verifier::rlimit(40)]
    fn take_cell(
        &mut self,
        detector: &Detector,
        field: &Field,
        cell: &Cell,
        shown: &String,
        row: u64,
        options: &PiiFingerprintOptions,
        Ghost(found): Ghost<Seq<FindingView>>,
    )
        requires
            detector.wf(),
            old(self).tallied(found),
            found.len() < usize::MAX || cell_hits(
                *field,
                scanned_text(*cell, shown@),
                row as int,
                options.key(),
            ).len() == 0,
        ensures
            final(self).rows == old(self).rows,
            final(self).scanned_rows == old(self).scanned_rows,
            final(self).max_findings == old(self).max_findings,
            final(self).tallied(
                found + cell_hits(*field, scanned_text(*cell, shown@), row as int, options.key()),
            ),
    {
        let ghost more = cell_hits(*field, scanned_text(*cell, shown@), row as int, options.key());
        let value: &str = match cell {
            Cell::Null => {
                assert(found + more =~= found);
                return;
            },
            Cell::Utf8(s) => s.as_str(),
            Cell::LargeUtf8(s) => s.as_str(),
            _ => shown.as_str(),
        };
        match detector.classify_cell(value) {
            None => {
                assert(found + more =~= found);
            },
            Some(m) => {
                let ghost hit = more[0];
                proof {
                    assert(found + more =~= found.push(hit));
                    count_push(found, hit, "email"@);
                    count_push(found, hit, "iban"@);
                    count_push(found, hit, "ipv4"@);
                    count_push(found, hit, "payment_card"@);
                    count_push(found, hit, "phone"@);
                    count_bound(found, "email"@);
                    count_bound(found, "iban"@);
                    count_bound(found, "ipv4"@);
                    count_bound(found, "payment_card"@);
                    count_bound(found, "phone"@);
                }
                self.total = self.total + 1;
                if str_eq(m.kind, "email") {
                    self.email = self.email + 1;
                }
                if str_eq(m.kind, "iban") {
                    self.iban = self.iban + 1;
                }
                if str_eq(m.kind, "ipv4") {
                    self.ipv4 = self.ipv4 + 1;
                }
                if str_eq(m.kind, "payment_card") {
                    self.payment_card = self.payment_card + 1;
                }
                if str_eq(m.kind, "phone") {
                    self.phone = self.phone + 1;
                }
                let ghost listed = finding_views(self.findings@);
                assert(listed == bounded(found, self.max_findings as nat));
                assert(listed.len() == self.findings@.len());
                if self.findings.len() < self.max_findings {
                    self.findings.push(
                        PiiFinding {
                            kind: m.kind,
                            confidence: m.confidence,
                            column: text(field.name.as_str()),
                            row,
                            value_fingerprint: options.privacy_fingerprint(value),
                        },
                    );
                    proof {
                        assert(self.findings@.last()@ == hit);
                        assert(finding_views(self.findings@) =~= listed.push(hit));
                        assert(listed == found);
                    }
                } else {
                    assert(bounded(found.push(hit), self.max_findings as nat) =~= listed);
                }
            },
        }
    }

    /// Scans a batch. A batch with other columns than the table's is refused.
    #[verifier::spinoff_prover]
    #[verifier::rlimit(40)]
    pub fn update(
        &mut self,
        detector: &Detector,
        schema: &Schema,
        batch_schema: &Schema,
        batch: &Batch,
        shown: &Vec<Vec<String>>,
        options: &PiiFingerprintOptions,
    ) -> (r: Result<(), ProofFrameError>)
        requires
            detector.wf(),
            old(self).wf(*schema, *options),
            batch.wf(),
            batch.columns@.len() == schema.fields@.len(),
            shown@.len() == batch.columns@.len(),
            forall|c: int| 0 <= c < shown@.len() ==> (#[trigger] shown@[c])@.len() == batch.rows,
            old(self).rows().len() + batch.rows <= u64::MAX,
            old(self).found() + batch.rows * batch.columns@.len() <= usize::MAX,
        ensures
            final(self).max_findings() == old(self).max_findings(),
            final(self).wf(*schema, *options),
            final(self).found() <= old(self).found() + batch.rows * batch.columns@.len(),
            if same_schema(*batch_schema, *schema) {
                r is Ok && final(self).rows() == old(self).rows() + batch_texts(*batch, shown@)
            } else {
                &&& r matches Err(e)
                &&& e@ == ErrorView::SchemaMismatch(
                    "record batch schema changed during PII scanning"@,
                )
                &&& final(self).rows() == old(self).rows()
            },
    {
        if !schema_eq(batch_schema, schema) {
            return Err(
                ProofFrameError::SchemaMismatch(
                    text("record batch schema changed during PII scanning"),
                ),
            );
        }
        let ghost before = self.rows@;
        let ghost added = batch_texts(*batch, shown@);
        let ghost key = options.key();
        let ghost fields = schema.fields@;
        let ghost found_before = self.total as int;
        let start: u64 = self.scanned_rows;
        let mut row: usize = 0;
        assert(before + added.take(0) =~= before);
        while row < batch.rows
            invariant
                row <= batch.rows,
                detector.wf(),
                batch.wf(),
                batch.columns@.len() == schema.fields@.len(),
                shown@.len() == batch.columns@.len(),
                forall|c: int|
                    0 <= c < shown@.len() ==> (#[trigger] shown@[c])@.len() == batch.rows,
                start == before.len(),
                before.len() + batch.rows <= u64::MAX,
                added == batch_texts(*batch, shown@),
                key == options.key(),
                fields == schema.fields@,
                self.total <= found_before + row * batch.columns@.len(),
                found_before + batch.rows * batch.columns@.len() <= usize::MAX,
                self.rows@ == before,
                self.scanned_rows == start,
                self.max_findings == old(self).max_findings,
                self.tallied(hits(fields, before + added.take(row as int), key)),
            decreases batch.rows - row,
        {
            let ghost done = before + added.take(row as int);
            let ghost next = before + added.take(row + 1);
            let ghost values = added[row as int];
            let ghost found = hits(fields, done, key);
            proof {
                assert(next.drop_last() =~= done);
                assert(next.last() == values);
                assert(next.len() - 1 == start + row);
                assert(row * batch.columns@.len() + batch.columns@.len() == (row + 1)
                    * batch.columns@.len()) by (nonlinear_arith);
                assert((row + 1) * batch.columns@.len() <= batch.rows * batch.columns@.len())
                    by (nonlinear_arith)
                    requires
                        row < batch.rows,
                ;
            }
            let ghost limit = found_before + (row + 1) * batch.columns@.len();
            let mut column: usize = 0;
            assert(found + row_hits(fields, values, 0, start + row, key) =~= found);
            while column < batch.columns.len()
                invariant
                    row < batch.rows,
                    column <= batch.columns@.len(),
                    detector.wf(),
                    batch.wf(),
                    batch.columns@.len() == schema.fields@.len(),
                    shown@.len() == batch.columns@.len(),
                    forall|c: int|
                        0 <= c < shown@.len() ==> (#[trigger] shown@[c])@.len() == batch.rows,
                    start + batch.rows <= u64::MAX,
                    start == before.len(),
                    values == row_texts(*batch, shown@, row as int),
                    key == options.key(),
                    fields == schema.fields@,
                    self.total <= limit - batch.columns@.len() + column,
                    limit <= usize::MAX,
                    self.rows@ == before,
                    self.scanned_rows == start,
                    self.max_findings == old(self).max_findings,
                    self.tallied(
                        found + row_hits(fields, values, column as nat, start + row, key),
                    ),
                decreases batch.columns@.len() - column,
            {
                let ghost so_far = found + row_hits(
                    fields,
                    values,
                    column as nat,
                    start + row,
                    key,
                );
                assert(batch.columns@[column as int]@.len() == batch.rows);
                assert(shown@[column as int]@.len() == batch.rows);
                let field = &schema.fields[column];
                let cell = &batch.columns[column][row];
                let shown_text = &shown[column][row];
                let ghost more = cell_hits(
                    *field,
                    scanned_text(*cell, shown_text@),
                    start + row,
                    key,
                );
                proof {
                    assert(values[column as int] == scanned_text(*cell, shown_text@));
                    assert(so_far + more =~= found + row_hits(
                        fields,
                        values,
                        (column + 1) as nat,
                        start + row,
                        key,
                    ));
                }
                self.take_cell(
                    detector,
                    field,
                    cell,
                    shown_text,
                    start + row as u64,
                    options,
                    Ghost(so_far),
                );
                column = column + 1;
            }
            row = row + 1;
        }
        proof {
            assert(added.take(added.len() as int) =~= added);
            self.rows@ = before + added;
        }
        self.scanned_rows = start + batch.rows as u64;
        Ok(())
    }

    /// How many detections there are.
    pub fn finding_count(&self) -> (r: usize)
        ensures
            r == self.found(),
    {
        self.total
    }

    /// The report of the scan.
    pub fn finish(self, schema: &Schema, options: &PiiFingerprintOptions) -> (r: PiiReport)
        requires
            self.wf(*schema, *options),
        ensures
            reports(r, schema.fields@, self.rows(), self.max_findings(), *options),
    {
        let ghost all = hits(schema.fields@, self.rows@, options.key());
        let mut counts: Vec<(&'static str, usize)> = Vec::new();
        push_count(&mut counts, "email", self.email, Ghost(all));
        push_count(&mut counts, "iban", self.iban, Ghost(all));
        push_count(&mut counts, "ipv4", self.ipv4, Ghost(all));
        push_count(&mut counts, "payment_card", self.payment_card, Ghost(all));
        push_count(&mut counts, "phone", self.phone, Ghost(all));
        assert(count_views(counts@) =~= counts_of(all));
        let (mode, key_id) = options.provenance();
        let truncated = self.total > self.findings.len();
        proof {
            assert(finding_views(self.findings@).len() == self.findings@.len());
            findings_are_sure(schema.fields@, self.rows@, options.key());
            assert forall|i: int|
                #![trigger self.findings@[i]]
                0 <= i < self.findings@.len() implies sure(self.findings@[i].confidence@) by {
                assert(finding_views(self.findings@)[i] == all[i]);
            }
        }
        PiiReport {
            detected: self.total > 0,
            scanned_rows: self.scanned_rows,
            finding_count: self.total,
            counts_by_kind: counts,
            truncated,
            findings: self.findings,
            fingerprint_mode: mode,
            key_id,
        }
    }
}

/// Every detection is made with high or with medium confidence.
pub proof fn findings_are_sure(
    fields: Seq<Field>,
    rows: Seq<Seq<Option<Seq<char>>>>,
    key: Seq<u8>,
)
    ensures
        forall|i: int|
            #![trigger hits(fields, rows, key)[i]]
            0 <= i < hits(fields, rows, key).len() ==> sure(hits(fields, rows, key)[i].confidence),
    decreases rows.len(),
{
    if rows.len() > 0 {
        findings_are_sure(fields, rows.drop_last(), key);
        row_findings_are_sure(
            fields,
            rows.last(),
            rows.last().len(),
            rows.len() - 1,
            key,
        );
        let before = hits(fields, rows.drop_last(), key);
        let here = row_hits(fields, rows.last(), rows.last().len(), rows.len() - 1, key);
        assert forall|i: int|
            #![trigger hits(fields, rows, key)[i]]
            0 <= i < hits(fields, rows, key).len() implies sure(
            hits(fields, rows, key)[i].confidence,
        ) by {
            if i < before.len() {
                assert(hits(fields, rows, key)[i] == before[i]);
            } else {
                assert(hits(fields, rows, key)[i] == here[i - before.len()]);
            }
        }
    }
}

proof fn row_findings_are_sure(
    fields: Seq<Field>,
    values: Seq<Option<Seq<char>>>,
    n: nat,
    row: int,
    key: Seq<u8>,
)
    ensures
        forall|i: int|
            #![trigger row_hits(fields, values, n, row, key)[i]]
            0 <= i < row_hits(fields, values, n, row, key).len() ==> sure(
                row_hits(fields, values, n, row, key)[i].confidence,
            ),
    decreases n,
{
    if n > 0 {
        row_findings_are_sure(fields, values, (n - 1) as nat, row, key);
        let before = row_hits(fields, values, (n - 1) as nat, row, key);
        let here = cell_hits(fields[n - 1], values[n - 1], row, key);
        assert forall|i: int|
            #![trigger row_hits(fields, values, n, row, key)[i]]
            0 <= i < row_hits(fields, values, n, row, key).len() implies sure(
            row_hits(fields, values, n, row, key)[i].confidence,
        ) by {
            if i < before.len() {
                assert(row_hits(fields, values, n, row, key)[i] == before[i]);
            } else {
                assert(row_hits(fields, values, n, row, key)[i] == here[i - before.len()]);
            }
        }
    }
}

/// Whether a report says what was detected in rows.
pub open spec fn reports(
    r: PiiReport,
    fields: Seq<Field>,
    rows: Seq<Seq<Option<Seq<char>>>>,
    max_findings: nat,
    options: PiiFingerprintOptions,
) -> bool {
    let all = hits(fields, rows, options.key());
    &&& r.detected == (all.len() > 0)
    &&& r.scanned_rows == rows.len()
    &&& r.finding_count == all.len()
    &&& count_views(r.counts_by_kind@) == counts_of(all)
    &&& r.truncated == (all.len() > max_findings)
    &&& finding_views(r.findings@) == bounded(all, max_findings)
    &&& forall|i: int|
        #![trigger r.findings@[i]]
        0 <= i < r.findings@.len() ==> sure(r.findings@[i].confidence@)
    &&& r.fingerprint_mode == options.mode()
    &&& r.key_id@ == options.key_id()
}

/// A batch as a reader hands it out: its columns, its cells, and their display texts.
#[derive(Debug)]
pub struct ShownBatch {
    pub schema: Schema,
    pub batch: Batch,
    pub shown: Vec<Vec<String>>,
}

impl ShownBatch {
    /// Every column has a cell and a display text for each row.
    pub open spec fn wf(&self, columns: nat) -> bool {
        &&& self.batch.wf()
        &&& self.batch.columns@.len() == columns
        &&& self.shown@.len() == columns
        &&& forall|c: int|
            0 <= c < columns ==> (#[trigger] self.shown@[c])@.len() == self.batch.rows
    }
}

/// The number of rows of batches.
pub open spec fn row_total(batches: Seq<ShownBatch>) -> nat
    decreases batches.len(),
{
    if batches.len() == 0 {
        0
    } else {
        row_total(batches.drop_last()) + batches.last().batch.rows as nat
    }
}

/// The texts of the rows of batches.
pub open spec fn all_texts(batches: Seq<ShownBatch>) -> Seq<Seq<Option<Seq<char>>>>
    decreases batches.len(),
{
    if batches.len() == 0 {
        Seq::empty()
    } else {
        all_texts(batches.drop_last()) + batch_texts(
            batches.last().batch,
            batches.last().shown@,
        )
    }
}

/// Whether every batch has the columns of the table.
pub open spec fn unchanged(schema: Schema, batches: Seq<ShownBatch>) -> bool {
    forall|i: int| 0 <= i < batches.len() ==> same_schema((#[trigger] batches[i]).schema, schema)
}

/// The rows of batches, of which there are as many as the batches say.
proof fn all_texts_len(batches: Seq<ShownBatch>)
    ensures
        all_texts(batches).len() == row_total(batches),
    decreases batches.len(),
{
    if batches.len() > 0 {
        all_texts_len(batches.drop_last());
    }
}

/// The rows of the first batches are no more than all rows.
proof fn row_total_grows(batches: Seq<ShownBatch>, n: int)
    requires
        0 <= n <= batches.len(),
    ensures
        row_total(batches.take(n)) <= row_total(batches),
    decreases batches.len(),
{
    if n < batches.len() {
        assert(batches.drop_last().take(n) =~= batches.take(n));
        row_total_grows(batches.drop_last(), n);
    } else {
        assert(batches.take(n) =~= batches);
    }
}

/// Scans batches for personal data.
#[verifier::spinoff_prover]
#[verifier::rlimit(40)]
pub fn scan_pii(
    schema: &Schema,
    batches: &Vec<ShownBatch>,
    max_findings: usize,
    options: &PiiFingerprintOptions,
) -> (r: Result<PiiReport, ProofFrameError>)
    requires
        forall|i: int|
            0 <= i < batches@.len() ==> (#[trigger] batches@[i]).wf(schema.fields@.len()),
        row_total(batches@) <= u64::MAX,
        row_total(batches@) * schema.fields@.len() <= usize::MAX,
    ensures
        match detector_error() {
            Some(m) => r matches Err(e) && e@ == ErrorView::Regex(m),
            None => if unchanged(*schema, batches@) {
                r matches Ok(x) && reports(
                    x,
                    schema.fields@,
                    all_texts(batches@),
                    max_findings as nat,
                    *options,
                )
            } else {
                r matches Err(e) && e@ == ErrorView::SchemaMismatch(
                    "record batch schema changed during PII scanning"@,
                )
            },
        },
{
    let detector = Detector::new()?;
    let mut scan = PiiScan::begin(max_findings);
    let mut i: usize = 0;
    assert(scan.wf(*schema, *options));
    assert(all_texts(batches@.take(0)) =~= Seq::empty());
    while i < batches.len()
        invariant
            i <= batches@.len(),
            detector.wf(),
            detector_error() is None,
            forall|k: int|
                0 <= k < batches@.len() ==> (#[trigger] batches@[k]).wf(schema.fields@.len()),
            forall|k: int| 0 <= k < i ==> same_schema((#[trigger] batches@[k]).schema, *schema),
            row_total(batches@) <= u64::MAX,
            row_total(batches@) * schema.fields@.len() <= usize::MAX,
            scan.wf(*schema, *options),
            scan.max_findings() == max_findings,
            scan.rows() == all_texts(batches@.take(i as int)),
            scan.found() <= row_total(batches@.take(i as int)) * schema.fields@.len(),
        decreases batches@.len() - i,
    {
        let b = &batches[i];
        proof {
            let now = batches@.take(i as int);
            let next = batches@.take(i + 1);
            assert(next.drop_last() =~= now);
            assert(next.last() == *b);
            all_texts_len(now);
            row_total_grows(batches@, i + 1);
            assert(b.wf(schema.fields@.len()));
            let n = schema.fields@.len();
            let x = row_total(now);
            let y = b.batch.rows as nat;
            let z = row_total(batches@);
            assert((x + y) * n == x * n + y * n) by (nonlinear_arith);
            assert((x + y) * n <= z * n) by (nonlinear_arith)
                requires
                    x + y <= z,
            ;
            assert forall|c: int| 0 <= c < b.shown@.len() implies (#[trigger] b.shown@[c])@.len()
                == b.batch.rows by {}
        }
        match scan.update(&detector, schema, &b.schema, &b.batch, &b.shown, options) {
            Ok(()) => {},
            Err(e) => {
                assert(!same_schema(batches@[i as int].schema, *schema));
                return Err(e);
            },
        }
        i = i + 1;
    }
    assert(batches@.take(batches@.len() as int) =~= batches@);
    Ok(scan.finish(schema, options))
}

/// What is detected does not depend on where one batch ends and the next begins: batches
/// with the same rows have the same report.
pub proof fn batch_boundaries_do_not_matter(
    a: PiiReport,
    b: PiiReport,
    schema: Schema,
    first: Seq<ShownBatch>,
    second: Seq<ShownBatch>,
    max_findings: nat,
    options: PiiFingerprintOptions,
)
    requires
        all_texts(first) == all_texts(second),
        reports(a, schema.fields@, all_texts(first), max_findings, options),
        reports(b, schema.fields@, all_texts(second), max_findings, options),
    ensures
        a.detected == b.detected,
        a.scanned_rows == b.scanned_rows,
        a.finding_count == b.finding_count,
        a.truncated == b.truncated,
        count_views(a.counts_by_kind@) == count_views(b.counts_by_kind@),
        finding_views(a.findings@) == finding_views(b.findings@),
{
}

/// The counts of the kinds add up to the number of detections.
pub proof fn kinds_add_up(fields: Seq<Field>, rows: Seq<Seq<Option<Seq<char>>>>, key: Seq<u8>)
    ensures
        ({
            let all = hits(fields, rows, key);
            kind_count(all, "email"@) + kind_count(all, "iban"@) + kind_count(all, "ipv4"@)
                + kind_count(all, "payment_card"@) + kind_count(all, "phone"@) == all.len()
        }),
    decreases rows.len(),
{
    if rows.len() > 0 {
        kinds_add_up(fields, rows.drop_last(), key);
        let base = hits(fields, rows.drop_last(), key);
        let n = rows.last().len();
        row_kinds_add_up(fields, rows.last(), n, rows.len() - 1, key, base);
    }
}

proof fn row_kinds_add_up(
    fields: Seq<Field>,
    values: Seq<Option<Seq<char>>>,
    n: nat,
    row: int,
    key: Seq<u8>,
    base: Seq<FindingView>,
)
    requires
        kind_count(base, "email"@) + kind_count(base, "iban"@) + kind_count(base, "ipv4"@)
            + kind_count(base, "payment_card"@) + kind_count(base, "phone"@) == base.len(),
    ensures
        ({
            let all = base + row_hits(fields, values, n, row, key);
            kind_count(all, "email"@) + kind_count(all, "iban"@) + kind_count(all, "ipv4"@)
                + kind_count(all, "payment_card"@) + kind_count(all, "phone"@) == all.len()
        }),
    decreases n,
{
    if n == 0 {
        assert(base + row_hits(fields, values, n, row, key) =~= base);
    } else {
        row_kinds_add_up(fields, values, (n - 1) as nat, row, key, base);
        let before = base + row_hits(fields, values, (n - 1) as nat, row, key);
        let more = cell_hits(fields[n - 1], values[n - 1], row, key);
        let all = base + row_hits(fields, values, n, row, key);
        assert(all =~= before + more);
        if more.len() == 0 {
            assert(all =~= before);
        } else {
            let hit = more[0];
            assert(all =~= before.push(hit));
            count_push(before, hit, "email"@);
            count_push(before, hit, "iban"@);
            count_push(before, hit, "ipv4"@);
            count_push(before, hit, "payment_card"@);
            count_push(before, hit, "phone"@);
            reveal_strlit("email");
            reveal_strlit("iban");
            reveal_strlit("ipv4");
            reveal_strlit("payment_card");
            reveal_strlit("phone");
            assert("email"@[0] == 'e');
            assert("iban"@[1] == 'b' && "ipv4"@[1] == 'p');
            assert("iban"@[0] == 'i' && "ipv4"@[0] == 'i');
            assert("payment_card"@.len() == 12 && "phone"@.len() == 5);
            assert("phone"@[0] == 'p');
        }
    }
}

} // verus!
