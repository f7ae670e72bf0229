//! Which envelopes and manifests are accepted: exactly those that keep the rules below.

use crate::digest::{lower_hex, tagged_digest};
use crate::evidence::{digest_error, digest_error_any, EvidenceV2};
use crate::evidence::partition::{body_error, partitions_error, PartitionEvidenceV1};
use crate::fingerprint::FingerprintVersion;
use crate::numbers::blank;
use vstd::prelude::*;

verus! {

/// Whether a text is a prefix followed by 64 hexadecimal digits in lower case.
pub open spec fn digest_behind(value: Seq<char>, prefix: Seq<char>) -> bool {
    exists|digits: Seq<char>| #[trigger] (prefix + digits) == value && digits.len() == 64
        && all_hex(digits)
}

/// Whether a text is made of hexadecimal digits in lower case.
pub open spec fn all_hex(digits: Seq<char>) -> bool {
    forall|i: int|
        0 <= i < digits.len() ==> "0123456789abcdef"@.contains(#[trigger] digits[i])
}

proof fn hex_digits(c: char)
    ensures
        lower_hex(c) <==> "0123456789abcdef"@.contains(c),
{
    let s = "0123456789abcdef"@;
    reveal_strlit("0123456789abcdef");
    if '0' <= c && c <= '9' {
        assert(s[c as int - '0' as int] == c);
    } else if 'a' <= c && c <= 'f' {
        assert(s[c as int - 'a' as int + 10] == c);
    } else if s.contains(c) {
        let i = choose|i: int| 0 <= i < s.len() && s[i] == c;
        assert(s[i] == c);
    }
}

proof fn tagged_is_behind(value: Seq<char>, prefix: Seq<char>)
    ensures
        tagged_digest(value, prefix) <==> digest_behind(value, prefix),
{
    if tagged_digest(value, prefix) {
        let digits = value.skip(prefix.len() as int);
        assert(prefix + digits =~= value);
        assert forall|i: int| 0 <= i < digits.len() implies "0123456789abcdef"@.contains(
            #[trigger] digits[i],
        ) by {
            assert(lower_hex(value[prefix.len() + i]));
            hex_digits(digits[i]);
        }
    }
    if digest_behind(value, prefix) {
        let digits = choose|digits: Seq<char>| #[trigger] (prefix + digits) == value
            && digits.len() == 64 && all_hex(digits);
        assert(value.take(prefix.len() as int) =~= prefix);
        assert forall|i: int| prefix.len() <= i < value.len() implies lower_hex(
            #[trigger] value[i],
        ) by {
            assert(value[i] == digits[i - prefix.len()]);
            hex_digits(value[i]);
        }
    }
}

/// A digest is accepted exactly where it is its prefix followed by 64 hexadecimal digits in lower
/// case.
pub proof fn digests_are_accepted_behind_their_prefix(
    value: Seq<char>,
    prefix: Seq<char>,
    other: Seq<char>,
    label: Seq<char>,
)
    ensures
        digest_error(value, prefix, label) is None <==> digest_behind(value, prefix),
        digest_error_any(value, prefix, other, label) is None <==> digest_behind(value, prefix)
            || digest_behind(value, other),
{
    tagged_is_behind(value, prefix);
    tagged_is_behind(value, other);
    if tagged_digest(value, prefix) {
        assert(prefix.is_prefix_of(value)) by {
            assert forall|i: int| 0 <= i < prefix.len() implies prefix[i] == value[i] by {
                assert(value.take(prefix.len() as int)[i] == value[i]);
            }
            assert(prefix =~= value.subrange(0, prefix.len() as int));
        }
    }
}

/// Whether an envelope names digests of the right kinds.
pub open spec fn names_digests(e: EvidenceV2) -> bool {
    &&& digest_behind(e.contract_source_digest@, "pf-contract-v1:"@) || digest_behind(
        e.contract_source_digest@,
        "pf-contract-v2:"@,
    )
    &&& digest_behind(e.compiled_plan_digest@, "pf-plan-v1:"@) || digest_behind(
        e.compiled_plan_digest@,
        "pf-plan-v2:"@,
    )
    &&& digest_behind(e.schema_digest@, "pf-schema-v1:"@)
    &&& digest_behind(e.result.result_digest@, "pf-result-v1:"@)
    &&& digest_behind(e.result.report_digest@, "pf-report-v1:"@)
    &&& digest_behind(e.result.findings_digest@, "pf-findings-v1:"@)
    &&& digest_behind(e.result.metrics_digest@, "pf-metrics-v1:"@)
}

/// Whether the claims of an envelope agree with one another.
pub open spec fn agrees_with_itself(e: EvidenceV2) -> bool {
    &&& e.engine.name@ == "proofframe"@
    &&& !blank(e.engine.version@)
    &&& e.execution.operation@ == "check"@
    &&& e.result.valid <==> e.result.violation_count == 0
    &&& e.result.output_records <= e.result.violation_count
    &&& e.result.output_records <= e.execution.resources.max_samples
    &&& e.result.truncated <==> e.result.output_records < e.result.violation_count
}

/// An envelope is accepted exactly where it carries a fingerprint of version 2, names its digests
/// and makes claims that agree with one another.
pub proof fn envelopes_are_accepted_for_their_claims(e: EvidenceV2)
    ensures
        e.evidence_error() is None <==> e.dataset.fingerprint_version == FingerprintVersion::V2
            && names_digests(e) && agrees_with_itself(e),
{
    digests_are_accepted_behind_their_prefix(
        e.contract_source_digest@,
        "pf-contract-v1:"@,
        "pf-contract-v2:"@,
        "contract source"@,
    );
    digests_are_accepted_behind_their_prefix(
        e.compiled_plan_digest@,
        "pf-plan-v1:"@,
        "pf-plan-v2:"@,
        "compiled plan"@,
    );
    digests_are_accepted_behind_their_prefix(e.schema_digest@, "pf-schema-v1:"@, ""@, "schema"@);
    digests_are_accepted_behind_their_prefix(
        e.result.result_digest@,
        "pf-result-v1:"@,
        ""@,
        "validation result"@,
    );
    digests_are_accepted_behind_their_prefix(
        e.result.report_digest@,
        "pf-report-v1:"@,
        ""@,
        "validation report"@,
    );
    digests_are_accepted_behind_their_prefix(
        e.result.findings_digest@,
        "pf-findings-v1:"@,
        ""@,
        "validation findings"@,
    );
    digests_are_accepted_behind_their_prefix(
        e.result.metrics_digest@,
        "pf-metrics-v1:"@,
        ""@,
        "validation metrics"@,
    );
}

/// Whether a partition stands at its place and binds what the first partition binds.
pub open spec fn sound_partition(
    p: PartitionEvidenceV1,
    position: int,
    first: PartitionEvidenceV1,
) -> bool {
    &&& p.index == position
    &&& p.fingerprint_version == FingerprintVersion::V2
    &&& digest_behind(p.schema_digest@, "pf-schema-v1:"@)
    &&& digest_behind(p.contract_source_digest@, "pf-contract-v1:"@) || digest_behind(
        p.contract_source_digest@,
        "pf-contract-v2:"@,
    )
    &&& digest_behind(p.compiled_plan_digest@, "pf-plan-v1:"@) || digest_behind(
        p.compiled_plan_digest@,
        "pf-plan-v2:"@,
    )
    &&& digest_behind(p.result_digest@, "pf-partition-result-v1:"@)
    &&& p.schema_digest@ == first.schema_digest@
    &&& p.contract_source_digest@ == first.contract_source_digest@
    &&& p.compiled_plan_digest@ == first.compiled_plan_digest@
}

proof fn partition_sound(p: PartitionEvidenceV1, position: int, first: PartitionEvidenceV1)
    ensures
        p.partition_error(position, first) is None <==> sound_partition(p, position, first),
{
    digests_are_accepted_behind_their_prefix(
        p.schema_digest@,
        "pf-schema-v1:"@,
        ""@,
        "partition schema"@,
    );
    digests_are_accepted_behind_their_prefix(
        p.contract_source_digest@,
        "pf-contract-v1:"@,
        "pf-contract-v2:"@,
        "partition contract source"@,
    );
    digests_are_accepted_behind_their_prefix(
        p.compiled_plan_digest@,
        "pf-plan-v1:"@,
        "pf-plan-v2:"@,
        "partition compiled plan"@,
    );
    digests_are_accepted_behind_their_prefix(
        p.result_digest@,
        "pf-partition-result-v1:"@,
        ""@,
        "partition result"@,
    );
}

proof fn partitions_sound(partitions: Seq<PartitionEvidenceV1>, n: nat)
    requires
        n <= partitions.len(),
    ensures
        partitions_error(partitions, n) is None <==> forall|i: int|
            0 <= i < n ==> sound_partition(#[trigger] partitions[i], i, partitions[0]),
    decreases n,
{
    if n > 0 {
        partitions_sound(partitions, (n - 1) as nat);
        partition_sound(partitions[n - 1], n - 1, partitions[0]);
        if partitions_error(partitions, n) is None {
            assert(sound_partition(partitions[n - 1], n - 1, partitions[0]));
        }
    }
}

/// The body of a manifest is accepted exactly where it has partitions, numbered in order, each
/// with its digests and all bound to one schema, one contract and one plan, and a digest of the
/// whole result.
pub proof fn manifests_are_accepted_for_their_partitions(
    partitions: Seq<PartitionEvidenceV1>,
    global_result_digest: Seq<char>,
)
    ensures
        body_error(partitions, global_result_digest) is None <==> partitions.len() > 0
            && digest_behind(global_result_digest, "pf-result-v1:"@) && forall|i: int|
            0 <= i < partitions.len() ==> sound_partition(
                #[trigger] partitions[i],
                i,
                partitions[0],
            ),
{
    digests_are_accepted_behind_their_prefix(
        global_result_digest,
        "pf-result-v1:"@,
        ""@,
        "global partition result"@,
    );
    partitions_sound(partitions, partitions.len());
}

} // verus!
