//! Governance checks of the conformance contracts: the openCypher 9 manifest, its required
//! tests and TCK scenarios, and the Neo4j compatibility manifest.

use vstd::prelude::*;
use crate::contracts::{OpenCypher9TckRequiredSpec, required_ids};
use crate::errors::{ErrorCode, GraphDbError};
use crate::keyed::Keyed;
use crate::graph::{labels_contain, strings_view};
use crate::text::{chars_of, concat, owned, str_eq, string_from_chars, trim, trim_chars};

verus! {

/// The spec id the openCypher 9 manifest must carry.
pub const OPENCYPHER_REQUIRED_SPEC_ID: &'static str = "AGDB-CYPHER-OPENCYPHER9@1.0.0";
/// The baseline id of the Neo4j compatibility contract.
pub const NEO4J_COMPAT_REQUIRED_SPEC_ID: &'static str = "NEO4J-COMPAT-BASELINE-001";

/// The required tests of the openCypher 9 profile.
#[derive(Debug)]
pub struct RequiredTestsSpec {
    pub version: String,
    pub spec_id: String,
    pub required_tests: Vec<RequiredTestCase>,
}

/// One required test: its id, whether it is positive or negative, and what it covers.
#[derive(Debug)]
pub struct RequiredTestCase {
    pub id: String,
    pub test_type: String,
    pub covers_req: String,
    pub covers_acceptance: String,
    pub covers_tck_ids: Option<Vec<String>>,
}

/// The openCypher 9 feature manifest.
#[derive(Debug)]
pub struct ManifestSpec {
    pub spec_id: String,
    pub full_support: bool,
    pub coverage_mode: String,
    pub snapshot_ref: String,
    pub upstream_normative_total_count: u64,
    pub extracted_normative_hash: String,
    pub normative_feature_count: u64,
    pub classified_feature_count: u64,
    pub classified_normative_feature_count: u64,
    pub covers_tck_ids: Vec<String>,
    pub features: Vec<ManifestFeature>,
}

/// One feature of the openCypher 9 manifest.
#[derive(Debug)]
pub struct ManifestFeature {
    pub feature_id: String,
    pub normative: bool,
    pub status: String,
}

/// The required tests and governance checks of the Neo4j compatibility baseline.
#[derive(Debug)]
pub struct Neo4jCompatRequiredSpec {
    pub baseline_id: String,
    pub manifest_id: String,
    pub required_test_ids: Vec<String>,
    pub governance_checks: Vec<String>,
}

/// The Neo4j compatibility manifest.
#[derive(Debug)]
pub struct Neo4jCompatManifestSpec {
    pub manifest_id: String,
    pub baseline_mode: String,
    pub snapshot_ref: String,
    pub classified_feature_count: u64,
    pub required_feature_count: u64,
    pub features: Vec<Neo4jCompatFeature>,
}

/// One feature of the Neo4j compatibility manifest.
#[derive(Debug)]
pub struct Neo4jCompatFeature {
    pub feature_id: String,
    pub clause: String,
    pub status: String,
    pub covers_req: Vec<String>,
    pub covers_acceptance: Vec<String>,
}

/// The outcome of one governance check.
#[derive(Debug)]
pub struct GateCheckResult {
    pub check_id: String,
    pub status: String,
    pub detail: Option<String>,
}

/// The outcome for one manifest feature.
#[derive(Debug)]
pub struct FeatureConformanceResult {
    pub feature_id: String,
    pub status: String,
}

/// The outcome of one clause probe.
#[derive(Debug)]
pub struct ClauseConformanceResult {
    pub clause: String,
    pub status: String,
}

/// Whether `c` is an ASCII hexadecimal digit.
pub open spec fn is_hex(c: char) -> bool {
    ('0' <= c && c <= '9') || ('a' <= c && c <= 'f') || ('A' <= c && c <= 'F')
}

/// Whether `s` is a 40-digit hexadecimal commit id.
pub open spec fn hex_sha40(s: Seq<char>) -> bool {
    s.len() == 40 && forall|i: int| 0 <= i < s.len() ==> is_hex(#[trigger] s[i])
}

/// Whether `input` is a 40-digit hexadecimal commit id.
pub fn is_hex_sha40(input: &str) -> (res: bool)
    ensures
        res == hex_sha40(input@),
{
    let v = chars_of(input);
    if v.len() != 40 {
        return false;
    }
    let mut i: usize = 0;
    while i < v.len()
        invariant
            v@ == input@,
            v@.len() == 40,
            i <= v@.len(),
            forall|j: int| 0 <= j < i ==> is_hex(#[trigger] v@[j]),
        decreases v@.len() - i,
    {
        let c = v[i];
        if !(('0' <= c && c <= '9') || ('a' <= c && c <= 'f') || ('A' <= c && c <= 'F')) {
            assert(!is_hex(input@[i as int]));
            return false;
        }
        i += 1;
    }
    true
}

/// Whether `e` is an `UNSUPPORTED_FEATURE` error with this message and no details.
pub open spec fn unsupported_is(e: GraphDbError, message: Seq<char>) -> bool {
    e.code == ErrorCode::UnsupportedFeature && e.message@ == message && e.details is None
}

/// An outcome that is `Ok` without a problem, else the error with the problem as message.
pub open spec fn checked(res: Result<(), GraphDbError>, problem: Option<Seq<char>>) -> bool {
    match problem {
        None => res is Ok,
        Some(m) => res matches Err(e) && unsupported_is(e, m),
    }
}

fn unsupported_error(message: &str) -> (res: GraphDbError)
    ensures
        unsupported_is(res, message@),
{
    GraphDbError::new(ErrorCode::UnsupportedFeature, message)
}

fn unsupported_with(prefix: &str, value: &str) -> (res: GraphDbError)
    ensures
        unsupported_is(res, prefix@ + value@),
{
    let m = concat(&chars_of(prefix), &chars_of(value));
    let s = string_from_chars(m.as_slice());
    GraphDbError::new(ErrorCode::UnsupportedFeature, s.as_str())
}

/// Checks that the TCK snapshot is pinned to a commit id.
pub fn validate_snapshot_ref_is_sha(spec: &OpenCypher9TckRequiredSpec) -> (res: Result<(), GraphDbError>)
    ensures
        checked(res, if hex_sha40(spec.source.snapshot_ref@) { None } else {
            Some("snapshot_ref must be 40-char commit SHA, got: "@ + spec.source.snapshot_ref@)
        }),
{
    if is_hex_sha40(spec.source.snapshot_ref.as_str()) {
        Ok(())
    } else {
        Err(unsupported_with("snapshot_ref must be 40-char commit SHA, got: ", spec.source.snapshot_ref.as_str()))
    }
}

/// The first problem with the openCypher 9 manifest's header, if any.
pub open spec fn manifest_schema_problem(m: &ManifestSpec) -> Option<Seq<char>> {
    if m.spec_id@ != OPENCYPHER_REQUIRED_SPEC_ID@ {
        Some("manifest spec_id mismatch: "@ + m.spec_id@)
    } else if !m.full_support {
        Some("full_support must be true for openCypher 9 profile"@)
    } else if m.coverage_mode@ != "closed_world"@ {
        Some("coverage_mode must be closed_world"@)
    } else if !hex_sha40(m.snapshot_ref@) {
        Some("manifest snapshot_ref must be commit SHA"@)
    } else if trim(m.extracted_normative_hash@).len() == 0 {
        Some("extracted_normative_hash must not be empty"@)
    } else if m.classified_feature_count < m.classified_normative_feature_count {
        Some("classified_feature_count must be >= classified_normative_feature_count"@)
    } else if m.normative_feature_count != m.classified_normative_feature_count {
        Some("normative_feature_count and classified_normative_feature_count must match"@)
    } else {
        None
    }
}

/// Checks the openCypher 9 manifest's header: spec id, full support, closed-world coverage,
/// a pinned snapshot, a normative hash and consistent feature counts.
pub fn validate_manifest_schema(manifest: &ManifestSpec) -> (res: Result<(), GraphDbError>)
    ensures
        checked(res, manifest_schema_problem(manifest)),
{
    if !str_eq(manifest.spec_id.as_str(), OPENCYPHER_REQUIRED_SPEC_ID) {
        return Err(unsupported_with("manifest spec_id mismatch: ", manifest.spec_id.as_str()));
    }
    if !manifest.full_support {
        return Err(unsupported_error("full_support must be true for openCypher 9 profile"));
    }
    if !str_eq(manifest.coverage_mode.as_str(), "closed_world") {
        return Err(unsupported_error("coverage_mode must be closed_world"));
    }
    if !is_hex_sha40(manifest.snapshot_ref.as_str()) {
        return Err(unsupported_error("manifest snapshot_ref must be commit SHA"));
    }
    if trim_chars(&chars_of(manifest.extracted_normative_hash.as_str())).len() == 0 {
        return Err(unsupported_error("extracted_normative_hash must not be empty"));
    }
    if manifest.classified_feature_count < manifest.classified_normative_feature_count {
        return Err(unsupported_error("classified_feature_count must be >= classified_normative_feature_count"));
    }
    if manifest.normative_feature_count != manifest.classified_normative_feature_count {
        return Err(unsupported_error("normative_feature_count and classified_normative_feature_count must match"));
    }
    Ok(())
}

/// Under full support, the first normative feature that is not `required`, if any.
pub open spec fn full_support_problem(fs: Seq<ManifestFeature>) -> Option<Seq<char>>
    decreases fs.len(),
{
    if fs.len() == 0 {
        None
    } else {
        match full_support_problem(fs.drop_last()) {
            Some(p) => Some(p),
            None => if fs.last().normative && fs.last().status@ != "required"@ {
                Some("normative feature "@ + fs.last().feature_id@ + " must be required under full_support"@)
            } else {
                None
            },
        }
    }
}

proof fn lemma_full_support_prefix(fs: Seq<ManifestFeature>, j: int)
    requires
        0 <= j <= fs.len(),
        full_support_problem(fs.take(j)) is Some,
    ensures
        full_support_problem(fs) == full_support_problem(fs.take(j)),
    decreases fs.len() - j,
{
    if j < fs.len() {
        assert(fs.take(j + 1).drop_last() =~= fs.take(j));
        lemma_full_support_prefix(fs, j + 1);
    } else {
        assert(fs.take(j) =~= fs);
    }
}

/// Under full support, checks that every normative feature is `required`.
pub fn validate_full_support_rules(manifest: &ManifestSpec) -> (res: Result<(), GraphDbError>)
    ensures
        checked(res, if manifest.full_support { full_support_problem(manifest.features@) } else { None }),
{
    if !manifest.full_support {
        return Ok(());
    }
    let ghost fs = manifest.features@;
    let mut i: usize = 0;
    assert(fs.take(0) =~= Seq::<ManifestFeature>::empty());
    while i < manifest.features.len()
        invariant
            fs == manifest.features@,
            manifest.full_support,
            i <= fs.len(),
            full_support_problem(fs.take(i as int)) is None,
        decreases fs.len() - i,
    {
        let f = &manifest.features[i];
        assert(fs.take(i as int + 1).drop_last() =~= fs.take(i as int));
        assert(fs.take(i as int + 1).last() == *f);
        if f.normative && !str_eq(f.status.as_str(), "required") {
            let m1 = concat(&chars_of("normative feature "), &chars_of(f.feature_id.as_str()));
            let m2 = concat(&m1, &chars_of(" must be required under full_support"));
            let s = string_from_chars(m2.as_slice());
            proof { lemma_full_support_prefix(fs, i as int + 1); }
            return Err(GraphDbError::new(ErrorCode::UnsupportedFeature, s.as_str()));
        }
        i += 1;
    }
    assert(fs.take(fs.len() as int) =~= fs);
    Ok(())
}

/// The negative cases every required-test list must hold.
pub open spec fn mandatory_negative_cases() -> Seq<Seq<char>> {
    seq![
        "OC9-SYNTAX-ERROR-CODE-001"@,
        "OC9-UNSUPPORTED-FEATURE-ATOMICITY-001"@,
        "OC9-MANIFEST-NORMATIVE-NONREQUIRED-FAIL-001"@,
        "OC9-TCK-SNAPSHOT-REF-SHA-001"@,
    ]
}

/// The ids of the required tests.
pub open spec fn test_ids(r: &RequiredTestsSpec) -> Seq<Seq<char>> {
    r.required_tests@.map_values(|t: RequiredTestCase| t.id@)
}

/// The first id of `wanted` that `have` lacks, if any.
pub open spec fn first_missing(wanted: Seq<Seq<char>>, have: Seq<Seq<char>>) -> Option<Seq<char>>
    decreases wanted.len(),
{
    if wanted.len() == 0 {
        None
    } else if !have.contains(wanted[0]) {
        Some(wanted[0])
    } else {
        first_missing(wanted.drop_first(), have)
    }
}

/// The first id of `wanted` that `have` lacks, if any.
fn first_missing_exec(wanted: &Vec<String>, have: &Vec<String>) -> (res: Option<usize>)
    ensures
        match res {
            Some(i) => i < wanted@.len() && first_missing(strings_view(wanted@), strings_view(have@)) == Some(wanted@[i as int]@),
            None => first_missing(strings_view(wanted@), strings_view(have@)) is None,
        },
{
    let ghost w = strings_view(wanted@);
    let ghost h = strings_view(have@);
    let mut i: usize = 0;
    assert(w.subrange(0, w.len() as int) =~= w);
    while i < wanted.len()
        invariant
            w == strings_view(wanted@),
            h == strings_view(have@),
            i <= wanted@.len(),
            first_missing(w, h) == first_missing(w.subrange(i as int, w.len() as int), h),
        decreases wanted@.len() - i,
    {
        let ghost rest = w.subrange(i as int, w.len() as int);
        assert(rest[0] == wanted@[i as int]@);
        if !labels_contain(have, wanted[i].as_str()) {
            return Some(i);
        }
        assert(rest.drop_first() =~= w.subrange(i as int + 1, w.len() as int));
        i += 1;
    }
    assert(w.subrange(i as int, w.len() as int) =~= Seq::<Seq<char>>::empty());
    None
}

fn mandatory_negative_cases_exec() -> (res: Vec<String>)
    ensures
        strings_view(res@) == mandatory_negative_cases(),
{
    let mut v: Vec<String> = Vec::new();
    v.push(owned("OC9-SYNTAX-ERROR-CODE-001"));
    v.push(owned("OC9-UNSUPPORTED-FEATURE-ATOMICITY-001"));
    v.push(owned("OC9-MANIFEST-NORMATIVE-NONREQUIRED-FAIL-001"));
    v.push(owned("OC9-TCK-SNAPSHOT-REF-SHA-001"));
    assert(strings_view(v@) =~= mandatory_negative_cases());
    v
}

fn test_ids_exec(required: &RequiredTestsSpec) -> (res: Vec<String>)
    ensures
        strings_view(res@) == test_ids(required),
{
    let mut out: Vec<String> = Vec::new();
    let mut i: usize = 0;
    while i < required.required_tests.len()
        invariant
            i <= required.required_tests@.len(),
            out@.len() == i,
            forall|j: int| 0 <= j < i ==> (#[trigger] out@[j])@ == required.required_tests@[j].id@,
        decreases required.required_tests@.len() - i,
    {
        out.push(required.required_tests[i].id.clone());
        i += 1;
    }
    assert(strings_view(out@) =~= test_ids(required));
    out
}

/// Checks that the required tests hold every mandatory negative case.
pub fn validate_required_negative_cases(required: &RequiredTestsSpec) -> (res: Result<(), GraphDbError>)
    ensures
        checked(res, match first_missing(mandatory_negative_cases(), test_ids(required)) {
            Some(id) => Some("mandatory negative-case missing: "@ + id),
            None => None,
        }),
{
    let must = mandatory_negative_cases_exec();
    let ids = test_ids_exec(required);
    match first_missing_exec(&must, &ids) {
        Some(i) => Err(unsupported_with("mandatory negative-case missing: ", must[i].as_str())),
        None => Ok(()),
    }
}

/// The number of distinct values in `s`.
pub open spec fn distinct_count(s: Seq<Seq<char>>) -> nat
    decreases s.len(),
{
    if s.len() == 0 {
        0
    } else {
        distinct_count(s.drop_last()) + if s.drop_last().contains(s.last()) { 0nat } else { 1nat }
    }
}

/// Whether two lists hold the same values, as sets.
pub open spec fn same_members(a: Seq<Seq<char>>, b: Seq<Seq<char>>) -> bool {
    forall|x: Seq<char>| a.contains(x) <==> b.contains(x)
}

/// The first problem between the manifest's TCK ids and the TCK contract, if any.
pub open spec fn tck_sync_problem(m: &ManifestSpec, tck: &OpenCypher9TckRequiredSpec) -> Option<Seq<char>> {
    if !same_members(strings_view(m.covers_tck_ids@), required_ids(tck)) {
        Some("covers_tck_ids and required_tck_ids mismatch"@)
    } else if m.upstream_normative_total_count != distinct_count(required_ids(tck)) {
        Some("upstream_normative_total_count does not match required_tck_ids length"@)
    } else {
        None
    }
}

fn all_contained(a: &Vec<String>, b: &Vec<String>) -> (res: bool)
    ensures
        res == forall|x: Seq<char>| strings_view(a@).contains(x) ==> strings_view(b@).contains(x),
{
    let mut i: usize = 0;
    while i < a.len()
        invariant
            i <= a@.len(),
            forall|j: int| 0 <= j < i ==> strings_view(b@).contains(#[trigger] a@[j]@),
        decreases a@.len() - i,
    {
        if !labels_contain(b, a[i].as_str()) {
            assert(strings_view(a@)[i as int] == a@[i as int]@);
            return false;
        }
        i += 1;
    }
    assert forall|x: Seq<char>| strings_view(a@).contains(x) implies strings_view(b@).contains(x) by {
        let j = choose|j: int| 0 <= j < strings_view(a@).len() && strings_view(a@)[j] == x;
        assert(strings_view(a@)[j] == a@[j]@);
    }
    true
}

fn distinct_count_exec(v: &Vec<String>) -> (res: u64)
    ensures
        res == distinct_count(strings_view(v@)),
{
    let ghost s = strings_view(v@);
    let mut n: u64 = 0;
    let mut i: usize = 0;
    assert(s.take(0) =~= Seq::<Seq<char>>::empty());
    while i < v.len()
        invariant
            s == strings_view(v@),
            i <= v@.len(),
            n == distinct_count(s.take(i as int)),
            n <= i,
            i <= u64::MAX || true,
        decreases v@.len() - i,
    {
        assert(s.take(i as int + 1).drop_last() =~= s.take(i as int));
        assert(s.take(i as int + 1).last() == v@[i as int]@);
        let mut seen = false;
        let mut j: usize = 0;
        while j < i
            invariant
                j <= i < v@.len(),
                s == strings_view(v@),
                seen == exists|k: int| 0 <= k < j && v@[k]@ == v@[i as int]@,
            decreases i - j,
        {
            if str_eq(v[j].as_str(), v[i].as_str()) {
                seen = true;
            }
            j += 1;
        }
        proof {
            let pre = s.take(i as int);
            if seen {
                let k = choose|k: int| 0 <= k < i && v@[k]@ == v@[i as int]@;
                assert(pre[k] == v@[k]@);
                assert(pre.contains(v@[i as int]@));
            } else {
                assert forall|k: int| 0 <= k < pre.len() implies pre[k] != v@[i as int]@ by {
                    assert(pre[k] == v@[k]@);
                }
            }
        }
        if !seen {
            assert(n < 0xffff_ffff_ffff_ffffu64) by {
                assert(n <= i);
                assert(i < v@.len());
            }
            n = n + 1;
        }
        i += 1;
    }
    assert(s.take(v@.len() as int) =~= s);
    n
}

fn required_ids_exec(tck: &OpenCypher9TckRequiredSpec) -> (res: Vec<String>)
    ensures
        strings_view(res@) == required_ids(tck),
{
    let mut out: Vec<String> = Vec::new();
    let mut i: usize = 0;
    while i < tck.required_tck_ids.len()
        invariant
            i <= tck.required_tck_ids@.len(),
            out@.len() == i,
            forall|j: int| 0 <= j < i ==> (#[trigger] out@[j])@ == tck.required_tck_ids@[j].id@,
        decreases tck.required_tck_ids@.len() - i,
    {
        out.push(tck.required_tck_ids[i].id.clone());
        i += 1;
    }
    assert(strings_view(out@) =~= required_ids(tck));
    out
}

/// Checks that the manifest covers exactly the required TCK scenarios and counts them.
pub fn validate_manifest_tck_sync(manifest: &ManifestSpec, tck: &OpenCypher9TckRequiredSpec) -> (res: Result<(), GraphDbError>)
    ensures
        checked(res, tck_sync_problem(manifest, tck)),
{
    let required = required_ids_exec(tck);
    let a = all_contained(&manifest.covers_tck_ids, &required);
    let b = all_contained(&required, &manifest.covers_tck_ids);
    if !(a && b) {
        return Err(unsupported_error("covers_tck_ids and required_tck_ids mismatch"));
    }
    if manifest.upstream_normative_total_count != distinct_count_exec(&required) {
        return Err(unsupported_error("upstream_normative_total_count does not match required_tck_ids length"));
    }
    Ok(())
}

/// The first problem the openCypher 9 governance checks find, in order: the snapshot ref,
/// the manifest schema, the full-support rules, the mandatory negative cases, and the
/// manifest's sync with the TCK contract.
pub open spec fn governance_problem(tck: &OpenCypher9TckRequiredSpec, required: &RequiredTestsSpec, manifest: &ManifestSpec)
    -> Option<Seq<char>>
{
    if !hex_sha40(tck.source.snapshot_ref@) {
        Some("snapshot_ref must be 40-char commit SHA, got: "@ + tck.source.snapshot_ref@)
    } else if manifest_schema_problem(manifest) is Some {
        manifest_schema_problem(manifest)
    } else if manifest.full_support && full_support_problem(manifest.features@) is Some {
        full_support_problem(manifest.features@)
    } else if first_missing(mandatory_negative_cases(), test_ids(required)) is Some {
        Some("mandatory negative-case missing: "@ + first_missing(mandatory_negative_cases(), test_ids(required))->0)
    } else {
        tck_sync_problem(manifest, tck)
    }
}

/// Runs the openCypher 9 governance checks in order and stops at the first failure, whose
/// error it returns.
pub fn run_conformance_governance_checks(tck: &OpenCypher9TckRequiredSpec, required: &RequiredTestsSpec, manifest: &ManifestSpec)
    -> (res: Result<(), GraphDbError>)
    ensures
        checked(res, governance_problem(tck, required, manifest)),
{
    validate_snapshot_ref_is_sha(tck)?;
    validate_manifest_schema(manifest)?;
    validate_full_support_rules(manifest)?;
    validate_required_negative_cases(required)?;
    validate_manifest_tck_sync(manifest, tck)?;
    Ok(())
}

} // verus!

verus! {

/// How many features of `fs` have status `st`.
pub open spec fn status_count(fs: Seq<Neo4jCompatFeature>, st: Seq<char>) -> nat
    decreases fs.len(),
{
    if fs.len() == 0 {
        0
    } else {
        status_count(fs.drop_last(), st) + if fs.last().status@ == st { 1nat } else { 0nat }
    }
}

/// The first problem with a feature entry, in order, if any.
pub open spec fn feature_entry_problem(fs: Seq<Neo4jCompatFeature>) -> Option<Seq<char>>
    decreases fs.len(),
{
    if fs.len() == 0 {
        None
    } else {
        match feature_entry_problem(fs.drop_last()) {
            Some(p) => Some(p),
            None => {
                let f = fs.last();
                if trim(f.feature_id@).len() == 0 || trim(f.clause@).len() == 0 {
                    Some("neo4j compat feature_id and clause must not be empty"@)
                } else if f.status@ != "required"@ && f.status@ != "unsupported"@ {
                    Some("unsupported neo4j compat status: "@ + f.status@)
                } else if f.covers_req@.len() == 0 || f.covers_acceptance@.len() == 0 {
                    Some("neo4j compat feature coverage missing: "@ + f.feature_id@)
                } else {
                    None
                }
            },
        }
    }
}

/// The first problem with the Neo4j compatibility manifest's schema, if any.
pub open spec fn neo4j_schema_problem(m: &Neo4jCompatManifestSpec) -> Option<Seq<char>> {
    if m.manifest_id@ != "agdb-cypher-neo4j-compat.v1.0.0"@ {
        Some("neo4j compat manifest_id mismatch: "@ + m.manifest_id@)
    } else if m.baseline_mode@ != "closed_world"@ {
        Some("neo4j compat baseline_mode must be closed_world"@)
    } else if !hex_sha40(m.snapshot_ref@) {
        Some("neo4j compat snapshot_ref must be commit SHA"@)
    } else if m.features@.len() != m.classified_feature_count {
        Some("neo4j compat classified_feature_count must match features length"@)
    } else if status_count(m.features@, "required"@) != m.required_feature_count {
        Some("neo4j compat required_feature_count must match required status entries"@)
    } else {
        feature_entry_problem(m.features@)
    }
}

proof fn lemma_entry_prefix(fs: Seq<Neo4jCompatFeature>, j: int)
    requires
        0 <= j <= fs.len(),
        feature_entry_problem(fs.take(j)) is Some,
    ensures
        feature_entry_problem(fs) == feature_entry_problem(fs.take(j)),
    decreases fs.len() - j,
{
    if j < fs.len() {
        assert(fs.take(j + 1).drop_last() =~= fs.take(j));
        lemma_entry_prefix(fs, j + 1);
    } else {
        assert(fs.take(j) =~= fs);
    }
}

fn status_count_exec(fs: &Vec<Neo4jCompatFeature>, st: &str) -> (res: u64)
    ensures
        res == status_count(fs@, st@),
{
    let mut n: u64 = 0;
    let mut i: usize = 0;
    assert(fs@.take(0) =~= Seq::<Neo4jCompatFeature>::empty());
    while i < fs.len()
        invariant
            i <= fs@.len(),
            n == status_count(fs@.take(i as int), st@),
            n <= i,
        decreases fs@.len() - i,
    {
        assert(fs@.take(i as int + 1).drop_last() =~= fs@.take(i as int));
        assert(fs@.take(i as int + 1).last() == fs@[i as int]);
        if str_eq(fs[i].status.as_str(), st) {
            assert(n < 0xffff_ffff_ffff_ffffu64) by {
                assert(n <= i);
                assert(i < fs@.len());
            }
            n = n + 1;
        }
        i += 1;
    }
    assert(fs@.take(fs@.len() as int) =~= fs@);
    n
}

/// Checks the Neo4j compatibility manifest: its id, closed-world baseline, pinned snapshot,
/// feature counts, and that each feature names an id and a clause, has a known status and
/// covers requirements and acceptance criteria.
pub fn validate_neo4j_compat_manifest_schema(manifest: &Neo4jCompatManifestSpec) -> (res: Result<(), GraphDbError>)
    ensures
        checked(res, neo4j_schema_problem(manifest)),
{
    if !str_eq(manifest.manifest_id.as_str(), "agdb-cypher-neo4j-compat.v1.0.0") {
        return Err(unsupported_with("neo4j compat manifest_id mismatch: ", manifest.manifest_id.as_str()));
    }
    if !str_eq(manifest.baseline_mode.as_str(), "closed_world") {
        return Err(unsupported_error("neo4j compat baseline_mode must be closed_world"));
    }
    if !is_hex_sha40(manifest.snapshot_ref.as_str()) {
        return Err(unsupported_error("neo4j compat snapshot_ref must be commit SHA"));
    }
    if manifest.features.len() as u64 != manifest.classified_feature_count {
        return Err(unsupported_error("neo4j compat classified_feature_count must match features length"));
    }
    if status_count_exec(&manifest.features, "required") != manifest.required_feature_count {
        return Err(unsupported_error("neo4j compat required_feature_count must match required status entries"));
    }
    let ghost fs = manifest.features@;
    let mut i: usize = 0;
    assert(fs.take(0) =~= Seq::<Neo4jCompatFeature>::empty());
    while i < manifest.features.len()
        invariant
            fs == manifest.features@,
            i <= fs.len(),
            feature_entry_problem(fs.take(i as int)) is None,
            neo4j_schema_problem(manifest) == feature_entry_problem(fs),
        decreases fs.len() - i,
    {
        let f = &manifest.features[i];
        assert(fs.take(i as int + 1).drop_last() =~= fs.take(i as int));
        assert(fs.take(i as int + 1).last() == *f);
        if trim_chars(&chars_of(f.feature_id.as_str())).len() == 0 || trim_chars(&chars_of(f.clause.as_str())).len() == 0 {
            proof { lemma_entry_prefix(fs, i as int + 1); }
            return Err(unsupported_error("neo4j compat feature_id and clause must not be empty"));
        }
        if !str_eq(f.status.as_str(), "required") && !str_eq(f.status.as_str(), "unsupported") {
            proof { lemma_entry_prefix(fs, i as int + 1); }
            return Err(unsupported_with("unsupported neo4j compat status: ", f.status.as_str()));
        }
        if f.covers_req.len() == 0 || f.covers_acceptance.len() == 0 {
            proof { lemma_entry_prefix(fs, i as int + 1); }
            return Err(unsupported_with("neo4j compat feature coverage missing: ", f.feature_id.as_str()));
        }
        i += 1;
    }
    assert(fs.take(fs.len() as int) =~= fs);
    Ok(())
}

/// Among the features with status `st`, the first that does not cover requirement `req` or
/// has no acceptance criteria, described with `label`.
pub open spec fn status_coverage_problem(fs: Seq<Neo4jCompatFeature>, st: Seq<char>, req: Seq<char>, label: Seq<char>) -> Option<Seq<char>>
    decreases fs.len(),
{
    if fs.len() == 0 {
        None
    } else {
        match status_coverage_problem(fs.drop_last(), st, req, label) {
            Some(p) => Some(p),
            None => {
                let f = fs.last();
                if f.status@ != st {
                    None
                } else if !strings_view(f.covers_req@).contains(req) {
                    Some(label + " feature missing "@ + req + " coverage: "@ + f.feature_id@)
                } else if f.covers_acceptance@.len() == 0 {
                    Some(label + " feature missing acceptance coverage: "@ + f.feature_id@)
                } else {
                    None
                }
            },
        }
    }
}

proof fn lemma_coverage_prefix(fs: Seq<Neo4jCompatFeature>, st: Seq<char>, req: Seq<char>, label: Seq<char>, j: int)
    requires
        0 <= j <= fs.len(),
        status_coverage_problem(fs.take(j), st, req, label) is Some,
    ensures
        status_coverage_problem(fs, st, req, label) == status_coverage_problem(fs.take(j), st, req, label),
    decreases fs.len() - j,
{
    if j < fs.len() {
        assert(fs.take(j + 1).drop_last() =~= fs.take(j));
        lemma_coverage_prefix(fs, st, req, label, j + 1);
    } else {
        assert(fs.take(j) =~= fs);
    }
}

fn status_coverage_exec(fs: &Vec<Neo4jCompatFeature>, st: &str, req: &str, label: &str) -> (res: Result<(), GraphDbError>)
    ensures
        checked(res, status_coverage_problem(fs@, st@, req@, label@)),
{
    let mut i: usize = 0;
    assert(fs@.take(0) =~= Seq::<Neo4jCompatFeature>::empty());
    while i < fs.len()
        invariant
            i <= fs@.len(),
            status_coverage_problem(fs@.take(i as int), st@, req@, label@) is None,
        decreases fs@.len() - i,
    {
        let f = &fs[i];
        assert(fs@.take(i as int + 1).drop_last() =~= fs@.take(i as int));
        assert(fs@.take(i as int + 1).last() == *f);
        if str_eq(f.status.as_str(), st) {
            if !labels_contain(&f.covers_req, req) {
                let m = concat(&concat(&concat(&concat(&chars_of(label), &chars_of(" feature missing ")), &chars_of(req)),
                    &chars_of(" coverage: ")), &chars_of(f.feature_id.as_str()));
                let s = string_from_chars(m.as_slice());
                proof { lemma_coverage_prefix(fs@, st@, req@, label@, i as int + 1); }
                return Err(GraphDbError::new(ErrorCode::UnsupportedFeature, s.as_str()));
            }
            if f.covers_acceptance.len() == 0 {
                let m = concat(&concat(&chars_of(label), &chars_of(" feature missing acceptance coverage: ")),
                    &chars_of(f.feature_id.as_str()));
                let s = string_from_chars(m.as_slice());
                proof { lemma_coverage_prefix(fs@, st@, req@, label@, i as int + 1); }
                return Err(GraphDbError::new(ErrorCode::UnsupportedFeature, s.as_str()));
            }
        }
        i += 1;
    }
    assert(fs@.take(fs@.len() as int) =~= fs@);
    Ok(())
}

/// The acceptance criteria covered by the required features, in order.
pub open spec fn acceptance_list(fs: Seq<Neo4jCompatFeature>) -> Seq<Seq<char>>
    decreases fs.len(),
{
    if fs.len() == 0 {
        Seq::empty()
    } else {
        acceptance_list(fs.drop_last()) + if fs.last().status@ == "required"@ {
            strings_view(fs.last().covers_acceptance@)
        } else {
            Seq::empty()
        }
    }
}

/// The clauses of the unsupported features, in order.
pub open spec fn unsupported_clause_list(fs: Seq<Neo4jCompatFeature>) -> Seq<Seq<char>>
    decreases fs.len(),
{
    if fs.len() == 0 {
        Seq::empty()
    } else {
        unsupported_clause_list(fs.drop_last()) + if fs.last().status@ == "unsupported"@ {
            seq![fs.last().clause@]
        } else {
            Seq::empty()
        }
    }
}

/// The acceptance criteria the required features must cover together.
pub open spec fn expected_required_acceptance() -> Seq<Seq<char>> {
    seq![
        "CYPHER-NEO4J-001"@, "CYPHER-NEO4J-002"@, "CYPHER-NEO4J-003"@, "CYPHER-NEO4J-004"@,
        "CYPHER-NEO4J-005"@, "CYPHER-NEO4J-006"@, "CYPHER-NEO4J-007"@, "CYPHER-NEO4J-008"@,
        "CYPHER-NEO4J-009"@, "CYPHER-NEO4J-010"@, "CYPHER-NEO4J-011"@, "CYPHER-NEO4J-012"@,
        "CYPHER-NEO4J-013"@, "CYPHER-NEO4J-014"@, "CYPHER-NEO4J-015"@, "CYPHER-NEO4J-016"@,
        "CYPHER-NEO4J-017"@, "CYPHER-NEO4J-018"@, "CYPHER-NEO4J-019"@, "CYPHER-NEO4J-020"@,
        "CYPHER-NEO4J-021"@,
    ]
}

/// The clauses the manifest must list as unsupported.
pub open spec fn expected_unsupported_clauses() -> Seq<Seq<char>> {
    seq!["FOREACH"@, "shortestPath"@, "variable-length path"@, "pattern comprehension"@, "LOAD CSV"@]
}

/// The first coverage problem of the Neo4j compatibility manifest, if any.
pub open spec fn neo4j_coverage_problem(m: &Neo4jCompatManifestSpec) -> Option<Seq<char>> {
    let fs = m.features@;
    match status_coverage_problem(fs, "required"@, "REQ-AGDB-024"@, "required"@) {
        Some(p) => Some(p),
        None => match status_coverage_problem(fs, "unsupported"@, "REQ-AGDB-025"@, "unsupported"@) {
            Some(p) => Some(p),
            None => match first_missing(expected_required_acceptance(), acceptance_list(fs)) {
                Some(a) => Some("required acceptance coverage missing: "@ + a),
                None => match first_missing(expected_unsupported_clauses(), unsupported_clause_list(fs)) {
                    Some(c) => Some("unsupported clause missing from manifest: "@ + c),
                    None => None,
                },
            },
        },
    }
}

fn expected_required_acceptance_exec() -> (res: Vec<String>)
    ensures
        strings_view(res@) == expected_required_acceptance(),
{
    let mut v: Vec<String> = Vec::new();
    v.push(owned("CYPHER-NEO4J-001"));
    v.push(owned("CYPHER-NEO4J-002"));
    v.push(owned("CYPHER-NEO4J-003"));
    v.push(owned("CYPHER-NEO4J-004"));
    v.push(owned("CYPHER-NEO4J-005"));
    v.push(owned("CYPHER-NEO4J-006"));
    v.push(owned("CYPHER-NEO4J-007"));
    v.push(owned("CYPHER-NEO4J-008"));
    v.push(owned("CYPHER-NEO4J-009"));
    v.push(owned("CYPHER-NEO4J-010"));
    v.push(owned("CYPHER-NEO4J-011"));
    v.push(owned("CYPHER-NEO4J-012"));
    v.push(owned("CYPHER-NEO4J-013"));
    v.push(owned("CYPHER-NEO4J-014"));
    v.push(owned("CYPHER-NEO4J-015"));
    v.push(owned("CYPHER-NEO4J-016"));
    v.push(owned("CYPHER-NEO4J-017"));
    v.push(owned("CYPHER-NEO4J-018"));
    v.push(owned("CYPHER-NEO4J-019"));
    v.push(owned("CYPHER-NEO4J-020"));
    v.push(owned("CYPHER-NEO4J-021"));
    assert(strings_view(v@) =~= expected_required_acceptance());
    v
}

fn expected_unsupported_clauses_exec() -> (res: Vec<String>)
    ensures
        strings_view(res@) == expected_unsupported_clauses(),
{
    let mut v: Vec<String> = Vec::new();
    v.push(owned("FOREACH"));
    v.push(owned("shortestPath"));
    v.push(owned("variable-length path"));
    v.push(owned("pattern comprehension"));
    v.push(owned("LOAD CSV"));
    assert(strings_view(v@) =~= expected_unsupported_clauses());
    v
}

fn acceptance_list_exec(fs: &Vec<Neo4jCompatFeature>) -> (res: Vec<String>)
    ensures
        strings_view(res@) == acceptance_list(fs@),
{
    let mut out: Vec<String> = Vec::new();
    let mut i: usize = 0;
    assert(fs@.take(0) =~= Seq::<Neo4jCompatFeature>::empty());
    while i < fs.len()
        invariant
            i <= fs@.len(),
            strings_view(out@) == acceptance_list(fs@.take(i as int)),
        decreases fs@.len() - i,
    {
        let f = &fs[i];
        assert(fs@.take(i as int + 1).drop_last() =~= fs@.take(i as int));
        assert(fs@.take(i as int + 1).last() == *f);
        let ghost before = strings_view(out@);
        if str_eq(f.status.as_str(), "required") {
            let mut j: usize = 0;
            while j < f.covers_acceptance.len()
                invariant
                    j <= f.covers_acceptance@.len(),
                    strings_view(out@) == before + strings_view(f.covers_acceptance@).take(j as int),
                decreases f.covers_acceptance@.len() - j,
            {
                let ghost mid = strings_view(out@);
                out.push(f.covers_acceptance[j].clone());
                assert(strings_view(out@) =~= mid.push(f.covers_acceptance@[j as int]@));
                assert(strings_view(f.covers_acceptance@).take(j as int + 1)
                    =~= strings_view(f.covers_acceptance@).take(j as int).push(f.covers_acceptance@[j as int]@));
                j += 1;
            }
            assert(strings_view(f.covers_acceptance@).take(f.covers_acceptance@.len() as int) =~= strings_view(f.covers_acceptance@));
        } else {
            assert(before + Seq::<Seq<char>>::empty() =~= before);
        }
        i += 1;
    }
    assert(fs@.take(fs@.len() as int) =~= fs@);
    out
}

fn unsupported_clause_list_exec(fs: &Vec<Neo4jCompatFeature>) -> (res: Vec<String>)
    ensures
        strings_view(res@) == unsupported_clause_list(fs@),
{
    let mut out: Vec<String> = Vec::new();
    let mut i: usize = 0;
    assert(fs@.take(0) =~= Seq::<Neo4jCompatFeature>::empty());
    while i < fs.len()
        invariant
            i <= fs@.len(),
            strings_view(out@) == unsupported_clause_list(fs@.take(i as int)),
        decreases fs@.len() - i,
    {
        let f = &fs[i];
        assert(fs@.take(i as int + 1).drop_last() =~= fs@.take(i as int));
        assert(fs@.take(i as int + 1).last() == *f);
        let ghost before = strings_view(out@);
        if str_eq(f.status.as_str(), "unsupported") {
            out.push(f.clause.clone());
            assert(strings_view(out@) =~= before + seq![f.clause@]);
        } else {
            assert(before + Seq::<Seq<char>>::empty() =~= before);
        }
        i += 1;
    }
    assert(fs@.take(fs@.len() as int) =~= fs@);
    out
}

/// Checks the coverage of the Neo4j compatibility manifest: required features cover
/// REQ-AGDB-024, unsupported ones REQ-AGDB-025, all have acceptance criteria, the required
/// ones cover every expected acceptance criterion, and every expected unsupported clause is
/// listed.
pub fn validate_neo4j_compat_feature_coverage(manifest: &Neo4jCompatManifestSpec) -> (res: Result<(), GraphDbError>)
    ensures
        checked(res, neo4j_coverage_problem(manifest)),
{
    status_coverage_exec(&manifest.features, "required", "REQ-AGDB-024", "required")?;
    status_coverage_exec(&manifest.features, "unsupported", "REQ-AGDB-025", "unsupported")?;
    let expected = expected_required_acceptance_exec();
    let seen = acceptance_list_exec(&manifest.features);
    if let Some(i) = first_missing_exec(&expected, &seen) {
        return Err(unsupported_with("required acceptance coverage missing: ", expected[i].as_str()));
    }
    let clauses = expected_unsupported_clauses_exec();
    let listed = unsupported_clause_list_exec(&manifest.features);
    if let Some(i) = first_missing_exec(&clauses, &listed) {
        return Err(unsupported_with("unsupported clause missing from manifest: ", clauses[i].as_str()));
    }
    Ok(())
}

} // verus!

verus! {

/// The view of a gate check: its id, status and detail.
pub open spec fn check_view(c: GateCheckResult) -> (Seq<char>, Seq<char>, Option<Seq<char>>) {
    (c.check_id@, c.status@, crate::cypher::opt_string_view(c.detail))
}

/// `PASS` or `FAIL`.
pub open spec fn pass_fail(b: bool) -> Seq<char> {
    if b { "PASS"@ } else { "FAIL"@ }
}

/// The check for a validation: it passes without a problem, else it fails with the problem.
pub open spec fn problem_check(id: Seq<char>, problem: Option<Seq<char>>) -> (Seq<char>, Seq<char>, Option<Seq<char>>) {
    match problem {
        None => (id, "PASS"@, None),
        Some(m) => (id, "FAIL"@, Some(m)),
    }
}

/// The problem an outcome reports, if any.
pub open spec fn outcome_problem(o: Result<(), GraphDbError>) -> Option<Seq<char>> {
    match o {
        Ok(()) => None,
        Err(e) => Some(e.message@),
    }
}

/// The tests the Neo4j compatibility baseline must require.
pub open spec fn neo4j_required_test_ids() -> Seq<Seq<char>> {
    seq!["NEO4J-COMPAT-RUN-001"@, "NEO4J-COMPAT-RUN-002"@, "NEO4J-COMPAT-RUN-003"@,
        "NEO4J-COMPAT-RUN-004"@, "NEO4J-COMPAT-NEG-001"@, "NEO4J-COMPAT-NEG-002"@]
}

/// The governance checks the Neo4j compatibility baseline must list.
pub open spec fn neo4j_governance_check_names() -> Seq<Seq<char>> {
    seq!["manifest_id_matches_contract"@, "required_feature_count_matches_required_status_entries"@,
        "classified_feature_count_matches_feature_entries"@, "required_entries_cover_req_024"@,
        "unsupported_entries_cover_req_025"@]
}

/// The Neo4j compatibility governance checks, in order, given the outcomes of the probes of
/// unsupported clauses and of subqueries.
pub open spec fn neo4j_checks(required: &Neo4jCompatRequiredSpec, manifest: &Neo4jCompatManifestSpec,
    unsupported_clauses: Result<(), GraphDbError>, subqueries: Result<(), GraphDbError>) -> Seq<(Seq<char>, Seq<char>, Option<Seq<char>>)>
{
    seq![
        ("baseline_id_matches_contract"@, pass_fail(required.baseline_id@ == NEO4J_COMPAT_REQUIRED_SPEC_ID@), Some(required.baseline_id@)),
        ("manifest_id_matches_contract"@, pass_fail(required.manifest_id@ == manifest.manifest_id@), Some(required.manifest_id@)),
        problem_check("manifest_schema_valid"@, neo4j_schema_problem(manifest)),
        problem_check("feature_coverage_valid"@, neo4j_coverage_problem(manifest)),
    ]
    + neo4j_required_test_ids().map_values(|id: Seq<char>|
        ("required_test_"@ + id, pass_fail(strings_view(required.required_test_ids@).contains(id)), None::<Seq<char>>))
    + neo4j_governance_check_names().map_values(|c: Seq<char>|
        (c, pass_fail(strings_view(required.governance_checks@).contains(c)), None::<Seq<char>>))
    + seq![
        problem_check("unsupported_clauses_return_unsupported_feature"@, outcome_problem(unsupported_clauses)),
        problem_check("subquery_clauses_execute"@, outcome_problem(subqueries)),
    ]
}

/// A gate check result.
pub fn gate_result(check_id: &str, status: &str, detail: Option<String>) -> (res: GateCheckResult)
    ensures
        res.check_id@ == check_id@,
        res.status@ == status@,
        res.detail == detail,
{
    GateCheckResult { check_id: owned(check_id), status: owned(status), detail }
}

fn problem_result(check_id: &str, outcome: &Result<(), GraphDbError>) -> (res: GateCheckResult)
    ensures
        check_view(res) == problem_check(check_id@, outcome_problem(*outcome)),
{
    match outcome {
        Ok(()) => gate_result(check_id, "PASS", None),
        Err(e) => gate_result(check_id, "FAIL", Some(e.message.clone())),
    }
}

fn pass_fail_str(b: bool) -> (res: &'static str)
    ensures
        res@ == pass_fail(b),
{
    if b { "PASS" } else { "FAIL" }
}

fn neo4j_required_test_ids_exec() -> (res: Vec<String>)
    ensures
        strings_view(res@) == neo4j_required_test_ids(),
{
    let mut v: Vec<String> = Vec::new();
    v.push(owned("NEO4J-COMPAT-RUN-001"));
    v.push(owned("NEO4J-COMPAT-RUN-002"));
    v.push(owned("NEO4J-COMPAT-RUN-003"));
    v.push(owned("NEO4J-COMPAT-RUN-004"));
    v.push(owned("NEO4J-COMPAT-NEG-001"));
    v.push(owned("NEO4J-COMPAT-NEG-002"));
    assert(strings_view(v@) =~= neo4j_required_test_ids());
    v
}

fn neo4j_governance_check_names_exec() -> (res: Vec<String>)
    ensures
        strings_view(res@) == neo4j_governance_check_names(),
{
    let mut v: Vec<String> = Vec::new();
    v.push(owned("manifest_id_matches_contract"));
    v.push(owned("required_feature_count_matches_required_status_entries"));
    v.push(owned("classified_feature_count_matches_feature_entries"));
    v.push(owned("required_entries_cover_req_024"));
    v.push(owned("unsupported_entries_cover_req_025"));
    assert(strings_view(v@) =~= neo4j_governance_check_names());
    v
}

/// The views of a list of gate checks.
pub open spec fn checks_view(v: Seq<GateCheckResult>) -> Seq<(Seq<char>, Seq<char>, Option<Seq<char>>)> {
    v.map_values(|c: GateCheckResult| check_view(c))
}

/// Evaluates the Neo4j compatibility governance checks, given the outcomes of the probes of
/// unsupported clauses and of subqueries run by the caller.
pub fn evaluate_neo4j_compat_governance_checks(required: &Neo4jCompatRequiredSpec, manifest: &Neo4jCompatManifestSpec,
    unsupported_clauses: &Result<(), GraphDbError>, subqueries: &Result<(), GraphDbError>) -> (res: Vec<GateCheckResult>)
    ensures
        checks_view(res@) == neo4j_checks(required, manifest, *unsupported_clauses, *subqueries),
{
    let mut out: Vec<GateCheckResult> = Vec::new();
    out.push(gate_result("baseline_id_matches_contract",
        pass_fail_str(str_eq(required.baseline_id.as_str(), NEO4J_COMPAT_REQUIRED_SPEC_ID)), Some(required.baseline_id.clone())));
    out.push(gate_result("manifest_id_matches_contract",
        pass_fail_str(str_eq(required.manifest_id.as_str(), manifest.manifest_id.as_str())), Some(required.manifest_id.clone())));
    let schema = validate_neo4j_compat_manifest_schema(manifest);
    out.push(problem_result("manifest_schema_valid", &schema));
    let coverage = validate_neo4j_compat_feature_coverage(manifest);
    out.push(problem_result("feature_coverage_valid", &coverage));
    assert(outcome_problem(schema) == neo4j_schema_problem(manifest));
    assert(outcome_problem(coverage) == neo4j_coverage_problem(manifest));
    assert(checks_view(out@) =~= seq![check_view(out@[0]), check_view(out@[1]), check_view(out@[2]), check_view(out@[3])]);
    let ghost head = checks_view(out@);
    let ids = neo4j_required_test_ids_exec();
    let mut i: usize = 0;
    while i < ids.len()
        invariant
            i <= ids@.len(),
            strings_view(ids@) == neo4j_required_test_ids(),
            checks_view(out@) == head + neo4j_required_test_ids().take(i as int).map_values(|id: Seq<char>|
                ("required_test_"@ + id, pass_fail(strings_view(required.required_test_ids@).contains(id)), None::<Seq<char>>)),
        decreases ids@.len() - i,
    {
        let name = concat(&chars_of("required_test_"), &chars_of(ids[i].as_str()));
        let name_s = string_from_chars(name.as_slice());
        let ok = labels_contain(&required.required_test_ids, ids[i].as_str());
        let ghost before = checks_view(out@);
        out.push(gate_result(name_s.as_str(), pass_fail_str(ok), None));
        assert(strings_view(ids@)[i as int] == ids@[i as int]@);
        assert(neo4j_required_test_ids().take(i as int + 1) =~= neo4j_required_test_ids().take(i as int).push(ids@[i as int]@));
        assert(checks_view(out@) =~= before.push(check_view(out@[out@.len() - 1])));
        i += 1;
    }
    assert(neo4j_required_test_ids().take(6) =~= neo4j_required_test_ids());
    let ghost mid = checks_view(out@);
    let names = neo4j_governance_check_names_exec();
    let mut j: usize = 0;
    while j < names.len()
        invariant
            j <= names@.len(),
            strings_view(names@) == neo4j_governance_check_names(),
            checks_view(out@) == mid + neo4j_governance_check_names().take(j as int).map_values(|c: Seq<char>|
                (c, pass_fail(strings_view(required.governance_checks@).contains(c)), None::<Seq<char>>)),
        decreases names@.len() - j,
    {
        let ok = labels_contain(&required.governance_checks, names[j].as_str());
        let ghost before = checks_view(out@);
        out.push(gate_result(names[j].as_str(), pass_fail_str(ok), None));
        assert(strings_view(names@)[j as int] == names@[j as int]@);
        assert(neo4j_governance_check_names().take(j as int + 1) =~= neo4j_governance_check_names().take(j as int).push(names@[j as int]@));
        assert(checks_view(out@) =~= before.push(check_view(out@[out@.len() - 1])));
        j += 1;
    }
    assert(neo4j_governance_check_names().take(5) =~= neo4j_governance_check_names());
    let ghost tail_start = checks_view(out@);
    let a = problem_result("unsupported_clauses_return_unsupported_feature", unsupported_clauses);
    let b = problem_result("subquery_clauses_execute", subqueries);
    let ghost av = check_view(a);
    let ghost bv = check_view(b);
    out.push(a);
    out.push(b);
    assert(checks_view(out@) =~= tail_start + seq![av, bv]);
    assert(checks_view(out@) =~= neo4j_checks(required, manifest, *unsupported_clauses, *subqueries));
    out
}

/// The id of the first failing check, if any.
pub open spec fn first_failed(checks: Seq<(Seq<char>, Seq<char>, Option<Seq<char>>)>) -> Option<Seq<char>>
    decreases checks.len(),
{
    if checks.len() == 0 {
        None
    } else if checks[0].1 == "FAIL"@ {
        Some(checks[0].0)
    } else {
        first_failed(checks.drop_first())
    }
}

/// Runs the Neo4j compatibility governance checks and fails with the first failing check.
pub fn run_neo4j_compat_governance_checks(required: &Neo4jCompatRequiredSpec, manifest: &Neo4jCompatManifestSpec,
    unsupported_clauses: &Result<(), GraphDbError>, subqueries: &Result<(), GraphDbError>) -> (res: Result<(), GraphDbError>)
    ensures
        checked(res, match first_failed(neo4j_checks(required, manifest, *unsupported_clauses, *subqueries)) {
            Some(id) => Some("neo4j compat governance check failed: "@ + id),
            None => None,
        }),
{
    let checks = evaluate_neo4j_compat_governance_checks(required, manifest, unsupported_clauses, subqueries);
    let ghost cv = checks_view(checks@);
    let mut i: usize = 0;
    assert(cv.subrange(0, cv.len() as int) =~= cv);
    while i < checks.len()
        invariant
            cv == checks_view(checks@),
            cv == neo4j_checks(required, manifest, *unsupported_clauses, *subqueries),
            i <= checks@.len(),
            first_failed(cv) == first_failed(cv.subrange(i as int, cv.len() as int)),
        decreases checks@.len() - i,
    {
        let ghost rest = cv.subrange(i as int, cv.len() as int);
        assert(rest[0] == check_view(checks@[i as int]));
        if str_eq(checks[i].status.as_str(), "FAIL") {
            return Err(unsupported_with("neo4j compat governance check failed: ", checks[i].check_id.as_str()));
        }
        assert(rest.drop_first() =~= cv.subrange(i as int + 1, cv.len() as int));
        i += 1;
    }
    assert(cv.subrange(i as int, cv.len() as int) =~= Seq::<(Seq<char>, Seq<char>, Option<Seq<char>>)>::empty());
    Ok(())
}

/// The required TCK ids without a selector: none when the selector map is valid, all of them
/// when it is not.
pub fn find_unresolved_tck_ids(tck: &OpenCypher9TckRequiredSpec) -> (res: Vec<String>)
    ensures
        strings_view(res@) == (if crate::contracts::selector_map_valid(tck) { Seq::<Seq<char>>::empty() } else { required_ids(tck) }),
{
    match crate::contracts::build_tck_selector_map(tck) {
        Err(_) => required_ids_exec(tck),
        Ok(map) => {
            let mut out: Vec<String> = Vec::new();
            let mut i: usize = 0;
            while i < tck.required_tck_ids.len()
                invariant
                    i <= tck.required_tck_ids@.len(),
                    crate::contracts::selector_map_valid(tck),
                    out@.len() == 0,
                    forall|k: int| 0 <= k < crate::contracts::selector_ids(tck).len() ==>
                        map@.contains_key(#[trigger] crate::contracts::selector_ids(tck)[k]),
                decreases tck.required_tck_ids@.len() - i,
            {
                assert(required_ids(tck)[i as int] == tck.required_tck_ids@[i as int].id@);
                assert(crate::contracts::selector_ids(tck).contains(required_ids(tck)[i as int]));
                if !map.contains_key(tck.required_tck_ids[i].id.as_str()) {
                    out.push(tck.required_tck_ids[i].id.clone());
                }
                i += 1;
            }
            assert(strings_view(out@) =~= Seq::<Seq<char>>::empty());
            out
        },
    }
}

} // verus!

verus! {

/// The clauses the probes exercise, in order.
pub open spec fn probe_clause_names() -> Seq<Seq<char>> {
    seq!["MATCH"@, "OPTIONAL-MATCH"@, "WITH"@, "UNWIND"@, "EXISTS"@, "CALL {"@, "ORDER-BY"@, "SKIP"@,
        "LIMIT"@, "CREATE"@, "MERGE"@, "SET"@, "REMOVE"@, "DELETE"@]
}

/// The probe query of each clause, in the order of `probe_clause_names`.
pub open spec fn probe_queries() -> Seq<Seq<char>> {
    seq!["MATCH (n) RETURN n"@, "OPTIONAL MATCH (n) RETURN n"@, "MATCH (n) WITH n RETURN n"@,
        "UNWIND [1,2,3] AS x RETURN count(x)"@, "MATCH (n) WHERE EXISTS { MATCH (m) RETURN m } RETURN n"@,
        "CALL { MATCH (n) RETURN n } RETURN count(*)"@, "MATCH (n) RETURN n ORDER BY n.id"@,
        "MATCH (n) RETURN n ORDER BY n.id SKIP 0"@, "MATCH (n) RETURN n ORDER BY n.id LIMIT 1"@,
        "CREATE (n:Paper)"@, "MERGE (n:Paper {title='A'}) ON CREATE SET n.status='new'"@,
        "SET NODE n1 title='Graph'"@, "REMOVE NODE n1 title"@, "DELETE NODE n1"@]
}

/// A store as `InMemoryGraphStore::new` makes it: nothing in it, both counters at zero.
pub open spec fn fresh_store(s: crate::graph::InMemoryGraphStore) -> bool {
    &&& s.node_list().len() == 0
    &&& s.edge_list().len() == 0
    &&& s.nodes() == Map::<Seq<char>, crate::graph::NodeView>::empty()
    &&& s.edges() == Map::<Seq<char>, crate::graph::EdgeView>::empty()
    &&& s.node_seq() == 0
    &&& s.edge_seq() == 0
}

/// `stores` and `outcomes` are a run of the probes: the first store is empty, and each probe
/// query, run on one store, gives its outcome and the state of the next.
pub open spec fn probes_ran(stores: Seq<crate::graph::InMemoryGraphStore>,
    outcomes: Seq<Result<crate::query::QueryResult, GraphDbError>>) -> bool {
    &&& stores.len() == 15
    &&& outcomes.len() == 14
    &&& fresh_store(stores[0])
    &&& forall|k: int| 0 <= k < 14 ==> crate::query::query_rel(#[trigger] stores[k], probe_queries()[k],
        outcomes[k], crate::query::state(stores[k + 1]))
}

fn probes() -> (res: Vec<(String, String)>)
    ensures
        res@.len() == 14,
        forall|i: int| 0 <= i < 14 ==> (#[trigger] res@[i]).0@ == probe_clause_names()[i]
            && res@[i].1@ == probe_queries()[i],
{
    let mut v: Vec<(String, String)> = Vec::new();
    v.push((owned("MATCH"), owned("MATCH (n) RETURN n")));
    v.push((owned("OPTIONAL-MATCH"), owned("OPTIONAL MATCH (n) RETURN n")));
    v.push((owned("WITH"), owned("MATCH (n) WITH n RETURN n")));
    v.push((owned("UNWIND"), owned("UNWIND [1,2,3] AS x RETURN count(x)")));
    v.push((owned("EXISTS"), owned("MATCH (n) WHERE EXISTS { MATCH (m) RETURN m } RETURN n")));
    v.push((owned("CALL {"), owned("CALL { MATCH (n) RETURN n } RETURN count(*)")));
    v.push((owned("ORDER-BY"), owned("MATCH (n) RETURN n ORDER BY n.id")));
    v.push((owned("SKIP"), owned("MATCH (n) RETURN n ORDER BY n.id SKIP 0")));
    v.push((owned("LIMIT"), owned("MATCH (n) RETURN n ORDER BY n.id LIMIT 1")));
    v.push((owned("CREATE"), owned("CREATE (n:Paper)")));
    v.push((owned("MERGE"), owned("MERGE (n:Paper {title='A'}) ON CREATE SET n.status='new'")));
    v.push((owned("SET"), owned("SET NODE n1 title='Graph'")));
    v.push((owned("REMOVE"), owned("REMOVE NODE n1 title")));
    v.push((owned("DELETE"), owned("DELETE NODE n1")));
    v
}

/// Runs one probe query per clause, in order, on one fresh store; a clause passes when its
/// query succeeds.
pub fn run_clause_probes<F: crate::cypher::FloatOps>(floats: &F) -> (res: Vec<ClauseConformanceResult>)
    ensures
        res@.len() == 14,
        exists|stores: Seq<crate::graph::InMemoryGraphStore>, outcomes: Seq<Result<crate::query::QueryResult, GraphDbError>>|
            #[trigger] probes_ran(stores, outcomes)
            && forall|i: int| 0 <= i < 14 ==> (#[trigger] res@[i]).clause@ == probe_clause_names()[i]
                && res@[i].status@ == (if outcomes[i] is Ok { "PASS"@ } else { "FAIL"@ }),
{
    let list = probes();
    let mut store = crate::graph::InMemoryGraphStore::new();
    let ghost mut stores: Seq<crate::graph::InMemoryGraphStore> = seq![store];
    let ghost mut outcomes: Seq<Result<crate::query::QueryResult, GraphDbError>> = Seq::empty();
    let mut out: Vec<ClauseConformanceResult> = Vec::new();
    let mut i: usize = 0;
    while i < list.len()
        invariant
            list@.len() == 14,
            forall|k: int| 0 <= k < 14 ==> (#[trigger] list@[k]).0@ == probe_clause_names()[k]
                && list@[k].1@ == probe_queries()[k],
            i <= 14,
            store.node_seq() <= i,
            stores.len() == i + 1,
            outcomes.len() == i,
            stores[i as int] == store,
            stores[0].node_list().len() == 0,
            stores[0].edge_list().len() == 0,
            stores[0].nodes() == Map::<Seq<char>, crate::graph::NodeView>::empty(),
            stores[0].edges() == Map::<Seq<char>, crate::graph::EdgeView>::empty(),
            stores[0].node_seq() == 0,
            stores[0].edge_seq() == 0,
            forall|k: int| 0 <= k < i ==> crate::query::query_rel(#[trigger] stores[k], probe_queries()[k],
                outcomes[k], crate::query::state(stores[k + 1])),
            out@.len() == i,
            forall|k: int| 0 <= k < i ==> (#[trigger] out@[k]).clause@ == probe_clause_names()[k]
                && out@[k].status@ == (if outcomes[k] is Ok { "PASS"@ } else { "FAIL"@ }),
        decreases 14 - i,
    {
        let ghost before = store;
        let r = crate::query::execute_query(&mut store, list[i].1.as_str(), floats);
        proof {
            crate::query::lemma_query_counters(before, list@[i as int].1@, r, crate::query::state(store));
            stores = stores.push(store);
            outcomes = outcomes.push(r);
        }
        let status = if r.is_ok() { owned("PASS") } else { owned("FAIL") };
        out.push(ClauseConformanceResult { clause: list[i].0.clone(), status });
        i += 1;
    }
    assert(probes_ran(stores, outcomes));
    out
}

/// The clause probe a manifest feature is judged by, if any.
pub open spec fn mapped_clause(fid: Seq<char>) -> Option<Seq<char>> {
    if fid == "CLAUSE-MATCH"@ { Some("MATCH"@) }
    else if fid == "CLAUSE-OPTIONAL-MATCH"@ { Some("OPTIONAL-MATCH"@) }
    else if fid == "CLAUSE-WITH"@ { Some("WITH"@) }
    else if fid == "CLAUSE-UNWIND"@ { Some("UNWIND"@) }
    else if fid == "EXISTS"@ { Some("EXISTS"@) }
    else if fid == "CALL_SUBQUERY"@ { Some("CALL {"@) }
    else if fid == "CLAUSE-ORDER-BY"@ { Some("ORDER-BY"@) }
    else if fid == "CLAUSE-SKIP"@ { Some("SKIP"@) }
    else if fid == "CLAUSE-LIMIT"@ { Some("LIMIT"@) }
    else if fid == "CLAUSE-CREATE"@ { Some("CREATE"@) }
    else if fid == "CLAUSE-MERGE"@ { Some("MERGE"@) }
    else if fid == "CLAUSE-SET"@ { Some("SET"@) }
    else if fid == "CLAUSE-REMOVE"@ { Some("REMOVE"@) }
    else if fid == "CLAUSE-DELETE"@ { Some("DELETE"@) }
    else { None }
}

/// The query a feature is probed with on a fresh store, and whether it must fail with
/// `UNSUPPORTED_FEATURE` (else succeed with a table), if the feature is probed.
pub open spec fn probe_of(fid: Seq<char>) -> Option<(Seq<char>, bool)> {
    if fid == "AGG-COUNT"@ { Some(("UNWIND [1,2,3] AS x RETURN count(x)"@, false)) }
    else if fid == "AGG-SUM"@ { Some(("UNWIND [1,2,3] AS x RETURN sum(x)"@, false)) }
    else if fid == "AGG-AVG"@ { Some(("UNWIND [1,2,3] AS x RETURN avg(x)"@, false)) }
    else if fid == "AGG-MIN"@ { Some(("UNWIND [1,2,3] AS x RETURN min(x)"@, false)) }
    else if fid == "AGG-MAX"@ { Some(("UNWIND [1,2,3] AS x RETURN max(x)"@, false)) }
    else if fid == "AGG-COLLECT"@ { Some(("UNWIND [1,2,3] AS x RETURN collect(x)"@, false)) }
    else if fid == "EXT-CALL"@ { Some(("CALL db.labels()"@, true)) }
    else if fid == "EXT-VENDOR-PROCEDURE"@ { Some(("CALL vendor.procedure()"@, true)) }
    else if fid == "EXT-APOC"@ { Some(("CALL apoc.help()"@, true)) }
    else { None }
}

/// The status of the last probe of clause `name`, if any.
pub open spec fn last_clause_status(cr: Seq<ClauseConformanceResult>, name: Seq<char>) -> Option<Seq<char>>
    decreases cr.len(),
{
    if cr.len() == 0 {
        None
    } else if cr.last().clause@ == name {
        Some(cr.last().status@)
    } else {
        last_clause_status(cr.drop_last(), name)
    }
}

/// Whether a feature probe went as it must: a table where the query must succeed, an
/// `UNSUPPORTED_FEATURE` refusal where it must be refused.
pub open spec fn probe_passed(r: Result<crate::query::QueryResult, GraphDbError>, must_refuse: bool) -> bool {
    match r {
        Ok(crate::query::QueryResult::Table { .. }) => !must_refuse,
        Err(e) => must_refuse && e.code == ErrorCode::UnsupportedFeature,
        _ => false,
    }
}

/// `status` is what running the probe query `q` on a fresh store gives: `PASS` when the
/// probe went as it must.
pub open spec fn probe_status_fits(q: Seq<char>, must_refuse: bool, status: Seq<char>) -> bool {
    exists|store: crate::graph::InMemoryGraphStore, r: Result<crate::query::QueryResult, GraphDbError>,
        after: crate::query::StoreState|
        fresh_store(store) && #[trigger] crate::query::query_rel(store, q, r, after)
        && status == (if probe_passed(r, must_refuse) { "PASS"@ } else { "FAIL"@ })
}

/// What a feature's status must be: that of its clause probe (`FAIL` without one), that of its
/// own probe, and `PASS` otherwise.
pub open spec fn feature_status_fits(fid: Seq<char>, cr: Seq<ClauseConformanceResult>, status: Seq<char>) -> bool {
    match mapped_clause(fid) {
        Some(c) => status == (match last_clause_status(cr, c) { Some(s) => s, None => "FAIL"@ }),
        None => match probe_of(fid) {
            Some((q, must_refuse)) => probe_status_fits(q, must_refuse, status),
            None => status == "PASS"@,
        },
    }
}

fn last_clause_status_exec<'a>(cr: &'a Vec<ClauseConformanceResult>, name: &str) -> (res: Option<&'a String>)
    ensures
        match res {
            Some(s) => last_clause_status(cr@, name@) == Some(s@),
            None => last_clause_status(cr@, name@) is None,
        },
{
    let mut i: usize = cr.len();
    assert(cr@.take(cr@.len() as int) =~= cr@);
    while i > 0
        invariant
            i <= cr@.len(),
            last_clause_status(cr@, name@) == last_clause_status(cr@.take(i as int), name@),
        decreases i,
    {
        assert(cr@.take(i as int).last() == cr@[i - 1]);
        if str_eq(cr[i - 1].clause.as_str(), name) {
            return Some(&cr[i - 1].status);
        }
        assert(cr@.take(i as int).drop_last() =~= cr@.take(i - 1));
        i -= 1;
    }
    None
}

fn mapped_clause_exec(fid: &str) -> (res: Option<&'static str>)
    ensures
        match res {
            Some(c) => mapped_clause(fid@) == Some(c@),
            None => mapped_clause(fid@) is None,
        },
{
    if str_eq(fid, "CLAUSE-MATCH") { Some("MATCH") }
    else if str_eq(fid, "CLAUSE-OPTIONAL-MATCH") { Some("OPTIONAL-MATCH") }
    else if str_eq(fid, "CLAUSE-WITH") { Some("WITH") }
    else if str_eq(fid, "CLAUSE-UNWIND") { Some("UNWIND") }
    else if str_eq(fid, "EXISTS") { Some("EXISTS") }
    else if str_eq(fid, "CALL_SUBQUERY") { Some("CALL {") }
    else if str_eq(fid, "CLAUSE-ORDER-BY") { Some("ORDER-BY") }
    else if str_eq(fid, "CLAUSE-SKIP") { Some("SKIP") }
    else if str_eq(fid, "CLAUSE-LIMIT") { Some("LIMIT") }
    else if str_eq(fid, "CLAUSE-CREATE") { Some("CREATE") }
    else if str_eq(fid, "CLAUSE-MERGE") { Some("MERGE") }
    else if str_eq(fid, "CLAUSE-SET") { Some("SET") }
    else if str_eq(fid, "CLAUSE-REMOVE") { Some("REMOVE") }
    else if str_eq(fid, "CLAUSE-DELETE") { Some("DELETE") }
    else { None }
}

fn probe_of_exec(fid: &str) -> (res: Option<(&'static str, bool)>)
    ensures
        match res {
            Some((q, neg)) => probe_of(fid@) == Some((q@, neg)),
            None => probe_of(fid@) is None,
        },
{
    if str_eq(fid, "AGG-COUNT") { Some(("UNWIND [1,2,3] AS x RETURN count(x)", false)) }
    else if str_eq(fid, "AGG-SUM") { Some(("UNWIND [1,2,3] AS x RETURN sum(x)", false)) }
    else if str_eq(fid, "AGG-AVG") { Some(("UNWIND [1,2,3] AS x RETURN avg(x)", false)) }
    else if str_eq(fid, "AGG-MIN") { Some(("UNWIND [1,2,3] AS x RETURN min(x)", false)) }
    else if str_eq(fid, "AGG-MAX") { Some(("UNWIND [1,2,3] AS x RETURN max(x)", false)) }
    else if str_eq(fid, "AGG-COLLECT") { Some(("UNWIND [1,2,3] AS x RETURN collect(x)", false)) }
    else if str_eq(fid, "EXT-CALL") { Some(("CALL db.labels()", true)) }
    else if str_eq(fid, "EXT-VENDOR-PROCEDURE") { Some(("CALL vendor.procedure()", true)) }
    else if str_eq(fid, "EXT-APOC") { Some(("CALL apoc.help()", true)) }
    else { None }
}

/// The status of each manifest feature: by its clause probe, by its own probe query on a
/// fresh store (aggregations must give a table, extensions must be refused with
/// `UNSUPPORTED_FEATURE`), or `PASS`.
pub fn derive_feature_results<F: crate::cypher::FloatOps>(features: &Vec<ManifestFeature>, clause_results: &Vec<ClauseConformanceResult>, floats: &F)
    -> (res: Vec<FeatureConformanceResult>)
    ensures
        res@.len() == features@.len(),
        forall|i: int| 0 <= i < features@.len() ==> (#[trigger] res@[i]).feature_id@ == features@[i].feature_id@
            && feature_status_fits(features@[i].feature_id@, clause_results@, res@[i].status@),
{
    let mut out: Vec<FeatureConformanceResult> = Vec::new();
    let mut i: usize = 0;
    while i < features.len()
        invariant
            i <= features@.len(),
            out@.len() == i,
            forall|k: int| 0 <= k < i ==> (#[trigger] out@[k]).feature_id@ == features@[k].feature_id@
                && feature_status_fits(features@[k].feature_id@, clause_results@, out@[k].status@),
        decreases features@.len() - i,
    {
        let fid = features[i].feature_id.as_str();
        let status: String = match mapped_clause_exec(fid) {
            Some(c) => match last_clause_status_exec(clause_results, c) {
                Some(s) => s.clone(),
                None => owned("FAIL"),
            },
            None => match probe_of_exec(fid) {
                Some((q, must_refuse)) => {
                    let mut store = crate::graph::InMemoryGraphStore::new();
                    let ghost fresh = store;
                    let r = crate::query::execute_query(&mut store, q, floats);
                    proof {
                        assert(fresh_store(fresh));
                        assert(crate::query::query_rel(fresh, q@, r, crate::query::state(store)));
                    }
                    let ghost outcome = r;
                    let ok = match r {
                        Ok(crate::query::QueryResult::Table { .. }) => !must_refuse,
                        Err(e) => must_refuse && e.code == ErrorCode::UnsupportedFeature,
                        _ => false,
                    };
                    let st = if ok { owned("PASS") } else { owned("FAIL") };
                    assert(probe_status_fits(q@, must_refuse, st@)) by {
                        assert(crate::query::query_rel(fresh, q@, outcome, crate::query::state(store)));
                    }
                    st
                },
                None => owned("PASS"),
            },
        };
        out.push(FeatureConformanceResult { feature_id: features[i].feature_id.clone(), status });
        i += 1;
    }
    out
}

/// The ids of the failed checks of the openCypher 9 report, before sorting: the full TCK run
/// when some required scenario has no selector, each failing governance check, each failing
/// clause probe and each failing feature.
pub open spec fn failed_candidates(tck: &OpenCypher9TckRequiredSpec, required: &RequiredTestsSpec, manifest: &ManifestSpec,
    cr: Seq<ClauseConformanceResult>, fr: Seq<FeatureConformanceResult>) -> Seq<Seq<char>>
{
    (if !crate::contracts::selector_map_valid(tck) && required_ids(tck).len() > 0 { seq!["OC9-TCK-FULL-RUN-001"@] } else { seq![] })
    + (if first_missing(mandatory_negative_cases(), test_ids(required)) is Some { seq!["OC9-MANDATORY-NEGATIVE-CASES-001"@] } else { seq![] })
    + (if !hex_sha40(tck.source.snapshot_ref@) { seq!["OC9-TCK-SNAPSHOT-REF-SHA-001"@] } else { seq![] })
    + (if manifest_schema_problem(manifest) is Some { seq!["OC9-MANIFEST-COUNT-MISMATCH-FAIL-001"@] } else { seq![] })
    + (if manifest.full_support && full_support_problem(manifest.features@) is Some { seq!["OC9-MANIFEST-NORMATIVE-NONREQUIRED-FAIL-001"@] } else { seq![] })
    + (if tck_sync_problem(manifest, tck) is Some { seq!["OC9-TCK-MANIFEST-SYNC-001"@] } else { seq![] })
    + failing_clauses(cr)
    + failing_features(fr)
}

/// `CLAUSE-<name>` for each failing clause probe, in order.
pub open spec fn failing_clauses(cr: Seq<ClauseConformanceResult>) -> Seq<Seq<char>>
    decreases cr.len(),
{
    if cr.len() == 0 {
        Seq::empty()
    } else {
        failing_clauses(cr.drop_last()) + if cr.last().status@ == "FAIL"@ { seq!["CLAUSE-"@ + cr.last().clause@] } else { seq![] }
    }
}

/// The id of each failing feature, in order.
pub open spec fn failing_features(fr: Seq<FeatureConformanceResult>) -> Seq<Seq<char>>
    decreases fr.len(),
{
    if fr.len() == 0 {
        Seq::empty()
    } else {
        failing_features(fr.drop_last()) + if fr.last().status@ == "FAIL"@ { seq![fr.last().feature_id@] } else { seq![] }
    }
}

/// Whether `s` strictly increases.
pub open spec fn strictly_sorted(s: Seq<Seq<char>>) -> bool {
    forall|i: int, j: int| 0 <= i < j < s.len() ==> crate::text::lex_lt(#[trigger] s[i], #[trigger] s[j])
}

/// Adds `x` to a strictly sorted list of strings unless it is there.
fn add_sorted(v: &mut Vec<String>, x: String)
    requires
        crate::keyed::sorted_keys(old(v)@),
    ensures
        crate::keyed::sorted_keys(final(v)@),
        forall|k: Seq<char>| #[trigger] strings_view(final(v)@).contains(k) <==> (strings_view(old(v)@).contains(k) || k == x@),
{
    let ghost before = v@;
    let ghost xv = x@;
    crate::keyed::put(v, x);
    proof {
        assert forall|k: Seq<char>| #[trigger] strings_view(v@).contains(k) <==> (strings_view(before).contains(k) || k == xv) by {
            lemma_keys_contain(v@, k);
            lemma_keys_contain(before, k);
        }
    }
}

/// A key is in the map of a sequence exactly when some item has it.
proof fn lemma_keys_contain(s: Seq<String>, k: Seq<char>)
    ensures
        crate::keyed::keyed_map(s).contains_key(k) <==> strings_view(s).contains(k),
{
    if crate::keyed::keyed_map(s).contains_key(k) {
        crate::keyed::lemma_keyed_map_key(s, k);
        let i = choose|i: int| 0 <= i < s.len() && s[i].key() == k;
        assert(strings_view(s)[i] == k);
    }
    if strings_view(s).contains(k) {
        let i = choose|i: int| 0 <= i < strings_view(s).len() && strings_view(s)[i] == k;
        assert(s[i].key() == k);
        assert(crate::keyed::has_key(s, k));
    }
}

} // verus!

verus! {

/// Records `x` both in the sorted list and in the ghost list of candidates.
fn note_failed(out: &mut Vec<String>, cand: Ghost<Seq<Seq<char>>>, x: &str) -> (res: Ghost<Seq<Seq<char>>>)
    requires
        crate::keyed::sorted_keys(old(out)@),
        forall|k: Seq<char>| #[trigger] strings_view(old(out)@).contains(k) <==> cand@.contains(k),
    ensures
        crate::keyed::sorted_keys(final(out)@),
        res@ == cand@.push(x@),
        forall|k: Seq<char>| #[trigger] strings_view(final(out)@).contains(k) <==> res@.contains(k),
{
    add_sorted(out, owned(x));
    proof {
        assert forall|k: Seq<char>| #[trigger] strings_view(out@).contains(k) <==> cand@.push(x@).contains(k) by {
            crate::graph::lemma_push_contains(cand@, x@, k);
        }
    }
    Ghost(cand@.push(x@))
}

/// The sorted, distinct ids of the failed checks of the openCypher 9 report, and whether the
/// mandatory negative cases are all present.
#[verifier::rlimit(40)]
pub fn conformance_failed_test_ids(tck: &OpenCypher9TckRequiredSpec, required: &RequiredTestsSpec, manifest: &ManifestSpec,
    clause_results: &Vec<ClauseConformanceResult>, feature_results: &Vec<FeatureConformanceResult>) -> (res: (Vec<String>, bool))
    ensures
        strictly_sorted(strings_view(res.0@)),
        forall|k: Seq<char>| #[trigger] strings_view(res.0@).contains(k)
            <==> failed_candidates(tck, required, manifest, clause_results@, feature_results@).contains(k),
        res.1 == (first_missing(mandatory_negative_cases(), test_ids(required)) is None),
{
    let mut out: Vec<String> = Vec::new();
    let mut cand: Ghost<Seq<Seq<char>>> = Ghost(Seq::empty());
    let unresolved = find_unresolved_tck_ids(tck);
    if unresolved.len() > 0 {
        cand = note_failed(&mut out, cand, "OC9-TCK-FULL-RUN-001");
    }
    let ghost c1 = cand@;
    let negatives_ok = validate_required_negative_cases(required).is_ok();
    if !negatives_ok {
        cand = note_failed(&mut out, cand, "OC9-MANDATORY-NEGATIVE-CASES-001");
    }
    let ghost c2 = cand@;
    if validate_snapshot_ref_is_sha(tck).is_err() {
        cand = note_failed(&mut out, cand, "OC9-TCK-SNAPSHOT-REF-SHA-001");
    }
    let ghost c3 = cand@;
    if validate_manifest_schema(manifest).is_err() {
        cand = note_failed(&mut out, cand, "OC9-MANIFEST-COUNT-MISMATCH-FAIL-001");
    }
    let ghost c4 = cand@;
    if validate_full_support_rules(manifest).is_err() {
        cand = note_failed(&mut out, cand, "OC9-MANIFEST-NORMATIVE-NONREQUIRED-FAIL-001");
    }
    let ghost c5 = cand@;
    if validate_manifest_tck_sync(manifest, tck).is_err() {
        cand = note_failed(&mut out, cand, "OC9-TCK-MANIFEST-SYNC-001");
    }
    let ghost head = cand@;
    let mut i: usize = 0;
    assert(clause_results@.take(0) =~= Seq::<ClauseConformanceResult>::empty());
    assert(head + failing_clauses(clause_results@.take(0)) =~= head);
    while i < clause_results.len()
        invariant
            i <= clause_results@.len(),
            crate::keyed::sorted_keys(out@),
            cand@ == head + failing_clauses(clause_results@.take(i as int)),
            forall|k: Seq<char>| #[trigger] strings_view(out@).contains(k) <==> cand@.contains(k),
        decreases clause_results@.len() - i,
    {
        let c = &clause_results[i];
        assert(clause_results@.take(i as int + 1).drop_last() =~= clause_results@.take(i as int));
        assert(clause_results@.take(i as int + 1).last() == *c);
        if str_eq(c.status.as_str(), "FAIL") {
            let name = concat(&chars_of("CLAUSE-"), &chars_of(c.clause.as_str()));
            let name_s = string_from_chars(name.as_slice());
            cand = note_failed(&mut out, cand, name_s.as_str());
            assert(cand@ =~= head + failing_clauses(clause_results@.take(i as int + 1)));
        } else {
            assert(head + failing_clauses(clause_results@.take(i as int + 1)) =~= head + failing_clauses(clause_results@.take(i as int)));
        }
        i += 1;
    }
    assert(clause_results@.take(clause_results@.len() as int) =~= clause_results@);
    let ghost mid = cand@;
    let mut j: usize = 0;
    assert(feature_results@.take(0) =~= Seq::<FeatureConformanceResult>::empty());
    assert(mid + failing_features(feature_results@.take(0)) =~= mid);
    while j < feature_results.len()
        invariant
            j <= feature_results@.len(),
            crate::keyed::sorted_keys(out@),
            cand@ == mid + failing_features(feature_results@.take(j as int)),
            forall|k: Seq<char>| #[trigger] strings_view(out@).contains(k) <==> cand@.contains(k),
        decreases feature_results@.len() - j,
    {
        let f = &feature_results[j];
        assert(feature_results@.take(j as int + 1).drop_last() =~= feature_results@.take(j as int));
        assert(feature_results@.take(j as int + 1).last() == *f);
        if str_eq(f.status.as_str(), "FAIL") {
            cand = note_failed(&mut out, cand, f.feature_id.as_str());
            assert(cand@ =~= mid + failing_features(feature_results@.take(j as int + 1)));
        } else {
            assert(mid + failing_features(feature_results@.take(j as int + 1)) =~= mid + failing_features(feature_results@.take(j as int)));
        }
        j += 1;
    }
    assert(feature_results@.take(feature_results@.len() as int) =~= feature_results@);
    proof {
        assert(strings_view(unresolved@).len() == unresolved@.len());
        assert(cand@ =~= failed_candidates(tck, required, manifest, clause_results@, feature_results@));
        assert forall|a: int, b: int| 0 <= a < b < strings_view(out@).len() implies
            crate::text::lex_lt(#[trigger] strings_view(out@)[a], #[trigger] strings_view(out@)[b]) by {
            assert(crate::text::lex_lt(out@[a].key(), out@[b].key()));
        }
    }
    (out, negatives_ok)
}

} // verus!

verus! {

/// `s` as `{:?}` prints a `str`: in double quotes, with quotes, backslashes and unprintable
/// characters escaped.
pub uninterp spec fn debug_text(s: Seq<char>) -> Seq<char>;

/// `format!("{:?}", s)`: the `Debug` form of a `str`, quoted and escaped as
/// `str::escape_debug` escapes it. The contract names the result `debug_text` and says no more.
#[verifier::external_body]
fn debug_quoted(s: &str) -> (res: String)
    ensures
        res@ == debug_text(s@),
{
    format!("{:?}", s)
}

/// The `Debug` form of an optional string.
pub open spec fn debug_option(c: Option<Seq<char>>) -> Seq<char> {
    match c {
        None => "None"@,
        Some(s) => "Some("@ + debug_text(s) + ")"@,
    }
}

fn debug_option_exec(c: Option<&String>) -> (res: Vec<char>)
    ensures
        res@ == debug_option(match c { Some(s) => Some(s@), None => None }),
{
    match c {
        None => chars_of("None"),
        Some(s) => {
            let q = debug_quoted(s.as_str());
            concat(&concat(&chars_of("Some("), &chars_of(q.as_str())), &chars_of(")"))
        },
    }
}

/// The text stored under `key` in an error's details, if any.
pub open spec fn detail_text(e: GraphDbError, key: Seq<char>) -> Option<Seq<char>> {
    if e.details is Some && e.details->0@.contains_key(key) { Some(e.details->0@[key]@) } else { None }
}

/// The clauses the Neo4j profile must refuse, each with the query that probes it and the
/// clause name the refusal must give.
pub open spec fn unsupported_clause_cases() -> Seq<(Seq<char>, Seq<char>)> {
    seq![
        ("FOREACH (x IN [1] | CREATE (n:Probe {value:x}))"@, "FOREACH"@),
        ("MATCH p=shortestPath((a)-[*]->(b)) RETURN p"@, "shortestPath"@),
        ("MATCH p=(a)-[*1..3]->(b) RETURN p"@, "variable-length path"@),
        ("RETURN [(n)-->(m) | m]"@, "pattern comprehension"@),
        ("LOAD CSV FROM 'file:///tmp.csv' AS row RETURN row"@, "LOAD CSV"@),
    ]
}

fn unsupported_cases() -> (res: Vec<(&'static str, &'static str)>)
    ensures
        res@.len() == unsupported_clause_cases().len(),
        forall|i: int| 0 <= i < res@.len() ==> (#[trigger] res@[i]).0@ == unsupported_clause_cases()[i].0
            && res@[i].1@ == unsupported_clause_cases()[i].1,
{
    let mut v: Vec<(&'static str, &'static str)> = Vec::new();
    v.push(("FOREACH (x IN [1] | CREATE (n:Probe {value:x}))", "FOREACH"));
    v.push(("MATCH p=shortestPath((a)-[*]->(b)) RETURN p", "shortestPath"));
    v.push(("MATCH p=(a)-[*1..3]->(b) RETURN p", "variable-length path"));
    v.push(("RETURN [(n)-->(m) | m]", "pattern comprehension"));
    v.push(("LOAD CSV FROM 'file:///tmp.csv' AS row RETURN row", "LOAD CSV"));
    v
}

/// Whether the probe of an unsupported clause went as it must: refused with
/// `UNSUPPORTED_FEATURE`, naming the clause in the detail `unsupported_clause`.
pub open spec fn refusal_names(expected: Seq<char>, outcome: Result<crate::query::QueryResult, GraphDbError>) -> bool {
    outcome matches Err(e) && e.code == ErrorCode::UnsupportedFeature
        && detail_text(e, "unsupported_clause"@) == Some(expected)
}

/// The error reported for a probe of an unsupported clause that did not go as it must: the
/// query's own error where it failed otherwise.
pub open spec fn refusal_report(query: Seq<char>, expected: Seq<char>,
    outcome: Result<crate::query::QueryResult, GraphDbError>, e: GraphDbError) -> bool {
    match outcome {
        Ok(_) => unsupported_is(e, "unsupported clause unexpectedly succeeded: "@ + query),
        Err(o) => if o.code == ErrorCode::UnsupportedFeature {
            unsupported_is(e, "unsupported clause detail mismatch: expected "@ + expected + ", got "@
                + debug_option(detail_text(o, "unsupported_clause"@)))
        } else {
            e == o
        },
    }
}

/// `outcome` is what the query `q` gives on a fresh store.
pub open spec fn fresh_outcome(q: Seq<char>, outcome: Result<crate::query::QueryResult, GraphDbError>) -> bool {
    exists|store: crate::graph::InMemoryGraphStore, after: crate::query::StoreState|
        fresh_store(store) && #[trigger] crate::query::query_rel(store, q, outcome, after)
}

/// `res` is what probing the cases in order gives, each on a fresh store, where `outcomes`
/// are the outcomes of the probes that ran: it stops at the first that does not go as it
/// must and reports it.
pub open spec fn refusals_report(cases: Seq<(Seq<char>, Seq<char>)>,
    outcomes: Seq<Result<crate::query::QueryResult, GraphDbError>>, res: Result<(), GraphDbError>) -> bool {
    &&& outcomes.len() <= cases.len()
    &&& forall|k: int| 0 <= k < outcomes.len() ==> fresh_outcome(cases[k].0, #[trigger] outcomes[k])
    &&& forall|k: int| 0 <= k < outcomes.len() - 1 ==> refusal_names(cases[k].1, #[trigger] outcomes[k])
    &&& match res {
        Ok(()) => outcomes.len() == cases.len()
            && forall|k: int| 0 <= k < outcomes.len() ==> refusal_names(cases[k].1, #[trigger] outcomes[k]),
        Err(e) => outcomes.len() > 0 && !refusal_names(cases[outcomes.len() - 1].1, outcomes.last())
            && refusal_report(cases[outcomes.len() - 1].0, cases[outcomes.len() - 1].1, outcomes.last(), e),
    }
}

/// Probes each clause the Neo4j profile must refuse on a fresh store: each must be refused
/// with `UNSUPPORTED_FEATURE` naming the clause. Reports the first probe that is not.
pub fn validate_neo4j_compat_unsupported_clauses<F: crate::cypher::FloatOps>(floats: &F) -> (res: Result<(), GraphDbError>)
    ensures
        exists|outcomes: Seq<Result<crate::query::QueryResult, GraphDbError>>|
            #[trigger] refusals_report(unsupported_clause_cases(), outcomes, res),
{
    let cases = unsupported_cases();
    let ghost mut outcomes: Seq<Result<crate::query::QueryResult, GraphDbError>> = Seq::empty();
    let mut i: usize = 0;
    while i < cases.len()
        invariant
            cases@.len() == unsupported_clause_cases().len(),
            forall|j: int| 0 <= j < cases@.len() ==> (#[trigger] cases@[j]).0@ == unsupported_clause_cases()[j].0
                && cases@[j].1@ == unsupported_clause_cases()[j].1,
            i <= cases@.len(),
            outcomes.len() == i,
            forall|k: int| 0 <= k < i ==> fresh_outcome(unsupported_clause_cases()[k].0, #[trigger] outcomes[k]),
            forall|k: int| 0 <= k < i ==> refusal_names(unsupported_clause_cases()[k].1, #[trigger] outcomes[k]),
        decreases cases@.len() - i,
    {
        let (query, expected) = cases[i];
        let mut store = crate::graph::InMemoryGraphStore::new();
        let ghost fresh = store;
        let r = crate::query::execute_query(&mut store, query, floats);
        proof {
            assert(fresh_store(fresh));
            assert(crate::query::query_rel(fresh, query@, r, crate::query::state(store)));
            outcomes = outcomes.push(r);
            assert(outcomes.last() == r);
        }
        match r {
            Err(err) => {
                if err.code == ErrorCode::UnsupportedFeature {
                    let clause = err.detail("unsupported_clause");
                    let named = match clause {
                        Some(c) => str_eq(c.as_str(), expected),
                        None => false,
                    };
                    if !named {
                        let m = concat(&concat(&concat(&chars_of("unsupported clause detail mismatch: expected "),
                            &chars_of(expected)), &chars_of(", got ")), &debug_option_exec(clause));
                        let ms = string_from_chars(m.as_slice());
                        let e = GraphDbError::new(ErrorCode::UnsupportedFeature, ms.as_str());
                        proof {
                            assert(refusals_report(unsupported_clause_cases(), outcomes, Err(e)));
                        }
                        return Err(e);
                    }
                } else {
                    proof {
                        assert(refusals_report(unsupported_clause_cases(), outcomes, Err(err)));
                    }
                    return Err(err);
                }
            },
            Ok(_) => {
                let e = unsupported_with("unsupported clause unexpectedly succeeded: ", query);
                proof {
                    assert(refusals_report(unsupported_clause_cases(), outcomes, Err(e)));
                }
                return Err(e);
            },
        }
        i += 1;
    }
    proof {
        assert(refusals_report(unsupported_clause_cases(), outcomes, Ok(())));
    }
    Ok(())
}

/// A store with one node, as `create_node` makes it on a fresh store with the label `Probe`
/// and no properties.
pub open spec fn one_probe_node(s: crate::graph::InMemoryGraphStore) -> bool {
    &&& s.nodes() == Map::<Seq<char>, crate::graph::NodeView>::empty().insert(crate::graph::node_id_for(1),
        crate::graph::NodeView { id: crate::graph::node_id_for(1), labels: seq!["Probe"@],
            properties: Map::<Seq<char>, crate::graph::ValueView>::empty() })
    &&& s.edges() == Map::<Seq<char>, crate::graph::EdgeView>::empty()
    &&& s.edge_list().len() == 0
    &&& s.node_seq() == 1
    &&& s.edge_seq() == 0
}

/// `outcome` is what the query `q` gives on a store with one probe node.
pub open spec fn probe_node_outcome(q: Seq<char>, outcome: Result<crate::query::QueryResult, GraphDbError>) -> bool {
    exists|store: crate::graph::InMemoryGraphStore, after: crate::query::StoreState|
        one_probe_node(store) && #[trigger] crate::query::query_rel(store, q, outcome, after)
}

/// The `EXISTS { }` probe query.
pub open spec fn exists_probe_query() -> Seq<char> {
    "MATCH (n) WHERE EXISTS { MATCH (m) RETURN m } RETURN n"@
}

/// The `CALL { }` probe query.
pub open spec fn call_probe_query() -> Seq<char> {
    "CALL { MATCH (n) RETURN n } RETURN count(*)"@
}

/// `res` is what the two subquery probes give: the `EXISTS` probe must match nodes and the
/// `CALL` probe, run only after it, must give one count row. A query's own error is reported
/// as it is.
pub open spec fn subqueries_report(exists_outcome: Result<crate::query::QueryResult, GraphDbError>,
    call_outcome: Option<Result<crate::query::QueryResult, GraphDbError>>, res: Result<(), GraphDbError>) -> bool {
    match exists_outcome {
        Err(e) => call_outcome is None && res == Err::<(), GraphDbError>(e),
        Ok(r) => if (r matches crate::query::QueryResult::Nodes(ns) && ns@.len() > 0) {
            match call_outcome {
                None => false,
                Some(Err(e)) => res == Err::<(), GraphDbError>(e),
                Some(Ok(c)) => if (c matches crate::query::QueryResult::Table { rows, .. } && rows@.len() == 1) {
                    res is Ok
                } else {
                    res matches Err(e) && unsupported_is(e, "CALL subquery did not produce a count row"@)
                },
            }
        } else {
            call_outcome is None && (res matches Err(e) && unsupported_is(e, "EXISTS subquery did not produce matching rows"@))
        },
    }
}

fn probe_node_store() -> (res: crate::graph::InMemoryGraphStore)
    ensures
        one_probe_node(res),
{
    let mut store = crate::graph::InMemoryGraphStore::new();
    let mut labels: Vec<String> = Vec::new();
    labels.push(owned("Probe"));
    let props = crate::graph::Properties::new();
    let n = store.create_node(labels, props);
    proof {
        assert(strings_view(labels@) =~= seq!["Probe"@]);
        assert(crate::graph::props_view(props) =~= Map::<Seq<char>, crate::graph::ValueView>::empty());
        assert(store.nodes() =~= Map::<Seq<char>, crate::graph::NodeView>::empty().insert(crate::graph::node_id_for(1),
            crate::graph::NodeView { id: crate::graph::node_id_for(1), labels: seq!["Probe"@],
                properties: Map::<Seq<char>, crate::graph::ValueView>::empty() }));
    }
    store
}

/// Probes `EXISTS { }` and `CALL { }` subqueries, each on a store with one node: the first
/// must match nodes, the second give one count row.
pub fn validate_neo4j_compat_subquery_clauses<F: crate::cypher::FloatOps>(floats: &F) -> (res: Result<(), GraphDbError>)
    ensures
        exists|exists_outcome: Result<crate::query::QueryResult, GraphDbError>,
            call_outcome: Option<Result<crate::query::QueryResult, GraphDbError>>|
            #[trigger] subqueries_report(exists_outcome, call_outcome, res)
            && probe_node_outcome(exists_probe_query(), exists_outcome)
            && (call_outcome is Some ==> probe_node_outcome(call_probe_query(), call_outcome->0)),
{
    let mut exists_store = probe_node_store();
    let ghost s1 = exists_store;
    let r1 = crate::query::execute_query(&mut exists_store, "MATCH (n) WHERE EXISTS { MATCH (m) RETURN m } RETURN n", floats);
    let ghost o1 = r1;
    proof {
        assert(crate::query::query_rel(s1, exists_probe_query(), o1, crate::query::state(exists_store)));
        assert(probe_node_outcome(exists_probe_query(), o1));
    }
    match r1 {
        Err(e) => {
            proof { assert(subqueries_report(o1, None, Err(e))); }
            return Err(e);
        },
        Ok(crate::query::QueryResult::Nodes(nodes)) => {
            if nodes.len() == 0 {
                let e = unsupported_error("EXISTS subquery did not produce matching rows");
                proof { assert(subqueries_report(o1, None, Err(e))); }
                return Err(e);
            }
        },
        Ok(_) => {
            let e = unsupported_error("EXISTS subquery did not produce matching rows");
            proof { assert(subqueries_report(o1, None, Err(e))); }
            return Err(e);
        },
    }
    let mut call_store = probe_node_store();
    let ghost s2 = call_store;
    let r2 = crate::query::execute_query(&mut call_store, "CALL { MATCH (n) RETURN n } RETURN count(*)", floats);
    let ghost o2 = r2;
    proof {
        assert(crate::query::query_rel(s2, call_probe_query(), o2, crate::query::state(call_store)));
        assert(probe_node_outcome(call_probe_query(), o2));
    }
    let res = match r2 {
        Err(e) => Err(e),
        Ok(crate::query::QueryResult::Table { rows, .. }) => {
            if rows.len() == 1 {
                Ok(())
            } else {
                Err(unsupported_error("CALL subquery did not produce a count row"))
            }
        },
        Ok(_) => Err(unsupported_error("CALL subquery did not produce a count row")),
    };
    proof { assert(subqueries_report(o1, Some(o2), res)); }
    res
}

} // verus!
