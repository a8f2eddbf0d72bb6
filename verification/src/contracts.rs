//! Contract data shipped with the library and the lookups built on it.

use vstd::prelude::*;
use crate::errors::{ErrorCode, ErrorCategory, code_text, category_text, code_category};
use crate::strmap::StrMap;
use crate::text::{owned, str_eq};

verus! {

pub const TYPEMAP_SPEC_ID: &'static str = "AGDB-TYPEMAP-P0@1.0.0";
pub const CYPHER_SPEC_ID: &'static str = "AGDB-CYPHER-P0-GRAMMAR@1.0.0";
pub const ERROR_SPEC_ID: &'static str = "AGDB-ERROR-CODES@1.0.0";
pub const OPENCYPHER9_SPEC_ID: &'static str = "AGDB-CYPHER-OPENCYPHER9@1.0.0";

/// The protocol version this build speaks.
pub const PROTOCOL_VERSION_P0: &'static str = "protocol-p0@1.0.0";
/// The canonical type system version this build speaks.
pub const CANONICAL_TYPES_V1: &'static str = "canonical-types@1.0.0";

/// The type-mapping contract: the versions a client may negotiate and the type mappings.
#[derive(Debug)]
pub struct TypeMapSpec {
    pub spec_id: String,
    pub protocol_versions: Vec<String>,
    pub canonical_type_system_versions: Vec<String>,
    pub mappings: Vec<TypeMapping>,
}

/// How one canonical type maps to the client languages.
#[derive(Debug)]
pub struct TypeMapping {
    pub canonical: String,
    pub node: String,
    pub python: String,
    pub lossless: bool,
}

/// The Cypher P0 grammar contract.
#[derive(Debug)]
pub struct CypherP0GrammarSpec {
    pub spec_id: String,
    pub read_only_clauses: Vec<String>,
    pub write_clauses: Vec<String>,
    pub unsupported_behavior: String,
}

/// The error-code contract.
#[derive(Debug)]
pub struct ErrorCodeSpec {
    pub spec_id: String,
    pub codes: Vec<ErrorCodeEntry>,
}

/// One entry of the error-code contract.
#[derive(Debug)]
pub struct ErrorCodeEntry {
    pub code: String,
    pub category: String,
    pub description: String,
}

/// The openCypher 9 TCK requirement contract.
#[derive(Debug)]
pub struct OpenCypher9TckRequiredSpec {
    pub version: String,
    pub spec_id: String,
    pub source: TckSource,
    pub required_tck_ids: Vec<TckRequiredId>,
    pub tck_selector_map: Vec<TckSelectorEntry>,
}

/// Where the TCK scenarios were taken from.
#[derive(Debug)]
pub struct TckSource {
    pub snapshot_ref: String,
}

/// One required TCK scenario.
#[derive(Debug)]
pub struct TckRequiredId {
    pub id: String,
    pub upstream_file: String,
    pub upstream_scenario: String,
}

/// The selector that runs one TCK scenario.
#[derive(Debug)]
pub struct TckSelectorEntry {
    pub tck_id: String,
    pub selector: String,
}

/// The APOC procedures that `CALL` may run.
pub open spec fn allowed_procedure_names() -> Seq<Seq<char>> {
    seq!["apoc.meta.schema"@, "apoc.coll.toSet"@, "apoc.text.join"@, "apoc.refactor.rename.label"@]
}

/// The names of the procedures in the APOC procedure manifest.
pub fn load_apoc_procedure_names() -> (res: Vec<String>)
    ensures
        res@.map_values(|s: String| s@) == allowed_procedure_names(),
{
    let mut v: Vec<String> = Vec::new();
    v.push(owned("apoc.meta.schema"));
    v.push(owned("apoc.coll.toSet"));
    v.push(owned("apoc.text.join"));
    v.push(owned("apoc.refactor.rename.label"));
    assert(v@.map_values(|s: String| s@) =~= allowed_procedure_names());
    v
}

/// The codes of the error-code contract, in contract order.
pub open spec fn builtin_error_codes() -> Seq<ErrorCode> {
    seq![
        ErrorCode::ProtocolVersionMismatch,
        ErrorCode::UnsupportedFeature,
        ErrorCode::RetryableConflict,
        ErrorCode::WriteLockConflict,
        ErrorCode::IncompatibleFormat,
        ErrorCode::AuthRequired,
        ErrorCode::AuthFailed,
        ErrorCode::ReferentialIntegrityViolation,
        ErrorCode::InvalidArgument,
        ErrorCode::InvalidTopK,
        ErrorCode::InvalidThreshold,
        ErrorCode::InvalidCorpusId,
        ErrorCode::InvalidNamespace,
    ]
}

fn category_str(category: ErrorCategory) -> (res: &'static str)
    ensures
        res@ == category_text(category),
{
    match category {
        ErrorCategory::Protocol => "protocol",
        ErrorCategory::Query => "query",
        ErrorCategory::Transaction => "transaction",
        ErrorCategory::Storage => "storage",
        ErrorCategory::Auth => "auth",
        ErrorCategory::Integrity => "integrity",
        ErrorCategory::Validation => "validation",
    }
}

/// The description the shipped contract gives each code.
pub open spec fn code_description_text(code: ErrorCode) -> Seq<char> {
    match code {
        ErrorCode::ProtocolVersionMismatch => "protocol or canonical type system version is not supported"@,
        ErrorCode::UnsupportedFeature => "query uses a clause or feature outside the supported profile"@,
        ErrorCode::RetryableConflict => "transaction conflicted with a concurrent commit; retry"@,
        ErrorCode::WriteLockConflict => "another writer holds the database write lock"@,
        ErrorCode::IncompatibleFormat => "database file format or catalog version is incompatible"@,
        ErrorCode::AuthRequired => "authentication is required before this request"@,
        ErrorCode::AuthFailed => "authentication token was rejected"@,
        ErrorCode::ReferentialIntegrityViolation => "operation would break a node-edge reference"@,
        ErrorCode::InvalidArgument => "argument is invalid"@,
        ErrorCode::InvalidTopK => "topK is invalid"@,
        ErrorCode::InvalidThreshold => "threshold is invalid"@,
        ErrorCode::InvalidCorpusId => "corpusId is invalid"@,
        ErrorCode::InvalidNamespace => "namespace is invalid"@,
    }
}

fn code_description(code: ErrorCode) -> (res: &'static str)
    ensures
        res@ == code_description_text(code),
{
    match code {
        ErrorCode::ProtocolVersionMismatch => "protocol or canonical type system version is not supported",
        ErrorCode::UnsupportedFeature => "query uses a clause or feature outside the supported profile",
        ErrorCode::RetryableConflict => "transaction conflicted with a concurrent commit; retry",
        ErrorCode::WriteLockConflict => "another writer holds the database write lock",
        ErrorCode::IncompatibleFormat => "database file format or catalog version is incompatible",
        ErrorCode::AuthRequired => "authentication is required before this request",
        ErrorCode::AuthFailed => "authentication token was rejected",
        ErrorCode::ReferentialIntegrityViolation => "operation would break a node-edge reference",
        ErrorCode::InvalidArgument => "argument is invalid",
        ErrorCode::InvalidTopK => "topK is invalid",
        ErrorCode::InvalidThreshold => "threshold is invalid",
        ErrorCode::InvalidCorpusId => "corpusId is invalid",
        ErrorCode::InvalidNamespace => "namespace is invalid",
    }
}

/// The error-code contract shipped with the library: every code with its category.
pub fn load_error_code_spec() -> (res: ErrorCodeSpec)
    ensures
        res.spec_id@ == ERROR_SPEC_ID@,
        res.codes@.len() == builtin_error_codes().len(),
        forall|i: int| 0 <= i < res.codes@.len() ==> (#[trigger] res.codes@[i]).code@ == code_text(builtin_error_codes()[i])
            && res.codes@[i].category@ == category_text(code_category(builtin_error_codes()[i]))
            && res.codes@[i].description@ == code_description_text(builtin_error_codes()[i]),
{
    let all = [
        ErrorCode::ProtocolVersionMismatch,
        ErrorCode::UnsupportedFeature,
        ErrorCode::RetryableConflict,
        ErrorCode::WriteLockConflict,
        ErrorCode::IncompatibleFormat,
        ErrorCode::AuthRequired,
        ErrorCode::AuthFailed,
        ErrorCode::ReferentialIntegrityViolation,
        ErrorCode::InvalidArgument,
        ErrorCode::InvalidTopK,
        ErrorCode::InvalidThreshold,
        ErrorCode::InvalidCorpusId,
        ErrorCode::InvalidNamespace,
    ];
    assert(all@ == builtin_error_codes());
    let mut codes: Vec<ErrorCodeEntry> = Vec::new();
    let mut i: usize = 0;
    while i < 13
        invariant
            i <= 13,
            all@ == builtin_error_codes(),
            codes@.len() == i,
            forall|j: int| 0 <= j < i ==> (#[trigger] codes@[j]).code@ == code_text(builtin_error_codes()[j])
                && codes@[j].category@ == category_text(code_category(builtin_error_codes()[j]))
                && codes@[j].description@ == code_description_text(builtin_error_codes()[j]),
        decreases 13 - i,
    {
        let code = all[i];
        codes.push(ErrorCodeEntry {
            code: owned(code.as_str()),
            category: owned(category_str(code.category())),
            description: owned(code_description(code)),
        });
        i += 1;
    }
    ErrorCodeSpec { spec_id: owned(ERROR_SPEC_ID), codes }
}

/// The type-mapping contract shipped with the library.
pub fn load_typemap_spec() -> (res: TypeMapSpec)
    ensures
        res.spec_id@ == TYPEMAP_SPEC_ID@,
        res.protocol_versions@.map_values(|s: String| s@) == seq![PROTOCOL_VERSION_P0@],
        res.canonical_type_system_versions@.map_values(|s: String| s@) == seq![CANONICAL_TYPES_V1@],
        res.mappings@.len() > 0,
{
    let mut protocol_versions: Vec<String> = Vec::new();
    protocol_versions.push(owned(PROTOCOL_VERSION_P0));
    let mut canonical: Vec<String> = Vec::new();
    canonical.push(owned(CANONICAL_TYPES_V1));
    let mut mappings: Vec<TypeMapping> = Vec::new();
    mappings.push(TypeMapping { canonical: owned("STRING"), node: owned("string"), python: owned("str"), lossless: true });
    mappings.push(TypeMapping { canonical: owned("INT64"), node: owned("bigint"), python: owned("int"), lossless: true });
    mappings.push(TypeMapping { canonical: owned("FLOAT64"), node: owned("number"), python: owned("float"), lossless: true });
    mappings.push(TypeMapping { canonical: owned("BOOL"), node: owned("boolean"), python: owned("bool"), lossless: true });
    mappings.push(TypeMapping { canonical: owned("BYTES"), node: owned("Uint8Array"), python: owned("bytes"), lossless: true });
    assert(protocol_versions@.map_values(|s: String| s@) =~= seq![PROTOCOL_VERSION_P0@]);
    assert(canonical@.map_values(|s: String| s@) =~= seq![CANONICAL_TYPES_V1@]);
    TypeMapSpec {
        spec_id: owned(TYPEMAP_SPEC_ID),
        protocol_versions,
        canonical_type_system_versions: canonical,
        mappings,
    }
}

/// The read-only clauses of the Cypher P0 grammar.
pub open spec fn p0_read_only_clauses() -> Seq<Seq<char>> {
    seq!["MATCH"@, "OPTIONAL MATCH"@, "WHERE"@, "WITH"@, "UNWIND"@, "RETURN"@, "ORDER BY"@, "SKIP"@, "LIMIT"@]
}

/// The write clauses of the Cypher P0 grammar.
pub open spec fn p0_write_clauses() -> Seq<Seq<char>> {
    seq!["CREATE"@, "MERGE"@, "SET"@, "REMOVE"@, "DELETE"@]
}

fn strings_of(items: &[&str]) -> (res: Vec<String>)
    ensures
        res@.len() == items@.len(),
        forall|i: int| 0 <= i < items@.len() ==> (#[trigger] res@[i])@ == items@[i]@,
{
    let mut out: Vec<String> = Vec::new();
    let mut i: usize = 0;
    while i < items.len()
        invariant
            i <= items@.len(),
            out@.len() == i,
            forall|j: int| 0 <= j < i ==> (#[trigger] out@[j])@ == items@[j]@,
        decreases items@.len() - i,
    {
        out.push(owned(items[i]));
        i += 1;
    }
    out
}

/// The Cypher P0 grammar contract shipped with the library.
pub fn load_cypher_p0_grammar_spec() -> (res: CypherP0GrammarSpec)
    ensures
        res.spec_id@ == CYPHER_SPEC_ID@,
        res.read_only_clauses@.map_values(|s: String| s@) == p0_read_only_clauses(),
        res.write_clauses@.map_values(|s: String| s@) == p0_write_clauses(),
{
    let read_only = strings_of(&["MATCH", "OPTIONAL MATCH", "WHERE", "WITH", "UNWIND", "RETURN", "ORDER BY", "SKIP", "LIMIT"]);
    let write = strings_of(&["CREATE", "MERGE", "SET", "REMOVE", "DELETE"]);
    assert(read_only@.map_values(|s: String| s@) =~= p0_read_only_clauses());
    assert(write@.map_values(|s: String| s@) =~= p0_write_clauses());
    CypherP0GrammarSpec {
        spec_id: owned(CYPHER_SPEC_ID),
        read_only_clauses: read_only,
        write_clauses: write,
        unsupported_behavior: owned("UNSUPPORTED_FEATURE"),
    }
}

/// Whether `ids` holds a value twice.
pub open spec fn has_duplicate(ids: Seq<Seq<char>>) -> bool {
    exists|i: int, j: int| 0 <= i < j < ids.len() && ids[i] == ids[j]
}

/// The selector text of each scenario id of a TCK contract.
pub open spec fn selector_ids(spec: &OpenCypher9TckRequiredSpec) -> Seq<Seq<char>> {
    spec.tck_selector_map@.map_values(|e: TckSelectorEntry| e.tck_id@)
}

/// The required scenario ids of a TCK contract.
pub open spec fn required_ids(spec: &OpenCypher9TckRequiredSpec) -> Seq<Seq<char>> {
    spec.required_tck_ids@.map_values(|e: TckRequiredId| e.id@)
}

/// Whether a TCK contract's selector map is valid: no scenario mapped twice, no required id
/// listed twice, and every required id mapped.
pub open spec fn selector_map_valid(spec: &OpenCypher9TckRequiredSpec) -> bool {
    &&& !has_duplicate(selector_ids(spec))
    &&& !has_duplicate(required_ids(spec))
    &&& forall|i: int| 0 <= i < required_ids(spec).len() ==> selector_ids(spec).contains(#[trigger] required_ids(spec)[i])
}

/// The first position from `i` on whose value occurs earlier in `s`, if any.
pub open spec fn first_repeat_from(s: Seq<Seq<char>>, i: int) -> Option<int>
    decreases s.len() - i,
{
    if i < 0 || i >= s.len() {
        None
    } else if s.take(i).contains(s[i]) {
        Some(i)
    } else {
        first_repeat_from(s, i + 1)
    }
}

/// The first problem with the required ids from position `r` on: an id listed twice, or an
/// id that `ids` does not map.
pub open spec fn required_problem_from(rids: Seq<Seq<char>>, ids: Seq<Seq<char>>, r: int) -> Option<Seq<char>>
    decreases rids.len() - r,
{
    if r < 0 || r >= rids.len() {
        None
    } else if rids.take(r).contains(rids[r]) {
        Some("duplicate required_tck_id="@ + rids[r])
    } else if !ids.contains(rids[r]) {
        Some("unresolved tck_id="@ + rids[r])
    } else {
        required_problem_from(rids, ids, r + 1)
    }
}

/// The first problem with a TCK contract's selector map, as its message: the first scenario
/// mapped twice, then, in order of the required ids, the first listed twice or unmapped.
pub open spec fn selector_map_problem(spec: &OpenCypher9TckRequiredSpec) -> Option<Seq<char>> {
    match first_repeat_from(selector_ids(spec), 0) {
        Some(i) => Some("duplicate selector mapping for tck_id="@ + selector_ids(spec)[i]),
        None => required_problem_from(required_ids(spec), selector_ids(spec), 0),
    }
}

/// Builds the map from scenario id to selector. Fails when a scenario is mapped twice,
/// when a required id is listed twice, or when a required id has no selector.
pub fn build_tck_selector_map(spec: &OpenCypher9TckRequiredSpec) -> (res: Result<StrMap<String>, String>)
    ensures
        res is Ok <==> selector_map_valid(spec),
        match selector_map_problem(spec) {
            None => res is Ok,
            Some(m) => res matches Err(e) && e@ == m,
        },
        res matches Ok(map) ==> forall|i: int| 0 <= i < spec.tck_selector_map@.len() ==>
            map@.contains_key((#[trigger] spec.tck_selector_map@[i]).tck_id@)
            && map@[spec.tck_selector_map@[i].tck_id@] == spec.tck_selector_map@[i].selector,
        res matches Ok(map) ==> forall|k: Seq<char>| #[trigger] map@.contains_key(k) ==> selector_ids(spec).contains(k),
{
    let mut map: StrMap<String> = StrMap::new();
    let mut i: usize = 0;
    let ghost ids = selector_ids(spec);
    while i < spec.tck_selector_map.len()
        invariant
            i <= spec.tck_selector_map@.len(),
            ids == selector_ids(spec),
            ids.len() == spec.tck_selector_map@.len(),
            forall|a: int, b: int| 0 <= a < b < i ==> ids[a] != ids[b],
            forall|k: Seq<char>| #[trigger] map@.contains_key(k) <==> exists|j: int| 0 <= j < i && ids[j] == k,
            forall|j: int| 0 <= j < i ==> map@.contains_key((#[trigger] spec.tck_selector_map@[j]).tck_id@)
                && map@[spec.tck_selector_map@[j].tck_id@] == spec.tck_selector_map@[j].selector,
            first_repeat_from(ids, 0) == first_repeat_from(ids, i as int),
        decreases spec.tck_selector_map@.len() - i,
    {
        let entry = &spec.tck_selector_map[i];
        assert(ids[i as int] == entry.tck_id@);
        proof {
            if ids.take(i as int).contains(ids[i as int]) {
                let j = choose|j: int| 0 <= j < i && ids.take(i as int)[j] == ids[i as int];
                assert(ids[j] == ids[i as int]);
            }
        }
        if map.contains_key(entry.tck_id.as_str()) {
            let ghost j = choose|j: int| 0 <= j < i && ids[j] == entry.tck_id@;
            assert(has_duplicate(ids)) by { assert(ids[j] == ids[i as int]); }
            assert(ids.take(i as int)[j] == ids[j]);
            assert(first_repeat_from(ids, i as int) == Some(i as int));
            let mut msg = owned("duplicate selector mapping for tck_id=");
            msg.append(entry.tck_id.as_str());
            return Err(msg);
        }
        map.insert(entry.tck_id.clone(), entry.selector.clone());
        i += 1;
        assert forall|k: Seq<char>| #[trigger] map@.contains_key(k) <==> exists|j: int| 0 <= j < i && ids[j] == k by {
            if k == entry.tck_id@ {
                assert(ids[i - 1] == k);
            }
        }
    }
    assert(!has_duplicate(ids));
    assert(first_repeat_from(ids, i as int) is None);

    let ghost rids = required_ids(spec);
    let mut seen: StrMap<bool> = StrMap::new();
    let mut r: usize = 0;
    while r < spec.required_tck_ids.len()
        invariant
            r <= spec.required_tck_ids@.len(),
            rids == required_ids(spec),
            rids.len() == spec.required_tck_ids@.len(),
            ids == selector_ids(spec),
            !has_duplicate(ids),
            forall|a: int, b: int| 0 <= a < b < r ==> rids[a] != rids[b],
            forall|k: Seq<char>| #[trigger] seen@.contains_key(k) <==> exists|j: int| 0 <= j < r && rids[j] == k,
            first_repeat_from(ids, 0) is None,
            required_problem_from(rids, ids, 0) == required_problem_from(rids, ids, r as int),
            forall|j: int| 0 <= j < r ==> ids.contains(#[trigger] rids[j]),
            forall|k: Seq<char>| #[trigger] map@.contains_key(k) <==> exists|j: int| 0 <= j < ids.len() && ids[j] == k,
            forall|j: int| 0 <= j < spec.tck_selector_map@.len() ==> map@.contains_key((#[trigger] spec.tck_selector_map@[j]).tck_id@)
                && map@[spec.tck_selector_map@[j].tck_id@] == spec.tck_selector_map@[j].selector,
        decreases spec.required_tck_ids@.len() - r,
    {
        let required = &spec.required_tck_ids[r];
        assert(rids[r as int] == required.id@);
        proof {
            if rids.take(r as int).contains(rids[r as int]) {
                let j = choose|j: int| 0 <= j < r && rids.take(r as int)[j] == rids[r as int];
                assert(rids[j] == rids[r as int]);
            }
        }
        if seen.contains_key(required.id.as_str()) {
            let ghost j = choose|j: int| 0 <= j < r && rids[j] == required.id@;
            assert(has_duplicate(rids)) by { assert(rids[j] == rids[r as int]); }
            assert(rids.take(r as int)[j] == rids[j]);
            assert(required_problem_from(rids, ids, r as int) == Some("duplicate required_tck_id="@ + rids[r as int]));
            let mut msg = owned("duplicate required_tck_id=");
            msg.append(required.id.as_str());
            return Err(msg);
        }
        seen.insert(required.id.clone(), true);
        if !map.contains_key(required.id.as_str()) {
            assert(!ids.contains(rids[r as int])) by {
                if ids.contains(rids[r as int]) {
                    let j = choose|j: int| 0 <= j < ids.len() && ids[j] == rids[r as int];
                }
            }
            assert(!rids.take(r as int).contains(rids[r as int]));
            let mut msg = owned("unresolved tck_id=");
            msg.append(required.id.as_str());
            return Err(msg);
        }
        assert(ids.contains(rids[r as int])) by {
            let j = choose|j: int| 0 <= j < ids.len() && ids[j] == rids[r as int];
        }
        r += 1;
        assert forall|k: Seq<char>| #[trigger] seen@.contains_key(k) <==> exists|j: int| 0 <= j < r && rids[j] == k by {
            if k == required.id@ {
                assert(rids[r - 1] == k);
            }
        }
    }
    assert(!has_duplicate(rids));
    assert(required_problem_from(rids, ids, r as int) is None);
    assert forall|k: Seq<char>| #[trigger] map@.contains_key(k) implies selector_ids(spec).contains(k) by {
        let j = choose|j: int| 0 <= j < ids.len() && ids[j] == k;
    }
    Ok(map)
}

/// The selector of a required TCK scenario. Fails when the selector map is invalid or
/// the id has no selector.
pub fn resolve_tck_selector(spec: &OpenCypher9TckRequiredSpec, tck_id: &str) -> (res: Result<String, String>)
    ensures
        res is Ok <==> selector_map_valid(spec) && selector_ids(spec).contains(tck_id@),
        match selector_map_problem(spec) {
            Some(m) => res matches Err(e) && e@ == m,
            None => selector_ids(spec).contains(tck_id@)
                || (res matches Err(e) && e@ == "unresolved tck_id="@ + tck_id@),
        },
        res matches Ok(sel) ==> exists|i: int| 0 <= i < spec.tck_selector_map@.len()
            && (#[trigger] spec.tck_selector_map@[i]).tck_id@ == tck_id@
            && sel == spec.tck_selector_map@[i].selector,
{
    let map = match build_tck_selector_map(spec) {
        Ok(m) => m,
        Err(e) => return Err(e),
    };
    match map.get(tck_id) {
        Some(sel) => {
            proof {
                let i = choose|i: int| 0 <= i < selector_ids(spec).len() && selector_ids(spec)[i] == tck_id@;
                assert(spec.tck_selector_map@[i].tck_id@ == tck_id@);
            }
            Ok(sel.clone())
        },
        None => {
            proof {
                if selector_ids(spec).contains(tck_id@) {
                    let i = choose|i: int| 0 <= i < selector_ids(spec).len() && selector_ids(spec)[i] == tck_id@;
                    assert(map@.contains_key(spec.tck_selector_map@[i].tck_id@));
                }
            }
            let mut msg = owned("unresolved tck_id=");
            msg.append(tck_id);
            Err(msg)
        },
    }
}

} // verus!
