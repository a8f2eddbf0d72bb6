//! Fixed error codes, their categories, the error value returned by the library,
//! and the registry built from the error-code contract.

use vstd::prelude::*;
use crate::strmap::StrMap;
use crate::text::{owned, str_eq};
use crate::contracts::{ErrorCodeSpec, ErrorCodeEntry, ERROR_SPEC_ID, load_error_code_spec, builtin_error_codes};

verus! {

/// The fixed error codes of the error-code contract.
#[derive(Debug, Clone, Copy, PartialEq, Eq, Hash, Structural)]
pub enum ErrorCode {
    ProtocolVersionMismatch,
    UnsupportedFeature,
    RetryableConflict,
    WriteLockConflict,
    IncompatibleFormat,
    AuthRequired,
    AuthFailed,
    ReferentialIntegrityViolation,
    InvalidArgument,
    InvalidTopK,
    InvalidThreshold,
    InvalidCorpusId,
    InvalidNamespace,
}

/// The categories that error codes belong to.
#[derive(Debug, Clone, Copy, PartialEq, Eq, Hash, Structural)]
pub enum ErrorCategory {
    Protocol,
    Query,
    Transaction,
    Storage,
    Auth,
    Integrity,
    Validation,
}

/// The wire text of an error code.
pub open spec fn code_text(code: ErrorCode) -> Seq<char> {
    match code {
        ErrorCode::ProtocolVersionMismatch => "PROTOCOL_VERSION_MISMATCH"@,
        ErrorCode::UnsupportedFeature => "UNSUPPORTED_FEATURE"@,
        ErrorCode::RetryableConflict => "RETRYABLE_CONFLICT"@,
        ErrorCode::WriteLockConflict => "WRITE_LOCK_CONFLICT"@,
        ErrorCode::IncompatibleFormat => "INCOMPATIBLE_FORMAT"@,
        ErrorCode::AuthRequired => "AUTH_REQUIRED"@,
        ErrorCode::AuthFailed => "AUTH_FAILED"@,
        ErrorCode::ReferentialIntegrityViolation => "REFERENTIAL_INTEGRITY_VIOLATION"@,
        ErrorCode::InvalidArgument => "INVALID_ARGUMENT"@,
        ErrorCode::InvalidTopK => "INVALID_TOP_K"@,
        ErrorCode::InvalidThreshold => "INVALID_THRESHOLD"@,
        ErrorCode::InvalidCorpusId => "INVALID_CORPUS_ID"@,
        ErrorCode::InvalidNamespace => "INVALID_NAMESPACE"@,
    }
}

/// The category of an error code.
pub open spec fn code_category(code: ErrorCode) -> ErrorCategory {
    match code {
        ErrorCode::ProtocolVersionMismatch => ErrorCategory::Protocol,
        ErrorCode::UnsupportedFeature => ErrorCategory::Query,
        ErrorCode::RetryableConflict | ErrorCode::WriteLockConflict => ErrorCategory::Transaction,
        ErrorCode::IncompatibleFormat => ErrorCategory::Storage,
        ErrorCode::AuthRequired | ErrorCode::AuthFailed => ErrorCategory::Auth,
        ErrorCode::ReferentialIntegrityViolation => ErrorCategory::Integrity,
        ErrorCode::InvalidArgument
        | ErrorCode::InvalidTopK
        | ErrorCode::InvalidThreshold
        | ErrorCode::InvalidCorpusId
        | ErrorCode::InvalidNamespace => ErrorCategory::Validation,
    }
}

/// The contract text of a category.
pub open spec fn category_text(category: ErrorCategory) -> Seq<char> {
    match category {
        ErrorCategory::Protocol => "protocol"@,
        ErrorCategory::Query => "query"@,
        ErrorCategory::Transaction => "transaction"@,
        ErrorCategory::Storage => "storage"@,
        ErrorCategory::Auth => "auth"@,
        ErrorCategory::Integrity => "integrity"@,
        ErrorCategory::Validation => "validation"@,
    }
}

/// The code whose wire text is `text`, if there is one.
pub open spec fn code_of_text(text: Seq<char>) -> Option<ErrorCode> {
    if exists|c: ErrorCode| code_text(c) == text {
        Some(choose|c: ErrorCode| code_text(c) == text)
    } else {
        None
    }
}

/// The category whose contract text is `text`, if there is one.
pub open spec fn category_of_text(text: Seq<char>) -> Option<ErrorCategory> {
    if exists|c: ErrorCategory| category_text(c) == text {
        Some(choose|c: ErrorCategory| category_text(c) == text)
    } else {
        None
    }
}

/// Distinct codes have distinct wire texts.
pub proof fn lemma_code_text_injective(a: ErrorCode, b: ErrorCode)
    ensures
        code_text(a) == code_text(b) ==> a == b,
{
    reveal_strlit("PROTOCOL_VERSION_MISMATCH");
    reveal_strlit("UNSUPPORTED_FEATURE");
    reveal_strlit("RETRYABLE_CONFLICT");
    reveal_strlit("WRITE_LOCK_CONFLICT");
    reveal_strlit("INCOMPATIBLE_FORMAT");
    reveal_strlit("AUTH_REQUIRED");
    reveal_strlit("AUTH_FAILED");
    reveal_strlit("REFERENTIAL_INTEGRITY_VIOLATION");
    reveal_strlit("INVALID_ARGUMENT");
    reveal_strlit("INVALID_TOP_K");
    reveal_strlit("INVALID_THRESHOLD");
    reveal_strlit("INVALID_CORPUS_ID");
    reveal_strlit("INVALID_NAMESPACE");
    if code_text(a) == code_text(b) && a != b {
        assert(code_text(a).len() == code_text(b).len());
        assert(code_text(a)[0] == code_text(b)[0]);
        assert(code_text(a)[8] == code_text(b)[8]);
        assert(code_text(a)[9] == code_text(b)[9]);
        assert(code_text(a)[code_text(a).len() - 1] == code_text(b)[code_text(b).len() - 1]);
    }
}

/// Distinct categories have distinct contract texts.
pub proof fn lemma_category_text_injective(a: ErrorCategory, b: ErrorCategory)
    ensures
        category_text(a) == category_text(b) ==> a == b,
{
    reveal_strlit("protocol");
    reveal_strlit("query");
    reveal_strlit("transaction");
    reveal_strlit("storage");
    reveal_strlit("auth");
    reveal_strlit("integrity");
    reveal_strlit("validation");
    if category_text(a) == category_text(b) && a != b {
        assert(category_text(a).len() == category_text(b).len());
        assert(category_text(a)[0] == category_text(b)[0]);
    }
}

/// Reading back the wire text of a code gives the code.
pub proof fn lemma_code_text_roundtrip(code: ErrorCode)
    ensures
        code_of_text(code_text(code)) == Some(code),
{
    let c = choose|c: ErrorCode| code_text(c) == code_text(code);
    lemma_code_text_injective(c, code);
}

/// Reading back the contract text of a category gives the category.
pub proof fn lemma_category_text_roundtrip(category: ErrorCategory)
    ensures
        category_of_text(category_text(category)) == Some(category),
{
    let c = choose|c: ErrorCategory| category_text(c) == category_text(category);
    lemma_category_text_injective(c, category);
}

impl ErrorCode {
    /// The wire text of this code.
    pub fn as_str(self) -> (res: &'static str)
        ensures
            res@ == code_text(self),
    {
        match self {
            ErrorCode::ProtocolVersionMismatch => "PROTOCOL_VERSION_MISMATCH",
            ErrorCode::UnsupportedFeature => "UNSUPPORTED_FEATURE",
            ErrorCode::RetryableConflict => "RETRYABLE_CONFLICT",
            ErrorCode::WriteLockConflict => "WRITE_LOCK_CONFLICT",
            ErrorCode::IncompatibleFormat => "INCOMPATIBLE_FORMAT",
            ErrorCode::AuthRequired => "AUTH_REQUIRED",
            ErrorCode::AuthFailed => "AUTH_FAILED",
            ErrorCode::ReferentialIntegrityViolation => "REFERENTIAL_INTEGRITY_VIOLATION",
            ErrorCode::InvalidArgument => "INVALID_ARGUMENT",
            ErrorCode::InvalidTopK => "INVALID_TOP_K",
            ErrorCode::InvalidThreshold => "INVALID_THRESHOLD",
            ErrorCode::InvalidCorpusId => "INVALID_CORPUS_ID",
            ErrorCode::InvalidNamespace => "INVALID_NAMESPACE",
        }
    }

    /// The code whose wire text is `value`, if any.
    pub fn from_str(value: &str) -> (res: Option<ErrorCode>)
        ensures
            res == code_of_text(value@),
    {
        let all = [
            ErrorCode::ProtocolVersionMismatch,
            ErrorCode::UnsupportedFeature,
            ErrorCode::RetryableConflict,
            ErrorCode::WriteLockConflict,
            ErrorCode::IncompatibleFormat,
            ErrorCode::AuthRequired,
            ErrorCode::AuthFailed,
            ErrorCode::ReferentialIntegrityViolation,
            ErrorCode::InvalidArgument,
            ErrorCode::InvalidTopK,
            ErrorCode::InvalidThreshold,
            ErrorCode::InvalidCorpusId,
            ErrorCode::InvalidNamespace,
        ];
        let mut i: usize = 0;
        while i < 13
            invariant
                forall|j: int| 0 <= j < i ==> code_text(#[trigger] all@[j]) != value@,
                all@ == seq![
                    ErrorCode::ProtocolVersionMismatch,
                    ErrorCode::UnsupportedFeature,
                    ErrorCode::RetryableConflict,
                    ErrorCode::WriteLockConflict,
                    ErrorCode::IncompatibleFormat,
                    ErrorCode::AuthRequired,
                    ErrorCode::AuthFailed,
                    ErrorCode::ReferentialIntegrityViolation,
                    ErrorCode::InvalidArgument,
                    ErrorCode::InvalidTopK,
                    ErrorCode::InvalidThreshold,
                    ErrorCode::InvalidCorpusId,
                    ErrorCode::InvalidNamespace,
                ],
            decreases 13 - i,
        {
            let c = all[i];
            if str_eq(c.as_str(), value) {
                proof { lemma_code_text_roundtrip(c); }
                return Some(c);
            }
            i += 1;
        }
        proof {
            assert forall|c: ErrorCode| code_text(c) != value@ by {
                match c {
                    ErrorCode::ProtocolVersionMismatch => assert(code_text(all@[0]) != value@),
                    ErrorCode::UnsupportedFeature => assert(code_text(all@[1]) != value@),
                    ErrorCode::RetryableConflict => assert(code_text(all@[2]) != value@),
                    ErrorCode::WriteLockConflict => assert(code_text(all@[3]) != value@),
                    ErrorCode::IncompatibleFormat => assert(code_text(all@[4]) != value@),
                    ErrorCode::AuthRequired => assert(code_text(all@[5]) != value@),
                    ErrorCode::AuthFailed => assert(code_text(all@[6]) != value@),
                    ErrorCode::ReferentialIntegrityViolation => assert(code_text(all@[7]) != value@),
                    ErrorCode::InvalidArgument => assert(code_text(all@[8]) != value@),
                    ErrorCode::InvalidTopK => assert(code_text(all@[9]) != value@),
                    ErrorCode::InvalidThreshold => assert(code_text(all@[10]) != value@),
                    ErrorCode::InvalidCorpusId => assert(code_text(all@[11]) != value@),
                    ErrorCode::InvalidNamespace => assert(code_text(all@[12]) != value@),
                }
            }
        }
        None
    }

    /// The category of this code.
    pub fn category(self) -> (res: ErrorCategory)
        ensures
            res == code_category(self),
    {
        match self {
            ErrorCode::ProtocolVersionMismatch => ErrorCategory::Protocol,
            ErrorCode::UnsupportedFeature => ErrorCategory::Query,
            ErrorCode::RetryableConflict | ErrorCode::WriteLockConflict => ErrorCategory::Transaction,
            ErrorCode::IncompatibleFormat => ErrorCategory::Storage,
            ErrorCode::AuthRequired | ErrorCode::AuthFailed => ErrorCategory::Auth,
            ErrorCode::ReferentialIntegrityViolation => ErrorCategory::Integrity,
            ErrorCode::InvalidArgument
            | ErrorCode::InvalidTopK
            | ErrorCode::InvalidThreshold
            | ErrorCode::InvalidCorpusId
            | ErrorCode::InvalidNamespace => ErrorCategory::Validation,
        }
    }
}

impl ErrorCategory {
    /// The category whose contract text is `value`, if any.
    pub fn from_str(value: &str) -> (res: Option<ErrorCategory>)
        ensures
            res == category_of_text(value@),
    {
        let all = [
            ErrorCategory::Protocol,
            ErrorCategory::Query,
            ErrorCategory::Transaction,
            ErrorCategory::Storage,
            ErrorCategory::Auth,
            ErrorCategory::Integrity,
            ErrorCategory::Validation,
        ];
        let texts = ["protocol", "query", "transaction", "storage", "auth", "integrity", "validation"];
        let mut i: usize = 0;
        while i < 7
            invariant
                forall|j: int| 0 <= j < i ==> category_text(#[trigger] all@[j]) != value@,
                all@ == seq![
                    ErrorCategory::Protocol,
                    ErrorCategory::Query,
                    ErrorCategory::Transaction,
                    ErrorCategory::Storage,
                    ErrorCategory::Auth,
                    ErrorCategory::Integrity,
                    ErrorCategory::Validation,
                ],
                forall|j: int| 0 <= j < 7 ==> (#[trigger] texts@[j])@ == category_text(all@[j]),
            decreases 7 - i,
        {
            if str_eq(texts[i], value) {
                proof { lemma_category_text_roundtrip(all@[i as int]); }
                return Some(all[i]);
            }
            i += 1;
        }
        proof {
            assert forall|c: ErrorCategory| category_text(c) != value@ by {
                match c {
                    ErrorCategory::Protocol => assert(category_text(all@[0]) != value@),
                    ErrorCategory::Query => assert(category_text(all@[1]) != value@),
                    ErrorCategory::Transaction => assert(category_text(all@[2]) != value@),
                    ErrorCategory::Storage => assert(category_text(all@[3]) != value@),
                    ErrorCategory::Auth => assert(category_text(all@[4]) != value@),
                    ErrorCategory::Integrity => assert(category_text(all@[5]) != value@),
                    ErrorCategory::Validation => assert(category_text(all@[6]) != value@),
                }
            }
        }
        None
    }
}

/// The error value of the library: a fixed code, a message, and optional details.
#[derive(Debug)]
pub struct GraphDbError {
    pub code: ErrorCode,
    pub message: String,
    pub details: Option<StrMap<String>>,
}

impl GraphDbError {
    /// An error with the given code and message and no details.
    pub fn new(code: ErrorCode, message: &str) -> (res: Self)
        ensures
            res.code == code,
            res.message@ == message@,
            res.details is None,
    {
        GraphDbError { code, message: owned(message), details: None }
    }

    /// The same error with `key` set to `value` in its details.
    pub fn with_detail(self, key: &str, value: &str) -> (res: Self)
        ensures
            res.code == self.code,
            res.message == self.message,
            res.details is Some,
            res.details->0@ == (match self.details {
                Some(d) => d@,
                None => Map::<Seq<char>, String>::empty(),
            }).insert(key@, res.details->0@[key@]),
            res.details->0@[key@]@ == value@,
    {
        let mut details = match self.details {
            Some(d) => d,
            None => StrMap::new(),
        };
        let v = owned(value);
        details.insert(owned(key), v);
        GraphDbError { code: self.code, message: self.message, details: Some(details) }
    }

    /// The detail stored under `key`, if any.
    pub fn detail(&self, key: &str) -> (res: Option<&String>)
        ensures
            match res {
                Some(v) => self.details is Some && self.details->0@.contains_key(key@)
                    && *v == self.details->0@[key@],
                None => self.details is None || !self.details->0@.contains_key(key@),
            },
    {
        match &self.details {
            Some(d) => d.get(key),
            None => None,
        }
    }
}

/// One registered error code with its category and description.
#[derive(Debug, Clone)]
pub struct ErrorDefinition {
    pub code: ErrorCode,
    pub category: ErrorCategory,
    pub description: String,
}

/// Why a registry could not be built from a contract.
#[derive(Debug)]
pub enum RegistryError {
    SpecIdMismatch { expected: String, got: String },
    UnknownCode(String),
    UnknownCategory(String),
    DuplicateCode(String),
}

/// The registry of error definitions, one per code.
#[derive(Debug)]
pub struct ErrorRegistry {
    definitions: Vec<ErrorDefinition>,
}

/// Whether some definition in `defs` has code `code`.
pub open spec fn has_code(defs: Seq<ErrorDefinition>, code: ErrorCode) -> bool {
    exists|i: int| 0 <= i < defs.len() && defs[i].code == code
}

/// The outcome of registering the entries of a contract in order: the definitions,
/// or the error met at the first entry that cannot be registered.
pub open spec fn register_entries(entries: Seq<ErrorCodeEntry>) -> Result<Seq<ErrorDefinition>, RegistryError>
    decreases entries.len(),
{
    if entries.len() == 0 {
        Ok(Seq::empty())
    } else {
        match register_entries(entries.drop_last()) {
            Err(e) => Err(e),
            Ok(defs) => {
                let entry = entries.last();
                match code_of_text(entry.code@) {
                    None => Err(RegistryError::UnknownCode(entry.code)),
                    Some(code) => match category_of_text(entry.category@) {
                        None => Err(RegistryError::UnknownCategory(entry.category)),
                        Some(category) => if has_code(defs, code) {
                            Err(RegistryError::DuplicateCode(entry.code))
                        } else {
                            Ok(defs.push(ErrorDefinition { code, category, description: entry.description }))
                        },
                    },
                }
            },
        }
    }
}

/// Once registering a prefix of the entries fails, registering all of them fails the same way.
proof fn lemma_register_error_persists(entries: Seq<ErrorCodeEntry>, k: int)
    requires
        0 <= k <= entries.len(),
        register_entries(entries.take(k)) is Err,
    ensures
        register_entries(entries) == register_entries(entries.take(k)),
    decreases entries.len() - k,
{
    if k == entries.len() {
        assert(entries.take(k) == entries);
    } else {
        assert(entries.take(k + 1).drop_last() == entries.take(k));
        lemma_register_error_persists(entries, k + 1);
    }
}

/// Codes of a registered definition list are distinct.
pub open spec fn codes_distinct(defs: Seq<ErrorDefinition>) -> bool {
    forall|i: int, j: int| 0 <= i < defs.len() && 0 <= j < defs.len() && i != j ==> defs[i].code != defs[j].code
}

proof fn lemma_register_entries_distinct(entries: Seq<ErrorCodeEntry>)
    ensures
        register_entries(entries) matches Ok(defs) ==> codes_distinct(defs),
    decreases entries.len(),
{
    if entries.len() > 0 {
        lemma_register_entries_distinct(entries.drop_last());
    }
}


/// The position of a code in the built-in contract.
pub open spec fn code_position(c: ErrorCode) -> int {
    match c {
        ErrorCode::ProtocolVersionMismatch => 0,
        ErrorCode::UnsupportedFeature => 1,
        ErrorCode::RetryableConflict => 2,
        ErrorCode::WriteLockConflict => 3,
        ErrorCode::IncompatibleFormat => 4,
        ErrorCode::AuthRequired => 5,
        ErrorCode::AuthFailed => 6,
        ErrorCode::ReferentialIntegrityViolation => 7,
        ErrorCode::InvalidArgument => 8,
        ErrorCode::InvalidTopK => 9,
        ErrorCode::InvalidThreshold => 10,
        ErrorCode::InvalidCorpusId => 11,
        ErrorCode::InvalidNamespace => 12,
    }
}

/// Each built-in code sits at its own position.
proof fn lemma_builtin_code_positions()
    ensures
        forall|i: int| 0 <= i < 13 ==> code_position(#[trigger] builtin_error_codes()[i]) == i,
{
    assert forall|i: int| 0 <= i < 13 implies code_position(#[trigger] builtin_error_codes()[i]) == i by {
        if i == 0 {} else if i == 1 {} else if i == 2 {} else if i == 3 {} else if i == 4 {}
        else if i == 5 {} else if i == 6 {} else if i == 7 {} else if i == 8 {} else if i == 9 {}
        else if i == 10 {} else if i == 11 {} else {}
    }
}

/// Every built-in code is listed once.
pub proof fn lemma_builtin_codes_cover(c: ErrorCode)
    ensures
        exists|i: int| 0 <= i < 13 && builtin_error_codes()[i] == c,
{
    match c {
        ErrorCode::ProtocolVersionMismatch => assert(builtin_error_codes()[0] == c),
        ErrorCode::UnsupportedFeature => assert(builtin_error_codes()[1] == c),
        ErrorCode::RetryableConflict => assert(builtin_error_codes()[2] == c),
        ErrorCode::WriteLockConflict => assert(builtin_error_codes()[3] == c),
        ErrorCode::IncompatibleFormat => assert(builtin_error_codes()[4] == c),
        ErrorCode::AuthRequired => assert(builtin_error_codes()[5] == c),
        ErrorCode::AuthFailed => assert(builtin_error_codes()[6] == c),
        ErrorCode::ReferentialIntegrityViolation => assert(builtin_error_codes()[7] == c),
        ErrorCode::InvalidArgument => assert(builtin_error_codes()[8] == c),
        ErrorCode::InvalidTopK => assert(builtin_error_codes()[9] == c),
        ErrorCode::InvalidThreshold => assert(builtin_error_codes()[10] == c),
        ErrorCode::InvalidCorpusId => assert(builtin_error_codes()[11] == c),
        ErrorCode::InvalidNamespace => assert(builtin_error_codes()[12] == c),
    }
}

/// The first `k` entries spelling the built-in codes with their categories register into
/// one definition each.
proof fn lemma_builtin_prefix_registers(entries: Seq<ErrorCodeEntry>, k: int)
    requires
        0 <= k <= entries.len(),
        entries.len() == builtin_error_codes().len(),
        forall|i: int| 0 <= i < entries.len() ==> (#[trigger] entries[i]).code@ == code_text(builtin_error_codes()[i])
            && entries[i].category@ == category_text(code_category(builtin_error_codes()[i])),
    ensures
        register_entries(entries.take(k)) matches Ok(defs) && defs.len() == k
            && forall|i: int| 0 <= i < defs.len() ==> (#[trigger] defs[i]).code == builtin_error_codes()[i]
                && defs[i].category == code_category(builtin_error_codes()[i]),
    decreases k,
{
    let table = builtin_error_codes();
    if k == 0 {
        assert(entries.take(0).len() == 0);
    } else {
        lemma_builtin_prefix_registers(entries, k - 1);
        let defs = register_entries(entries.take(k - 1))->Ok_0;
        assert(entries.take(k).drop_last() == entries.take(k - 1));
        assert(entries.take(k).last() == entries[k - 1]);
        lemma_code_text_roundtrip(table[k - 1]);
        lemma_category_text_roundtrip(code_category(table[k - 1]));
        assert(!has_code(defs, table[k - 1])) by {
            if has_code(defs, table[k - 1]) {
                let j = choose|j: int| 0 <= j < defs.len() && defs[j].code == table[k - 1];
                lemma_builtin_code_positions();
                assert(code_position(table[j]) == j);
                assert(code_position(table[k - 1]) == k - 1);
                assert(false);
            }
        }
    }
}

/// Registering entries that spell the built-in codes with their categories succeeds and
/// yields one definition per entry.
proof fn lemma_builtin_entries_register(entries: Seq<ErrorCodeEntry>)
    requires
        entries.len() == builtin_error_codes().len(),
        forall|i: int| 0 <= i < entries.len() ==> (#[trigger] entries[i]).code@ == code_text(builtin_error_codes()[i])
            && entries[i].category@ == category_text(code_category(builtin_error_codes()[i])),
    ensures
        register_entries(entries) matches Ok(defs) && defs.len() == entries.len()
            && forall|i: int| 0 <= i < defs.len() ==> (#[trigger] defs[i]).code == builtin_error_codes()[i]
                && defs[i].category == code_category(builtin_error_codes()[i]),
{
    lemma_builtin_prefix_registers(entries, entries.len() as int);
    assert(entries.take(entries.len() as int) == entries);
}

impl ErrorRegistry {
    #[verifier::type_invariant]
    spec fn wf(&self) -> bool {
        codes_distinct(self.definitions@)
    }

    /// The registered definitions, in contract order.
    pub closed spec fn defs(&self) -> Seq<ErrorDefinition> {
        self.definitions@
    }

    /// The registry built from the built-in error-code contract: it holds every code once,
    /// each with its category, in contract order.
    pub fn load() -> (res: Result<Self, RegistryError>)
        ensures
            res matches Ok(r) && r.defs().len() == builtin_error_codes().len()
                && (forall|i: int| 0 <= i < r.defs().len() ==>
                    (#[trigger] r.defs()[i]).code == builtin_error_codes()[i]
                    && r.defs()[i].category == code_category(builtin_error_codes()[i]))
                && (forall|c: ErrorCode| #[trigger] has_code(r.defs(), c)),
    {
        let spec = load_error_code_spec();
        proof { lemma_builtin_entries_register(spec.codes@); }
        let res = Self::from_spec(spec);
        proof {
            if let Ok(r) = &res {
                assert forall|c: ErrorCode| #[trigger] has_code(r.defs(), c) by {
                    let i = choose|i: int| 0 <= i < 13 && builtin_error_codes()[i] == c;
                    assert(r.defs()[i].code == c);
                }
            }
        }
        res
    }

    /// The registry built from a contract: the spec id must match and every entry must
    /// name a known code and category, with no code registered twice.
    pub fn from_spec(spec: ErrorCodeSpec) -> (res: Result<Self, RegistryError>)
        ensures
            spec.spec_id@ != ERROR_SPEC_ID@ ==> (res matches Err(RegistryError::SpecIdMismatch { expected, got })
                && expected@ == ERROR_SPEC_ID@ && got == spec.spec_id),
            spec.spec_id@ == ERROR_SPEC_ID@ ==> match (res, register_entries(spec.codes@)) {
                (Ok(r), Ok(defs)) => r.defs() == defs,
                (Err(e1), Err(e2)) => e1 == e2,
                _ => false,
            },
    {
        if !str_eq(spec.spec_id.as_str(), ERROR_SPEC_ID) {
            return Err(RegistryError::SpecIdMismatch { expected: owned(ERROR_SPEC_ID), got: spec.spec_id });
        }
        let mut definitions: Vec<ErrorDefinition> = Vec::new();
        let mut i: usize = 0;
        while i < spec.codes.len()
            invariant
                i <= spec.codes@.len(),
                spec.spec_id@ == ERROR_SPEC_ID@,
                register_entries(spec.codes@.take(i as int)) == Ok::<Seq<ErrorDefinition>, RegistryError>(definitions@),
            decreases spec.codes@.len() - i,
        {
            let entry = &spec.codes[i];
            assert(spec.codes@.take(i + 1).drop_last() == spec.codes@.take(i as int));
            let code = match ErrorCode::from_str(entry.code.as_str()) {
                Some(c) => c,
                None => {
                    proof { lemma_register_error_persists(spec.codes@, i + 1); }
                    return Err(RegistryError::UnknownCode(entry.code.clone()));
                },
            };
            let category = match ErrorCategory::from_str(entry.category.as_str()) {
                Some(c) => c,
                None => {
                    proof { lemma_register_error_persists(spec.codes@, i + 1); }
                    return Err(RegistryError::UnknownCategory(entry.category.clone()));
                },
            };
            let mut j: usize = 0;
            #[verifier::loop_isolation(false)]
            while j < definitions.len()
                invariant
                    j <= definitions@.len(),
                    forall|k: int| 0 <= k < j ==> definitions@[k].code != code,
                decreases definitions@.len() - j,
            {
                if definitions[j].code == code {
                    proof {
                        assert(has_code(definitions@, code)) by { assert(definitions@[j as int].code == code); }
                        lemma_register_error_persists(spec.codes@, i + 1);
                    }
                    return Err(RegistryError::DuplicateCode(entry.code.clone()));
                }
                j += 1;
            }
            definitions.push(ErrorDefinition { code, category, description: entry.description.clone() });
            i += 1;
        }
        assert(spec.codes@.take(spec.codes@.len() as int) == spec.codes@);
        proof { lemma_register_entries_distinct(spec.codes@); }
        Ok(ErrorRegistry { definitions })
    }

    /// The definition registered for `code`, if any.
    pub fn definition(&self, code: ErrorCode) -> (res: Option<&ErrorDefinition>)
        ensures
            match res {
                Some(d) => exists|i: int| 0 <= i < self.defs().len() && self.defs()[i] == *d && d.code == code,
                None => !has_code(self.defs(), code),
            },
    {
        let mut i: usize = 0;
        while i < self.definitions.len()
            invariant
                i <= self.definitions@.len(),
                forall|k: int| 0 <= k < i ==> self.definitions@[k].code != code,
            decreases self.definitions@.len() - i,
        {
            if self.definitions[i].code == code {
                assert(self.defs()[i as int] == self.definitions[i as int]);
                return Some(&self.definitions[i]);
            }
            i += 1;
        }
        None
    }

    /// The definitions of the given category, in registry order.
    pub fn definitions_by_category(&self, category: ErrorCategory) -> (res: Vec<&ErrorDefinition>)
        ensures
            res@.map_values(|d: &ErrorDefinition| *d) == self.defs().filter(|d: ErrorDefinition| d.category == category),
    {
        let mut out: Vec<&ErrorDefinition> = Vec::new();
        let mut i: usize = 0;
        while i < self.definitions.len()
            invariant
                i <= self.definitions@.len(),
                out@.map_values(|d: &ErrorDefinition| *d) == self.definitions@.take(i as int).filter(|d: ErrorDefinition| d.category == category),
            decreases self.definitions@.len() - i,
        {
            proof {
                reveal_with_fuel(Seq::filter, 1);
                assert(self.definitions@.take(i + 1).drop_last() == self.definitions@.take(i as int));
            }
            if self.definitions[i].category == category {
                out.push(&self.definitions[i]);
            }
            i += 1;
            assert(out@.map_values(|d: &ErrorDefinition| *d) =~= self.definitions@.take(i as int).filter(|d: ErrorDefinition| d.category == category));
        }
        assert(self.definitions@.take(self.definitions@.len() as int) == self.definitions@);
        out
    }

    /// Whether `code` is the wire text of a code registered here.
    pub fn is_known_code_str(&self, code: &str) -> (res: bool)
        ensures
            res == (code_of_text(code@) matches Some(c) && has_code(self.defs(), c)),
    {
        match ErrorCode::from_str(code) {
            Some(parsed) => {
                match self.definition(parsed) {
                    Some(_) => true,
                    None => false,
                }
            },
            None => false,
        }
    }
}

} // verus!
