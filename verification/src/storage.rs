//! The persisted form of the database: catalog version, cluster metadata, the files of a
//! store, audit events, and the choice of the snapshot that recovery restores.

use vstd::prelude::*;
use crate::errors::{ErrorCode, GraphDbError};
use crate::graph::InMemoryGraphStore;
use crate::server::AuditNote;
use crate::strmap::StrMap;
use crate::text::{chars_of, concat, decimal, decimal_chars, owned, string_from_chars};

verus! {

/// The catalog version this build writes and reads.
pub const CURRENT_CATALOG_VERSION: u64 = 1;

/// Checks that a persisted catalog version is the current one.
pub fn check_catalog_version(version: u64) -> (res: Result<(), GraphDbError>)
    ensures
        res is Ok <==> version == CURRENT_CATALOG_VERSION,
        res matches Err(e) ==> e.code == ErrorCode::IncompatibleFormat
            && e.message@ == "catalog version mismatch: expected 1, got "@ + decimal(version as nat)
            && e.details is None,
{
    if version == CURRENT_CATALOG_VERSION {
        return Ok(());
    }
    let m = concat(&chars_of("catalog version mismatch: expected 1, got "), &decimal_chars(version));
    let s = string_from_chars(m.as_slice());
    Err(GraphDbError::new(ErrorCode::IncompatibleFormat, s.as_str()))
}

/// One partition of the cluster and the key range it holds.
#[derive(Debug)]
pub struct PartitionMetadata {
    pub id: String,
    pub range: String,
}

/// The replicas of one partition.
#[derive(Debug)]
pub struct ReplicaMetadata {
    pub partition_id: String,
    pub replicas: Vec<String>,
}

/// The cluster metadata kept beside the graph.
#[derive(Debug)]
pub struct ClusterMetadataCatalog {
    pub catalog_schema_version: String,
    pub partitions: Vec<PartitionMetadata>,
    pub replicas: Vec<ReplicaMetadata>,
}

/// The metadata written with a fresh or committed graph: schema `v1`, no partitions, no
/// replicas.
pub fn default_cluster_metadata() -> (res: ClusterMetadataCatalog)
    ensures
        res.catalog_schema_version@ == "v1"@,
        res.partitions@.len() == 0,
        res.replicas@.len() == 0,
{
    ClusterMetadataCatalog { catalog_schema_version: owned("v1"), partitions: Vec::new(), replicas: Vec::new() }
}

/// A persisted snapshot: catalog version, cluster metadata and graph.
#[derive(Debug)]
pub struct PersistedSnapshot {
    pub catalog_version: u64,
    pub cluster_metadata: ClusterMetadataCatalog,
    pub graph: InMemoryGraphStore,
}

/// The snapshot written for a graph: the current catalog version and the default metadata.
pub fn snapshot_for(graph: InMemoryGraphStore) -> (res: PersistedSnapshot)
    ensures
        res.catalog_version == CURRENT_CATALOG_VERSION,
        res.cluster_metadata.catalog_schema_version@ == "v1"@,
        res.cluster_metadata.partitions@.len() == 0,
        res.cluster_metadata.replicas@.len() == 0,
        res.graph == graph,
{
    PersistedSnapshot { catalog_version: CURRENT_CATALOG_VERSION, cluster_metadata: default_cluster_metadata(), graph }
}

/// An audit event as it is stored: type, code, message, transaction, payload and time.
#[derive(Debug)]
pub struct AuditEvent {
    pub event_type: String,
    pub code: Option<String>,
    pub message: String,
    pub tx_id: Option<String>,
    pub payload: StrMap<String>,
    pub timestamp_epoch_ms: u128,
}

/// The stored event for an audit note at a time: the refused request, if any, goes into the
/// payload under `request`.
pub fn audit_event_from_note(note: AuditNote, timestamp_epoch_ms: u128) -> (res: AuditEvent)
    ensures
        res.event_type == note.event_type,
        res.code == note.code,
        res.message == note.message,
        res.tx_id == note.tx_id,
        res.timestamp_epoch_ms == timestamp_epoch_ms,
        res.payload@ == (match note.request {
            Some(r) => Map::<Seq<char>, String>::empty().insert("request"@, r),
            None => Map::<Seq<char>, String>::empty(),
        }),
{
    let mut payload: StrMap<String> = StrMap::new();
    match note.request {
        Some(r) => payload.insert(owned("request"), r),
        None => {},
    }
    AuditEvent {
        event_type: note.event_type,
        code: note.code,
        message: note.message,
        tx_id: note.tx_id,
        payload,
        timestamp_epoch_ms,
    }
}

/// The snapshot recovery restores from the write-ahead log's records, read in order: the last
/// one, or none for an empty log; a record that could not be read stops recovery with its
/// error.
pub fn latest_wal_snapshot(records: Vec<Result<PersistedSnapshot, String>>) -> (res: Result<Option<PersistedSnapshot>, GraphDbError>)
    ensures
        match wal_latest(records@) {
            Err(m) => res matches Err(e) && e.code == ErrorCode::IncompatibleFormat && e.message@ == "invalid wal entry: "@ + m,
            Ok(None) => res matches Ok(None),
            Ok(Some(i)) => res matches Ok(Some(s)) && records@[i] == Ok::<PersistedSnapshot, String>(s),
        },
{
    let mut rest = records;
    let ghost all = records@;
    let ghost mut done: int = 0;
    let mut latest: Option<PersistedSnapshot> = None;
    while rest.len() > 0
        invariant
            all == records@,
            0 <= done <= all.len(),
            rest@ == all.skip(done),
            wal_latest(all) == wal_continue(all, done, match latest { Some(_) => Some(done - 1), None => None }),
            latest matches Some(s) ==> 0 < done && all[done - 1] == Ok::<PersistedSnapshot, String>(s),
        decreases rest@.len(),
    {
        let item = rest.remove(0);
        assert(item == all[done]);
        match item {
            Err(m) => {
                assert(wal_continue(all, done, match latest { Some(_) => Some(done - 1), None => None })
                    == Err::<Option<int>, Seq<char>>(m@));
                let msg = concat(&chars_of("invalid wal entry: "), &chars_of(m.as_str()));
                let s = string_from_chars(msg.as_slice());
                return Err(GraphDbError::new(ErrorCode::IncompatibleFormat, s.as_str()));
            },
            Ok(snap) => {
                latest = Some(snap);
            },
        }
        proof { done = done + 1; }
        assert(rest@ =~= all.skip(done));
    }
    Ok(latest)
}

/// Reading records from position `i` on, with `last` the position of the last snapshot read
/// so far: the error of the first unreadable record, or the position of the last snapshot.
pub open spec fn wal_continue(records: Seq<Result<PersistedSnapshot, String>>, i: int, last: Option<int>) -> Result<Option<int>, Seq<char>>
    decreases records.len() - i,
{
    if i < 0 || i >= records.len() {
        Ok(last)
    } else {
        match records[i] {
            Err(m) => Err(m@),
            Ok(_) => wal_continue(records, i + 1, Some(i)),
        }
    }
}

/// The error of the first unreadable record, or the position of the last snapshot, if any.
pub open spec fn wal_latest(records: Seq<Result<PersistedSnapshot, String>>) -> Result<Option<int>, Seq<char>> {
    wal_continue(records, 0, None)
}

/// The path with its extension replaced (`Path::with_extension`). Nothing is claimed of the
/// result. std documents that setting an extension that holds a path separator panics, so the
/// extension may hold neither a slash nor a backslash.
#[verifier::external_body]
fn with_extension(path: &std::path::PathBuf, ext: &str) -> std::path::PathBuf
    requires
        !ext@.contains('/'),
        !ext@.contains('\\'),
{
    path.with_extension(ext)
}

/// The files of a store: the snapshot file, and beside it the write-ahead log (extension
/// `wal`) and the audit log (extension `audit.log`).
#[derive(Debug)]
pub struct StorageEngine {
    db_file: std::path::PathBuf,
    wal_file: std::path::PathBuf,
    audit_file: std::path::PathBuf,
}

impl StorageEngine {
    /// The snapshot file.
    pub closed spec fn db_file(&self) -> std::path::PathBuf {
        self.db_file
    }

    /// The write-ahead log file.
    pub closed spec fn wal_file(&self) -> std::path::PathBuf {
        self.wal_file
    }

    /// The audit log file.
    pub closed spec fn audit_file(&self) -> std::path::PathBuf {
        self.audit_file
    }

    /// The store kept in `db_file`.
    pub fn new(db_file: std::path::PathBuf) -> (res: Self)
        ensures
            res.db_file() == db_file,
    {
        proof {
            reveal_strlit("wal");
            reveal_strlit("audit.log");
        }
        let wal_file = with_extension(&db_file, "wal");
        let audit_file = with_extension(&db_file, "audit.log");
        StorageEngine { db_file, wal_file, audit_file }
    }

    /// The snapshot file.
    pub fn db_path(&self) -> (res: &std::path::PathBuf)
        ensures
            *res == self.db_file(),
    {
        &self.db_file
    }

    /// The write-ahead log.
    pub fn wal_path(&self) -> (res: &std::path::PathBuf)
        ensures
            *res == self.wal_file(),
    {
        &self.wal_file
    }

    /// The audit log.
    pub fn audit_path(&self) -> (res: &std::path::PathBuf)
        ensures
            *res == self.audit_file(),
    {
        &self.audit_file
    }
}

} // verus!
