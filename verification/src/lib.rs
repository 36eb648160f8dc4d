//! Core of a file-synchronization engine: given per-file metadata (path,
//! content hash, size) for a source tree and a destination tree, it computes
//! the create/update/delete operations that bring the destination into
//! agreement with the source, and ranks them for execution.

use vstd::prelude::*;

pub mod compression;
pub mod crypto;
pub mod diff;

verus! {

/// Metadata for one file on one side of a comparison.
///
/// `path` may use either `/` or `\` as separator; the two sides are joined
/// on the normalized path (every `\` rewritten to `/`). `hash` is an opaque
/// content fingerprint and is the authoritative equality signal; `size` is a
/// secondary, defensive signal. `modified_time` and `permissions` are carried
/// through and never consulted by the comparison.
#[derive(Debug, Clone)]
pub struct FileMetadata {
    pub path: String,
    pub hash: String,
    pub size: i64,
    pub modified_time: String,
    pub permissions: String,
}

/// Mathematical model of a `FileMetadata` record.
pub struct MetaView {
    pub path: Seq<char>,
    pub hash: Seq<char>,
    pub size: int,
    pub modified_time: Seq<char>,
    pub permissions: Seq<char>,
}

impl View for FileMetadata {
    type V = MetaView;

    open spec fn view(&self) -> MetaView {
        MetaView {
            path: self.path@,
            hash: self.hash@,
            size: self.size as int,
            modified_time: self.modified_time@,
            permissions: self.permissions@,
        }
    }
}

impl DeepView for FileMetadata {
    type V = MetaView;

    open spec fn deep_view(&self) -> MetaView {
        self@
    }
}

/// The three divergence classes a reconciliation can report for a path.
#[derive(Debug, Clone, Copy, PartialEq, Eq, Structural)]
pub enum OperationKind {
    Create,
    Update,
    Delete,
}

impl OperationKind {
    /// The conventional lower-case tag for this kind.
    pub fn name(&self) -> (r: &'static str)
        ensures
            *self == OperationKind::Create ==> r@ == "create"@,
            *self == OperationKind::Update ==> r@ == "update"@,
            *self == OperationKind::Delete ==> r@ == "delete"@,
    {
        match self {
            OperationKind::Create => "create",
            OperationKind::Update => "update",
            OperationKind::Delete => "delete",
        }
    }
}

/// One detected divergence between the two sides.
///
/// `path` is the original (non-normalized) path from whichever side produced
/// the record. The absent side's hash is the empty string: a `Create` has no
/// destination hash, a `Delete` no source hash. `size` is the source size for
/// create/update and the destination size for delete.
#[derive(Debug, Clone)]
pub struct FileDiff {
    pub path: String,
    pub operation: OperationKind,
    pub source_hash: String,
    pub dest_hash: String,
    pub size: i64,
}

/// Mathematical model of a `FileDiff` operation.
pub struct OpView {
    pub path: Seq<char>,
    pub operation: OperationKind,
    pub source_hash: Seq<char>,
    pub dest_hash: Seq<char>,
    pub size: int,
}

impl View for FileDiff {
    type V = OpView;

    open spec fn view(&self) -> OpView {
        OpView {
            path: self.path@,
            operation: self.operation,
            source_hash: self.source_hash@,
            dest_hash: self.dest_hash@,
            size: self.size as int,
        }
    }
}

impl DeepView for FileDiff {
    type V = OpView;

    open spec fn deep_view(&self) -> OpView {
        self@
    }
}

/// Aggregate counts for one reconciliation pass.
#[derive(Debug, Clone, PartialEq, Eq, Structural)]
pub struct DiffStatistics {
    pub total_source_files: usize,
    pub total_dest_files: usize,
    pub files_to_create: usize,
    pub files_to_update: usize,
    pub files_to_delete: usize,
    pub total_size: i64,
}

/// The outcome of one reconciliation pass: the operations and their counts.
#[derive(Debug)]
pub struct DiffResult {
    pub differences: Vec<FileDiff>,
    pub statistics: DiffStatistics,
}

/// The synchronization engine: reconciliation, payload encryption and
/// payload compression behind one façade. It is stateless between calls.
pub struct SyncEngine {
    diff_calculator: diff::DiffCalculator,
    crypto_compressor: crypto::CryptoCompressor,
    compressor: compression::Compressor,
}

impl SyncEngine {
    /// The zlib level the engine compresses at.
    pub closed spec fn compression_level(&self) -> int {
        self.compressor.level_spec()
    }

    /// An engine with the default compression level.
    pub fn new() -> (r: Self)
        ensures
            r.compression_level() == 6,
    {
        Self {
            diff_calculator: diff::DiffCalculator::new(),
            crypto_compressor: crypto::CryptoCompressor::new(),
            compressor: compression::Compressor::new(),
        }
    }

    /// The create/update pass over the two collections, with statistics.
    pub fn calculate_differences(
        &self,
        source_files: &Vec<FileMetadata>,
        dest_files: &Vec<FileMetadata>,
    ) -> (r: Result<DiffResult, String>)
        requires
            diff::sizes_fit(diff::diff_ops_spec(source_files.deep_view(), dest_files.deep_view())),
        ensures
            r is Ok,
            r matches Ok(res) ==> {
                &&& res.differences.deep_view() == diff::diff_ops_spec(
                    source_files.deep_view(),
                    dest_files.deep_view(),
                )
                &&& diff::stats_match(
                    source_files.deep_view().len() as int,
                    dest_files.deep_view().len() as int,
                    res.differences.deep_view(),
                    res.statistics,
                )
            },
    {
        self.diff_calculator.calculate_differences(source_files, dest_files)
    }

    /// Encrypts a payload under a password-derived key.
    pub fn encrypt_data(&self, data: &[u8], key: &[u8]) -> (r: Result<Vec<u8>, String>)
        ensures
            r matches Ok(v) ==> {
                &&& v@.len() == data@.len() + 28
                &&& crypto::open_encrypted(v@, key@) == Some(data@)
            },
            data@.len() < 68719476704 ==> r is Ok,
    {
        self.crypto_compressor.encrypt_data(data, key)
    }

    /// Decrypts a payload with a password-derived key.
    pub fn decrypt_file(&self, encrypted_data: &[u8], key: &[u8]) -> (r: Result<Vec<u8>, String>)
        ensures
            r matches Ok(p) ==> crypto::open_encrypted(encrypted_data@, key@) == Some(p@),
            r is Ok <==> crypto::open_encrypted(encrypted_data@, key@) is Some,
    {
        self.crypto_compressor.decrypt_data(encrypted_data, key)
    }

    /// Compresses a payload at the engine's level; cannot fail.
    pub fn compress_data(&self, data: &[u8]) -> (r: Result<Vec<u8>, String>)
        ensures
            r is Ok,
            r matches Ok(v) ==> {
                &&& v@ == compression::zlib_deflate(data@, self.compression_level())
                &&& compression::zlib_inflate(v@) == Some(data@)
                &&& compression::zlib_inflate_exact(v@) == Some(data@)
            },
    {
        self.compressor.compress(data)
    }

    /// Decompresses a payload, failing exactly on input that does not begin
    /// with a complete well-formed zlib stream.
    pub fn decompress_data(&self, compressed_data: &[u8]) -> (r: Result<Vec<u8>, String>)
        ensures
            r matches Ok(v) ==> compression::zlib_inflate(compressed_data@) == Some(v@),
            r is Err ==> compression::zlib_inflate(compressed_data@) is None,
    {
        self.compressor.decompress(compressed_data)
    }
}

} // verus!
