//! Archive container: the manifest of the files in a solid archive and the
//! container header that precedes the manifest.
use vstd::prelude::*;
use std::collections::HashMap;
use crate::dedup::le_u32_bytes;
use crate::dedup::push_u32_le;
use crate::semantic::{ascii_chars, bytes_to_hex, hex_encode};
use crate::zk_proofs::{blake3_digest, blake3_hash};

pub mod stream;

verus! {

/// Container format version.
pub const ARCHIVE_VERSION: u8 = 1;

/// Metadata of one file in an archive.
#[derive(Debug, Clone)]
pub struct FileEntry {
    /// Relative path within the archive.
    pub path: String,
    /// Original size in bytes.
    pub original_size: u64,
    /// Offset of the file in the solid stream.
    pub stream_offset: u64,
    /// Length of the file in the solid stream.
    pub stream_length: u64,
    /// Unix permissions, when recorded.
    pub permissions: Option<u32>,
    /// Last modification time (seconds since the epoch).
    pub modified: i64,
    /// Hex digest of the content, when recorded.
    pub hash: Option<String>,
}

/// Description of an archive's contents.
#[derive(Debug, Clone)]
pub struct ArchiveManifest {
    /// Total original size of all files.
    pub total_size: u64,
    /// Compression method name.
    pub compression_method: String,
    /// The files, in archive order.
    pub files: Vec<FileEntry>,
    /// Free-form metadata.
    pub metadata: HashMap<String, String>,
}

/// Name of the compression method recorded in new manifests
/// (`qres-v5-dedup`).
pub open spec fn default_method() -> Seq<char> {
    seq!['q', 'r', 'e', 's', '-', 'v', '5', '-', 'd', 'e', 'd', 'u', 'p']
}

/// Sum of the original sizes of a list of entries.
pub open spec fn sizes_sum(files: Seq<FileEntry>) -> int
    decreases files.len(),
{
    if files.len() == 0 {
        0
    } else {
        sizes_sum(files.drop_last()) + files.last().original_size
    }
}

impl ArchiveManifest {
    /// An empty manifest for the deduplicating method.
    pub fn new() -> (m: Self)
        ensures
            m.total_size == 0,
            m.compression_method@ == default_method(),
            m.files@.len() == 0,
            m.metadata@ == Map::<String, String>::empty(),
            manifest_view(m) == (0u64, default_method(), Seq::<FileEntry>::empty(), Map::<String, String>::empty()),
    {
        let method = "qres-v5-dedup";
        proof {
            reveal_strlit("qres-v5-dedup");
        }
        ArchiveManifest {
            total_size: 0,
            compression_method: method.to_owned(),
            files: Vec::new(),
            metadata: HashMap::new(),
        }
    }

    /// Appends a file and adds its size to the total.
    pub fn add_file(&mut self, entry: FileEntry)
        requires
            old(self).total_size + entry.original_size <= u64::MAX,
        ensures
            final(self).total_size == old(self).total_size + entry.original_size,
            final(self).files@ == old(self).files@.push(entry),
            final(self).compression_method == old(self).compression_method,
            final(self).metadata@ == old(self).metadata@,
            manifest_view(*final(self)) == add_file_step(manifest_view(*old(self)), entry),
    {
        self.total_size = self.total_size + entry.original_size;
        self.files.push(entry);
    }
}

/// A manifest's total size, method, files and metadata.
pub open spec fn manifest_view(m: ArchiveManifest) -> (u64, Seq<char>, Seq<FileEntry>, Map<String, String>) {
    (m.total_size, m.compression_method@, m.files@, m.metadata@)
}

/// The manifest view after `add_file(entry)`.
pub open spec fn add_file_step(v: (u64, Seq<char>, Seq<FileEntry>, Map<String, String>), entry: FileEntry) -> (
    u64,
    Seq<char>,
    Seq<FileEntry>,
    Map<String, String>,
) {
    ((v.0 + entry.original_size) as u64, v.1, v.2.push(entry), v.3)
}

/// The manifest view after adding each entry in turn.
pub open spec fn add_files(v: (u64, Seq<char>, Seq<FileEntry>, Map<String, String>), es: Seq<FileEntry>) -> (
    u64,
    Seq<char>,
    Seq<FileEntry>,
    Map<String, String>,
)
    decreases es.len(),
{
    if es.len() == 0 {
        v
    } else {
        add_file_step(add_files(v, es.drop_last()), es.last())
    }
}

/// A new manifest after `add_file(e_1)`, ..., `add_file(e_k)` lists
/// exactly `e_1, ..., e_k` in call order, totals their sizes, keeps the
/// deduplicating method and has no metadata.
pub proof fn lemma_manifest_from_adds(es: Seq<FileEntry>)
    requires
        sizes_sum(es) <= u64::MAX,
    ensures
        add_files((0u64, default_method(), Seq::empty(), Map::empty()), es) == (
            sizes_sum(es) as u64,
            default_method(),
            es,
            Map::<String, String>::empty(),
        ),
    decreases es.len(),
{
    if es.len() > 0 {
        let d = es.drop_last();
        lemma_sizes_sum_nonneg(d);
        lemma_manifest_from_adds(d);
        assert(d.push(es.last()) =~= es);
    } else {
        assert(es =~= Seq::<FileEntry>::empty());
    }
}

/// Sizes add up to a non-negative total.
proof fn lemma_sizes_sum_nonneg(es: Seq<FileEntry>)
    ensures
        sizes_sum(es) >= 0,
    decreases es.len(),
{
    if es.len() > 0 {
        lemma_sizes_sum_nonneg(es.drop_last());
    }
}

/// Adding a file keeps the manifest's total equal to the sum of its files'
/// sizes (which holds of a new manifest).
pub proof fn lemma_total_is_sum(before: ArchiveManifest, after: ArchiveManifest, entry: FileEntry)
    requires
        before.total_size == sizes_sum(before.files@),
        after.total_size == before.total_size + entry.original_size,
        after.files@ == before.files@.push(entry),
    ensures
        after.total_size == sizes_sum(after.files@),
{
    assert(after.files@.drop_last() =~= before.files@);
}

/// Lower-case hex of the BLAKE3 digest of `data`.
pub open spec fn digest_hex(data: Seq<u8>) -> Seq<char> {
    ascii_chars(hex_encode(blake3_digest(data)))
}

/// `e` describes a file with contents `data` placed at `offset` of the
/// solid stream, with the given path, permissions and time, and its digest
/// exactly when `compute_hash`.
pub open spec fn entry_describes(
    e: FileEntry,
    path: String,
    data: Seq<u8>,
    offset: int,
    permissions: Option<u32>,
    modified: i64,
    compute_hash: bool,
) -> bool {
    &&& e.path == path
    &&& e.original_size == data.len()
    &&& e.stream_offset == offset
    &&& e.stream_length == data.len()
    &&& e.permissions == permissions
    &&& e.modified == modified
    &&& if compute_hash {
        e.hash matches Some(h) && h@ == digest_hex(data)
    } else {
        e.hash is None
    }
}

/// The manifest entry of a file with contents `data` placed at
/// `stream_offset` of the solid stream; its digest is recorded when
/// `compute_hash`.
pub fn archive_entry(
    path: String,
    data: &[u8],
    stream_offset: u64,
    permissions: Option<u32>,
    modified: i64,
    compute_hash: bool,
) -> (e: FileEntry)
    ensures
        entry_describes(e, path, data@, stream_offset as int, permissions, modified, compute_hash),
{
    let hash = if compute_hash {
        let digest = blake3_hash(data);
        Some(bytes_to_hex(digest.as_slice()))
    } else {
        None
    };
    FileEntry {
        path,
        original_size: data.len() as u64,
        stream_offset,
        stream_length: data.len() as u64,
        permissions,
        modified,
        hash,
    }
}

/// A file to be archived: its path, contents, permissions and time.
#[derive(Debug, Clone)]
pub struct SourceFile {
    pub path: String,
    pub data: Vec<u8>,
    pub permissions: Option<u32>,
    pub modified: i64,
}

/// Total size of the first `i` files.
pub open spec fn size_prefix(files: Seq<SourceFile>, i: int) -> int
    decreases i,
{
    if i <= 0 {
        0
    } else {
        size_prefix(files, i - 1) + files[i - 1].data@.len()
    }
}

/// The contents of the first `i` files, one after another.
pub open spec fn stream_prefix(files: Seq<SourceFile>, i: int) -> Seq<u8>
    decreases i,
{
    if i <= 0 {
        Seq::empty()
    } else {
        stream_prefix(files, i - 1) + files[i - 1].data@
    }
}

proof fn lemma_size_prefix_mono(files: Seq<SourceFile>, i: int, j: int)
    requires
        0 <= i <= j,
    ensures
        0 <= size_prefix(files, i) <= size_prefix(files, j),
    decreases j,
{
    if j > i {
        lemma_size_prefix_mono(files, i, j - 1);
    } else if i > 0 {
        lemma_size_prefix_mono(files, i - 1, i - 1);
    }
}

proof fn lemma_stream_prefix_len(files: Seq<SourceFile>, i: int)
    requires
        0 <= i,
    ensures
        stream_prefix(files, i).len() == size_prefix(files, i),
    decreases i,
{
    if i > 0 {
        lemma_stream_prefix_len(files, i - 1);
    }
}

/// The manifest and solid stream of an archive of `files`, in order: each
/// entry describes its file at the offset where the file's contents start
/// in the stream (the sizes of the files before it), the total is the sum
/// of all sizes, and the stream is the files' contents one after another.
pub fn build_solid_manifest(files: &[SourceFile], compute_hashes: bool) -> (r: (ArchiveManifest, Vec<u8>))
    requires
        size_prefix(files@, files@.len() as int) <= u64::MAX,
    ensures
        r.0.files@.len() == files@.len(),
        forall|i: int|
            0 <= i < files@.len() ==> entry_describes(
                #[trigger] r.0.files@[i],
                files@[i].path,
                files@[i].data@,
                size_prefix(files@, i),
                files@[i].permissions,
                files@[i].modified,
                compute_hashes,
            ),
        r.0.total_size == size_prefix(files@, files@.len() as int),
        r.0.compression_method@ == default_method(),
        r.0.metadata@ == Map::<String, String>::empty(),
        r.1@ == stream_prefix(files@, files@.len() as int),
{
    let mut manifest = ArchiveManifest::new();
    let mut stream: Vec<u8> = Vec::new();
    let mut i: usize = 0;
    while i < files.len()
        invariant
            i <= files@.len(),
            size_prefix(files@, files@.len() as int) <= u64::MAX,
            manifest.files@.len() == i,
            forall|k: int|
                0 <= k < i ==> entry_describes(
                    #[trigger] manifest.files@[k],
                    files@[k].path,
                    files@[k].data@,
                    size_prefix(files@, k),
                    files@[k].permissions,
                    files@[k].modified,
                    compute_hashes,
                ),
            manifest.total_size == size_prefix(files@, i as int),
            manifest.compression_method@ == default_method(),
            manifest.metadata@ == Map::<String, String>::empty(),
            stream@ == stream_prefix(files@, i as int),
        decreases files@.len() - i,
    {
        let f = &files[i];
        proof {
            lemma_size_prefix_mono(files@, i + 1, files@.len() as int);
        }
        let entry = archive_entry(
            f.path.clone(),
            f.data.as_slice(),
            manifest.total_size,
            f.permissions,
            f.modified,
            compute_hashes,
        );
        let ghost before = manifest.files@;
        manifest.add_file(entry);
        let ghost mid = stream@;
        stream.extend_from_slice(f.data.as_slice());
        proof {
            assert(stream@ =~= mid + f.data@);
            assert forall|k: int|
                0 <= k < i + 1 implies entry_describes(
                #[trigger] manifest.files@[k],
                files@[k].path,
                files@[k].data@,
                size_prefix(files@, k),
                files@[k].permissions,
                files@[k].modified,
                compute_hashes,
            ) by {
                if k < i {
                    assert(manifest.files@[k] == before[k]);
                }
            }
        }
        i = i + 1;
    }
    (manifest, stream)
}

/// Each file's contents stand in the solid stream where its entry says:
/// from the sizes of the files before it, for its own size.
pub proof fn lemma_entries_locate_files(files: Seq<SourceFile>, n: int, i: int)
    requires
        0 <= i < n <= files.len(),
    ensures
        stream_prefix(files, n).subrange(size_prefix(files, i), size_prefix(files, i) + files[i].data@.len())
            == files[i].data@,
    decreases n,
{
    lemma_stream_prefix_len(files, n - 1);
    lemma_stream_prefix_len(files, i);
    if i == n - 1 {
        assert(stream_prefix(files, n).subrange(size_prefix(files, i), size_prefix(files, i) + files[i].data@.len())
            =~= files[i].data@);
    } else {
        lemma_entries_locate_files(files, n - 1, i);
        lemma_size_prefix_mono(files, i + 1, n - 1);
        assert(stream_prefix(files, n).subrange(size_prefix(files, i), size_prefix(files, i) + files[i].data@.len())
            =~= stream_prefix(files, n - 1).subrange(size_prefix(files, i), size_prefix(files, i) + files[i].data@.len()));
    }
}

/// Options of archive creation.
#[derive(Debug, Clone)]
pub struct ArchiveOptions {
    /// Concatenate all files before compressing.
    pub solid: bool,
    /// Compression level (0 to 9).
    pub level: u8,
    /// Record file permissions.
    pub preserve_permissions: bool,
    /// Record content digests.
    pub compute_hashes: bool,
}

impl Default for ArchiveOptions {
    fn default() -> (o: Self)
        ensures
            o.solid,
            o.level == 5,
            o.preserve_permissions,
            o.compute_hashes,
    {
        ArchiveOptions { solid: true, level: 5, preserve_permissions: true, compute_hashes: true }
    }
}

/// The container header: magic `QRAR`, version, flags (bit 0: solid) and
/// the manifest length as a little-endian `u32`.
pub open spec fn archive_header_spec(solid: bool, manifest_len: u32) -> Seq<u8> {
    seq![81u8, 82u8, 65u8, 82u8, ARCHIVE_VERSION, if solid { 1u8 } else { 0u8 }] + le_u32_bytes(manifest_len)
}

/// Builds the container header preceding a manifest of `manifest_len`
/// bytes.
pub fn archive_header(solid: bool, manifest_len: u32) -> (h: Vec<u8>)
    ensures
        h@ == archive_header_spec(solid, manifest_len),
{
    let mut h: Vec<u8> = vec![81u8, 82u8, 65u8, 82u8, ARCHIVE_VERSION, if solid { 1u8 } else { 0u8 }];
    push_u32_le(&mut h, manifest_len);
    proof {
        assert(h@ =~= archive_header_spec(solid, manifest_len));
    }
    h
}

} // verus!
