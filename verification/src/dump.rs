//! The daily master-server dumps: a tar archive of JSON files, compressed with zstd.
//! zstd decompresses and tar splits the archive into its files; what the files hold
//! is read by the callers.

use vstd::prelude::*;

verus! {

/// What zstd decompresses `compressed` to, or `None` where it is no valid zstd data.
pub uninterp spec fn zstd_decoded(compressed: Seq<u8>) -> Option<Seq<u8>>;

/// The files of the tar archive `archive`, in archive order, each as its path and its
/// contents, or `None` where the archive does not read.
pub uninterp spec fn tar_files(archive: Seq<u8>) -> Option<Seq<(Seq<u8>, Seq<u8>)>>;

/// The files of a compressed dump: the tar files of its zstd decompression.
pub open spec fn dump_files(compressed: Seq<u8>) -> Option<Seq<(Seq<u8>, Seq<u8>)>> {
    match zstd_decoded(compressed) {
        Some(archive) => tar_files(archive),
        None => None,
    }
}

/// The path and contents of each file, as byte sequences.
pub open spec fn files_view(files: Seq<(Vec<u8>, Vec<u8>)>) -> Seq<(Seq<u8>, Seq<u8>)> {
    files.map_values(|f: (Vec<u8>, Vec<u8>)| (f.0@, f.1@))
}

/// zstd's `stream::decode_all` on the bytes. Claimed: the result is the named
/// `zstd_decoded` of the bytes; what zstd decompresses to is left unsaid.
#[verifier::external_body]
pub(crate) fn zstd_decode(compressed: &[u8]) -> (r: Option<Vec<u8>>)
    ensures
        match r {
            Some(d) => zstd_decoded(compressed@) == Some(d@),
            None => zstd_decoded(compressed@) is None,
        },
{
    zstd::stream::decode_all(compressed).ok()
}

/// tar's `Archive::entries` over the bytes, each entry's `path_bytes` and its contents
/// read to the end. Claimed: the result is the named `tar_files` of the bytes; how tar
/// reads an archive is left unsaid.
#[verifier::external_body]
pub(crate) fn tar_read(archive: &[u8]) -> (r: Option<Vec<(Vec<u8>, Vec<u8>)>>)
    ensures
        match r {
            Some(files) => tar_files(archive@) == Some(files_view(files@)),
            None => tar_files(archive@) is None,
        },
{
    let mut files = Vec::new();
    for entry in tar::Archive::new(archive).entries().ok()? {
        let mut entry = entry.ok()?;
        let mut data = Vec::new();
        std::io::Read::read_to_end(&mut entry, &mut data).ok()?;
        files.push((entry.path_bytes().into_owned(), data));
    }
    Some(files)
}

/// The files of a downloaded dump, each as its path and its contents, in archive order,
/// or `None` where the bytes do not decompress or do not read as a tar archive.
pub fn unpack_dump(compressed: &[u8]) -> (r: Option<Vec<(Vec<u8>, Vec<u8>)>>)
    ensures
        match r {
            Some(files) => dump_files(compressed@) == Some(files_view(files@)),
            None => dump_files(compressed@) is None,
        },
{
    match zstd_decode(compressed) {
        Some(archive) => tar_read(archive.as_slice()),
        None => None,
    }
}

} // verus!
