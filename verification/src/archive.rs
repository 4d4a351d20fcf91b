//! The gzip-compressed tar archive a `copy_dir` step can store a guest
//! tree into.  The tar and gzip encoders do the packing; what goes into
//! the archive, and in which order, is decided and tracked here.

use vstd::prelude::*;

verus! {

/// A tar builder writing through a gzip encoder into memory.  The builder
/// type itself cannot be declared to the verifier (its type parameter is
/// bound by an I/O trait), so it is held opaquely and spoken of through
/// [`archive_entries`].
#[verifier::external_body]
pub struct ArchiveBuilder {
    inner: tar::Builder<flate2::write::GzEncoder<Vec<u8>>>,
}

/// The entries stored in a tar builder so far: relative path, whether it
/// is a file, and the content (empty for directories), in append order.
pub uninterp spec fn archive_entries(b: &ArchiveBuilder) -> Seq<(Seq<u8>, bool, Seq<u8>)>;

/// The bytes of the finished gzip-compressed tar stream holding exactly
/// the given entries in order.  With a fixed compression level and zeroed
/// header times, the stream is a function of the entries alone.
pub uninterp spec fn targz_bytes_of(entries: Seq<(Seq<u8>, bool, Seq<u8>)>) -> Seq<u8>;

/// Whether a tar header can carry this path: UTF-8, relative, and short
/// enough for the header.  A function of the path bytes alone.
pub uninterp spec fn tar_path_ok(path: Seq<u8>) -> bool;

/// Relies on tar::Builder::new and flate2's GzEncoder::new: a fresh
/// builder over a fresh in-memory stream holds no entries.
#[verifier::external_body]
fn archive_new() -> (r: ArchiveBuilder)
    ensures
        archive_entries(&r) == Seq::<(Seq<u8>, bool, Seq<u8>)>::empty(),
{
    let encoder = flate2::write::GzEncoder::new(Vec::new(), flate2::Compression::new(6));
    ArchiveBuilder { inner: tar::Builder::new(encoder) }
}

/// Relies on tar::Builder::append with a GNU header (mode 0o666, file
/// entry type) into an in-memory stream: the append succeeds exactly when
/// the header can carry the path, and then exactly this file is appended;
/// a refused path leaves the stream untouched.
#[verifier::external_body]
fn archive_add_file(b: &mut ArchiveBuilder, path: &[u8], content: &[u8]) -> (r: bool)
    ensures
        r == tar_path_ok(path@),
        r ==> archive_entries(final(b)) == archive_entries(old(b)).push(
            (path@, true, content@),
        ),
        !r ==> archive_entries(final(b)) == archive_entries(old(b)),
{
    let text = match std::str::from_utf8(path) {
        Ok(t) => t,
        Err(_) => return false,
    };
    let mut header = tar::Header::new_gnu();
    if header.set_path(text).is_err() {
        return false;
    }
    header.set_size(content.len() as u64);
    header.set_entry_type(tar::EntryType::file());
    header.set_mode(0o666);
    header.set_cksum();
    b.inner.append(&header, content).is_ok()
}

/// Relies on tar::Builder::append with a GNU header (mode 0o666, directory
/// entry type, zero length) into an in-memory stream: the append succeeds
/// exactly when the header can carry the path, and then exactly this
/// directory is appended; a refused path leaves the stream untouched.
#[verifier::external_body]
fn archive_add_dir(b: &mut ArchiveBuilder, path: &[u8]) -> (r: bool)
    ensures
        r == tar_path_ok(path@),
        r ==> archive_entries(final(b)) == archive_entries(old(b)).push(
            (path@, false, Seq::<u8>::empty()),
        ),
        !r ==> archive_entries(final(b)) == archive_entries(old(b)),
{
    let text = match std::str::from_utf8(path) {
        Ok(t) => t,
        Err(_) => return false,
    };
    let mut header = tar::Header::new_gnu();
    if header.set_path(text).is_err() {
        return false;
    }
    header.set_size(0);
    header.set_entry_type(tar::EntryType::dir());
    header.set_mode(0o666);
    header.set_cksum();
    b.inner.append(&header, std::io::empty()).is_ok()
}

/// Relies on tar::Builder::into_inner and GzEncoder::finish: the finished
/// stream holds exactly the appended entries.
#[verifier::external_body]
fn archive_finish(b: ArchiveBuilder) -> (r: Option<Vec<u8>>)
    ensures
        r matches Some(bytes) ==> bytes@ == targz_bytes_of(archive_entries(&b)),
{
    let encoder = match b.inner.into_inner() {
        Ok(e) => e,
        Err(_) => return None,
    };
    encoder.finish().ok()
}

/// The archive image of a pulled tree: one tar entry per tree entry, in
/// order.
pub open spec fn spec_tree_entries(entries: Seq<crate::engine::TreeEntry>) -> Seq<
    (Seq<u8>, bool, Seq<u8>),
> {
    entries.map_values(
        |e: crate::engine::TreeEntry|
            (
                e.rel_path@,
                e.is_file,
                if e.is_file {
                    e.content@
                } else {
                    Seq::<u8>::empty()
                },
            ),
    )
}

/// Packs a pulled tree into a gzip-compressed tar stream: the stream holds
/// exactly the tree's entries in order, directories as empty entries.  A
/// path no tar header carries (over-long, absolute, or non-UTF-8) fails
/// the packing; finishing the in-memory stream is not promised.
#[verifier::loop_isolation(false)]
pub fn build_targz(entries: &Vec<crate::engine::TreeEntry>) -> (r: Option<Vec<u8>>)
    ensures
        r matches Some(bytes) ==> bytes@ == targz_bytes_of(spec_tree_entries(entries@)),
        (exists|i: int|
            0 <= i < entries@.len() && !tar_path_ok((#[trigger] entries@[i]).rel_path@)) ==> r
            is None,
{
    let mut builder = archive_new();
    let n = entries.len();
    proof {
        assert(archive_entries(&builder) =~= spec_tree_entries(entries@.subrange(0, 0)));
    }
    let mut i: usize = 0;
    while i < n
        invariant
            0 <= i <= n == entries@.len(),
            archive_entries(&builder) == spec_tree_entries(entries@.subrange(0, i as int)),
            forall|l: int| 0 <= l < i ==> tar_path_ok((#[trigger] entries@[l]).rel_path@),
        decreases n - i,
    {
        let e = &entries[i];
        let ok = if e.is_file {
            archive_add_file(&mut builder, e.rel_path.as_slice(), e.content.as_slice())
        } else {
            archive_add_dir(&mut builder, e.rel_path.as_slice())
        };
        if !ok {
            return None;
        }
        proof {
            assert(tar_path_ok(entries@[i as int].rel_path@));
        }
        proof {
            assert(archive_entries(&builder) =~= spec_tree_entries(entries@.subrange(0, i + 1)));
        }
        i += 1;
    }
    proof {
        assert(entries@.subrange(0, n as int) =~= entries@);
    }
    archive_finish(builder)
}

} // verus!
