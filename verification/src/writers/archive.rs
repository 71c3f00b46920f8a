//! Zip archives in memory, through the `zip` crate.
//!
//! What the crate writes is not restated here: an archive's bytes are named
//! (`zip_archive`) as a function of its entries, and the writer's contents are
//! named (`zip_entries`) as the entries begun and written so far. Entries are
//! written with the crate's default options (no modification time is read
//! from the clock), so the same entries always give the same bytes. As the
//! buffer is in memory, writing fails only on what the format refuses: a
//! name used twice, a name longer than its 16-bit length field, or data too
//! large without the zip64 option.
use vstd::prelude::*;

use std::io::Cursor;
use zip::result::ZipError;
use zip::ZipWriter;

verus! {

/// A `zip::ZipWriter` over an in-memory buffer. Verus refuses a declaration
/// of the writer type itself (its `Write + Seek` bounds), so it is held here,
/// out of Verus's sight, and reached only through the functions below.
#[verifier::external_body]
pub struct ZipBuffer {
    inner: ZipWriter<Cursor<Vec<u8>>>,
}

#[verifier::external_type_specification]
#[verifier::external_body]
pub struct ExZipError(ZipError);

#[verifier::external_type_specification]
#[verifier::external_body]
pub struct ExIoError(std::io::Error);

/// An entry as plain values: its name, whether it is stored uncompressed
/// (rather than deflated), and its data.
pub type Entry = (Seq<char>, bool, Seq<u8>);

/// The entries begun in a writer so far, in order, each with the data written
/// to it.
pub uninterp spec fn zip_entries(z: ZipBuffer) -> Seq<Entry>;

/// The bytes of the archive `ZipWriter::finish` writes for these entries.
pub uninterp spec fn zip_archive(entries: Seq<Entry>) -> Seq<u8>;

/// Whether data written now goes to the entry begun last: an entry has been
/// begun and not closed since, or none has been begun at all.
pub uninterp spec fn zip_open(z: ZipBuffer) -> bool;

/// Whether an entry's data fits what the writer accepts without the zip64
/// option: at most `u32::MAX` bytes stored, and at most 1 GiB deflated (deflate
/// adds only a few bytes per 64 KiB block, so its output stays within
/// `u32::MAX` too).
pub open spec fn data_fits(e: Entry) -> bool {
    if e.1 {
        e.2.len() <= 0xffff_ffff
    } else {
        e.2.len() <= 0x4000_0000
    }
}

/// Every entry's data fits.
pub open spec fn entries_fit(es: Seq<Entry>) -> bool {
    forall|i: int| 0 <= i < es.len() ==> data_fits(#[trigger] es[i])
}

/// Whether a name fits the zip format's 16-bit name length: at most 16383
/// characters, which is at most 65532 bytes of UTF-8.
pub open spec fn name_fits(name: Seq<char>) -> bool {
    name.len() <= 16383
}

/// Whether no entry already has this name.
pub open spec fn name_unused(es: Seq<Entry>, name: Seq<char>) -> bool {
    forall|i: int| 0 <= i < es.len() ==> (#[trigger] es[i]).0 != name
}

/// Entries a zip can hold as they are: names that fit and are pairwise
/// distinct, and data that fits.
pub open spec fn archive_ok(es: Seq<Entry>) -> bool {
    &&& entries_fit(es)
    &&& forall|i: int| 0 <= i < es.len() ==> name_fits(#[trigger] es[i].0)
    &&& forall|i: int, j: int| 0 <= i < j < es.len() ==> (#[trigger] es[i]).0 != (#[trigger] es[j]).0
}

/// Entries that a zip can hold stay so when cut short.
pub proof fn lemma_archive_ok_prefix(es: Seq<Entry>, n: int)
    requires
        archive_ok(es),
        0 <= n <= es.len(),
    ensures
        archive_ok(es.take(n)),
{
    let t = es.take(n);
    assert forall|i: int, j: int| 0 <= i < j < t.len() implies (#[trigger] t[i]).0 != (#[trigger] t[j]).0 by {
        assert(t[i] == es[i] && t[j] == es[j]);
    }
    assert forall|i: int| 0 <= i < t.len() implies data_fits(#[trigger] t[i]) by {
        assert(t[i] == es[i]);
    }
    assert forall|i: int| 0 <= i < t.len() implies name_fits(#[trigger] t[i].0) by {
        assert(t[i] == es[i]);
    }
}

/// The last of entries a zip can hold has a name that fits and that no
/// earlier entry has.
pub proof fn lemma_archive_ok_last(es: Seq<Entry>, e: Entry)
    requires
        archive_ok(es.push(e)),
    ensures
        name_fits(e.0),
        name_unused(es, e.0),
        entries_fit(es.push(e)),
{
    let f = es.push(e);
    assert(f[es.len() as int] == e);
    assert(name_fits(f[es.len() as int].0));
    assert forall|i: int| 0 <= i < es.len() implies (#[trigger] es[i]).0 != e.0 by {
        assert(f[i] == es[i]);
        assert(f[i].0 != f[es.len() as int].0);
    }
}

/// An entry that follows a prefix of entries a zip can hold has a name that
/// fits and is unused, and data that fits.
pub proof fn lemma_archive_ok_next(whole: Seq<Entry>, es: Seq<Entry>, e: Entry)
    requires
        archive_ok(whole),
        es.len() < whole.len(),
        es.push(e) == whole.take(es.len() as int + 1),
    ensures
        name_fits(e.0),
        name_unused(es, e.0),
        entries_fit(es.push(e)),
{
    lemma_archive_ok_prefix(whole, es.len() as int + 1);
    lemma_archive_ok_last(es, e);
}

/// `zip::ZipWriter::new` over an empty in-memory buffer: a writer with no
/// entries.
#[verifier::external_body]
pub(crate) fn new_archive() -> (z: ZipBuffer)
    ensures
        zip_entries(z) == Seq::<Entry>::empty(),
        zip_open(z),
{
    ZipBuffer { inner: ZipWriter::new(Cursor::new(Vec::new())) }
}

/// `ZipWriter::start_file` with default options and the compression method
/// `Stored` or `Deflated`: on success a new, empty entry named `name` follows
/// the others, open for data. It first closes the entry begun last, which
/// fails only when that entry's data does not fit; it then fails only on a
/// name already used, since the buffer is in memory. A name longer than the
/// 16-bit length field panics in the crate, so it is left out.
#[verifier::external_body]
pub(crate) fn start_entry(z: &mut ZipBuffer, name: &str, stored: bool) -> (r:
    Result<(), ZipError>)
    requires
        name_fits(name@),
    ensures
        r is Ok ==> zip_entries(*final(z)) == zip_entries(*old(z)).push((name@, stored, Seq::empty())),
        r is Ok ==> zip_open(*final(z)),
        name_unused(zip_entries(*old(z)), name@) && entries_fit(zip_entries(*old(z))) ==> r is Ok,
{
    let method = if stored {
        zip::CompressionMethod::Stored
    } else {
        zip::CompressionMethod::Deflated
    };
    z.inner.start_file(name, zip::write::SimpleFileOptions::default().compression_method(method))
}

/// `std::io::Write::write_all` on the writer: on success the bytes are added
/// to the data of the entry begun last. With no entry begun, only empty data
/// succeeds, and changes nothing. With an entry open, it succeeds whenever the
/// entry's data still fits afterwards.
#[verifier::external_body]
pub(crate) fn write_entry(z: &mut ZipBuffer, bytes: &[u8]) -> (r: Result<
    (),
    std::io::Error,
>)
    ensures
        r is Ok ==> {
            let before = zip_entries(*old(z));
            if before.len() > 0 {
                zip_entries(*final(z)) == before.update(
                    before.len() - 1,
                    (before.last().0, before.last().1, before.last().2 + bytes@),
                )
            } else {
                bytes@.len() == 0 && zip_entries(*final(z)) == before
            }
        },
        r is Ok && zip_open(*old(z)) ==> zip_open(*final(z)),
        ({
            let before = zip_entries(*old(z));
            zip_open(*old(z)) && before.len() > 0 && data_fits(
                (before.last().0, before.last().1, before.last().2 + bytes@),
            )
        }) ==> r is Ok,
{
    std::io::Write::write_all(&mut z.inner, bytes)
}

/// `ZipWriter::finish`, then the buffer: on success the archive's bytes. It
/// closes the entry begun last, and succeeds whenever every entry's data
/// fits.
#[verifier::external_body]
pub(crate) fn finish_archive(z: ZipBuffer) -> (r: Result<Vec<u8>, ZipError>)
    ensures
        r matches Ok(b) ==> b@ == zip_archive(zip_entries(z)),
        entries_fit(zip_entries(z)) ==> r is Ok,
{
    match z.inner.finish() {
        Ok(c) => Ok(c.into_inner()),
        Err(e) => Err(e),
    }
}

/// Why an archive could not be written.
#[derive(Debug, Clone, Copy, PartialEq, Eq, Structural)]
pub enum WriteError {
    /// The volume has no pages to write.
    NoPages,
    /// The zip writer refused an entry or the archive.
    Archive,
}

impl WriteError {
    /// The error as a message for the user.
    pub open spec fn message_of(self) -> Seq<char> {
        match self {
            WriteError::NoPages => "volume has no pages to write"@,
            WriteError::Archive => "the zip archive could not be written"@,
        }
    }

    /// The error as a message for the user.
    pub fn message(&self) -> (r: String)
        ensures
            r@ == self.message_of(),
    {
        match self {
            WriteError::NoPages => String::from_str("volume has no pages to write"),
            WriteError::Archive => String::from_str("the zip archive could not be written"),
        }
    }
}

/// An archive writer with the entries written so far.
pub struct Archive {
    zip: ZipBuffer,
}

impl Archive {
    /// The entries added so far.
    pub closed spec fn entries(&self) -> Seq<Entry> {
        zip_entries(self.zip)
    }

    /// An empty archive.
    pub fn new() -> (r: Archive)
        ensures
            r.entries() == Seq::<Entry>::empty(),
    {
        Archive { zip: new_archive() }
    }

    /// Add an entry named `name` holding `data`, stored as-is or deflated. It
    /// succeeds whenever the name fits and is not used yet and the data fits;
    /// a name too long for the format is refused.
    pub fn add(&mut self, name: &str, stored: bool, data: &[u8]) -> (r: Result<(), WriteError>)
        ensures
            r is Ok ==> final(self).entries() == old(self).entries().push((name@, stored, data@)),
            r matches Err(e) ==> e == WriteError::Archive,
            !name_fits(name@) ==> r is Err,
            name_fits(name@) && name_unused(old(self).entries(), name@) && entries_fit(
                old(self).entries().push((name@, stored, data@)),
            ) ==> r is Ok,
    {
        if crate::text::chars_of(name).len() > 16383 {
            return Err(WriteError::Archive);
        }
        proof {
            let before = old(self).entries();
            let e = (name@, stored, data@);
            if entries_fit(before.push(e)) {
                assert forall|i: int| 0 <= i < before.len() implies data_fits(#[trigger] before[i]) by {
                    assert(before.push(e)[i] == before[i]);
                }
                assert(data_fits(before.push(e)[before.len() as int]));
            }
        }
        match start_entry(&mut self.zip, name, stored) {
            Ok(()) => {},
            Err(_) => return Err(WriteError::Archive),
        }
        match write_entry(&mut self.zip, data) {
            Ok(()) => {
                assert(Seq::<u8>::empty() + data@ =~= data@);
                assert(zip_entries(self.zip) =~= zip_entries(old(self).zip).push((name@, stored, data@)));
                Ok(())
            },
            Err(_) => Err(WriteError::Archive),
        }
    }

    /// The archive's bytes; it succeeds whenever every entry's data fits.
    pub fn finish(self) -> (r: Result<Vec<u8>, WriteError>)
        ensures
            r matches Ok(b) ==> b@ == zip_archive(self.entries()),
            r matches Err(e) ==> e == WriteError::Archive,
            entries_fit(self.entries()) ==> r is Ok,
    {
        match finish_archive(self.zip) {
            Ok(b) => Ok(b),
            Err(_) => Err(WriteError::Archive),
        }
    }
}

} // verus!
