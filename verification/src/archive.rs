//! Zip archives: the bytes of a file as named members, and back.

use crate::npy;
use crate::npy::{NpyElems, NpyError, NpyFault};
use crate::npy_write;
use crate::npy_write::NpyArray;
use crate::npz;
use crate::npz::{read_npz, write_npz, ArrayModel, Member, Npz};
use std::io::Cursor;
use std::io::Read;
use std::io::Write;
use vstd::prelude::*;

verus! {

/// A buffer with a position, [`std::io::Cursor`].
#[verifier::external_type_specification]
#[verifier::external_body]
#[verifier::reject_recursive_types(T)]
pub struct ExCursor<T>(std::io::Cursor<T>);

/// An opened archive, [`zip::ZipArchive`].
#[verifier::external_type_specification]
#[verifier::external_body]
#[verifier::reject_recursive_types(R)]
pub struct ExZipArchive<R>(zip::ZipArchive<R>);

/// An archive that is being written, in a `zip::ZipWriter`.
#[verifier::external_body]
pub struct Packer {
    zip: zip::ZipWriter<Cursor<Vec<u8>>>,
}

/// What the bytes of an archive hold: name and content of each member, in the order of the
/// archive's directory, with nothing in place of a member that cannot be unpacked. Nothing at
/// all, if the bytes are no archive.
pub uninterp spec fn unzipped(bytes: Seq<u8>) -> Option<Seq<Option<(Seq<char>, Seq<u8>)>>>;

/// The members of an opened archive, with nothing in place of one that cannot be unpacked.
pub uninterp spec fn members_of(a: zip::ZipArchive<Cursor<Vec<u8>>>) -> Seq<
    Option<(Seq<char>, Seq<u8>)>,
>;

/// Which members of an opened archive an empty password opens. One that is not encrypted needs
/// no password, and is opened by any.
pub uninterp spec fn opening(a: zip::ZipArchive<Cursor<Vec<u8>>>) -> Seq<bool>;

/// The members that were written so far, the last of which may still lack its content.
pub uninterp spec fn packed_of(w: Packer) -> Seq<(Seq<char>, Seq<u8>)>;

/// Whether an archive is open for writing: nothing failed so far, and it was not finished.
pub uninterp spec fn writable(w: Packer) -> bool;

/// The bytes of an archive with these members, each written by one call with the default options.
/// Without the crate's clock, which is not built in, these name a fixed date.
pub uninterp spec fn zipped(files: Seq<(Seq<char>, Seq<u8>)>) -> Seq<u8>;

/// `zip::ZipArchive::new`: reads the directory of an archive. It fails exactly if the bytes are
/// no archive that the crate supports, which the bytes alone decide.
#[verifier::external_body]
fn zip_open(bytes: Vec<u8>) -> (r: Option<zip::ZipArchive<Cursor<Vec<u8>>>>)
    ensures
        match r {
            Some(a) => unzipped(bytes@) == Some(members_of(a)),
            None => unzipped(bytes@) is None,
        },
{
    zip::ZipArchive::new(Cursor::new(bytes)).ok()
}

/// `zip::ZipArchive::len`: the number of members.
#[verifier::external_body]
fn zip_len(a: &zip::ZipArchive<Cursor<Vec<u8>>>) -> (n: usize)
    ensures
        n == members_of(*a).len(),
{
    a.len()
}

/// `zip::ZipArchive::by_index_decrypt` with an empty password: whether a member opens. It leaves
/// the directory as it is. A member that does not open cannot be unpacked. (Asked for such a
/// member without a password, the crate fails, or panics where a member that is not marked as
/// encrypted says how it is encrypted.)
#[verifier::external_body]
fn zip_opens(a: &mut zip::ZipArchive<Cursor<Vec<u8>>>, i: usize) -> (b: bool)
    requires
        i < members_of(*old(a)).len(),
    ensures
        b == opening(*old(a))[i as int],
        !b ==> members_of(*old(a))[i as int] is None,
        members_of(*final(a)) == members_of(*old(a)),
        opening(*final(a)) == opening(*old(a)),
{
    matches!(a.by_index_decrypt(i, &[]), Ok(Ok(_)))
}

/// `zip::ZipArchive::by_index`, and `read_to_end` on the member: its name and its content. It
/// fails exactly if the member cannot be unpacked, and leaves the directory as it is.
#[verifier::external_body]
fn zip_member(a: &mut zip::ZipArchive<Cursor<Vec<u8>>>, i: usize) -> (r: Option<Member>)
    requires
        i < members_of(*old(a)).len(),
        opening(*old(a))[i as int],
    ensures
        match r {
            Some(m) => members_of(*old(a))[i as int] == Some((m.name@, m.bytes@)),
            None => members_of(*old(a))[i as int] is None,
        },
        members_of(*final(a)) == members_of(*old(a)),
        opening(*final(a)) == opening(*old(a)),
{
    let mut file = a.by_index(i).ok()?;
    let name = file.name().to_string();
    let mut bytes: Vec<u8> = Vec::new();
    file.read_to_end(&mut bytes).ok()?;
    Some(Member { name, bytes })
}

/// Whether the bytes are an archive of which every member can be unpacked.
pub open spec fn unpacks(bytes: Seq<u8>) -> bool {
    unzipped(bytes) is Some && forall|i: int|
        0 <= i < (unzipped(bytes)->0).len() ==> (#[trigger] (unzipped(bytes)->0)[i]) is Some
}

/// Name and content of member `i`.
pub open spec fn member_at(bytes: Seq<u8>, i: int) -> (Seq<char>, Seq<u8>) {
    (unzipped(bytes)->0)[i]->0
}

/// Unpacks an archive.
pub fn unpack(bytes: Vec<u8>) -> (r: Option<Vec<Member>>)
    ensures
        match r {
            Some(v) => {
                &&& unpacks(bytes@)
                &&& v@.len() == (unzipped(bytes@)->0).len()
                &&& forall|i: int|
                    0 <= i < v@.len() ==> ((#[trigger] v@[i]).name@, v@[i].bytes@) == member_at(
                        bytes@,
                        i,
                    )
            },
            None => !unpacks(bytes@),
        },
{
    let ghost all = bytes@;
    let mut a = match zip_open(bytes) {
        Some(a) => a,
        None => {
            return None;
        },
    };
    let ghost ms = members_of(a);
    let n: usize = zip_len(&a);
    let mut v: Vec<Member> = Vec::new();
    let mut i: usize = 0;
    while i < n
        invariant
            i <= n == ms.len(),
            all == bytes@,
            unzipped(all) == Some(ms),
            members_of(a) == ms,
            v@.len() == i,
            forall|k: int|
                0 <= k < i ==> ms[k] == Some(((#[trigger] v@[k]).name@, v@[k].bytes@)),
        decreases n - i,
    {
        if !zip_opens(&mut a, i) {
            assert(ms[i as int] is None);
            return None;
        }
        match zip_member(&mut a, i) {
            Some(m) => {
                v.push(m);
            },
            None => {
                assert(ms[i as int] is None);
                return None;
            },
        }
        i += 1;
    }
    assert forall|k: int| 0 <= k < ms.len() implies (#[trigger] ms[k]) is Some by {
        assert(ms[k] == Some((v@[k].name@, v@[k].bytes@)));
    }
    Some(v)
}

/// Why an archive gave no arrays.
pub enum NpzError {
    /// It is no archive, or a member cannot be unpacked.
    Zip,
    /// A member is no array that can be read.
    Npy(NpyError),
}

/// Whether this comes of reading the bytes of an archive: the arrays of all members, or an error
/// where the bytes cannot be unpacked or, else, the first member that is no readable array.
pub open spec fn is_loaded(bytes: Seq<u8>, r: Result<Npz, NpzError>) -> bool {
    match r {
        Ok(z) => {
            &&& unpacks(bytes)
            &&& z.entries@.len() == (unzipped(bytes)->0).len()
            &&& forall|i: int|
                0 <= i < z.entries@.len() ==> {
                    let m = member_at(bytes, i);
                    &&& (#[trigger] z.entries@[i]).key@ == npz::key_of(m.0)
                    &&& npy::parsed(m.1) == Ok::<ArrayModel, NpyFault>(
                        z.entries@[i].tensor.model(),
                    )
                }
        },
        Err(NpzError::Zip) => !unpacks(bytes),
        Err(NpzError::Npy(e)) => unpacks(bytes) && exists|i: int|
            {
                &&& 0 <= i < (unzipped(bytes)->0).len()
                &&& npy::parsed((#[trigger] member_at(bytes, i)).1) == Err::<
                    ArrayModel,
                    NpyFault,
                >(e.fault())
                &&& forall|k: int|
                    0 <= k < i ==> npy::parsed((#[trigger] member_at(bytes, k)).1) is Ok
            },
    }
}

/// Reads the arrays of an archive from its bytes. The first member that is no readable array is
/// an error.
pub fn load_npz(bytes: Vec<u8>) -> (r: Result<Npz, NpzError>)
    ensures
        is_loaded(bytes@, r),
{
    let ghost all = bytes@;
    let members = match unpack(bytes) {
        Some(v) => v,
        None => {
            return Err(NpzError::Zip);
        },
    };
    match read_npz(members.as_slice()) {
        Ok(z) => {
            assert forall|i: int| 0 <= i < z.entries@.len() implies (
            #[trigger] z.entries@[i]).key@ == npz::key_of(member_at(all, i).0) && npy::parsed(
                member_at(all, i).1,
            ) == Ok::<ArrayModel, NpyFault>(z.entries@[i].tensor.model()) by {
                assert((members@[i].name@, members@[i].bytes@) == member_at(all, i));
            }
            Ok(z)
        },
        Err(e) => {
            proof {
                let i = choose|i: int|
                    {
                        &&& 0 <= i < members@.len()
                        &&& npy::parsed((#[trigger] members@[i]).bytes@) == Err::<
                            ArrayModel,
                            NpyFault,
                        >(e.fault())
                        &&& forall|k: int|
                            0 <= k < i ==> npy::parsed((#[trigger] members@[k]).bytes@) is Ok
                    };
                assert(npy::parsed(member_at(all, i).1) == Err::<ArrayModel, NpyFault>(e.fault()));
                assert forall|k: int| 0 <= k < i implies npy::parsed(
                    (#[trigger] member_at(all, k)).1,
                ) is Ok by {
                    assert(npy::parsed(members@[k].bytes@) is Ok);
                }
            }
            Err(NpzError::Npy(e))
        },
    }
}

/// Bytes of a content that is written whatever it holds. What 32 bits cannot count is refused,
/// before and after it is compressed; a content of this size that cannot be compressed stays far
/// below that.
pub const SMALL: u32 = 0x7FFF_FFFF;

/// Whether every member is small enough to be written whatever it holds.
pub open spec fn small(files: Seq<(Seq<char>, Seq<u8>)>) -> bool {
    forall|i: int| 0 <= i < files.len() ==> (#[trigger] files[i]).1.len() <= SMALL
}

/// `zip::ZipWriter::new`: nothing was written yet.
#[verifier::external_body]
fn zip_new() -> (w: Packer)
    ensures
        packed_of(w).len() == 0,
        writable(w),
{
    Packer { zip: zip::ZipWriter::new(Cursor::new(Vec::new())) }
}

/// `zip::ZipWriter::start_file` with the default options: completes the member before and starts
/// one without content. To memory this fails only if the member before is too long once it is
/// compressed, which depends on what it holds.
#[verifier::external_body]
fn zip_start(w: &mut Packer, name: &str) -> (ok: bool)
    ensures
        writable(*old(w)) && small(packed_of(*old(w))) ==> ok && writable(*final(w)),
        ok ==> packed_of(*final(w)) == packed_of(*old(w)).push((name@, Seq::<u8>::empty())),
{
    w.zip.start_file(name, zip::write::FileOptions::default()).is_ok()
}

/// `write_all` on a `zip::ZipWriter`: gives the last member its content. To memory this fails
/// exactly if the content is longer than 32 bits can count.
#[verifier::external_body]
fn zip_write(w: &mut Packer, bytes: &[u8]) -> (ok: bool)
    requires
        packed_of(*old(w)).len() > 0,
        packed_of(*old(w)).last().1.len() == 0,
    ensures
        writable(*old(w)) && bytes@.len() <= u32::MAX ==> ok && writable(*final(w)),
        ok ==> bytes@.len() <= u32::MAX,
        ok ==> packed_of(*final(w)) == packed_of(*old(w)).drop_last().push(
            (packed_of(*old(w)).last().0, bytes@),
        ),
{
    w.zip.write_all(bytes).is_ok()
}

/// Bytes of a name.
pub open spec fn name_bytes(name: Seq<char>) -> Seq<u8> {
    vstd::utf8::encode_utf8(name)
}

/// Whether the directory of an archive ends right before the 22 bytes that close the archive, as
/// it does unless records with 64-bit sizes stand between them: size and place of the directory,
/// the second and third number from the end, then add up.
pub open spec fn is_compact(bytes: Seq<u8>) -> bool {
    let n = bytes.len() as int;
    npy::le(bytes, n - 10, 4) + npy::le(bytes, n - 6, 4) + 22 == n
}

/// Whether a reader takes the end of the directory for the mark of an archive with 64-bit sizes.
///
/// It looks for the mark 20 bytes before the end of the directory, which ends in the place of the
/// last member, four bytes, and its name. What stands before these is never part of the mark, and
/// the place of an only member is 0.
pub open spec fn seems_large(files: Seq<(Seq<char>, Seq<u8>)>) -> bool {
    let bytes = zipped(files);
    let end = bytes.len() - 22;
    let name = name_bytes(files.last().0);
    let n = name.len() as int;
    let place = bytes.subrange(end - n - 4, end - n);
    &&& files.len() > 0
    &&& n >= 20 || n >= 16 && files.len() > 1
    &&& is_compact(bytes)
    &&& (place + name).subrange(n - 16, n - 12) == seq![0x50u8, 0x4b, 6, 7]
}

/// Whether an archive of these members can be read again: names fit their length field, and no
/// reader is misled by the end of the directory.
pub open spec fn rereads(files: Seq<(Seq<char>, Seq<u8>)>) -> bool {
    &&& forall|i: int|
        0 <= i < files.len() ==> name_bytes((#[trigger] files[i]).0).len() <= u16::MAX
    &&& !seems_large(files)
}

/// The members that reading an archive of these gives.
pub open spec fn as_members(files: Seq<(Seq<char>, Seq<u8>)>) -> Seq<
    Option<(Seq<char>, Seq<u8>)>,
> {
    files.map_values(|f: (Seq<char>, Seq<u8>)| Some(f))
}

/// `zip::ZipWriter::finish`: completes the last member and gives the bytes of the archive, from
/// which its members can be read again. To memory this fails only if the last member is too long
/// once it is compressed, which depends on what it holds.
#[verifier::external_body]
fn zip_finish(w: &mut Packer) -> (r: Option<Vec<u8>>)
    ensures
        writable(*old(w)) && small(packed_of(*old(w))) ==> r is Some,
        r is Some ==> (r->0)@ == zipped(packed_of(*old(w))),
        r is Some && rereads(packed_of(*old(w))) ==> unzipped((r->0)@) == Some(
            as_members(packed_of(*old(w))),
        ),
{
    match w.zip.finish() {
        Ok(c) => Some(c.into_inner()),
        Err(_) => None,
    }
}

/// Members as names and contents.
pub open spec fn files_of(members: Seq<Member>) -> Seq<(Seq<char>, Seq<u8>)> {
    members.map_values(|m: Member| (m.name@, m.bytes@))
}

/// Whether this comes of packing files: their archive, from which they can be read again. It is
/// owed if all contents are small, and refused if one is longer than 32 bits can count; between
/// the two it rests on how far a content can be compressed.
pub open spec fn is_packed(files: Seq<(Seq<char>, Seq<u8>)>, r: Option<Vec<u8>>) -> bool {
    match r {
        Some(bytes) => {
            &&& bytes@ == zipped(files)
            &&& forall|i: int| 0 <= i < files.len() ==> (#[trigger] files[i]).1.len() <= u32::MAX
            &&& rereads(files) ==> unzipped(bytes@) == Some(as_members(files))
        },
        None => !small(files),
    }
}

/// Packs members into an archive.
pub fn pack(members: &[Member]) -> (r: Option<Vec<u8>>)
    ensures
        is_packed(files_of(members@), r),
{
    let ghost files = files_of(members@);
    let mut w = zip_new();
    let mut i: usize = 0;
    assert(files.take(0) =~= packed_of(w));
    while i < members.len()
        invariant
            i <= members@.len(),
            files == files_of(members@),
            packed_of(w) == files.take(i as int),
            small(files) ==> writable(w),
            forall|k: int| 0 <= k < i ==> (#[trigger] files[k]).1.len() <= u32::MAX,
        decreases members@.len() - i,
    {
        let ghost done = files.take(i as int);
        proof {
            if small(files) {
                assert forall|k: int| 0 <= k < done.len() implies (#[trigger] done[k]).1.len()
                    <= SMALL by {
                    assert(done[k] == files[k]);
                }
                assert(files[i as int].1.len() <= SMALL);
            }
        }
        if !zip_start(&mut w, members[i].name.as_str()) {
            return None;
        }
        if !zip_write(&mut w, members[i].bytes.as_slice()) {
            return None;
        }
        assert(packed_of(w) =~= files.take(i + 1)) by {
            assert(done.push((members@[i as int].name@, Seq::<u8>::empty())).drop_last() =~= done);
            assert(files[i as int] == (members@[i as int].name@, members@[i as int].bytes@));
        }
        i += 1;
    }
    assert(files.take(i as int) =~= files);
    zip_finish(&mut w)
}

/// The files of an archive of arrays.
pub open spec fn array_files(arrays: Seq<NpyArray>) -> Seq<(Seq<char>, Seq<u8>)> {
    arrays.map_values(
        |a: NpyArray|
            (a.name@ + seq!['.', 'n', 'p', 'y'], npy_write::npy_bytes(a.shape@, a.data@)),
    )
}

/// Writes arrays as the bytes of an archive.
pub fn save_npz(arrays: &[NpyArray]) -> (r: Option<Vec<u8>>)
    requires
        forall|i: int|
            0 <= i < arrays@.len() ==> {
                let s = (#[trigger] arrays@[i]).shape@;
                npy_write::header_open(s).len() + 11 <= usize::MAX && npy_write::header_fits(s)
            },
    ensures
        is_packed(array_files(arrays@), r),
{
    let members = write_npz(arrays);
    assert(files_of(members@) =~= array_files(arrays@)) by {
        assert forall|i: int| 0 <= i < members@.len() implies #[trigger] files_of(members@)[i]
            == array_files(arrays@)[i] by {
            assert(members@[i].name@ == arrays@[i].name@ + seq!['.', 'n', 'p', 'y']);
        }
    }
    pack(members.as_slice())
}

/// Writing arrays to the bytes of an archive and reading these gives back exactly the names of the
/// arrays, and under each name its shape and its elements, bit for bit. This holds for names that
/// differ from each other and do not end in `.npy`, and small arrays are always written.
pub proof fn archive_bytes_read_back(
    arrays: Seq<NpyArray>,
    saved: Option<Vec<u8>>,
    loaded: Result<Npz, NpzError>,
    key: Seq<char>,
)
    requires
        forall|k: int|
            0 <= k < arrays.len() ==> {
                let a = #[trigger] arrays[k];
                &&& !npz::has_ending(a.name@)
                &&& npy_write::header_fits(a.shape@)
                &&& npy::shape_holds(a.shape@, a.data@.len())
            },
        forall|a: int, b: int|
            0 <= a < b < arrays.len() ==> (#[trigger] arrays[a]).name@ != (
            #[trigger] arrays[b]).name@,
        rereads(array_files(arrays)),
        // what `save_npz` says of `saved`, and `load_npz` of `loaded`
        is_packed(array_files(arrays), saved),
        saved is Some ==> is_loaded((saved->0)@, loaded),
    ensures
        small(array_files(arrays)) ==> saved is Some,
        saved is Some ==> loaded is Ok,
        saved is Some ==> forall|i: int|
            0 <= i < arrays.len() ==> loaded->Ok_0.array((#[trigger] arrays[i]).name@) == Some(
                (arrays[i].shape@, NpyElems::F32(arrays[i].data@)),
            ),
        saved is Some ==> (loaded->Ok_0.array(key) is Some <==> exists|i: int|
            0 <= i < arrays.len() && (#[trigger] arrays[i]).name@ == key),
{
    if saved is Some {
        let files = array_files(arrays);
        let bytes = (saved->0)@;
        assert forall|k: int| 0 <= k < arrays.len() implies #[trigger] member_at(bytes, k)
            == files[k] && npy::parsed(files[k].1) == Ok::<ArrayModel, NpyFault>(
            (arrays[k].shape@, NpyElems::F32(arrays[k].data@)),
        ) by {
            assert(as_members(files)[k] == Some(files[k]));
            npy_write::written_file_reads_back(arrays[k].shape@, arrays[k].data@);
        }
        assert(unpacks(bytes)) by {
            assert forall|k: int| 0 <= k < files.len() implies (
            #[trigger] as_members(files)[k]) is Some by {
                assert(as_members(files)[k] == Some(files[k]));
            }
        }
        assert(loaded is Ok) by {
            if let Err(NpzError::Npy(e)) = loaded {
                let i = choose|i: int|
                    {
                        &&& 0 <= i < (unzipped(bytes)->0).len()
                        &&& npy::parsed((#[trigger] member_at(bytes, i)).1) == Err::<
                            ArrayModel,
                            NpyFault,
                        >(e.fault())
                        &&& forall|k: int|
                            0 <= k < i ==> npy::parsed((#[trigger] member_at(bytes, k)).1) is Ok
                    };
                assert(member_at(bytes, i) == files[i]);
            }
        }
        let z = loaded->Ok_0;
        assert forall|k: int| 0 <= k < arrays.len() implies (#[trigger] z.entries@[k]).key@
            == arrays[k].name@ && z.entries@[k].tensor.model() == (
            arrays[k].shape@,
            NpyElems::F32(arrays[k].data@),
        ) by {
            assert(member_at(bytes, k) == files[k]);
            npz::key_of_entry_name(arrays[k].name@);
        }
        let n = z.entries@.len() as int;
        assert forall|a: int, b: int| 0 <= a < b < n implies (#[trigger] z.entries@[a]).key@ != (
        #[trigger] z.entries@[b]).key@ by {
            assert(arrays[a].name@ != arrays[b].name@);
        }
        assert forall|i: int| 0 <= i < arrays.len() implies z.array(
            (#[trigger] arrays[i]).name@,
        ) == Some((arrays[i].shape@, NpyElems::F32(arrays[i].data@))) by {
            assert(z.entries@[i].key@ == arrays[i].name@);
            npz::last_with_unique(z.entries@, n, i);
        }
        npz::last_with_found(z.entries@, n, key);
        if z.array(key) is Some {
            let i = npz::last_with(z.entries@, n, key)->0;
            assert(z.entries@[i].key@ == arrays[i].name@);
            assert(arrays[i].name@ == key);
        }
    }
}

/// What an archive is read as: its members in order, each under its name without the ending and
/// with the contents of its file; or the first member that is no array; or nothing if it cannot be
/// unpacked.
pub proof fn archives_are_read_in_order(bytes: Seq<u8>, r: Result<Npz, NpzError>, i: int)
    requires
        // what `load_npz` says of its result
        is_loaded(bytes, r),
        0 <= i,
    ensures
        r == Err::<Npz, NpzError>(NpzError::Zip) <==> !unpacks(bytes),
        r matches Ok(z) ==> i < z.entries@.len() ==> {
            let m = (unzipped(bytes)->0)[i]->0;
            &&& z.entries@[i].key@ == npz::key_of(m.0)
            &&& npy::parsed(m.1) is Ok
            &&& (npy::parsed(m.1)->Ok_0) == z.entries@[i].tensor.model()
        },
        r matches Ok(z) ==> z.entries@.len() == (unzipped(bytes)->0).len(),
        r matches Err(NpzError::Npy(e)) ==> exists|k: int|
            0 <= k < (unzipped(bytes)->0).len() && (#[trigger] member_at(bytes, k)) == (unzipped(
                bytes,
            )->0)[k]->0 && npy::parsed(member_at(bytes, k).1) is Err,
{
    if let Ok(z) = r {
        if i < z.entries@.len() {
            assert(z.entries@[i].key@ == npz::key_of(member_at(bytes, i).0));
        }
    }
}

} // verus!
