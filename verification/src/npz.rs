//! NPZ archives: the members of an archive as named arrays, and back.

use crate::npy;
use crate::npy::{NpyElems, NpyError, NpyFault, NpyTensor};
use crate::npy_write;
use crate::npy_write::NpyArray;
use crate::text;
use vstd::prelude::*;

verus! {

/// One member of an archive: its file name and its bytes.
pub struct Member {
    pub name: String,
    pub bytes: Vec<u8>,
}

/// A named array.
pub struct NpzEntry {
    pub key: String,
    pub tensor: NpyTensor,
}

/// The arrays of an archive.
pub struct Npz {
    pub entries: Vec<NpzEntry>,
}

/// Model of an array: its shape and its elements.
pub type ArrayModel = (Seq<usize>, NpyElems);

impl NpyTensor {
    /// The array.
    pub open spec fn model(self) -> ArrayModel {
        (self.shape@, self.data.elems())
    }
}

/// Without the `.npy` endings of a file name.
pub open spec fn key_of(name: Seq<char>) -> Seq<char>
    decreases name.len(),
{
    if has_ending(name) {
        key_of(name.take(name.len() - 4))
    } else {
        name
    }
}

/// Whether a name ends in `.npy`.
pub open spec fn has_ending(name: Seq<char>) -> bool {
    name.len() >= 4 && name.skip(name.len() - 4) == seq!['.', 'n', 'p', 'y']
}

/// Without the `.npy` endings of a file name.
pub fn entry_key(name: &str) -> (key: String)
    ensures
        key@ == key_of(name@),
{
    let c = text::chars_of(name);
    let mut n: usize = c.len();
    assert(c@.take(n as int) =~= c@);
    while n >= 4 && c[n - 4] == '.' && c[n - 3] == 'n' && c[n - 2] == 'p' && c[n - 1] == 'y'
        invariant
            n <= c@.len(),
            key_of(c@) == key_of(c@.take(n as int)),
        decreases n,
    {
        proof {
            let cur = c@.take(n as int);
            assert(cur.skip(n - 4) =~= seq!['.', 'n', 'p', 'y']);
            assert(cur.take(n - 4) =~= c@.take(n - 4));
        }
        n -= 4;
    }
    proof {
        let cur = c@.take(n as int);
        if has_ending(cur) {
            let e = cur.skip(n - 4);
            assert(e[0] == c@[n - 4] && e[1] == c@[n - 3] && e[2] == c@[n - 2] && e[3] == c@[n - 1]);
        }
    }
    let k = text::part(c.as_slice(), 0, n);
    assert(k@ =~= c@.take(n as int));
    text::string_of(k.as_slice())
}

/// File name of an array.
pub fn entry_name(key: &str) -> (name: String)
    ensures
        name@ == key@ + seq!['.', 'n', 'p', 'y'],
{
    let mut c = text::chars_of(key);
    c.push('.');
    c.push('n');
    c.push('p');
    c.push('y');
    assert(c@ =~= key@ + seq!['.', 'n', 'p', 'y']);
    text::string_of(c.as_slice())
}

/// The key of a file name is the name that the file was made of, unless that name itself
/// ends in `.npy`.
pub proof fn key_of_entry_name(key: Seq<char>)
    requires
        !has_ending(key),
    ensures
        key_of(key + seq!['.', 'n', 'p', 'y']) == key,
{
    let name = key + seq!['.', 'n', 'p', 'y'];
    assert(name.skip(name.len() - 4) =~= seq!['.', 'n', 'p', 'y']);
    assert(name.take(name.len() - 4) =~= key);
    assert(key_of(key) == key);
}

/// Last of the first `n` entries with a key.
pub open spec fn last_with(entries: Seq<NpzEntry>, n: int, key: Seq<char>) -> Option<int>
    decreases n,
{
    if n <= 0 {
        None
    } else if entries[n - 1].key@ == key {
        Some(n - 1)
    } else {
        last_with(entries, n - 1, key)
    }
}

impl Npz {
    /// The array with a key: of several, the one that came last.
    pub open spec fn array(self, key: Seq<char>) -> Option<ArrayModel> {
        match last_with(self.entries@, self.entries@.len() as int, key) {
            Some(i) => Some(self.entries@[i].tensor.model()),
            None => None,
        }
    }

    /// The array with a key: of several, the one that came last.
    pub fn get(&self, key: &str) -> (r: Option<&NpyTensor>)
        ensures
            match r {
                Some(t) => self.array(key@) == Some(t.model()),
                None => self.array(key@) is None,
            },
    {
        let mut n: usize = self.entries.len();
        while n > 0
            invariant
                n <= self.entries@.len(),
                last_with(self.entries@, self.entries@.len() as int, key@) == last_with(
                    self.entries@,
                    n as int,
                    key@,
                ),
            decreases n,
        {
            if text::same(self.entries[n - 1].key.as_str(), key) {
                return Some(&self.entries[n - 1].tensor);
            }
            n -= 1;
        }
        None
    }
}

/// The members of an archive that holds these arrays.
pub fn write_npz(arrays: &[NpyArray]) -> (members: Vec<Member>)
    requires
        forall|i: int|
            0 <= i < arrays@.len() ==> {
                let s = (#[trigger] arrays@[i]).shape@;
                npy_write::header_open(s).len() + 11 <= usize::MAX && npy_write::header_fits(s)
            },
    ensures
        members@.len() == arrays@.len(),
        forall|i: int|
            0 <= i < members@.len() ==> {
                let a = arrays@[i];
                &&& (#[trigger] members@[i]).name@ == a.name@ + seq!['.', 'n', 'p', 'y']
                &&& members@[i].bytes@ == npy_write::npy_bytes(a.shape@, a.data@)
            },
{
    let mut members: Vec<Member> = Vec::new();
    let mut i: usize = 0;
    while i < arrays.len()
        invariant
            i <= arrays@.len(),
            forall|i: int|
                0 <= i < arrays@.len() ==> {
                    let s = (#[trigger] arrays@[i]).shape@;
                    npy_write::header_open(s).len() + 11 <= usize::MAX && npy_write::header_fits(s)
                },
            members@.len() == i,
            forall|k: int|
                0 <= k < i ==> {
                    let a = arrays@[k];
                    &&& (#[trigger] members@[k]).name@ == a.name@ + seq!['.', 'n', 'p', 'y']
                    &&& members@[k].bytes@ == npy_write::npy_bytes(a.shape@, a.data@)
                },
        decreases arrays@.len() - i,
    {
        let a = &arrays[i];
        assert(npy_write::header_fits(arrays@[i as int].shape@));
        let name = entry_name(a.name.as_str());
        let bytes = npy_write::npy_file(a);
        members.push(Member { name, bytes });
        i += 1;
    }
    members
}

/// Reads every member of an archive. The first member that is no readable array is an error.
pub fn read_npz(members: &[Member]) -> (r: Result<Npz, NpyError>)
    ensures
        match r {
            Ok(z) => {
                &&& z.entries@.len() == members@.len()
                &&& forall|i: int|
                    0 <= i < members@.len() ==> {
                        &&& (#[trigger] z.entries@[i]).key@ == key_of(members@[i].name@)
                        &&& npy::parsed(members@[i].bytes@) == Ok::<ArrayModel, NpyFault>(
                            z.entries@[i].tensor.model(),
                        )
                    }
            },
            Err(e) => exists|i: int|
                {
                    &&& 0 <= i < members@.len()
                    &&& npy::parsed((#[trigger] members@[i]).bytes@) == Err::<
                        ArrayModel,
                        NpyFault,
                    >(e.fault())
                    &&& forall|k: int|
                        0 <= k < i ==> npy::parsed((#[trigger] members@[k]).bytes@) is Ok
                },
        },
{
    let mut entries: Vec<NpzEntry> = Vec::new();
    let mut i: usize = 0;
    while i < members.len()
        invariant
            i <= members@.len(),
            entries@.len() == i,
            forall|k: int|
                0 <= k < i ==> {
                    &&& (#[trigger] entries@[k]).key@ == key_of(members@[k].name@)
                    &&& npy::parsed(members@[k].bytes@) == Ok::<ArrayModel, NpyFault>(
                        entries@[k].tensor.model(),
                    )
                },
        decreases members@.len() - i,
    {
        let m = &members[i];
        match npy::parse_npy_f32(m.bytes.as_slice()) {
            Ok(tensor) => {
                let key = entry_key(m.name.as_str());
                entries.push(NpzEntry { key, tensor });
            },
            Err(e) => {
                assert forall|k: int| 0 <= k < i implies npy::parsed(
                    (#[trigger] members@[k]).bytes@,
                ) is Ok by {
                    assert(entries@[k].key@ == key_of(members@[k].name@));
                }
                assert(npy::parsed(members@[i as int].bytes@) is Err);
                return Err(e);
            },
        }
        i += 1;
    }
    Ok(Npz { entries })
}

/// An entry that is found has the key.
pub proof fn last_with_found(entries: Seq<NpzEntry>, n: int, key: Seq<char>)
    requires
        0 <= n <= entries.len(),
    ensures
        last_with(entries, n, key) matches Some(i) ==> 0 <= i < n && entries[i].key@ == key,
    decreases n,
{
    if n > 0 && entries[n - 1].key@ != key {
        last_with_found(entries, n - 1, key);
    }
}

/// With distinct keys, the entry of a key is the only one that has it.
pub proof fn last_with_unique(entries: Seq<NpzEntry>, n: int, i: int)
    requires
        0 <= i < n <= entries.len(),
        forall|a: int, b: int|
            0 <= a < b < entries.len() ==> (#[trigger] entries[a]).key@ != (#[trigger] entries[b]).key@,
    ensures
        last_with(entries, n, entries[i].key@) == Some(i),
    decreases n,
{
    if n - 1 != i {
        assert(entries[i].key@ != entries[n - 1].key@);
        last_with_unique(entries, n - 1, i);
    }
}

/// Writing arrays to an archive and reading it gives every array back under its name, for
/// names that differ from each other and do not end in `.npy`.
pub proof fn archive_reads_back(arrays: Seq<NpyArray>, members: Seq<Member>, z: Npz, i: int)
    requires
        forall|k: int|
            0 <= k < arrays.len() ==> {
                let a = #[trigger] arrays[k];
                &&& !has_ending(a.name@)
                &&& npy_write::header_fits(a.shape@)
                &&& npy::shape_holds(a.shape@, a.data@.len())
            },
        forall|a: int, b: int|
            0 <= a < b < arrays.len() ==> (#[trigger] arrays[a]).name@ != (#[trigger] arrays[b]).name@,
        // what `write_npz` says of `members`
        members.len() == arrays.len(),
        forall|k: int|
            0 <= k < members.len() ==> {
                let a = arrays[k];
                &&& (#[trigger] members[k]).name@ == a.name@ + seq!['.', 'n', 'p', 'y']
                &&& members[k].bytes@ == npy_write::npy_bytes(a.shape@, a.data@)
            },
        // what `read_npz` says of `z`
        z.entries@.len() == members.len(),
        forall|k: int|
            0 <= k < members.len() ==> {
                &&& (#[trigger] z.entries@[k]).key@ == key_of(members[k].name@)
                &&& npy::parsed(members[k].bytes@) == Ok::<ArrayModel, NpyFault>(
                    z.entries@[k].tensor.model(),
                )
            },
        0 <= i < arrays.len(),
    ensures
        z.array(arrays[i].name@) == Some((arrays[i].shape@, NpyElems::F32(arrays[i].data@))),
{
    assert forall|k: int| 0 <= k < arrays.len() implies (#[trigger] z.entries@[k]).key@
        == arrays[k].name@ && z.entries@[k].tensor.model() == (
        arrays[k].shape@,
        NpyElems::F32(arrays[k].data@),
    ) by {
        assert(members[k].name@ == arrays[k].name@ + seq!['.', 'n', 'p', 'y']);
        key_of_entry_name(arrays[k].name@);
        npy_write::written_file_reads_back(arrays[k].shape@, arrays[k].data@);
    }
    assert(z.entries@[i].key@ == arrays[i].name@);
    assert forall|a: int, b: int| 0 <= a < b < z.entries@.len() implies (
    #[trigger] z.entries@[a]).key@ != (#[trigger] z.entries@[b]).key@ by {
        assert(arrays[a].name@ != arrays[b].name@);
    }
    last_with_unique(z.entries@, z.entries@.len() as int, i);
}

/// The ending of a file name counts for nothing in its key, however often it stands there, and a
/// key never has it.
pub proof fn keys_have_no_ending(name: Seq<char>)
    ensures
        key_of(name + seq!['.', 'n', 'p', 'y']) == key_of(name),
        !has_ending(key_of(name)),
        !has_ending(name) ==> key_of(name) == name,
    decreases name.len(),
{
    let more = name + seq!['.', 'n', 'p', 'y'];
    assert(more.skip(more.len() - 4) =~= seq!['.', 'n', 'p', 'y']);
    assert(more.take(more.len() - 4) =~= name);
    if has_ending(name) {
        keys_have_no_ending(name.take(name.len() - 4));
    }
}

/// Of several arrays with one key the last one counts, and a key that no entry has is not found.
pub proof fn later_arrays_win(z: Npz, key: Seq<char>, i: int)
    requires
        0 <= i < z.entries@.len(),
    ensures
        z.entries@[i].key@ == key && (forall|k: int|
            i < k < z.entries@.len() ==> (#[trigger] z.entries@[k]).key@ != key) ==> z.array(key)
            == Some(z.entries@[i].tensor.model()),
        (forall|k: int| 0 <= k < z.entries@.len() ==> (#[trigger] z.entries@[k]).key@ != key)
            <==> z.array(key) is None,
{
    last_is_found(z.entries@, z.entries@.len() as int, key, i);
}

proof fn last_is_found(entries: Seq<NpzEntry>, n: int, key: Seq<char>, i: int)
    requires
        0 <= n <= entries.len(),
        0 <= i,
    ensures
        i < n && entries[i].key@ == key && (forall|k: int|
            i < k < n ==> (#[trigger] entries[k]).key@ != key) ==> last_with(entries, n, key)
            == Some(i),
        (forall|k: int| 0 <= k < n ==> (#[trigger] entries[k]).key@ != key) <==> last_with(
            entries,
            n,
            key,
        ) is None,
    decreases n,
{
    if n > 0 {
        last_is_found(entries, n - 1, key, i);
        if entries[n - 1].key@ != key {
            if last_with(entries, n - 1, key) is None {
                assert forall|k: int| 0 <= k < n implies (#[trigger] entries[k]).key@ != key by {
                    if k == n - 1 {
                    } else {
                        assert(entries[k].key@ != key);
                    }
                }
            }
        }
    }
}

} // verus!
