use rust_sdt::archive::{load_npz, pack, save_npz, unpack, NpzError};
use rust_sdt::config::SdtConfig;
use rust_sdt::loader::{
    batches, count_correct, indices_below, one_hot, shuffled_indices, Cifar10Npz, DataError,
    DataKey, Split, C, FRAME, H, W,
};
use rust_sdt::npy::{
    extract_shape, extract_str, parse_dtype, parse_npy_f32, permute_fortran_to_c, Dtype, NpyData,
    NpyError, NpyTensor,
};
use rust_sdt::npy_write::{npy_file, npy_header, NpyArray};
use rust_sdt::npz::{entry_key, entry_name, read_npz, write_npz, Member, Npz, NpzEntry};

fn floats(key: &str, shape: Vec<usize>, data: Vec<f32>) -> NpzEntry {
    NpzEntry {
        key: key.to_string(),
        tensor: NpyTensor {
            shape,
            data: NpyData::F32(data.iter().map(|v| v.to_bits()).collect()),
        },
    }
}

fn ints(key: &str, data: Vec<i64>) -> NpzEntry {
    NpzEntry {
        key: key.to_string(),
        tensor: NpyTensor { shape: vec![data.len()], data: NpyData::Int(data) },
    }
}

fn narrow(bits: u64) -> u32 {
    (f64::from_bits(bits) as f32).to_bits()
}

fn float(x: i64) -> u32 {
    (x as f32).to_bits()
}

fn label(bits: u32) -> i64 {
    f32::from_bits(bits) as i64
}

fn load(z: &Npz) -> Result<Cifar10Npz, DataError> {
    Cifar10Npz::load(z, &narrow, &float, &label)
}

fn images(n: usize, shift: usize) -> Vec<f32> {
    (0..n * FRAME).map(|i| ((i + shift) % 251) as f32 / 250.0).collect()
}

fn labels(n: usize) -> Vec<i64> {
    (0..n).map(|i| (i % 10) as i64).collect()
}

fn small_npz() -> Npz {
    Npz {
        entries: vec![
            floats("train_x", vec![3, C, H, W], images(3, 0)),
            ints("train_y", vec![7, 0, 9]),
            floats("test_x", vec![1, C, H, W], images(1, 5)),
            ints("test_y", vec![4]),
        ],
    }
}

fn chars(s: &str) -> Vec<char> {
    s.chars().collect()
}

fn load_error(z: &Npz) -> DataError {
    match load(z) {
        Ok(_) => panic!("the data should not load"),
        Err(e) => e,
    }
}

#[test]
fn test_cifar10_npz_load_and_get_batch() {
    let npz = Npz {
        entries: vec![
            floats("train_x", vec![8000, C, H, W], images(8000, 0)),
            ints("train_y", labels(8000)),
            floats("test_x", vec![2000, C, H, W], images(2000, 3)),
            ints("test_y", labels(2000)),
        ],
    };
    let data = match load(&npz) {
        Ok(d) => d,
        Err(e) => panic!("{:?}", e),
    };
    assert_eq!(data.n_train, 8000);
    assert_eq!(data.n_test, 2000);
    assert_eq!(data.train_x.len(), 8000 * C * H * W);
    assert_eq!(data.test_x.len(), 2000 * C * H * W);
    assert!(data.train_y.iter().all(|&y| (0..10).contains(&y)));
    assert!(data.test_y.iter().all(|&y| (0..10).contains(&y)));
    assert_eq!(data.train_y, labels(8000));
    assert_eq!(data.test_y, labels(2000));

    let batch = data.get_batch(Split::Train, &[0, 1], 4);
    assert_eq!(batch.images.len(), 4 * 2 * 3 * 32 * 32);
    assert_eq!(batch.labels.len(), 2);
    let frame = C * H * W;
    assert_eq!(batch.images[0..frame], batch.images[2 * frame..2 * frame + frame]);
    assert_eq!(batch.labels, vec![data.train_y[0], data.train_y[1]]);
}

#[test]
fn test_shuffled_indices() {
    let a = shuffled_indices(100, 42);
    let b = shuffled_indices(100, 42);
    assert_eq!(a, b);
    let mut sorted = a.clone();
    sorted.sort_unstable();
    assert_eq!(sorted, (0..100).collect::<Vec<usize>>());
    let c = shuffled_indices(100, 7);
    assert_ne!(a, c);
}

#[test]
fn shuffling_moves_something() {
    assert_ne!(shuffled_indices(100, 42), indices_below(100));
    assert_eq!(shuffled_indices(0, 1), Vec::<usize>::new());
    assert_eq!(shuffled_indices(1, 9), vec![0]);
}

#[test]
fn batches_take_pixels_in_index_order() {
    let data = match load(&small_npz()) {
        Ok(d) => d,
        Err(e) => panic!("{:?}", e),
    };
    assert_eq!(data.train_y, vec![7, 0, 9]);
    let b = data.get_batch(Split::Train, &[2, 0], 2);
    assert_eq!(b.labels, vec![9, 7]);
    assert_eq!(b.images[0..FRAME], data.train_x[2 * FRAME..3 * FRAME]);
    assert_eq!(b.images[FRAME..2 * FRAME], data.train_x[0..FRAME]);
    assert_eq!(b.images[2 * FRAME..4 * FRAME], b.images[0..2 * FRAME]);
    assert_eq!(data.pixels_flat(Split::Test).len(), FRAME);
    assert_eq!(data.labels_i64(Split::Test), &[4]);
}

#[test]
fn every_element_type_is_converted() {
    let mut z = small_npz();
    z.entries[0].tensor.data = NpyData::Int((0..3 * FRAME as i64).map(|i| i % 256).collect());
    z.entries[1] = floats("train_y", vec![3], vec![7.0, 0.0, 9.0]);
    let wide: Vec<u64> = images(1, 5).iter().map(|v| f64::from(*v).to_bits()).collect();
    z.entries[2].tensor.data = NpyData::F64(wide);
    z.entries[3].tensor.data = NpyData::F64(vec![4.0f64.to_bits()]);
    let data = match load(&z) {
        Ok(d) => d,
        Err(e) => panic!("{:?}", e),
    };
    assert_eq!(data.train_x[255], 255.0f32.to_bits());
    assert_eq!(data.train_x[256], 0.0f32.to_bits());
    assert_eq!(data.train_y, vec![7, 0, 9]);
    assert_eq!(data.test_x, images(1, 5).iter().map(|v| v.to_bits()).collect::<Vec<u32>>());
    assert_eq!(data.test_y, vec![4]);
}

#[test]
fn integer_labels_pass_through_floats() {
    let mut z = small_npz();
    z.entries[1] = ints("train_y", vec![16_777_216, 16_777_217, -3]);
    let data = match load(&z) {
        Ok(d) => d,
        Err(e) => panic!("{:?}", e),
    };
    assert_eq!(data.train_y, vec![16_777_216, 16_777_216, -3]);
}

#[test]
fn missing_arrays_are_named() {
    let mut z = small_npz();
    z.entries.remove(2);
    assert_eq!(load_error(&z), DataError::Missing(DataKey::TestX));
}

#[test]
fn wrong_image_shapes_are_named() {
    let mut z = small_npz();
    z.entries[0] = floats("train_x", vec![3, C, 16, 64], images(3, 0));
    assert_eq!(load_error(&z), DataError::Shape(DataKey::TrainX));
}

#[test]
fn wrong_label_counts_are_named() {
    let mut z = small_npz();
    z.entries[3] = ints("test_y", vec![1, 2]);
    assert_eq!(load_error(&z), DataError::Labels(DataKey::TestY));
}

#[test]
fn one_hot_marks_labels() {
    let r = one_hot(&[2, 0, 1], &[0, 2], 3);
    assert_eq!(r, vec![false, false, true, false, true, false]);
}

#[test]
fn agreement_is_counted() {
    assert_eq!(count_correct(&[1, 2, 3, 4], &[1, 0, 3, 0]), 2);
    assert_eq!(count_correct(&[], &[]), 0);
}

#[test]
fn batches_cover_all_items() {
    assert_eq!(batches(10, 4), vec![(0, 4), (4, 8), (8, 10)]);
    assert_eq!(batches(8, 4), vec![(0, 4), (4, 8)]);
    assert_eq!(batches(0, 4), Vec::<(usize, usize)>::new());
}

#[test]
fn default_sizes() {
    let cfg = SdtConfig::default();
    assert_eq!(cfg.feat_h(), 2);
    assert_eq!(cfg.feat_w(), 2);
    assert_eq!(cfg.num_patches(), 4);
    assert_eq!(cfg.mlp_hidden(), 1024);
    assert_eq!(cfg.depths, 2);
    assert_eq!(cfg.pooling_stat, [false, false, true, true]);
}

fn header_bytes(header: &str) -> Vec<u8> {
    let mut v = vec![0x93, b'N', b'U', b'M', b'P', b'Y', 1, 0];
    v.push((header.len() % 256) as u8);
    v.push((header.len() / 256) as u8);
    v.extend(header.bytes());
    v
}

fn npy(header: &str, data: &[u8]) -> Vec<u8> {
    let mut v = header_bytes(header);
    v.extend(data);
    v
}

fn parsed(bytes: &[u8]) -> NpyTensor {
    match parse_npy_f32(bytes) {
        Ok(t) => t,
        Err(e) => panic!("{:?}", e),
    }
}

fn refused(bytes: &[u8]) -> NpyError {
    match parse_npy_f32(bytes) {
        Ok(_) => panic!("the file should not parse"),
        Err(e) => e,
    }
}

#[test]
fn floats_are_read_by_their_bits() {
    let mut data = Vec::new();
    for v in [1.5f32, -2.0, 0.0] {
        data.extend(v.to_le_bytes());
    }
    let t = parsed(&npy("{'descr': '<f4', 'fortran_order': False, 'shape': (3,), }\n", &data));
    assert_eq!(t.shape, vec![3]);
    match t.data {
        NpyData::F32(v) => assert_eq!(
            v,
            vec![1.5f32.to_bits(), (-2.0f32).to_bits(), 0.0f32.to_bits()]
        ),
        _ => panic!("floats expected"),
    }
}

#[test]
fn doubles_and_integers_are_read() {
    let t = parsed(&npy(
        "{'descr': '<f8', 'fortran_order': False, 'shape': (1,), }\n",
        &0.25f64.to_le_bytes(),
    ));
    match t.data {
        NpyData::F64(v) => assert_eq!(v, vec![0.25f64.to_bits()]),
        _ => panic!("doubles expected"),
    }
    let t = parsed(&npy(
        "{'descr': '<i2', 'fortran_order': False, 'shape': (2,), }\n",
        &[0xFE, 0xFF, 3, 0],
    ));
    match t.data {
        NpyData::Int(v) => assert_eq!(v, vec![-2, 3]),
        _ => panic!("integers expected"),
    }
}

#[test]
fn column_order_is_put_into_row_order() {
    let mut data = Vec::new();
    for v in [1.0f32, 4.0, 2.0, 5.0, 3.0, 6.0] {
        data.extend(v.to_le_bytes());
    }
    let t = parsed(&npy("{'descr': '<f4', 'fortran_order': True, 'shape': (2, 3), }\n", &data));
    match t.data {
        NpyData::F32(v) => {
            let f: Vec<f32> = v.iter().map(|b| f32::from_bits(*b)).collect();
            assert_eq!(f, vec![1.0, 2.0, 3.0, 4.0, 5.0, 6.0]);
        }
        _ => panic!("floats expected"),
    }
    assert_eq!(
        permute_fortran_to_c(&vec![0, 3, 1, 4, 2, 5], &[2, 3]),
        vec![0, 1, 2, 3, 4, 5]
    );
}

#[test]
fn broken_files_are_told_apart() {
    assert!(matches!(refused(b"NUMPY"), NpyError::NotNpy));
    let mut short = header_bytes("{'descr': '<f4'}");
    short.truncate(14);
    assert!(matches!(refused(&short), NpyError::Truncated));
    let mut bad = header_bytes("{'descr': '<f4', 'shape': (1,)}");
    bad[12] = 0xFF;
    assert!(matches!(refused(&bad), NpyError::NotUtf8));
    assert!(matches!(refused(&npy("{'shape': (1,)}", &[])), NpyError::NoDescr));
    assert!(matches!(
        refused(&npy("{'descr': '<f4', 'fortran_order': False}", &[])),
        NpyError::NoShape
    ));
    match refused(&npy("{'descr': '<c8', 'fortran_order': False, 'shape': (1,), }", &[0; 8])) {
        NpyError::Dtype(d) => assert_eq!(d, chars("<c8")),
        e => panic!("{:?}", e),
    }
    assert!(matches!(
        refused(&npy("{'descr': '|i1', 'fortran_order': False, 'shape': (3,), }", &[0; 2])),
        NpyError::Shape
    ));
    let huge = "{'descr': '<f4', 'fortran_order': False, 'shape': (99999999999, 99999999999), }";
    assert!(matches!(refused(&npy(huge, &[])), NpyError::TooLarge));
}

#[test]
fn header_fields_are_found() {
    let h = chars("{'descr': '<f4', 'fortran_order': False, 'shape': (2, 3), }");
    assert_eq!(extract_str(&h, &chars("'descr'")), Some(chars("<f4")));
    assert_eq!(extract_str(&h, &chars("nothing")), None);
    assert_eq!(extract_shape(&h), Some(vec![2, 3]));
    assert_eq!(extract_shape(&chars("{'shape': ()}")), Some(vec![]));
    assert_eq!(parse_dtype(&chars("<f8")), Some(Dtype::F8));
    assert_eq!(parse_dtype(&chars("<x9")), None);
}

fn array(name: &str, shape: Vec<usize>, data: Vec<f32>) -> NpyArray {
    NpyArray {
        name: name.to_string(),
        shape,
        data: data.iter().map(|v| v.to_bits()).collect(),
    }
}

#[test]
fn written_headers_are_aligned() {
    for shape in [vec![], vec![3], vec![2, 3, 4, 5], vec![1234567, 89]] {
        let h = npy_header(&shape);
        assert_eq!((10 + h.len()) % 64, 0);
        assert_eq!(h.last(), Some(&'}'));
    }
    let h: String = npy_header(&[10]).iter().collect();
    assert!(h.starts_with("{'descr': '<f4', 'fortran_order': False, 'shape': (10,) "));
}

#[test]
fn arrays_keep_their_axes() {
    let a = NpyArray::from_tensor1(2, vec![7, 8], "b");
    assert_eq!((a.name.as_str(), a.shape, a.data), ("b", vec![2], vec![7, 8]));
    let a = NpyArray::from_tensor2([1, 2], vec![7, 8], "m");
    assert_eq!(a.shape, vec![1, 2]);
    let a = NpyArray::from_tensor4([2, 1, 1, 1], vec![7, 8], "w");
    assert_eq!((a.name.as_str(), a.shape, a.data), ("w", vec![2, 1, 1, 1], vec![7, 8]));
}

#[test]
fn a_written_file_reads_back() {
    let a = array("x", vec![2, 2], vec![1.0, -0.5, 3.25, 0.0]);
    let t = parsed(&npy_file(&a));
    assert_eq!(t.shape, vec![2, 2]);
    match t.data {
        NpyData::F32(v) => assert_eq!(v, a.data),
        _ => panic!("floats expected"),
    }
}

#[test]
fn member_names_and_keys() {
    assert_eq!(entry_name("head_w"), "head_w.npy");
    assert_eq!(entry_key("head_w.npy"), "head_w");
    assert_eq!(entry_key("plain"), "plain");
}

#[test]
fn an_archive_reads_back() {
    let arrays = vec![array("a", vec![1], vec![2.0]), array("b", vec![2], vec![3.0, 4.0])];
    let members = write_npz(&arrays);
    assert_eq!(members.len(), 2);
    assert_eq!(members[1].name, "b.npy");
    let z = match read_npz(&members) {
        Ok(z) => z,
        Err(e) => panic!("{:?}", e),
    };
    let b = z.get("b").expect("array b");
    assert_eq!(b.shape, vec![2]);
    assert!(z.get("c").is_none());
}

#[test]
fn an_archive_with_a_broken_member_is_refused() {
    let members = vec![Member { name: "a.npy".to_string(), bytes: vec![1, 2, 3] }];
    assert!(matches!(read_npz(&members), Err(NpyError::NotNpy)));
}

fn npz_of(bytes: Vec<u8>) -> Npz {
    match load_npz(bytes) {
        Ok(z) => z,
        Err(NpzError::Zip) => panic!("no archive"),
        Err(NpzError::Npy(e)) => panic!("{:?}", e),
    }
}

#[test]
fn the_bytes_of_an_archive_read_back() {
    let long: Vec<f32> = (0..5000).map(|i| i as f32 / 7.0).collect();
    let arrays = vec![array("a", vec![1], vec![2.0]), array("long", vec![50, 100], long)];
    let bytes = save_npz(&arrays).expect("the arrays are small");
    assert_eq!(bytes[0..4], [b'P', b'K', 3, 4]);
    let members = unpack(bytes.clone()).expect("a whole archive");
    assert_eq!(members.len(), 2);
    assert_eq!(members[0].name, "a.npy");
    assert_eq!(members[1].bytes, npy_file(&arrays[1]));
    let z = npz_of(bytes);
    let t = z.get("long").expect("array long");
    assert_eq!(t.shape, vec![50, 100]);
    match &t.data {
        NpyData::F32(v) => assert_eq!(*v, arrays[1].data),
        _ => panic!("floats expected"),
    }
}

#[test]
fn an_empty_archive_reads_back() {
    let bytes = pack(&[]).expect("nothing to pack");
    assert!(unpack(bytes).expect("an archive").is_empty());
}

#[test]
fn a_data_set_with_integer_labels_loads_from_bytes() {
    let mut members = write_npz(&[
        array("train_x", vec![3, C, H, W], images(3, 0)),
        array("test_x", vec![1, C, H, W], images(1, 5)),
    ]);
    let i8_header = |n: usize| {
        format!("{{'descr': '<i8', 'fortran_order': False, 'shape': ({},), }}", n)
    };
    let le = |v: &[i64]| v.iter().flat_map(|x| x.to_le_bytes()).collect::<Vec<u8>>();
    members.push(Member {
        name: "train_y.npy".to_string(),
        bytes: npy(&i8_header(3), &le(&[7, 0, 9])),
    });
    members.push(Member { name: "test_y.npy".to_string(), bytes: npy(&i8_header(1), &le(&[4])) });
    let bytes = pack(&members).expect("the members are small");
    let data = match load(&npz_of(bytes)) {
        Ok(d) => d,
        Err(e) => panic!("{:?}", e),
    };
    assert_eq!((data.n_train, data.n_test), (3, 1));
    assert_eq!(data.train_y, vec![7, 0, 9]);
    assert_eq!(data.test_y, vec![4]);
    assert_eq!(data.train_x[1], (1.0f32 / 250.0).to_bits());
}

#[test]
fn bytes_that_are_no_archive_are_refused() {
    assert!(unpack(Vec::new()).is_none());
    assert!(unpack(vec![7; 100]).is_none());
    assert!(matches!(load_npz(vec![7; 100]), Err(NpzError::Zip)));
    let member = Member { name: "a.npy".to_string(), bytes: vec![1, 2, 3] };
    let bytes = pack(&[member]).expect("small");
    assert!(matches!(load_npz(bytes), Err(NpzError::Npy(NpyError::NotNpy))));
}

#[test]
fn a_damaged_member_is_refused() {
    let member = Member { name: "a".to_string(), bytes: b"some text to be packed".to_vec() };
    let mut bytes = pack(&[member]).expect("small");
    assert!(unpack(bytes.clone()).is_some());
    // the checksum of the content, in the directory at the end
    let at = bytes.len() - 22 - 47 + 16;
    bytes[at] ^= 1;
    assert!(unpack(bytes).is_none());
}

#[test]
fn a_member_that_needs_a_password_is_refused() {
    let member = Member { name: "a".to_string(), bytes: b"some text to be packed".to_vec() };
    let mut bytes = pack(&[member]).expect("small");
    // the mark of an encrypted member, in the directory at the end
    let at = bytes.len() - 22 - 47 + 8;
    bytes[at] |= 1;
    assert!(unpack(bytes).is_none());
}

#[test]
fn a_member_that_is_half_marked_as_encrypted_is_refused() {
    let member = Member { name: "a".to_string(), bytes: b"some text to be packed".to_vec() };
    let bytes = pack(&[member]).expect("small");
    let dir = bytes.len() - 22 - 47;
    // how the member is encrypted, though it is not marked as such
    let extra = [0x01, 0x99, 7, 0, 2, 0, b'A', b'E', 1, 8, 0];
    let mut changed = bytes[..dir + 47].to_vec();
    changed[dir + 30] = extra.len() as u8;
    changed.extend(extra);
    changed.extend(&bytes[dir + 47..]);
    let end = changed.len() - 22;
    changed[end + 12] = 47 + extra.len() as u8;
    assert!(unpack(changed).is_none());
}

fn member(name: &str, bytes: &[u8]) -> Member {
    Member { name: name.to_string(), bytes: bytes.to_vec() }
}

#[test]
fn odd_names_are_packed_too() {
    let names = ["", "\u{6}\u{7}", "PK\u{6}\u{7}.npy", "\u{7}2345678901234567", "层.npy", "1234567890123456"];
    let members: Vec<Member> = names.iter().map(|n| member(n, n.as_bytes())).collect();
    let bytes = pack(&members).expect("the members are small");
    assert_eq!(pack(&members).expect("the members are small"), bytes);
    let back = unpack(bytes).expect("a whole archive");
    assert_eq!(back.len(), names.len());
    for (m, n) in back.iter().zip(names) {
        assert_eq!(m.name, n);
        assert_eq!(m.bytes, n.as_bytes());
    }
}

#[test]
fn contents_that_cannot_be_compressed_read_back() {
    let mut x: u32 = 1;
    let noise: Vec<u8> = (0..200_000)
        .map(|_| {
            x = x.wrapping_mul(1_664_525).wrapping_add(1_013_904_223);
            (x >> 24) as u8
        })
        .collect();
    let members = [member("noise", &noise), member("empty", &[])];
    let back = unpack(pack(&members).expect("small")).expect("a whole archive");
    assert_eq!(back[0].bytes, noise);
    assert_eq!(back[1].name, "empty");
    assert!(back[1].bytes.is_empty());
}

#[test]
fn a_name_can_look_like_the_mark_of_a_large_archive() {
    let tail = "0123456789abcdef";
    let marked = format!("PK\u{6}\u{7}{}", tail);
    assert!(unpack(pack(&[member(&marked, b"x")]).expect("small")).is_none());
    // only the last name can, and only at that place
    let members = [member(&marked, b"x"), member("y", b"z")];
    assert_eq!(unpack(pack(&members).expect("small")).expect("a whole archive").len(), 2);
    let moved = format!("{}0", marked);
    assert!(unpack(pack(&[member(&moved, b"x")]).expect("small")).is_some());
}

#[test]
fn an_archive_has_exactly_the_keys_of_its_arrays() {
    let arrays = vec![array("scalar", vec![], vec![1.5]), array("b", vec![3], vec![1.0, -0.0, 2.0])];
    let z = npz_of(save_npz(&arrays).expect("the arrays are small"));
    assert_eq!(z.entries.len(), 2);
    for a in &arrays {
        let t = z.get(&a.name).expect("the array was saved");
        assert_eq!(t.shape, a.shape);
        match &t.data {
            NpyData::F32(v) => assert_eq!(*v, a.data),
            _ => panic!("floats expected"),
        }
    }
    assert!(z.get("scalar.npy").is_none());
}
