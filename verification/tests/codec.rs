use nvpair::{NvData, NvEncode, NvEncoding, NvError, NvList, Unique};

fn rich() -> NvList {
    let mut inner = NvList::new_unqiue_names().unwrap();
    (-5i16).insert("depth", &mut inner).unwrap();
    "leaf".insert("kind", &mut inner).unwrap();
    let mut l = NvList::with_unique(Unique::NameType).unwrap();
    l.add_boolean("flag").unwrap();
    l.add_byte("byte", 0xab).unwrap();
    l.add("unknown", NvData::Unknown).unwrap();
    false.insert("off", &mut l).unwrap();
    true.insert("on", &mut l).unwrap();
    (-128i8).insert("i8", &mut l).unwrap();
    255u8.insert("u8", &mut l).unwrap();
    (-32768i16).insert("i16", &mut l).unwrap();
    65535u16.insert("u16", &mut l).unwrap();
    i32::MIN.insert("i32", &mut l).unwrap();
    u32::MAX.insert("u32", &mut l).unwrap();
    i64::MIN.insert("i64", &mut l).unwrap();
    (-1i64).insert("minus", &mut l).unwrap();
    u64::MAX.insert("u64", &mut l).unwrap();
    "".insert("empty", &mut l).unwrap();
    "seven77".insert("text", &mut l).unwrap();
    inner.insert("inner", &mut l).unwrap();
    vec![0u64, 1, u64::MAX].insert("nums", &mut l).unwrap();
    Vec::<u64>::new().insert("none", &mut l).unwrap();
    vec![inner.clone(), NvList::new().unwrap(), inner].insert("lists", &mut l).unwrap();
    l
}

#[test]
fn round_trip_in_both_encodings() {
    let l = rich();
    for e in [NvEncoding::Native, NvEncoding::Xdr] {
        let bytes = l.encode(e).unwrap();
        let back = NvList::decode(&bytes).unwrap();
        assert_eq!(back, l);
        assert_eq!(back.encode(e).unwrap(), bytes);
    }
}

#[test]
fn size_agrees_with_encoding() {
    let l = rich();
    for e in [NvEncoding::Native, NvEncoding::Xdr] {
        let bytes = l.encode(e).unwrap();
        assert_eq!(l.encoded_size(e), Ok(bytes.len() as u64));
    }
    let empty = NvList::new().unwrap();
    assert_eq!(empty.encoded_size(NvEncoding::Native), Ok(20));
    assert_eq!(empty.encoded_size(NvEncoding::Xdr), Ok(20));
}

#[test]
fn portable_bytes_of_an_empty_list() {
    let l = NvList::new_unqiue_names().unwrap();
    let bytes = l.encode(NvEncoding::Xdr).unwrap();
    assert_eq!(
        bytes,
        vec![1, 1, 0, 0, 0, 0, 0, 0, 0, 0, 0, 1, 0, 0, 0, 0, 0, 0, 0, 0]
    );
}

#[test]
fn native_bytes_of_an_empty_list() {
    let l = NvList::with_unique(Unique::NameType).unwrap();
    let bytes = l.encode(NvEncoding::Native).unwrap();
    assert_eq!(
        bytes,
        vec![0, 1, 0, 0, 0, 0, 0, 0, 2, 0, 0, 0, 0, 0, 0, 0, 0, 0, 0, 0]
    );
}

#[test]
fn portable_bytes_of_one_entry() {
    let mut l = NvList::new().unwrap();
    3u32.insert("count", &mut l).unwrap();
    let bytes = l.encode(NvEncoding::Xdr).unwrap();
    let expected: Vec<u8> = vec![
        1, 1, 0, 0, // header
        0, 0, 0, 0, // version
        0, 0, 0, 0, // demand on names
        0, 0, 0, 32, // size of the entry
        0, 0, 0, 32, // size in memory: 16 + 6 filled up to 24, and 4 filled up to 8
        0, 0, 0, 5, // length of the name
        b'c', b'o', b'u', b'n', b't', 0, 0, 0, // name, filled up
        0, 0, 0, 6, // kind
        0, 0, 0, 1, // one element
        0, 0, 0, 3, // value
        0, 0, 0, 0, 0, 0, 0, 0, // end
    ];
    assert_eq!(bytes, expected);
    assert_eq!(l.encoded_size(NvEncoding::Xdr), Ok(52));
}

#[test]
fn native_bytes_of_one_entry() {
    let mut l = NvList::new().unwrap();
    (-2i16).insert("ab", &mut l).unwrap();
    let bytes = l.encode(NvEncoding::Native).unwrap();
    let expected: Vec<u8> = vec![
        0, 1, 0, 0, // header
        0, 0, 0, 0, // version
        0, 0, 0, 0, // demand on names
        36, 0, 0, 0, // size of the entry
        32, 0, 0, 0, // size in memory: 16 + 3 filled up to 24, and 2 filled up to 8
        2, 0, 0, 0, // length of the name
        b'a', b'b', 0, 0, 0, 0, 0, 0, // name, filled up
        3, 0, 0, 0, // kind
        1, 0, 0, 0, // one element
        0xfe, 0xff, 0, 0, 0, 0, 0, 0, // value, filled up
        0, 0, 0, 0, 0, 0, 0, 0, // end
    ];
    assert_eq!(bytes, expected);
}

#[test]
fn portable_bytes_of_a_negative_byte() {
    let mut l = NvList::new().unwrap();
    (-2i8).insert("n", &mut l).unwrap();
    let bytes = l.encode(NvEncoding::Xdr).unwrap();
    assert_eq!(&bytes[36..40], &[0xff, 0xff, 0xff, 0xfe]);
    assert_eq!(bytes.len(), 48);
}

#[test]
fn decode_rejects_what_is_no_encoding() {
    let l = rich();
    let bytes = l.encode(NvEncoding::Xdr).unwrap();
    assert_eq!(NvList::decode(&[]).err(), Some(NvError::DecodingFailure));
    assert_eq!(NvList::decode(&bytes[..3]).err(), Some(NvError::DecodingFailure));
    for cut in [4usize, 11, 19, 20, 33, bytes.len() - 1] {
        assert_eq!(NvList::decode(&bytes[..cut]).err(), Some(NvError::DecodingFailure));
    }
    let mut longer = bytes.clone();
    longer.push(0);
    assert_eq!(NvList::decode(&longer).err(), Some(NvError::DecodingFailure));
    let mut marked = bytes.clone();
    marked[0] = 2;
    assert_eq!(NvList::decode(&marked).err(), Some(NvError::DecodingFailure));
    let mut other = bytes.clone();
    other[0] = 0;
    assert_eq!(NvList::decode(&other).err(), Some(NvError::DecodingFailure));
    let mut version = bytes.clone();
    version[7] = 1;
    assert_eq!(NvList::decode(&version).err(), Some(NvError::DecodingFailure));
    let mut policy = bytes.clone();
    policy[11] = 3;
    assert_eq!(NvList::decode(&policy).err(), Some(NvError::DecodingFailure));
}

#[test]
fn decode_rejects_a_wrong_size_word() {
    let mut l = NvList::new().unwrap();
    3u32.insert("count", &mut l).unwrap();
    let bytes = l.encode(NvEncoding::Xdr).unwrap();
    assert!(NvList::decode(&bytes).is_ok());
    for at in [15usize, 19, 23, 29, 35, 39] {
        let mut bad = bytes.clone();
        bad[at] = bad[at].wrapping_add(1);
        assert_eq!(NvList::decode(&bad).err(), Some(NvError::DecodingFailure));
    }
}

#[test]
fn decode_rejects_entries_that_clash() {
    let mut l = NvList::new().unwrap();
    1u32.insert("k", &mut l).unwrap();
    2u32.insert("k", &mut l).unwrap();
    let mut bytes = l.encode(NvEncoding::Xdr).unwrap();
    assert!(NvList::decode(&bytes).is_ok());
    bytes[11] = 1;
    assert_eq!(NvList::decode(&bytes).err(), Some(NvError::DecodingFailure));
    bytes[11] = 2;
    assert_eq!(NvList::decode(&bytes).err(), Some(NvError::DecodingFailure));
}

#[test]
fn decode_rejects_a_value_out_of_range() {
    let mut l = NvList::new().unwrap();
    true.insert("b", &mut l).unwrap();
    let mut bytes = l.encode(NvEncoding::Xdr).unwrap();
    let last = bytes.len() - 9;
    assert_eq!(bytes[last], 1);
    bytes[last] = 2;
    assert_eq!(NvList::decode(&bytes).err(), Some(NvError::DecodingFailure));
}
