use nvpair::{NvData, NvEncode, NvEncoding, NvError, NvList};

#[test]
fn a_list_too_large_has_no_encoding() {
    let mut l = NvList::new().unwrap();
    l.add("big", NvData::Uint64Array(vec![0u64; 1 << 28])).unwrap();
    assert_eq!(l.encoded_size(NvEncoding::Xdr), Err(NvError::EncodingFailure));
    assert_eq!(l.encoded_size(NvEncoding::Native), Err(NvError::EncodingFailure));
    assert_eq!(l.encode(NvEncoding::Xdr).err(), Some(NvError::EncodingFailure));
}

#[test]
fn a_nested_list_too_large_has_no_encoding() {
    let mut inner = NvList::new().unwrap();
    inner.add("big", NvData::Uint64Array(vec![0u64; 1 << 28])).unwrap();
    let mut l = NvList::new().unwrap();
    l.add("inner", NvData::NvListRef(inner)).unwrap();
    1u8.insert("small", &mut l).unwrap();
    assert_eq!(l.encoded_size(NvEncoding::Native), Err(NvError::EncodingFailure));
}

#[test]
fn the_largest_array_that_fits() {
    let mut l = NvList::new().unwrap();
    let n: usize = (0x7fff_ffff - 16 - 8) / 8;
    l.add("a", NvData::Uint64Array(vec![0u64; n])).unwrap();
    assert_eq!(l.encoded_size(NvEncoding::Xdr), Ok(20 + 24 + 8 * n as u64));
    drop(l);
    let mut m = NvList::new().unwrap();
    m.add("a", NvData::Uint64Array(vec![0u64; n + 1])).unwrap();
    assert_eq!(m.encoded_size(NvEncoding::Xdr), Err(NvError::EncodingFailure));
}
