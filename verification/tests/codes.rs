use nvpair::{NvData, NvEncoding, NvList, Unique};

fn kind_on_the_wire(d: NvData) -> i32 {
    let mut l = NvList::new().unwrap();
    l.add("n", d).unwrap();
    let bytes = l.encode(NvEncoding::Xdr).unwrap();
    i32::from_be_bytes([bytes[28], bytes[29], bytes[30], bytes[31]])
}

#[test]
fn kinds_are_written_with_their_codes() {
    assert_eq!(kind_on_the_wire(NvData::Unknown), 0);
    assert_eq!(kind_on_the_wire(NvData::Bool), 1);
    assert_eq!(kind_on_the_wire(NvData::BoolV(true)), 21);
    assert_eq!(kind_on_the_wire(NvData::Byte(1)), 2);
    assert_eq!(kind_on_the_wire(NvData::Int8(1)), 22);
    assert_eq!(kind_on_the_wire(NvData::Uint8(1)), 23);
    assert_eq!(kind_on_the_wire(NvData::Int16(1)), 3);
    assert_eq!(kind_on_the_wire(NvData::Uint16(1)), 4);
    assert_eq!(kind_on_the_wire(NvData::Int32(1)), 5);
    assert_eq!(kind_on_the_wire(NvData::Uint32(1)), 6);
    assert_eq!(kind_on_the_wire(NvData::Int64(1)), 7);
    assert_eq!(kind_on_the_wire(NvData::Uint64(1)), 8);
    assert_eq!(kind_on_the_wire(NvData::Str(vec![b'x'])), 9);
    assert_eq!(kind_on_the_wire(NvData::NvListRef(NvList::new().unwrap())), 19);
    assert_eq!(kind_on_the_wire(NvData::Uint64Array(vec![1])), 16);
    assert_eq!(kind_on_the_wire(NvData::NvListArray(vec![])), 20);
}

#[test]
fn the_header_names_the_encoding() {
    let l = NvList::new().unwrap();
    assert_eq!(l.encode(NvEncoding::Native).unwrap()[..4], [0, 1, 0, 0]);
    assert_eq!(l.encode(NvEncoding::Xdr).unwrap()[..4], [1, 1, 0, 0]);
}

#[test]
fn the_demand_on_names_is_written_as_a_word() {
    let flag = |u: Unique| {
        let bytes = NvList::with_unique(u).unwrap().encode(NvEncoding::Xdr).unwrap();
        u32::from_be_bytes([bytes[8], bytes[9], bytes[10], bytes[11]])
    };
    assert_eq!(flag(Unique::Off), 0);
    assert_eq!(flag(Unique::Name), 1);
    assert_eq!(flag(Unique::NameType), 2);
    let version = NvList::new().unwrap().encode(NvEncoding::Xdr).unwrap();
    assert_eq!(
        i32::from_be_bytes([version[4], version[5], version[6], version[7]]),
        0
    );
}

#[test]
fn a_nested_list_counts_by_its_head_in_memory() {
    let mut l = NvList::new().unwrap();
    l.add("inner", NvData::NvListRef(NvList::new().unwrap())).unwrap();
    let bytes = l.encode(NvEncoding::Xdr).unwrap();
    let mem = u32::from_be_bytes([bytes[16], bytes[17], bytes[18], bytes[19]]);
    assert_eq!(mem, 24 + 24);
}
