use nvpair::{NvData, NvEncode, NvEncoding, NvError, NvList, NvType, Unique};

fn sample() -> NvList {
    let mut l = NvList::new_unqiue_names().unwrap();
    3u32.insert("count", &mut l).unwrap();
    "disk0".insert("label", &mut l).unwrap();
    true.insert("ready", &mut l).unwrap();
    l
}

fn names(l: &NvList) -> Vec<Vec<u8>> {
    let mut it = l.iter();
    let mut out = Vec::new();
    while let Some(p) = it.next() {
        out.push(p.name().to_vec());
    }
    out
}

#[test]
fn scenario_lookup_and_iteration() {
    let l = sample();
    match l.lookup_typed("count", NvType::Uint32).unwrap() {
        NvData::Uint32(v) => assert_eq!(*v, 3),
        other => panic!("unexpected value {:?}", other),
    }
    assert!(!l.contains("missing"));
    assert!(l.contains("label"));
    assert_eq!(names(&l), vec![b"count".to_vec(), b"label".to_vec(), b"ready".to_vec()]);
}

#[test]
fn scenario_native_round_trip() {
    let l = sample();
    let bytes = l.encode(NvEncoding::Native).unwrap();
    let back = NvList::decode(&bytes).unwrap();
    assert_eq!(back, l);
    assert_eq!(names(&back), names(&l));
    match back.lookup_typed("ready", NvType::BooleanValue).unwrap() {
        NvData::BoolV(b) => assert!(*b),
        other => panic!("unexpected value {:?}", other),
    }
    assert_eq!(back.lookup_string("label").unwrap(), b"disk0".to_vec());
}

#[test]
fn scenario_type_mismatch() {
    let l = sample();
    assert_eq!(l.lookup_typed("label", NvType::Uint32).err(), Some(NvError::TypeMismatch));
    assert_eq!(l.lookup_uint64("count").err(), Some(NvError::TypeMismatch));
}

#[test]
fn fresh_list_is_empty() {
    for u in [Unique::Off, Unique::Name, Unique::NameType] {
        let l = NvList::with_unique(u).unwrap();
        assert!(l.is_empty());
        assert!(l.iter().next().is_none());
        assert!(l.first().is_none());
    }
    assert!(NvList::new().unwrap().is_empty());
}

#[test]
fn lookup_after_insert() {
    let mut l = NvList::new().unwrap();
    7u64.insert("k", &mut l).unwrap();
    assert_eq!(l.lookup_uint64("k"), Ok(7));
    for tag in [
        NvType::Unknown,
        NvType::Boolean,
        NvType::BooleanValue,
        NvType::Byte,
        NvType::Int8,
        NvType::Uint8,
        NvType::Int16,
        NvType::Uint16,
        NvType::Int32,
        NvType::Uint32,
        NvType::Int64,
        NvType::String,
        NvType::NvList,
        NvType::Uint64Array,
        NvType::NvListArray,
    ] {
        assert_eq!(l.lookup_typed("k", tag).err(), Some(NvError::TypeMismatch));
    }
    assert_eq!(l.lookup_typed("other", NvType::Uint64).err(), Some(NvError::NotFound));
    assert_eq!(l.lookup("other").err(), Some(NvError::NotFound));
    assert!(!l.is_empty());
    assert_eq!(l.first().unwrap().name(), b"k");
}

#[test]
fn lookup_finds_the_first_of_a_name() {
    let mut l = NvList::new().unwrap();
    1u64.insert("k", &mut l).unwrap();
    2u64.insert("k", &mut l).unwrap();
    assert_eq!(l.lookup_uint64("k"), Ok(1));
    assert_eq!(names(&l).len(), 2);
}

#[test]
fn unique_names_replace() {
    let mut l = NvList::new_unqiue_names().unwrap();
    1u64.insert("a", &mut l).unwrap();
    2u64.insert("b", &mut l).unwrap();
    "text".insert("a", &mut l).unwrap();
    assert_eq!(names(&l), vec![b"b".to_vec(), b"a".to_vec()]);
    assert_eq!(l.lookup_string("a").unwrap(), b"text".to_vec());
}

#[test]
fn unique_name_types_replace_the_same_kind_only() {
    let mut l = NvList::with_unique(Unique::NameType).unwrap();
    1u64.insert("a", &mut l).unwrap();
    "text".insert("a", &mut l).unwrap();
    assert_eq!(names(&l).len(), 2);
    5u64.insert("a", &mut l).unwrap();
    assert_eq!(names(&l).len(), 2);
    assert_eq!(l.lookup_typed("a", NvType::String).err(), None);
    let mut it = l.iter();
    it.next();
    match it.next().unwrap().data() {
        NvData::Uint64(v) => assert_eq!(*v, 5),
        other => panic!("unexpected value {:?}", other),
    }
}

#[test]
fn names_with_terminators() {
    let mut l = NvList::new().unwrap();
    l.add_boolean("flag\0").unwrap();
    assert_eq!(l.first().unwrap().name(), b"flag");
    assert!(l.contains("flag"));
    assert_eq!(l.add_boolean("fl\0ag"), Err(NvError::InvalidName));
    assert_eq!(1u32.insert("a\0b", &mut l), Err(NvError::InvalidName));
    assert_eq!("x\0y".insert("s", &mut l), Err(NvError::InvalidName));
    assert_eq!(names(&l), vec![b"flag".to_vec()]);
    assert!(!l.contains("fl\0ag"));
    assert_eq!(l.lookup("fl\0ag").err(), Some(NvError::NotFound));
}

#[test]
fn copies_are_independent() {
    let mut a = sample();
    let mut b = a.try_clone().unwrap();
    9u32.insert("extra", &mut a).unwrap();
    assert!(!b.contains("extra"));
    assert_eq!(names(&b).len(), 3);
    1u8.insert("other", &mut b).unwrap();
    assert!(!a.contains("other"));
    let c = a.clone();
    assert_eq!(c, a);
    let d = a.try_to_owned().unwrap();
    assert_eq!(d, a);
    assert_ne!(a, b);
}

#[test]
fn nested_list_is_embedded_as_a_copy() {
    let mut inner = NvList::new().unwrap();
    1u64.insert("x", &mut inner).unwrap();
    let mut outer = NvList::new().unwrap();
    inner.insert("inner", &mut outer).unwrap();
    2u64.insert("y", &mut inner).unwrap();
    let got = outer.lookup_nvlist("inner").unwrap();
    assert!(got.contains("x"));
    assert!(!got.contains("y"));
    let p = outer.lookup("inner").unwrap();
    let view = p.data().as_list().unwrap();
    assert_eq!(view.lookup_uint64("x"), Ok(1));
    assert!(p.data().as_str().is_none());
}

#[test]
fn strings_as_text() {
    let mut l = NvList::new().unwrap();
    "disk0".insert("label", &mut l).unwrap();
    l.add("raw", NvData::Str(vec![0xff, 0xfe])).unwrap();
    let p = l.lookup("label").unwrap();
    assert_eq!(p.data().as_str(), Some(&b"disk0"[..]));
    assert_eq!(p.data().as_string(), Some(String::from("disk0")));
    assert!(p.data().as_list().is_none());
    let q = l.lookup("raw").unwrap();
    assert_eq!(q.data().as_string(), None);
    assert_eq!(NvData::Uint8(1).as_string(), None);
}

#[test]
fn arrays() {
    let mut l = NvList::new().unwrap();
    vec![1u64, 2, 3].insert("nums", &mut l).unwrap();
    let mut a = NvList::new().unwrap();
    a.add_boolean("a").unwrap();
    let b = NvList::new_unqiue_names().unwrap();
    vec![a, b].insert("lists", &mut l).unwrap();
    assert_eq!(l.lookup_uint64_array("nums"), Ok(vec![1, 2, 3]));
    let ls = l.lookup_nvlist_array("lists").unwrap();
    assert_eq!(ls.len(), 2);
    assert!(ls[0].contains("a"));
    assert!(ls[1].is_empty());
    assert_eq!(l.lookup_uint64_array("lists").err(), Some(NvError::TypeMismatch));
    assert_eq!(l.lookup_nvlist_array("nums").err(), Some(NvError::TypeMismatch));
    assert_eq!(l.lookup_nvlist("nums").err(), Some(NvError::TypeMismatch));
    assert_eq!(l.lookup_string("nums").err(), Some(NvError::TypeMismatch));
    assert_eq!(l.lookup_uint64_array("none").err(), Some(NvError::NotFound));
}

#[test]
fn equality_is_deep_and_minds_the_order() {
    let mut a = NvList::new().unwrap();
    1u32.insert("x", &mut a).unwrap();
    2u32.insert("y", &mut a).unwrap();
    let mut b = NvList::new().unwrap();
    2u32.insert("y", &mut b).unwrap();
    1u32.insert("x", &mut b).unwrap();
    assert_ne!(a, b);
    let mut c = NvList::new_unqiue_names().unwrap();
    1u32.insert("x", &mut c).unwrap();
    2u32.insert("y", &mut c).unwrap();
    assert_ne!(a, c);
    let mut inner = NvList::new().unwrap();
    1u64.insert("deep", &mut inner).unwrap();
    let mut p = NvList::new().unwrap();
    inner.insert("in", &mut p).unwrap();
    let mut q = NvList::new().unwrap();
    inner.insert("in", &mut q).unwrap();
    assert_eq!(p, q);
    2u64.insert("deep", &mut inner).unwrap();
    let mut r = NvList::new().unwrap();
    inner.insert("in", &mut r).unwrap();
    assert_ne!(p, r);
    let mut s = NvList::new().unwrap();
    1i32.insert("x", &mut s).unwrap();
    let mut t = NvList::new().unwrap();
    1u32.insert("x", &mut t).unwrap();
    assert_ne!(s, t);
}

#[test]
fn a_string_with_a_terminator_is_refused() {
    let mut l = NvList::new().unwrap();
    1u8.insert("a", &mut l).unwrap();
    assert_eq!(l.add("s", NvData::Str(vec![b'x', 0, b'y'])), Err(NvError::InvalidName));
    assert_eq!(l.add("s", NvData::Str(vec![b'x', 0])), Err(NvError::InvalidName));
    assert_eq!(names(&l), vec![b"a".to_vec()]);
    "x\0".insert("s", &mut l).unwrap();
    assert_eq!(l.lookup_string("s").unwrap(), b"x".to_vec());
}
