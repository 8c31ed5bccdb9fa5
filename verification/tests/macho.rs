use samply_core::error::GetSymbolsError;
use samply_core::macho::{
    function_starts_from_data, get_arch_range, ArchReading, match_funs_to_addresses, read_uleb128, AddressPair, AddressWithOffset, FunctionsWithAddresses,
    ObjectMapEntry,
};

#[test]
fn uleb128_reads() {
    let (v, rest) = read_uleb128(&[0xe5, 0x8e, 0x26, 0x01]).unwrap();
    assert_eq!(v, 624485);
    assert_eq!(rest, &[0x01]);
    let (v, rest) = read_uleb128(&[0x7f]).unwrap();
    assert_eq!(v, 127);
    assert!(rest.is_empty());
    assert!(read_uleb128(&[]).is_none());
    assert!(read_uleb128(&[0x80, 0x80]).is_none());
}

#[test]
fn function_starts_are_running_sums_until_zero() {
    // deltas 0x1000, 0x10, 0x200 (ULEB128), then a terminating zero
    let data = [0x80, 0x20, 0x10, 0x80, 0x04, 0x00, 0x05];
    assert_eq!(function_starts_from_data(&data), vec![0x1000, 0x1010, 0x1210]);
    assert!(function_starts_from_data(&[]).is_empty());
    assert!(function_starts_from_data(&[0x00, 0x10]).is_empty());
}

#[test]
fn functions_with_addresses_hand_out_each_function_once() {
    let mut f = FunctionsWithAddresses::new();
    f.insert(b"_foo", vec![AddressWithOffset { original_relative_address: 0x10, offset_from_function_start: 4 }]);
    f.insert(b"_bar", vec![]);
    f.insert(b"_foo", vec![AddressWithOffset { original_relative_address: 0x20, offset_from_function_start: 8 }]);
    let foo = f.get_and_remove_addresses_for_function("_foo").unwrap();
    assert_eq!(foo.len(), 1);
    assert_eq!(foo[0].original_relative_address, 0x20);
    assert!(f.get_and_remove_addresses_for_function("_foo").is_none());
    assert!(f.get_and_remove_addresses_for_function("_bar").unwrap().is_empty());
    assert!(f.get_and_remove_addresses_for_function("_baz").is_none());
}

fn fun(address: u64, size: u64, name: &str, object_index: usize) -> ObjectMapEntry {
    ObjectMapEntry { address, size, name: name.as_bytes().to_vec(), object_index }
}

fn pair(original_relative_address: u32, vmaddr_in_this_object: u64) -> AddressPair {
    AddressPair { original_relative_address, vmaddr_in_this_object }
}

#[test]
fn addresses_are_matched_to_the_functions_they_fall_in() {
    let funs = vec![fun(0x100, 0x10, "a", 0), fun(0x200, 0x20, "b", 1), fun(0x300, 0x10, "c", 0)];
    let addresses = vec![pair(1, 0x50), pair(2, 0x105), pair(3, 0x10f), pair(4, 0x150), pair(5, 0x210), pair(6, 0x400)];
    let (mut by_object, internal) = match_funs_to_addresses(&funs, &addresses);
    let internal: Vec<u32> = internal.iter().map(|p| p.original_relative_address).collect();
    assert_eq!(internal, vec![1, 4, 6]);
    assert_eq!(by_object.len(), 2);
    let object0 = by_object.get_mut(&0).unwrap();
    let a = object0.get_and_remove_addresses_for_function("a").unwrap();
    let a: Vec<(u32, u32)> = a.iter().map(|x| (x.original_relative_address, x.offset_from_function_start)).collect();
    assert_eq!(a, vec![(2, 5), (3, 0xf)]);
    assert!(object0.get_and_remove_addresses_for_function("c").is_none());
    let object1 = by_object.get_mut(&1).unwrap();
    let b = object1.get_and_remove_addresses_for_function("b").unwrap();
    assert_eq!(b.len(), 1);
    assert_eq!(b[0].original_relative_address, 5);
    assert_eq!(b[0].offset_from_function_start, 0x10);
}

#[test]
fn no_functions_leaves_every_address_outside() {
    let addresses = vec![pair(1, 0x50), pair(2, 0x60)];
    let (by_object, internal) = match_funs_to_addresses(&[], &addresses);
    assert!(by_object.is_empty());
    assert_eq!(internal.len(), 2);
}

#[test]
fn arch_range_picks_the_first_match() {
    let arches = vec![
        ((0x1000, 0x200), ArchReading::WithDebugId("AAAA0".to_string())),
        ((0x2000, 0x300), ArchReading::NoUuid),
        ((0x4000, 0x400), ArchReading::WithDebugId("BBBB0".to_string())),
        ((0x8000, 0x500), ArchReading::Unparsable("bad header".to_string())),
    ];
    assert_eq!(get_arch_range(&arches, "BBBB0").unwrap(), (0x4000, 0x400));
    assert_eq!(get_arch_range(&arches[..1], "AAAA0").unwrap(), (0x1000, 0x200));
}

#[test]
fn arch_range_stops_at_an_unparsable_header() {
    let arches = vec![
        ((0x1000, 0x200), ArchReading::Unparsable("bad header".to_string())),
        ((0x4000, 0x400), ArchReading::WithDebugId("BBBB0".to_string())),
    ];
    match get_arch_range(&arches, "BBBB0") {
        Err(GetSymbolsError::MachOHeaderParseError(m)) => assert_eq!(m, "bad header"),
        _ => panic!("expected a header parse error"),
    }
}

#[test]
fn arch_range_without_match_lists_what_was_found() {
    let arches = vec![
        ((0x1000, 0x200), ArchReading::WithDebugId("AAAA0".to_string())),
        ((0x2000, 0x300), ArchReading::NoUuid),
        ((0x4000, 0x400), ArchReading::WithDebugId("BBBB0".to_string())),
    ];
    match get_arch_range(&arches, "CCCC0") {
        Err(GetSymbolsError::NoMatchMultiArch(ids, errs)) => {
            assert_eq!(ids, vec!["AAAA0".to_string(), "BBBB0".to_string()]);
            assert_eq!(errs, vec!["Invalid input: Missing mach-O UUID".to_string()]);
        }
        _ => panic!("expected no match"),
    }
    match get_arch_range(&[], "CCCC0") {
        Err(GetSymbolsError::NoMatchMultiArch(ids, errs)) => assert!(ids.is_empty() && errs.is_empty()),
        _ => panic!("expected no match"),
    }
}

#[test]
fn uleb128_round_trips_at_group_boundaries() {
    for (bytes, v) in [
        (vec![0x00u8], 0u64),
        (vec![0x7f], 0x7f),
        (vec![0x80, 0x01], 0x80),
        (vec![0xff, 0x7f], 0x3fff),
        (vec![0x80, 0x80, 0x01], 0x4000),
        (vec![0xff, 0xff, 0xff, 0xff, 0xff, 0xff, 0xff, 0xff, 0xff, 0x01], u64::MAX),
    ] {
        let mut with_rest = bytes.clone();
        with_rest.push(0xaa);
        let (value, rest) = read_uleb128(&with_rest).unwrap();
        assert_eq!(value, v);
        assert_eq!(rest, &[0xaa]);
    }
}
