use samply_core::gecko_profile::{
    breakpad_id_from_uuid_bytes, libs_in_address_order, FrameTable, Lib, ProfileBuilder, StackTable, StringTable, ThreadBuilder,
};
use std::time::{Duration, Instant};
use uuid::Uuid;

#[test]
fn string_table_interns_strings() {
    let mut t = StringTable::new();
    assert_eq!(t.index_for_string("a"), 0);
    assert_eq!(t.index_for_string("b"), 1);
    assert_eq!(t.index_for_string("a"), 0);
    assert_eq!(t.strings(), &vec!["a".to_string(), "b".to_string()]);
}

#[test]
fn frame_table_interns_addresses_with_their_hex_label() {
    let mut strings = StringTable::new();
    let mut frames = FrameTable::new();
    assert_eq!(frames.index_for_frame(&mut strings, 0x1a2b), 0);
    assert_eq!(frames.index_for_frame(&mut strings, 0x10), 1);
    assert_eq!(frames.index_for_frame(&mut strings, 0x1a2b), 0);
    assert_eq!(frames.frames(), &vec![0, 1]);
    assert_eq!(strings.strings(), &vec!["0x1a2b".to_string(), "0x10".to_string()]);
}

#[test]
fn stack_table_shares_prefixes() {
    let mut stacks = StackTable::new();
    assert_eq!(stacks.index_for_frames(&[]), None);
    assert_eq!(stacks.index_for_frames(&[5, 7]), Some(1));
    assert_eq!(stacks.index_for_frames(&[5]), Some(0));
    assert_eq!(stacks.index_for_frames(&[5, 8]), Some(2));
    assert_eq!(stacks.index_for_frames(&[5, 7]), Some(1));
    assert_eq!(stacks.stacks(), &vec![(None, 5), (Some(0), 7), (Some(0), 8)]);
}

#[test]
fn thread_builder_records_samples() {
    let start = Instant::now();
    let mut thread = ThreadBuilder::new(42, 3, start, true, false);
    assert_eq!(thread.get_tid(), 3);
    assert_eq!(thread.get_start_time(), start);
    assert_eq!(thread.get_name(), None);
    thread.set_name("main");
    assert_eq!(thread.get_name(), Some("main"));

    let stack = thread.add_sample(start, &[0x100, 0x200], Duration::from_micros(7));
    assert!(stack.is_some());
    let same = thread.add_sample(start, &[0x100, 0x200], Duration::from_micros(0));
    assert_eq!(stack, same);
    thread.add_sample_same_stack(start, stack, Duration::from_micros(1));
    let empty = thread.add_sample(start, &[], Duration::from_micros(0));
    assert_eq!(empty, None);
    assert_eq!(thread.samples().len(), 4);
    assert_eq!(thread.samples()[0].cpu_delta_us, 7);
    assert_eq!(thread.samples()[2].stack_index, stack);
    assert_eq!(thread.frame_table().frames().len(), 2);
    assert_eq!(thread.string_table().strings().len(), 2);

    assert_eq!(thread.end_time(), None);
    thread.notify_dead(start);
    assert_eq!(thread.end_time(), Some(start));
    assert!(thread.is_main());
    assert!(!thread.is_libdispatch_thread());
    assert_eq!(thread.pid(), 42);
}

#[test]
fn breakpad_ids_are_uppercase_hex_with_appendix() {
    let bytes: Vec<u8> = (0u8..16).map(|b| b * 17).collect();
    assert_eq!(breakpad_id_from_uuid_bytes(&bytes), "00112233445566778899AABBCCDDEEFF0");
}

#[test]
fn profile_builder_collects_libs_threads_and_subprocesses() {
    let start = Instant::now();
    let mut profile = ProfileBuilder::new(start, "cmd", 7, Duration::from_millis(1));
    assert_eq!(profile.pid(), 7);
    assert_eq!(profile.command_name(), "cmd");
    assert_eq!(profile.interval(), Duration::from_millis(1));
    assert_eq!(profile.end_time(), None);

    let uuid = Uuid::from_bytes([0xab; 16]);
    profile.add_lib("libfoo.dylib", "/usr/lib/libfoo.dylib", &uuid, "x86_64", &(0x1000..0x2000));
    assert_eq!(profile.libs().len(), 1);
    assert_eq!(profile.libs()[0].breakpad_id, "ABABABABABABABABABABABABABABABAB0");
    assert_eq!(profile.libs()[0].start_address, 0x1000);
    assert_eq!(profile.libs()[0].end_address, 0x2000);

    profile.add_thread(ThreadBuilder::new(7, 1, start, true, false));
    profile.add_thread(ThreadBuilder::new(7, 2, start, false, false));
    profile.add_thread(ThreadBuilder::new(7, 1, start, false, true));
    assert_eq!(profile.threads().len(), 2);
    assert!(profile.threads()[&1].is_libdispatch_thread());

    profile.add_subprocess(ProfileBuilder::new(start, "child", 8, Duration::from_millis(1)));
    assert_eq!(profile.subprocesses().len(), 1);
    profile.set_end_time(start);
    assert_eq!(profile.end_time(), Some(start));
}

#[test]
fn thread_display_names() {
    let start = Instant::now();
    let mut main = ThreadBuilder::new(1, 0, start, true, true);
    main.set_name("named");
    assert_eq!(main.display_name(), "GeckoMain");
    let mut named = ThreadBuilder::new(1, 5, start, false, true);
    named.set_name("worker");
    assert_eq!(named.display_name(), "worker");
    assert_eq!(ThreadBuilder::new(1, 6, start, false, true).display_name(), "libdispatch");
    assert_eq!(ThreadBuilder::new(1, 1234, start, false, false).display_name(), "Thread <1234>");
    assert_eq!(ThreadBuilder::new(1, 0, start, false, false).display_name(), "Thread <0>");
}

#[test]
fn stack_table_creates_only_missing_stacks() {
    let mut t = StackTable::new();
    assert_eq!(t.index_for_frames(&[7, 8]), Some(1));
    assert_eq!(t.index_for_frames(&[7, 9]), Some(2));
    assert_eq!(t.index_for_frames(&[7]), Some(0));
    assert_eq!(t.index_for_frames(&[7, 8]), Some(1));
    assert_eq!(t.index_for_frames(&[]), None);
    assert_eq!(t.stacks().len(), 3);
}

#[test]
fn thread_first_sample_gets_stack_zero_and_equal_frames_reuse_it() {
    let start = Instant::now();
    let mut thread = ThreadBuilder::new(1, 2, start, false, false);
    assert_eq!(thread.add_sample(start, &[0x40], Duration::from_micros(3)), Some(0));
    assert_eq!(thread.add_sample(start, &[0x40, 0x50], Duration::from_micros(3)), Some(1));
    assert_eq!(thread.add_sample(start, &[0x40], Duration::from_micros(3)), Some(0));
    assert_eq!(thread.add_sample(start, &[0x40, 0x50], Duration::from_micros(3)), Some(1));
    thread.add_sample_same_stack(start, Some(17), Duration::from_micros(2));
    assert_eq!(thread.samples()[4].stack_index, Some(17));
    assert_eq!(thread.samples()[4].cpu_delta_us, 2);
}

fn lib_at(name: &str, start_address: u64) -> Lib {
    Lib {
        name: name.to_string(),
        path: format!("/usr/lib/{}", name),
        arch: "x86_64",
        breakpad_id: "000000000000000000000000000000000".to_string(),
        start_address,
        end_address: start_address + 0x1000,
    }
}

#[test]
fn libs_are_listed_by_start_address_keeping_ties_in_order() {
    let libs = vec![lib_at("c", 0x3000), lib_at("a", 0x1000), lib_at("b", 0x3000), lib_at("d", 0x2000)];
    assert_eq!(libs_in_address_order(&libs), vec![1, 3, 0, 2]);
    assert_eq!(libs_in_address_order(&Vec::new()), Vec::<usize>::new());
}

#[test]
fn stack_of_frames_is_prefix_stack_then_last_frame() {
    let mut t = StackTable::new();
    let whole = t.index_for_frames(&[7, 8, 9]).unwrap();
    let prefix = t.index_for_frames(&[7, 8]).unwrap();
    let first = t.index_for_frames(&[7]).unwrap();
    assert_eq!(t.stacks()[whole], (Some(prefix), 9));
    assert_eq!(t.stacks()[prefix], (Some(first), 8));
    assert_eq!(t.stacks()[first], (None, 7));
    assert_eq!(t.stacks().len(), 3);
}
