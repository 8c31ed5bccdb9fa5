use samply_core::stackwalk::FramePointerWalk;
use std::collections::HashMap;

fn walk(rip: u64, rbp: u64, memory: &HashMap<u64, u64>) -> Vec<u64> {
    let mut w = FramePointerWalk::new(rip, rbp);
    while let Some(address) = w.next_read() {
        w.provide(memory.get(&address).copied());
    }
    w.into_frames()
}

#[test]
fn walks_the_frame_chain_outermost_first() {
    let mut memory = HashMap::new();
    // frame at 0x1000: caller frame 0x1040, return address 0xaaa
    memory.insert(0x1000, 0x1040);
    memory.insert(0x1008, 0xaaa);
    // frame at 0x1040: caller frame 0x1100, return address 0xbbb
    memory.insert(0x1040, 0x1100);
    memory.insert(0x1048, 0xbbb);
    // frame at 0x1100: null caller ends the chain after its return address
    memory.insert(0x1100, 0x2000);
    memory.insert(0x1108, 0xccc);
    // 0x2000 cannot be read
    assert_eq!(walk(0x999, 0x1000, &memory), vec![0xccc, 0xbbb, 0xaaa, 0x999]);
}

#[test]
fn stops_where_the_caller_frame_is_not_higher() {
    let mut memory = HashMap::new();
    memory.insert(0x1000, 0x1040);
    memory.insert(0x1008, 0xaaa);
    memory.insert(0x1040, 0x1040); // points at itself
    memory.insert(0x1048, 0xbbb);
    assert_eq!(walk(0x999, 0x1000, &memory), vec![0xaaa, 0x999]);
}

#[test]
fn stops_at_null_or_misaligned_frame_pointers() {
    let memory = HashMap::new();
    assert_eq!(walk(0x999, 0, &memory), vec![0x999]);
    assert_eq!(walk(0x999, 0x1004, &memory), vec![0x999]);
    let mut memory = HashMap::new();
    memory.insert(0x1000, 0x1044); // misaligned caller
    memory.insert(0x1008, 0xaaa);
    assert_eq!(walk(0x999, 0x1000, &memory), vec![0xaaa, 0x999]);
}

#[test]
fn stops_where_the_return_address_cannot_be_read() {
    let mut memory = HashMap::new();
    memory.insert(0x1000, 0x1040);
    assert_eq!(walk(0x999, 0x1000, &memory), vec![0x999]);
}
