use samply_core::file_read_stats::FileReadStats;

#[test]
fn reads_are_counted_by_chunk() {
    let mut stats = FileReadStats::new(100_000);
    assert_eq!(stats.unique_bytes_read(), 0);

    stats.record_read(0, 10);
    assert_eq!(stats.bytes_read(), 32768);
    assert_eq!(stats.read_call_count(), 1);

    // A read within chunks that were all read before adds nothing.
    stats.record_read(5, 10);
    assert_eq!(stats.bytes_read(), 32768);
    assert_eq!(stats.read_call_count(), 1);

    // A read whose first chunk was read counts from its offset on.
    stats.record_read(32760, 20);
    assert_eq!(stats.bytes_read(), 32768 + (2 * 32768 - 32760));
    assert_eq!(stats.read_call_count(), 2);
    assert_eq!(stats.unique_bytes_read(), 2 * 32768);

    // A read whose first chunk was not read counts whole chunks.
    stats.record_read(3 * 32768 + 1, 5);
    assert_eq!(stats.bytes_read(), 32768 + (2 * 32768 - 32760) + 32768);
    assert_eq!(stats.read_call_count(), 3);
    assert_eq!(stats.unique_bytes_read(), 3 * 32768);

    // Empty reads change nothing.
    stats.record_read(70_000, 0);
    assert_eq!(stats.read_call_count(), 3);
}
