use samply_core::proc_maps::{diff_sorted_slices, get_arch_string, Modification, CPU_TYPE_ARM64, CPU_TYPE_X86_64};

#[test]
fn arch_strings() {
    assert_eq!(get_arch_string(CPU_TYPE_X86_64, 3), Some("x86_64"));
    assert_eq!(get_arch_string(CPU_TYPE_X86_64, 8), Some("x86_64h"));
    assert_eq!(get_arch_string(CPU_TYPE_ARM64, 0), Some("arm64"));
    // The capability bits are ignored.
    assert_eq!(get_arch_string(CPU_TYPE_ARM64, 0x8000_0002), Some("arm64e"));
    assert_eq!(get_arch_string(7, 3), None);
    assert_eq!(get_arch_string(CPU_TYPE_ARM64, 5), None);
}

fn describe(m: &[Modification<(u32, char)>]) -> Vec<String> {
    m.iter()
        .map(|m| match m {
            Modification::Added(x) => format!("+{}{}", x.0, x.1),
            Modification::Removed(x) => format!("-{}{}", x.0, x.1),
        })
        .collect()
}

#[test]
fn diff_of_sorted_lists() {
    let left = [(1, 'a'), (2, 'b'), (4, 'd'), (5, 'e')];
    let right = [(2, 'b'), (3, 'c'), (4, 'x'), (6, 'f')];
    let diff = diff_sorted_slices(&left, &right, |a, b| a.0.cmp(&b.0));
    assert_eq!(describe(&diff), vec!["-1a", "+3c", "-4d", "+4x", "-5e", "+6f"]);
    let same = diff_sorted_slices(&left, &left, |a, b| a.0.cmp(&b.0));
    assert!(same.is_empty());
    let from_empty = diff_sorted_slices(&[], &right, |a: &(u32, char), b: &(u32, char)| a.0.cmp(&b.0));
    assert_eq!(describe(&from_empty), vec!["+2b", "+3c", "+4x", "+6f"]);
}
