use samply_core::profile_order::thread_identity_order;
use std::cmp::Ordering;

#[test]
fn unnamed_threads_come_first() {
    assert_eq!(thread_identity_order(None, 9, Some("a"), 1), Ordering::Less);
    assert_eq!(thread_identity_order(Some("a"), 1, None, 9), Ordering::Greater);
}

#[test]
fn threads_are_ordered_by_name_then_tid() {
    assert_eq!(thread_identity_order(Some("main"), 5, Some("worker"), 1), Ordering::Less);
    assert_eq!(thread_identity_order(Some("work"), 5, Some("worker"), 1), Ordering::Less);
    assert_eq!(thread_identity_order(Some("Zed"), 5, Some("abc"), 1), Ordering::Less);
    assert_eq!(thread_identity_order(Some("é"), 1, Some("z"), 1), Ordering::Greater);
    assert_eq!(thread_identity_order(Some("w"), 2, Some("w"), 3), Ordering::Less);
    assert_eq!(thread_identity_order(Some("w"), 3, Some("w"), 3), Ordering::Equal);
    assert_eq!(thread_identity_order(None, 4, None, 3), Ordering::Greater);
}

#[test]
fn name_order_agrees_with_str_order() {
    let names = ["", "a", "ab", "b", "Ä", "ä", "日本", "z"];
    for x in names {
        for y in names {
            assert_eq!(thread_identity_order(Some(x), 1, Some(y), 1), x.cmp(y));
        }
    }
}
