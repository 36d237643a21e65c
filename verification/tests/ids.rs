use bz_downloader::bz_task::id::u64_to_string;
use bz_downloader::bz_task::{BzTaskId, TaskIdGen};

#[test]
fn unique_ids_are_strictly_increasing_and_never_repeat() {
    let mut ids = TaskIdGen::new();
    let mut seen: Vec<BzTaskId> = Vec::new();
    for _ in 0..100 {
        let id = BzTaskId::unique(&mut ids);
        for old in &seen {
            assert!(old.0 < id.0);
            assert_ne!(*old, id);
        }
        seen.push(id);
    }
}

#[test]
fn the_first_id_is_one() {
    let mut ids = TaskIdGen::new();
    assert_eq!(BzTaskId::unique(&mut ids), BzTaskId(1));
    assert_eq!(BzTaskId::unique(&mut ids), BzTaskId(2));
}

#[test]
fn ids_and_numbers_render_as_decimal_text() {
    assert_eq!(u64_to_string(0), "0");
    assert_eq!(u64_to_string(7), "7");
    assert_eq!(u64_to_string(1234567890), "1234567890");
    assert_eq!(u64_to_string(u64::MAX), "18446744073709551615");
    assert_eq!(BzTaskId(42).describe(), "42");
}
