use code_render::bot::{after_insert, ephemeral_cutoff, largest_photo, InsertStep, MAX_INSERT_ATTEMPTS};

#[test]
fn insert_retries_until_limit() {
    assert_eq!(after_insert(0, false), InsertStep::Done);
    assert_eq!(after_insert(0, true), InsertStep::Retry(1));
    assert_eq!(after_insert(99, true), InsertStep::Retry(100));
    assert_eq!(after_insert(MAX_INSERT_ATTEMPTS, true), InsertStep::GiveUp);
    assert_eq!(after_insert(MAX_INSERT_ATTEMPTS, false), InsertStep::Done);
}

#[test]
fn largest_photo_compares_width_then_height() {
    assert_eq!(largest_photo(&vec![(90, 20)]), 0);
    assert_eq!(largest_photo(&vec![(90, 20), (320, 70), (320, 71), (100, 900)]), 2);
    assert_eq!(largest_photo(&vec![(5, 5), (5, 5)]), 0);
}

#[test]
fn cutoff_is_thirty_minutes_back() {
    assert_eq!(ephemeral_cutoff(1_700_000_000), 1_699_998_200);
    assert_eq!(ephemeral_cutoff(i64::MIN + 5), i64::MIN);
}
