use native_lbb::last_error::{clear_last_error, set_last_error, ErrorSlot};

#[test]
fn last_write_wins_and_success_clears() {
    let mut slot = ErrorSlot::new();
    assert_eq!(slot.last_error(), "");
    set_last_error(&mut slot, "first".to_string());
    set_last_error(&mut slot, "second".to_string());
    assert_eq!(slot.last_error(), "second");
    clear_last_error(&mut slot);
    assert_eq!(slot.last_error(), "");
}
