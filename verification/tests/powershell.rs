use terminal::powershell::{PowerShellCompatibility, RESIZE_INPUT_DELAY};

#[test]
fn resize_pauses_expire_and_interleaved_input_has_a_fixed_wait_limit() {
    let now: u64 = 1_000;
    let mut compatibility = PowerShellCompatibility::default();
    compatibility.set_enabled(true);
    let limit = compatibility.input_limit(now);
    assert_eq!(compatibility.deadline(limit), None);
    compatibility.resized(now);
    assert_eq!(compatibility.deadline(limit), Some(now + RESIZE_INPUT_DELAY));
    let later = now + 240;
    compatibility.resized(later);
    assert_eq!(compatibility.deadline(limit), Some(now + 250));
    compatibility.set_enabled(false);
    assert_eq!(compatibility.deadline(limit), None);
    assert_eq!(compatibility.input_limit(now), None);
    compatibility.set_enabled(true);
    assert_eq!(compatibility.deadline(limit), None);
}

#[test]
fn expired_resize_pause_still_wakes_the_loop() {
    let mut compatibility = PowerShellCompatibility::default();
    compatibility.set_enabled(true);
    compatibility.resized(0);
    let limit = compatibility.input_limit(0);
    assert_eq!(compatibility.timeout(limit, 30), Some(50));
    assert_eq!(compatibility.timeout(limit, 500), Some(0));
    compatibility.clear_resize();
    assert_eq!(compatibility.timeout(limit, 30), None);
}
