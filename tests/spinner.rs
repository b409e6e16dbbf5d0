use course_planner::spinner::Spinner;

#[test]
fn frames_cycle() {
    let s = Spinner::new("Working".to_string(), vec!['a', 'b', 'c'], 100);
    assert_eq!(s.frame_at(0), Some('a'));
    assert_eq!(s.frame_at(2), Some('c'));
    assert_eq!(s.frame_at(3), Some('a'));
    assert_eq!(s.frame_at(7), Some('b'));
    assert_eq!(s.delay(), 100);
    assert_eq!(s.message(), "Working");
}

#[test]
fn no_frames() {
    let s = Spinner::new("x".to_string(), vec![], 5);
    assert_eq!(s.frame_at(4), None);
}

#[test]
fn stop_is_seen() {
    let s = Spinner::new("Wait".to_string(), vec!['|'], 10);
    assert!(!s.is_stopped());
    s.stop();
    assert!(s.is_stopped());
}

#[test]
fn blank_line_covers_message_and_frame() {
    let s = Spinner::new("Wait".to_string(), vec!['|'], 10);
    assert_eq!(s.blank_line(), "      ");
    let s = Spinner::new("".to_string(), vec!['|'], 10);
    assert_eq!(s.blank_line(), "  ");
}
