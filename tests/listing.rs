use course_planner::listing::{collect_listing, data_formating, parse_course_listing, split_lines};
use course_planner::section::Course;
use course_planner::time::{Weekday, WeeklyInterval};

fn meeting(day: Weekday, start: u32, end: u32) -> WeeklyInterval {
    WeeklyInterval { day, start, end }
}

#[test]
fn reads_an_open_section() {
    let text = "\n  Open \n( 8232 ) - - LEC\n( 8810 ) -T01 - TUT\nMonday\n2:30pm to 4:15pm\nTuesday Thursday\n  3:30pm to 4:15pm\nProfessor Lauren PICK\nRoom 101";
    let mut found: Vec<Course> = Vec::new();
    assert!(data_formating("CSCI3180", text, &mut found));
    assert_eq!(found.len(), 1);
    let c = &found[0];
    assert_eq!(c.course_name, "CSCI3180");
    assert_eq!(c.class_code, "( 8232 ) - - LEC");
    assert_eq!(c.tutorial_code, "( 8810 ) -T01 - TUT");
    assert_eq!(c.lab_code, "");
    assert_eq!(c.instructor, "Professor Lauren PICK");
    assert_eq!(
        c.datetime,
        vec![
            meeting(Weekday::Monday, 14 * 60 + 30, 16 * 60 + 15),
            meeting(Weekday::Tuesday, 15 * 60 + 30, 16 * 60 + 15),
            meeting(Weekday::Thursday, 15 * 60 + 30, 16 * 60 + 15),
        ]
    );
}

#[test]
fn closed_section_is_skipped() {
    let text = "\nClosed\n( 8232 ) - - LEC\nMonday\n2:30pm to 4:15pm\nDr. A";
    let mut found: Vec<Course> = Vec::new();
    assert!(!data_formating("CSCI3180", text, &mut found));
    assert!(found.is_empty());
}

#[test]
fn incomplete_section_adds_nothing() {
    // no lecture code: the section never completes
    let text = "\nOpen\n( 8810 ) -T01 - TUT\nMonday\n2:30pm to 4:15pm\nDr. A";
    let mut found: Vec<Course> = Vec::new();
    assert!(data_formating("CSCI3180", text, &mut found));
    assert!(found.is_empty());
}

#[test]
fn unreadable_time_is_ignored() {
    let text = "\nOpen\n( 1 ) - - LEC\nMonday\nsoon\nFriday\n9:00am to 8:00am\nWednesday\n9:00am to 10:00am\nMs. B";
    let mut found: Vec<Course> = Vec::new();
    assert!(data_formating("X", text, &mut found));
    assert_eq!(found.len(), 1);
    assert_eq!(found[0].datetime, vec![meeting(Weekday::Wednesday, 540, 600)]);
    assert_eq!(found[0].instructor, "Ms. B");
}

#[test]
fn repeated_meeting_kept_once() {
    let text = "\nOpen\n( 1 ) - - LEC\nMonday\n9:00am to 10:00am\nMonday\n9:00am to 10:00am\nLAB ( 7 )\nDr. C";
    let mut found: Vec<Course> = Vec::new();
    assert!(data_formating("X", text, &mut found));
    assert_eq!(found[0].datetime, vec![meeting(Weekday::Monday, 540, 600)]);
    assert_eq!(found[0].lab_code, "LAB ( 7 )");
}

#[test]
fn listing_collects_open_sections() {
    let text = "1\nOpen\n( 8232 ) - - LEC\nMonday\n2:30pm to 4:15pm\nProfessor Lauren PICK\n2\nClosed\n( 8233 ) - - LEC\nTuesday\n9:30am to 10:15am\nDr. B\n3\nOpen\n( 8234 ) - - LEC\nWednesday\n4:30pm to 5:15pm\nDr. C\n";
    let sections = parse_course_listing("CSCI3180", text).unwrap();
    let codes: Vec<&str> = sections.iter().map(|c| c.class_code.as_str()).collect();
    assert_eq!(codes, vec!["( 8232 ) - - LEC", "( 8234 ) - - LEC"]);
    assert_eq!(sections[1].datetime, vec![meeting(Weekday::Wednesday, 16 * 60 + 30, 17 * 60 + 15)]);
}

#[test]
fn empty_listing_gives_nothing() {
    assert!(parse_course_listing("CSCI3180", "  \n ").is_none());
}

#[test]
fn pieces_all_closed_give_nothing() {
    let pieces = vec![Some("\nClosed\n( 1 ) - - LEC".to_string()), None];
    assert!(collect_listing("X", &pieces).is_none());
    let pieces = vec![None, Some("\nOpen\n( 1 ) - - LEC".to_string())];
    assert_eq!(collect_listing("X", &pieces).unwrap().len(), 0);
}

#[test]
fn lines_are_cut_as_std_cuts_them() {
    for text in ["", "a", "a\n", "a\nb", "a\r\nb\r\n", "\n", "\n\n", "a\n\nb", "a\r", "a\rb\n", " x \r\n y"] {
        let expected: Vec<String> = text.lines().map(String::from).collect();
        assert_eq!(split_lines(text), expected, "text {:?}", text);
    }
}
