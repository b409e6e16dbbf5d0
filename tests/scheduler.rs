use course_planner::catalog::Catalog;
use course_planner::conflict::available;
use course_planner::fitness::{cal_fitness_score, day_timeline};
use course_planner::present::{
    find_timetable_index, grid_drawable, reduce_course_set_to_course_and_choice_vec, reduce_course_set_to_timetable_string,
};
use course_planner::scheduler::Scheduler;
use course_planner::section::{same_selection, Course};
use course_planner::time::{clock_string, Weekday, WeeklyInterval};
use course_planner::time::Weekday::{Friday, Monday, Thursday, Tuesday, Wednesday};

fn hm(h: u32, m: u32) -> u32 {
    h * 60 + m
}

fn iv(day: Weekday, sh: u32, sm: u32, eh: u32, em: u32) -> WeeklyInterval {
    WeeklyInterval::new(day, hm(sh, sm), hm(eh, em)).unwrap()
}

fn section(name: &str, times: Vec<WeeklyInterval>, instructor: &str, class: &str, tutorial: &str, lab: &str) -> Course {
    Course::create_course_time(
        name.to_string(),
        times,
        instructor.to_string(),
        class.to_string(),
        tutorial.to_string(),
        lab.to_string(),
    )
}

fn names_of(v: &Vec<Course>) -> Vec<String> {
    let mut r: Vec<String> = v.iter().map(|c| c.class_code.clone()).collect();
    r.sort();
    r
}

#[test]
fn test_backtracking_schedulling_algorithm() {
    let prof = "Professor Lauren Marcelyn PICK";
    let lam = "Dr. LAM Tak Kei";
    let mut catalog = Catalog::new();
    assert!(catalog.insert(
        "CSCI3180".to_string(),
        vec![
            section(
                "CSCI3180",
                vec![iv(Monday, 14, 30, 16, 15), iv(Tuesday, 15, 30, 16, 15), iv(Tuesday, 17, 30, 18, 15)],
                prof,
                "( 8232 ) - - LEC",
                "( 8810 ) -T01 - TUT",
                "",
            ),
            section(
                "CSCI3180",
                vec![iv(Tuesday, 15, 30, 16, 15), iv(Thursday, 12, 30, 13, 15), iv(Monday, 14, 30, 16, 15)],
                prof,
                "( 8232 ) - - LEC",
                "( 8188 ) -T03 - TUT",
                "",
            ),
            section(
                "CSCI3180",
                vec![iv(Wednesday, 16, 30, 17, 15), iv(Monday, 14, 30, 16, 15), iv(Tuesday, 15, 30, 16, 15)],
                prof,
                "( 8232 ) - - LEC",
                "( 8885 ) -T02 - TUT",
                "",
            ),
        ],
    ));
    assert!(catalog.insert(
        "CSCI3100".to_string(),
        vec![
            section(
                "CSCI3100",
                vec![iv(Tuesday, 12, 30, 14, 15), iv(Monday, 11, 30, 12, 15), iv(Monday, 16, 30, 17, 15)],
                lam,
                "( 8249 ) - - LEC",
                "( 8853 ) -T01 - TUT",
                "",
            ),
            section(
                "CSCI3100",
                vec![iv(Tuesday, 12, 30, 14, 15), iv(Monday, 11, 30, 12, 15), iv(Wednesday, 17, 30, 18, 15)],
                lam,
                "( 8249 ) - - LEC",
                "( 8208 ) -T03 - TUT",
                "",
            ),
            section(
                "CSCI3100",
                vec![iv(Tuesday, 12, 30, 14, 15), iv(Monday, 11, 30, 12, 15), iv(Monday, 17, 30, 18, 15)],
                lam,
                "( 8249 ) - - LEC",
                "( 8034 ) -T02 - TUT",
                "",
            ),
        ],
    ));
    assert!(catalog.insert(
        "UGEA2163".to_string(),
        vec![section("UGEA2163", vec![iv(Friday, 9, 30, 11, 15)], "Dr. LAU Po Hei", "( 8255 ) - - LEC", "", "")],
    ));
    assert!(catalog.insert(
        "ELTU3502".to_string(),
        vec![
            section("ELTU3502", vec![iv(Monday, 12, 30, 14, 15)], "Ms. LEUNG Kit Chi Ella", "( 4980 ) BC01 - CLW", "", ""),
            section("ELTU3502", vec![iv(Thursday, 10, 30, 12, 15)], "Ms. LEUNG Kit Chi Ella", "( 9663 ) CC01 - CLW", "", ""),
        ],
    ));
    assert!(catalog.insert(
        "CSCI3250".to_string(),
        vec![section(
            "CSCI3250",
            vec![iv(Thursday, 13, 30, 15, 15)],
            "Dr. Umair Mujtaba QURESHI",
            "( 9085 ) - - LEC",
            "",
            "",
        )],
    ));
    let mut scheduler = Scheduler::new();
    scheduler.generate_schedule(&catalog, "Thursday".to_string());
    scheduler.get_schedule_with_best_fitness_score();
    assert!(scheduler.candidate_count() > 0);
}

fn two_course_catalog(b_sections: Vec<Course>) -> Catalog {
    let mut catalog = Catalog::new();
    assert!(catalog.insert(
        "A".to_string(),
        vec![section("A", vec![iv(Weekday::Monday, 9, 0, 10, 0)], "Dr. A", "A1", "", "")],
    ));
    assert!(catalog.insert("B".to_string(), b_sections));
    catalog
}

#[test]
fn conflicting_pair_is_excluded() {
    let catalog = two_course_catalog(vec![
        section("B", vec![iv(Weekday::Monday, 9, 30, 10, 30)], "Dr. B", "B1", "", ""),
        section("B", vec![iv(Weekday::Tuesday, 9, 0, 10, 0)], "Dr. B", "B2", "", ""),
    ]);
    let mut scheduler = Scheduler::new();
    scheduler.generate_schedule(&catalog, "Wednesday".to_string());
    assert_eq!(scheduler.candidate_count(), 1);
    let (score, assignment) = scheduler.candidate(0);
    assert_eq!(names_of(assignment), vec!["A1".to_string(), "B2".to_string()]);
    assert_eq!(score, -160);
}

#[test]
fn empty_catalog_gives_one_empty_candidate() {
    let catalog = Catalog::new();
    let mut scheduler = Scheduler::new();
    scheduler.generate_schedule(&catalog, "Monday".to_string());
    assert_eq!(scheduler.candidate_count(), 1);
    let (score, assignment) = scheduler.candidate(0);
    assert!(assignment.is_empty());
    assert_eq!(score, -200);
}

#[test]
fn distinct_compatible_sections_are_not_merged() {
    let catalog = two_course_catalog(vec![
        section("B", vec![iv(Weekday::Tuesday, 9, 0, 10, 0)], "Dr. B", "B1", "", ""),
        section("B", vec![iv(Weekday::Tuesday, 9, 0, 10, 0)], "Dr. B", "B2", "", ""),
    ]);
    let mut scheduler = Scheduler::new();
    scheduler.generate_schedule(&catalog, "Wednesday".to_string());
    assert_eq!(scheduler.candidate_count(), 2);
    let first = names_of(scheduler.candidate(0).1);
    let second = names_of(scheduler.candidate(1).1);
    assert_ne!(first, second);
}

#[test]
fn identical_sections_give_one_candidate() {
    let catalog = two_course_catalog(vec![
        section("B", vec![iv(Weekday::Tuesday, 9, 0, 10, 0)], "Dr. B", "B1", "T1", ""),
        section("B", vec![iv(Weekday::Friday, 9, 0, 10, 0)], "Dr. B", "B1", "T1", ""),
    ]);
    let mut scheduler = Scheduler::new();
    scheduler.generate_schedule(&catalog, "Wednesday".to_string());
    assert_eq!(scheduler.candidate_count(), 1);
    // a second run over the same catalog adds nothing
    scheduler.generate_schedule(&catalog, "Wednesday".to_string());
    assert_eq!(scheduler.candidate_count(), 1);
}

#[test]
fn candidates_are_sorted_by_score() {
    let catalog = two_course_catalog(vec![
        section("B", vec![iv(Weekday::Monday, 12, 0, 13, 0)], "Dr. B", "B1", "", ""),
        section("B", vec![iv(Weekday::Tuesday, 9, 0, 10, 0)], "Dr. B", "B2", "", ""),
        section("B", vec![iv(Weekday::Monday, 10, 30, 11, 0)], "Dr. B", "B3", "", ""),
        section("B", vec![iv(Weekday::Wednesday, 9, 0, 10, 0)], "Dr. B", "B4", "", ""),
    ]);
    let mut scheduler = Scheduler::new();
    scheduler.generate_schedule(&catalog, "Wednesday".to_string());
    assert_eq!(scheduler.candidate_count(), 4);
    let scores: Vec<i128> = (0..4).map(|i| scheduler.candidate(i).0).collect();
    // B3: -200 + gap 30; B2: -200 + 20 + 20; B1: -200 + gap 120; B4: 100 + 20 + 20
    assert_eq!(scores, vec![-170, -160, -80, 140]);
    let best = scheduler.get_schedule_with_best_fitness_score().unwrap();
    assert_eq!(best.len(), 2);
    assert!(best.iter().any(|(name, codes)| name == "B" && codes == &vec!["B3".to_string()]));
}

#[test]
fn cursor_stops_at_both_ends() {
    let catalog = two_course_catalog(vec![
        section("B", vec![iv(Weekday::Tuesday, 9, 0, 10, 0)], "Dr. B", "B1", "", ""),
        section("B", vec![iv(Weekday::Monday, 12, 0, 13, 0)], "Dr. B", "B2", "", ""),
    ]);
    let mut scheduler = Scheduler::new();
    scheduler.generate_schedule(&catalog, "Wednesday".to_string());
    assert_eq!(scheduler.candidate_count(), 2);
    // backward from the first position: shows it, then nothing more
    assert!(scheduler.get_next_schedule(0).is_some());
    assert_eq!(scheduler.index(), -1);
    assert!(scheduler.get_next_schedule(1).is_none());
    assert!(scheduler.get_next_schedule(0).is_none());
    assert_eq!(scheduler.index(), -1);

    let mut scheduler = Scheduler::new();
    scheduler.generate_schedule(&catalog, "Wednesday".to_string());
    assert!(scheduler.get_next_schedule(1).is_some());
    assert!(scheduler.get_next_schedule(1).is_some());
    assert_eq!(scheduler.index(), 2);
    assert!(scheduler.get_next_schedule(1).is_none());
    assert!(scheduler.get_next_schedule(0).is_none());
    assert_eq!(scheduler.index(), 2);
    assert_eq!(scheduler.candidate_count(), 2);
}

#[test]
fn cursor_other_direction_stays() {
    let scheduler_catalog = two_course_catalog(vec![section(
        "B",
        vec![iv(Weekday::Tuesday, 9, 0, 10, 0)],
        "Dr. B",
        "B1",
        "",
        "",
    )]);
    let mut scheduler = Scheduler::new();
    scheduler.generate_schedule(&scheduler_catalog, "Wednesday".to_string());
    let (grid, choices) = scheduler.get_next_schedule(5).unwrap();
    assert_eq!(scheduler.index(), 0);
    let grid = grid.unwrap();
    assert_eq!(grid.len(), 84);
    assert_eq!(grid[0], "");
    assert_eq!(grid[1], "A\n09:00 - 10:00\nDr. A");
    assert_eq!(grid[2], "B\n09:00 - 10:00\nDr. B");
    assert_eq!(grid.iter().filter(|c| !c.is_empty()).count(), 2);
    assert_eq!(choices.len(), 2);
}

#[test]
fn empty_store_shows_nothing() {
    let mut scheduler = Scheduler::new();
    assert!(scheduler.get_next_schedule(1).is_none());
    assert!(scheduler.get_schedule_with_best_fitness_score().is_none());
    assert_eq!(scheduler.index(), 0);
}

#[test]
fn course_without_fitting_section_gives_no_candidate() {
    let catalog = two_course_catalog(vec![section(
        "B",
        vec![iv(Weekday::Monday, 9, 0, 9, 30)],
        "Dr. B",
        "B1",
        "",
        "",
    )]);
    let mut scheduler = Scheduler::new();
    scheduler.generate_schedule(&catalog, "Monday".to_string());
    assert_eq!(scheduler.candidate_count(), 0);
    assert!(scheduler.get_schedule_with_best_fitness_score().is_none());
}

#[test]
fn fitness_rewards_and_penalties() {
    let a = section(
        "A",
        vec![iv(Weekday::Monday, 9, 0, 10, 0), iv(Weekday::Monday, 11, 0, 12, 0), iv(Weekday::Friday, 9, 0, 10, 0)],
        "Dr. A",
        "A1",
        "",
        "",
    );
    let b = section("B", vec![iv(Weekday::Monday, 10, 15, 10, 45)], "Dr. B", "B1", "", "");
    let set = vec![a, b];
    // Monday sorted: 9-10, 10:15-10:45, 11-12 -> gaps 15 + 15; Friday single +20
    assert_eq!(cal_fitness_score(&set, Some(Weekday::Wednesday)), -200 + 30 + 20);
    // Monday preferred: 3 meetings there, no gap bonus for it, Friday +20
    assert_eq!(cal_fitness_score(&set, Some(Weekday::Monday)), 300 + 20);
    // Friday preferred: one meeting, +100, and +20 as a single-meeting day
    assert_eq!(cal_fitness_score(&set, Some(Weekday::Friday)), 100 + 30 + 20);
    // no preferred day
    assert_eq!(cal_fitness_score(&set, None), -200 + 30 + 20);
    let monday = day_timeline(&set, Weekday::Monday);
    let starts: Vec<u32> = monday.iter().map(|t| t.start).collect();
    assert_eq!(starts, vec![hm(9, 0), hm(10, 15), hm(11, 0)]);
}

#[test]
fn unknown_day_off_always_penalised() {
    let catalog = two_course_catalog(vec![section(
        "B",
        vec![iv(Weekday::Tuesday, 9, 0, 10, 0)],
        "Dr. B",
        "B1",
        "",
        "",
    )]);
    let mut scheduler = Scheduler::new();
    scheduler.generate_schedule(&catalog, "Sunday".to_string());
    assert_eq!(scheduler.candidate(0).0, -160);
    let mut scheduler = Scheduler::new();
    scheduler.generate_schedule(&catalog, "".to_string());
    assert_eq!(scheduler.candidate(0).0, -160);
    let mut scheduler = Scheduler::new();
    scheduler.generate_schedule(&catalog, "Monday".to_string());
    assert_eq!(scheduler.candidate(0).0, 100 + 20 + 20);
}

#[test]
fn availability_is_half_open() {
    let occupied = vec![iv(Weekday::Monday, 9, 0, 10, 0)];
    assert!(available(&occupied, &vec![iv(Weekday::Monday, 10, 0, 11, 0)]));
    assert!(available(&occupied, &vec![iv(Weekday::Monday, 8, 0, 9, 0)]));
    assert!(!available(&occupied, &vec![iv(Weekday::Monday, 9, 59, 11, 0)]));
    assert!(!available(&occupied, &vec![iv(Weekday::Monday, 8, 0, 12, 0)]));
    assert!(available(&occupied, &vec![iv(Weekday::Tuesday, 9, 0, 10, 0)]));
    assert!(available(&vec![], &vec![iv(Weekday::Tuesday, 9, 0, 10, 0)]));
}

#[test]
fn weekday_names() {
    assert_eq!(Weekday::from_name("Thursday"), Some(Weekday::Thursday));
    assert_eq!(Weekday::from_name("Saturday"), Some(Weekday::Saturday));
    assert_eq!(Weekday::from_name("thursday"), None);
    assert_eq!(Weekday::from_name("Sunday"), None);
    assert_eq!(Weekday::from_name(""), None);
    assert_eq!(Weekday::Friday.name(), "Friday");
    assert_eq!(Weekday::Friday.index(), 4);
    assert_eq!(Weekday::all().len(), 6);
}

#[test]
fn malformed_intervals_are_refused() {
    assert!(WeeklyInterval::new(Weekday::Monday, 600, 600).is_none());
    assert!(WeeklyInterval::new(Weekday::Monday, 601, 600).is_none());
    assert!(WeeklyInterval::new(Weekday::Monday, 600, 1441).is_none());
    assert_eq!(
        WeeklyInterval::new(Weekday::Monday, 600, 1440),
        Some(WeeklyInterval { day: Weekday::Monday, start: 600, end: 1440 })
    );
}

#[test]
fn clock_strings() {
    assert_eq!(clock_string(0), "00:00");
    assert_eq!(clock_string(hm(9, 5)), "09:05");
    assert_eq!(clock_string(hm(14, 30)), "14:30");
    assert_eq!(clock_string(1440), "24:00");
}

#[test]
fn grid_cells_and_bounds() {
    assert_eq!(find_timetable_index(iv(Weekday::Monday, 9, 0, 10, 0)), Some(1));
    assert_eq!(find_timetable_index(iv(Weekday::Monday, 9, 30, 10, 0)), Some(1));
    assert_eq!(find_timetable_index(iv(Weekday::Saturday, 9, 30, 10, 0)), Some(6));
    assert_eq!(find_timetable_index(iv(Weekday::Tuesday, 14, 30, 16, 15)), Some(32));
    assert_eq!(find_timetable_index(iv(Weekday::Friday, 22, 0, 23, 0)), Some(83));
    assert_eq!(find_timetable_index(iv(Weekday::Saturday, 22, 0, 23, 0)), None);
    assert_eq!(find_timetable_index(iv(Weekday::Monday, 8, 0, 9, 0)), None);
    assert_eq!(find_timetable_index(iv(Weekday::Monday, 23, 0, 23, 30)), None);
    let early = vec![section("A", vec![iv(Weekday::Monday, 8, 30, 9, 30)], "Dr. A", "A1", "", "")];
    assert!(!grid_drawable(&early));
    let late = vec![section("A", vec![iv(Weekday::Saturday, 22, 0, 23, 0)], "Dr. A", "A1", "", "")];
    assert!(!grid_drawable(&late));
    let ok = vec![section("A", vec![iv(Weekday::Tuesday, 14, 30, 16, 15)], "Dr. A", "A1", "", "")];
    assert!(grid_drawable(&ok));
    let grid = reduce_course_set_to_timetable_string(&ok);
    assert_eq!(grid.len(), 84);
    assert_eq!(grid[32], "A\n14:30 - 16:15\nDr. A");
    assert_eq!(grid.iter().filter(|c| !c.is_empty()).count(), 1);
}

#[test]
fn choice_codes_in_order() {
    let set = vec![
        section("A", vec![iv(Weekday::Monday, 9, 0, 10, 0)], "Dr. A", "LEC1", "TUT1", "LAB1"),
        section("B", vec![iv(Weekday::Tuesday, 9, 0, 10, 0)], "Dr. B", "LEC2", "TUT2", ""),
        section("C", vec![iv(Weekday::Friday, 9, 0, 10, 0)], "Dr. C", "LEC3", "", ""),
    ];
    let choices = reduce_course_set_to_course_and_choice_vec(&set);
    assert_eq!(
        choices,
        vec![
            ("A".to_string(), vec!["LEC1".to_string(), "LAB1".to_string(), "TUT1".to_string()]),
            ("B".to_string(), vec!["LEC2".to_string(), "TUT2".to_string()]),
            ("C".to_string(), vec!["LEC3".to_string()]),
        ]
    );
}

#[test]
fn catalog_insert_rules() {
    let mut catalog = Catalog::new();
    assert!(!catalog.insert("A".to_string(), vec![section("B", vec![], "Dr. B", "B1", "", "")]));
    assert_eq!(catalog.len(), 0);
    assert!(catalog.insert("A".to_string(), vec![section("A", vec![], "Dr. A", "A1", "", "")]));
    assert!(catalog.insert("B".to_string(), vec![]));
    assert!(catalog.insert("A".to_string(), vec![]));
    assert_eq!(catalog.len(), 2);
    assert_eq!(catalog.name(0), "A");
    assert!(catalog.sections(0).is_empty());
    assert_eq!(catalog.position(&"B".to_string()), Some(1));
    assert_eq!(catalog.position(&"C".to_string()), None);
}

#[test]
fn course_with_no_section_blocks_every_timetable() {
    let catalog = two_course_catalog(vec![]);
    let mut scheduler = Scheduler::new();
    scheduler.generate_schedule(&catalog, "Monday".to_string());
    assert_eq!(scheduler.candidate_count(), 0);
}

#[test]
fn selections_compare_as_sets() {
    let a = section("A", vec![iv(Weekday::Monday, 9, 0, 10, 0)], "Dr. A", "A1", "", "");
    let b = section("B", vec![iv(Weekday::Tuesday, 9, 0, 10, 0)], "Dr. B", "B1", "", "");
    let b_moved = section("B", vec![iv(Weekday::Friday, 9, 0, 10, 0)], "Dr. B", "B1", "", "");
    let b_other = section("B", vec![iv(Weekday::Tuesday, 9, 0, 10, 0)], "Dr. B", "B1", "T9", "");
    let x = vec![a.duplicate(), b.duplicate()];
    assert!(same_selection(&x, &vec![b.duplicate(), a.duplicate()]));
    assert!(same_selection(&x, &vec![a.duplicate(), b_moved]));
    assert!(!same_selection(&x, &vec![a.duplicate(), b_other]));
    assert!(!same_selection(&x, &vec![a.duplicate()]));
    assert!(a.same_section(&a.duplicate()));
}

#[test]
fn meeting_outside_grid_gives_no_grid() {
    let mut catalog = Catalog::new();
    assert!(catalog.insert(
        "A".to_string(),
        vec![section("A", vec![iv(Weekday::Saturday, 22, 0, 23, 0)], "Dr. A", "A1", "", "")],
    ));
    let mut scheduler = Scheduler::new();
    scheduler.generate_schedule(&catalog, "Monday".to_string());
    let (grid, choices) = scheduler.get_next_schedule(1).unwrap();
    assert!(grid.is_none());
    assert_eq!(choices, vec![("A".to_string(), vec!["A1".to_string()])]);
    assert_eq!(scheduler.index(), 1);
}

#[test]
fn later_runs_keep_earlier_candidates_in_order() {
    let catalog = two_course_catalog(vec![
        section("B", vec![iv(Weekday::Tuesday, 9, 0, 10, 0)], "Dr. B", "B1", "", ""),
        section("B", vec![iv(Weekday::Thursday, 9, 0, 10, 0)], "Dr. B", "B2", "", ""),
    ]);
    let mut scheduler = Scheduler::new();
    scheduler.generate_schedule(&catalog, "Wednesday".to_string());
    assert_eq!(scheduler.candidate_count(), 2);
    let before: Vec<Vec<String>> = (0..2).map(|i| names_of(scheduler.candidate(i).1)).collect();
    let other = two_course_catalog(vec![section("B", vec![iv(Weekday::Friday, 9, 0, 10, 0)], "Dr. B", "B3", "", "")]);
    scheduler.generate_schedule(&other, "Wednesday".to_string());
    assert_eq!(scheduler.candidate_count(), 3);
    let after: Vec<Vec<String>> = (0..3).map(|i| names_of(scheduler.candidate(i).1)).collect();
    // equal scores: the new candidate goes after the earlier ones
    assert_eq!(&after[0..2], &before[..]);
    assert_eq!(after[2], vec!["A1".to_string(), "B3".to_string()]);
}
