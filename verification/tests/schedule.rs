use homeworks::json::{decode_list, encode_list};
use homeworks::schedule::{
    clean_fragments, collect_schedule, course_message, course_row, keyboard_rows, read_schedule,
    reply_for, schedule_line, AppConfig, Command, Reply, Schedule, COURSES_KEY,
};

fn strings(items: &[&str]) -> Vec<String> {
    items.iter().map(|s| s.to_string()).collect()
}

#[test]
fn list_written_as_compact_json() {
    assert_eq!(encode_list(&strings(&["a", "b"])), "[\"a\",\"b\"]");
    assert_eq!(encode_list(&Vec::new()), "[]");
    assert_eq!(encode_list(&strings(&["q\"u\\o\n"])), "[\"q\\\"u\\\\o\\n\"]");
    assert_eq!(encode_list(&strings(&["\u{1}"])), "[\"\\u0001\"]");
}

#[test]
fn list_read_back_from_json() {
    let items = strings(&["Rust Developer", "line \"two\"", "\u{1f516}"]);
    assert_eq!(decode_list(&encode_list(&items)), Some(items));
    assert_eq!(decode_list("[\"x\", \"y\"]"), Some(strings(&["x", "y"])));
    assert_eq!(decode_list(""), None);
    assert_eq!(decode_list("[1]"), None);
}

#[test]
fn fragments_lose_breaks_and_blanks() {
    let cells = clean_fragments(&strings(&["\n", "", "Mon\n", "12:00", "\nRust\n"]));
    assert_eq!(cells, strings(&["Mon", "12:00", "Rust"]));
}

#[test]
fn course_rows_are_found_by_prefix() {
    assert!(course_row(&strings(&["a", "b", "Rust Dev"]), "Rust"));
    assert!(!course_row(&strings(&["a", "b", "Go Dev"]), "Rust"));
    assert!(!course_row(&strings(&["a", "b"]), ""));
}

#[test]
fn schedule_lines_by_row_length() {
    let seven = strings(&["01.01", "19:00", "Rust", "x", "Topic", "y", "z"]);
    assert_eq!(schedule_line(&seven), "\u{1f516} 01.01 19:00: Topic ");
    let eight = strings(&["01.01", "19:00", "Rust", "x", "y", "Topic", "Teacher", "w"]);
    assert_eq!(schedule_line(&eight), "\u{1f516} 01.01 19:00: Topic (Teacher)");
}

fn row(cells: &[&str]) -> Vec<String> {
    strings(cells)
}

#[test]
fn rows_grouped_by_course_in_order() {
    let rows = vec![
        row(&["d1", "t1", "Rust A", "x", "L1", "y", "z"]),
        row(&["d2", "t2", "Go", "x", "G1", "y", "z"]),
        row(&["d3", "t3", "Rust B", "x", "L2", "y", "z"]),
        row(&["d4", "t4", "Rust A", "x", "L3", "y", "z"]),
        row(&["too short"]),
    ];
    let schedule = collect_schedule(&rows, "Rust");
    assert_eq!(schedule.courses(), strings(&["Rust A", "Rust B"]));
    assert_eq!(
        schedule.lines_of("Rust A"),
        strings(&["\u{1f516} d1 t1: L1 ", "\u{1f516} d4 t4: L3 "])
    );
    assert_eq!(schedule.lines_of("Go"), Vec::<String>::new());
    let records = schedule.store_entries();
    assert_eq!(records.len(), 3);
    assert_eq!(records[0].0, COURSES_KEY);
    assert_eq!(records[0].1, "[\"Rust A\",\"Rust B\"]");
    assert_eq!(records[2], ("Rust B".to_string(), "[\"\u{1f516} d3 t3: L2 \"]".to_string()));
}

#[test]
fn schedule_add_line_opens_and_extends_groups() {
    let mut s = Schedule::new();
    s.add_line("C".to_string(), "one".to_string());
    s.add_line("D".to_string(), "two".to_string());
    s.add_line("C".to_string(), "three".to_string());
    assert_eq!(s.courses(), strings(&["C", "D"]));
    assert_eq!(s.lines_of("C"), strings(&["one", "three"]));
}

const PAGE: &str = "<html><body><table class=\"table_full\">\
<tr class=\"table__row\"><td class=\"table__col\">01.02</td><td class=\"table__col\">20:00</td>\
<td class=\"table__col\">Rust Developer</td><td class=\"table__col\">x</td>\
<td class=\"table__col\">Traits</td><td class=\"table__col\">y</td><td class=\"table__col\">z</td></tr>\
<tr class=\"table__row\"><td class=\"table__col\">02.02</td><td class=\"table__col\">20:00</td>\
<td class=\"table__col\">Python</td></tr>\
</table></body></html>";

#[test]
fn page_read_into_schedule() {
    let schedule = read_schedule(PAGE, "Rust").unwrap();
    assert_eq!(schedule.courses(), strings(&["Rust Developer"]));
    assert_eq!(schedule.lines_of("Rust Developer"), strings(&["\u{1f516} 01.02 20:00: Traits "]));
    assert!(read_schedule(PAGE, "Py").is_none());
    assert_eq!(read_schedule("<p>no table</p>", "Rust").unwrap().courses(), Vec::<String>::new());
}

#[test]
fn keyboard_has_one_button_per_group() {
    let rows = keyboard_rows(&strings(&["A", "B"]));
    assert_eq!(rows.len(), 2);
    assert_eq!(rows[1], vec![("B".to_string(), "B".to_string())]);
}

#[test]
fn course_message_keeps_five_lines() {
    let lines = strings(&["1", "2", "3", "4", "5", "6"]);
    assert_eq!(course_message(&lines), "1\n2\n3\n4\n5");
    assert_eq!(course_message(&strings(&["only"])), "only");
    assert_eq!(course_message(&Vec::new()), "");
}

#[test]
fn settings_fall_back_to_defaults() {
    let c = AppConfig::from_settings(None, Some("/x.html".to_string()), None);
    assert_eq!(c.course_pattern, "Rust");
    assert_eq!(c.source_file, "/x.html");
    assert_eq!(c.redis_url, "redis://127.0.0.1:6379");
}

#[test]
fn replies_to_commands() {
    assert!(matches!(reply_for(Some(Command::Help)), Reply::Descriptions));
    match reply_for(Some(Command::Start)) {
        Reply::GroupKeyboard(p) => assert_eq!(p, "\u{412}\u{44b}\u{431}\u{435}\u{440}\u{435}\u{442}\u{435} \u{433}\u{440}\u{443}\u{43f}\u{43f}\u{443}"),
        _ => panic!("expected the group keyboard"),
    }
    match reply_for(None) {
        Reply::Text(t) => assert_eq!(t, "Command not found!"),
        _ => panic!("expected a text"),
    }
}
