use attendance::decode::decode;
use attendance::export::{escape_field, integer_text, render_csv};
use attendance::import::{validate_fields, ImportError, SkipReason};
use attendance::store::{AttendanceStore, EnrollmentRecord, PresenceOverride, StoreError};
use attendance::text::{parse_integer, text_less, trim_text};

fn rec(name: &str, date: &str, grade: i64) -> EnrollmentRecord {
    EnrollmentRecord { name: name.to_string(), date: date.to_string(), grade }
}

fn triples(rows: &[EnrollmentRecord]) -> Vec<(String, String, i64)> {
    rows.iter().map(|r| (r.name.clone(), r.date.clone(), r.grade)).collect()
}

fn owned(fields: &[&str]) -> Vec<String> {
    fields.iter().map(|f| f.to_string()).collect()
}

#[test]
fn import_then_list_all_is_sorted_and_complete() {
    let mut store = AttendanceStore::new();
    let csv = "name,date,grade\nBob,2024-04-02,1\nAlice,2024-04-01,1\nAlice,2024-03-01,2\n";
    let summary = store.import_csv(csv.as_bytes()).unwrap();
    assert_eq!(summary.imported, 3);
    assert_eq!(summary.skipped, 0);
    assert_eq!(
        triples(&store.query_all()),
        vec![
            ("Alice".to_string(), "2024-03-01".to_string(), 2),
            ("Alice".to_string(), "2024-04-01".to_string(), 1),
            ("Bob".to_string(), "2024-04-02".to_string(), 1),
        ]
    );
}

#[test]
fn importing_twice_equals_importing_once() {
    let csv = "name,date,grade\nB,d2,1\nA,d1,1\n";
    let mut once = AttendanceStore::new();
    once.import_csv(csv.as_bytes()).unwrap();
    let mut twice = AttendanceStore::new();
    twice.import_csv(csv.as_bytes()).unwrap();
    twice.import_csv(csv.as_bytes()).unwrap();
    assert_eq!(triples(&once.query_all()), triples(&twice.query_all()));
    assert_eq!(twice.query_all().len(), 2);
}

#[test]
fn export_then_import_is_a_fixed_point() {
    let mut store = AttendanceStore::new();
    store.add_one(rec("Smith, Ann", "2024-04-01", 3));
    store.add_one(rec("say \"hi\"", "2024-04-02", -1));
    store.add_one(rec("Bob", "2024-04-01", 3));
    let text = store.export_csv();
    let mut again = AttendanceStore::new();
    again.import_csv(text.as_bytes()).unwrap();
    assert_eq!(triples(&store.query_all()), triples(&again.query_all()));
}

#[test]
fn export_writes_header_and_minimal_quoting() {
    let mut store = AttendanceStore::new();
    store.add_one(rec("b", "d", 2));
    store.add_one(rec("a,x", "d", 10));
    assert_eq!(store.export_csv(), "name,date,grade\n\"a,x\",d,10\nb,d,2\n");
}

#[test]
fn fresh_import_shows_every_cell_present() {
    let mut store = AttendanceStore::new();
    store.import_csv(b"name,date,grade\nA,d1,1\nA,d2,1\nB,d1,1\n").unwrap();
    let m = store.project(1);
    assert_eq!(m.cells.len(), 3);
    assert!(m.cells.iter().all(|c| c.present));
}

#[test]
fn explicit_absence_overrides_only_its_cell() {
    let mut store = AttendanceStore::new();
    store.import_csv(b"name,date,grade\nA,d1,1\nA,d2,1\nB,d1,1\n").unwrap();
    assert!(store.set_presence("A".to_string(), "d2".to_string(), false).is_ok());
    let m = store.project(1);
    for c in &m.cells {
        let expected = !(c.name == "A" && c.date == "d2");
        assert_eq!(c.present, expected, "{} {}", c.name, c.date);
    }
    assert!(store.set_presence("A".to_string(), "d2".to_string(), true).is_ok());
    assert!(store.project(1).cells.iter().all(|c| c.present));
}

#[test]
fn rows_with_empty_dates_are_skipped_and_counted() {
    let csv = "name,date,grade\nA,d1,1\nB,d1,1\nC,,1\nD,d1,2\nE,d2,2\nF, ,3\nG,d3,3\n";
    let mut store = AttendanceStore::new();
    let summary = store.import_csv(csv.as_bytes()).unwrap();
    assert_eq!(summary.imported, 5);
    assert_eq!(summary.skipped, 2);
    assert_eq!(summary.skips.iter().map(|k| k.row).collect::<Vec<_>>(), vec![2, 5]);
    assert!(summary.skips.iter().all(|k| matches!(k.reason, SkipReason::Empty)));
    assert_eq!(store.query_all().len(), 5);
}

#[test]
fn import_rows_reports_unparsable_rows() {
    let mut store = AttendanceStore::new();
    let rows = vec![None, Some(owned(&["A", "d1", "1"])), Some(owned(&["B", "d1", "one"]))];
    let summary = store.import_rows(rows).unwrap();
    assert_eq!(summary.imported, 1);
    assert_eq!(summary.skips.len(), 2);
    assert!(matches!(summary.skips[0].reason, SkipReason::Unparsable));
    assert_eq!(summary.skips[1].row, 2);
    assert!(matches!(&summary.skips[1].reason, SkipReason::InvalidGrade(t) if t == "one"));
    assert!(matches!(store.import_rows(vec![None]), Err(ImportError::Unreadable)));
    assert_eq!(store.query_all().len(), 1);
}

#[test]
fn unreadable_file_fails_and_keeps_previous_rows() {
    let mut store = AttendanceStore::new();
    assert!(matches!(store.import_csv(b"a,b,c\nonly,two\nx\n"), Err(ImportError::Unreadable)));
    assert_eq!(store.query_all().len(), 0);
    store.import_csv(b"name,date,grade\nA,d1,1\n").unwrap();
    assert!(matches!(store.import_csv(b"h\n,,\n ,x,1\n"), Err(ImportError::Unreadable)));
    assert_eq!(triples(&store.query_all()), vec![("A".to_string(), "d1".to_string(), 1)]);
}

#[test]
fn empty_file_imports_nothing_and_succeeds() {
    let mut store = AttendanceStore::new();
    store.add_one(rec("A", "d", 1));
    let summary = store.import_csv(b"").unwrap();
    assert_eq!(summary.imported, 0);
    assert_eq!(store.query_all().len(), 0);
}

#[test]
fn shift_jis_blob_decodes_cleanly() {
    let mut blob = b"name,date,grade\n".to_vec();
    blob.extend_from_slice(&[0x8E, 0x52, 0x93, 0x63]);
    blob.extend_from_slice(b",2024-04-01,1\n");
    let (text, had_errors) = decode(&blob);
    assert!(!had_errors);
    assert_eq!(text, "name,date,grade\n\u{5c71}\u{7530},2024-04-01,1\n");
    let mut store = AttendanceStore::new();
    store.import_csv(&blob).unwrap();
    assert_eq!(store.query_all()[0].name, "\u{5c71}\u{7530}");
}

#[test]
fn byte_order_mark_is_stripped() {
    let mut blob = vec![0xEF, 0xBB, 0xBF];
    blob.extend_from_slice(b"Ann,d1,1\nBob,d1,1\n");
    let (text, had_errors) = decode(&blob);
    assert!(!had_errors);
    assert_eq!(text, "Ann,d1,1\nBob,d1,1\n");
    let mut with_header = vec![0xEF, 0xBB, 0xBF];
    with_header.extend_from_slice("name,date,grade\n\u{5c71}\u{7530},d1,1\n".as_bytes());
    let mut store = AttendanceStore::new();
    store.import_csv(&with_header).unwrap();
    assert_eq!(store.query_all()[0].name, "\u{5c71}\u{7530}");
}

#[test]
fn empty_blob_decodes_to_empty_text() {
    assert_eq!(decode(&[]), (String::new(), false));
}

#[test]
fn malformed_blob_falls_back_to_utf8_with_replacement() {
    let (text, had_errors) = decode(&[0x41, 0xFF]);
    assert_eq!(text, "A\u{fffd}");
    assert!(had_errors);
}

#[test]
fn set_presence_on_unknown_key_is_refused() {
    let mut store = AttendanceStore::new();
    store.add_one(rec("A", "d1", 1));
    assert!(matches!(
        store.set_presence("A".to_string(), "d9".to_string(), false),
        Err(StoreError::RecordNotFound)
    ));
    assert!(store.project(1).cells[0].present);
}

#[test]
fn set_presence_keeps_the_grade_of_the_row() {
    let mut store = AttendanceStore::new();
    store.add_one(rec("A", "d1", 4));
    store.set_presence("A".to_string(), "d1".to_string(), false).unwrap();
    let o: &Vec<PresenceOverride> = store.overrides();
    assert_eq!(o.len(), 1);
    assert_eq!((o[0].name.as_str(), o[0].date.as_str(), o[0].grade, o[0].present), ("A", "d1", 4, false));
}

#[test]
fn matrix_axes_are_distinct_sorted_and_sparse() {
    let mut store = AttendanceStore::new();
    store.import_csv(b"name,date,grade\nB,d2,1\nA,d1,1\nB,d1,1\nC,d3,2\nA,d1,1\n").unwrap();
    let m = store.project(1);
    assert_eq!(m.students, vec!["A".to_string(), "B".to_string()]);
    assert_eq!(m.dates, vec!["d1".to_string(), "d2".to_string()]);
    let keys: Vec<(String, String)> = m.cells.iter().map(|c| (c.name.clone(), c.date.clone())).collect();
    assert_eq!(
        keys,
        vec![
            ("A".to_string(), "d1".to_string()),
            ("A".to_string(), "d1".to_string()),
            ("B".to_string(), "d1".to_string()),
            ("B".to_string(), "d2".to_string()),
        ]
    );
    assert!(m.cells.iter().all(|c| c.grade == 1));
    let empty = store.project(7);
    assert!(empty.students.is_empty() && empty.dates.is_empty() && empty.cells.is_empty());
}

#[test]
fn query_by_grade_filters_and_orders() {
    let mut store = AttendanceStore::new();
    store.add_one(rec("Zoe", "d1", 2));
    store.add_one(rec("Amy", "d2", 1));
    store.add_one(rec("Amy", "d1", 2));
    assert_eq!(
        triples(&store.query_by_grade(2)),
        vec![("Amy".to_string(), "d1".to_string(), 2), ("Zoe".to_string(), "d1".to_string(), 2)]
    );
}

#[test]
fn from_parts_keeps_the_last_override_of_a_key() {
    let ov = |p: bool| PresenceOverride { name: "A".to_string(), date: "d".to_string(), grade: 1, present: p };
    let store = AttendanceStore::from_parts(vec![rec("A", "d", 1)], vec![ov(true), ov(false)]);
    assert_eq!(store.overrides().len(), 1);
    assert!(!store.project(1).cells[0].present);
}

#[test]
fn validate_reports_each_reason() {
    assert!(matches!(validate_fields(&owned(&["a", "b"])), Err(SkipReason::Incomplete)));
    assert!(matches!(validate_fields(&owned(&["a", " ", "1"])), Err(SkipReason::Empty)));
    match validate_fields(&owned(&["a", "b", " x1 "])) {
        Err(SkipReason::InvalidGrade(t)) => assert_eq!(t, "x1"),
        _ => panic!("expected an invalid grade"),
    }
    let r = validate_fields(&owned(&["  Ann\u{3000}", "\t2024-04-01 ", " -3 ", "extra"])).unwrap();
    assert_eq!((r.name.as_str(), r.date.as_str(), r.grade), ("Ann", "2024-04-01", -3));
}

#[test]
fn parse_integer_follows_i64_rules() {
    assert_eq!(parse_integer("42"), Some(42));
    assert_eq!(parse_integer("+7"), Some(7));
    assert_eq!(parse_integer("-9223372036854775808"), Some(i64::MIN));
    assert_eq!(parse_integer("9223372036854775807"), Some(i64::MAX));
    assert_eq!(parse_integer("9223372036854775808"), None);
    assert_eq!(parse_integer(""), None);
    assert_eq!(parse_integer("-"), None);
    assert_eq!(parse_integer("1a"), None);
    assert_eq!(parse_integer(" 1"), None);
}

#[test]
fn trim_removes_unicode_white_space() {
    assert_eq!(trim_text("\u{3000} a b \n"), "a b");
    assert_eq!(trim_text("   "), "");
    assert_eq!(trim_text("x"), "x");
}

#[test]
fn text_order_is_by_code_point() {
    assert!(text_less("Ab", "a"));
    assert!(text_less("a", "ab"));
    assert!(!text_less("b", "ab"));
    assert!(!text_less("same", "same"));
}

#[test]
fn fields_are_quoted_only_when_needed() {
    assert_eq!(escape_field("plain"), "plain");
    assert_eq!(escape_field("a,b"), "\"a,b\"");
    assert_eq!(escape_field("say \"hi\""), "\"say \"\"hi\"\"\"");
    assert_eq!(escape_field("two\nlines"), "\"two\nlines\"");
}

#[test]
fn integers_render_in_decimal() {
    assert_eq!(integer_text(0), "0");
    assert_eq!(integer_text(-120), "-120");
    assert_eq!(integer_text(i64::MIN), "-9223372036854775808");
    assert_eq!(render_csv(&vec![rec("a", "b", 5)]), "name,date,grade\na,b,5\n");
}
