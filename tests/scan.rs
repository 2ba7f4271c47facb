use uniscan::filter::{EmptyFilter, ScriptFilter, TypeDescriptor};
use uniscan::scan::{count_selected, ObjectAction, Scan, ScanPhase};
use uniscan::value::Value;

fn ty(full: &str) -> TypeDescriptor {
    TypeDescriptor { full_name: full.to_string(), assembly: "A".to_string() }
}

#[test]
fn limit_caps_kept_objects_but_not_matches() {
    let mut scan = Scan::new(2, 1);
    let f = scan.begin_file(false).unwrap();
    assert_eq!(f, 0);
    let filter = ScriptFilter::empty();
    let t = ty("Foo");
    let mut kept = 0;
    for _ in 0..5 {
        if scan.consider(f, Some(&t), &filter) == ObjectAction::Keep {
            kept += 1;
            scan.record(f, vec![Value::Int(kept)]);
        }
    }
    assert_eq!(kept, 2);
    assert!(!scan.wants_values());
    scan.end_file();
    assert_eq!(scan.phase(), ScanPhase::Completed);
    let res = scan.into_results();
    assert_eq!(res.count, 5);
    assert_eq!(res.query_count, 2);
    assert_eq!(res.items, vec![Value::Int(1), Value::Int(2)]);
}

#[test]
fn counting_only_pass_adds_to_matches() {
    let mut scan = Scan::new(0, 2);
    let a = scan.begin_file(false).unwrap();
    assert!(!scan.wants_values());
    scan.count_only(a, 4);
    scan.end_file();
    let b = scan.begin_file(false).unwrap();
    assert_eq!(b, 1);
    assert_eq!(scan.consider(b, Some(&ty("Foo")), &ScriptFilter::empty()), ObjectAction::Count);
    scan.end_file();
    assert_eq!(scan.begin_file(false), None);
    assert_eq!(scan.matched(), 5);
    assert_eq!(scan.into_results().items.len(), 0);
}

#[test]
fn objects_without_type_or_not_selected_are_skipped() {
    let mut scan = Scan::new(10, 1);
    let f = scan.begin_file(false).unwrap();
    let filter = ScriptFilter::new("ab");
    assert_eq!(scan.consider(f, None, &filter), ObjectAction::Skip);
    assert_eq!(scan.consider(f, Some(&ty("Crab")), &filter), ObjectAction::Skip);
    assert_eq!(scan.consider(f, Some(&ty("Ab")), &filter), ObjectAction::Keep);
    let none = ScriptFilter::with_empty_mode("", EmptyFilter::MatchNone);
    assert_eq!(scan.consider(f, Some(&ty("Ab")), &none), ObjectAction::Skip);
    assert_eq!(scan.matched(), 1);
}

#[test]
fn cancellation_stops_handing_out_files() {
    let mut scan = Scan::new(100, 10);
    let t = ty("Foo");
    let filter = ScriptFilter::empty();
    for k in 0..3 {
        let f = scan.begin_file(false).unwrap();
        assert_eq!(f, k);
        scan.consider(f, Some(&t), &filter);
        scan.end_file();
    }
    assert_eq!(scan.begin_file(true), None);
    assert_eq!(scan.phase(), ScanPhase::Cancelled);
    assert_eq!(scan.begin_file(false), None);
    assert_eq!(scan.phase(), ScanPhase::Cancelled);
    let res = scan.into_results();
    assert_eq!(res.count, 3);
}

#[test]
fn cancelled_scan_keeps_partial_results_of_files_in_flight() {
    let mut scan = Scan::new(100, 4);
    let a = scan.begin_file(false).unwrap();
    let b = scan.begin_file(false).unwrap();
    assert_eq!(scan.begin_file(true), None);
    let t = ty("Foo");
    let filter = ScriptFilter::empty();
    assert_eq!(scan.consider(a, Some(&t), &filter), ObjectAction::Keep);
    assert_eq!(scan.consider(b, Some(&t), &filter), ObjectAction::Keep);
    scan.record(a, vec![Value::Bool(true)]);
    scan.end_file();
    scan.end_file();
    assert_eq!(scan.phase(), ScanPhase::Cancelled);
    let res = scan.into_results();
    assert_eq!(res.count, 2);
    assert_eq!(res.query_count, 1);
}

#[test]
fn empty_file_list_completes_at_once() {
    let mut scan = Scan::new(5, 0);
    assert_eq!(scan.begin_file(false), None);
    assert_eq!(scan.phase(), ScanPhase::Running);
    let res = scan.into_results();
    assert_eq!(res.count, 0);
    assert!(res.items.is_empty());
}

#[test]
fn progress_is_due_every_hundred_files() {
    let mut scan = Scan::new(5, 250);
    assert_eq!(scan.progress_due(100), None);
    for _ in 0..99 {
        scan.begin_file(false).unwrap();
        scan.end_file();
    }
    assert_eq!(scan.progress_due(100), None);
    scan.begin_file(false).unwrap();
    assert_eq!(scan.progress_due(100), Some(100));
}

#[test]
fn counting_pass_counts_selected_types_only() {
    let tys = vec![Some(ty("Foo")), None, Some(ty("Bar")), Some(ty("game.Foo")), Some(ty("Food"))];
    assert_eq!(count_selected(&tys, &ScriptFilter::new("foo")), 3);
    assert_eq!(count_selected(&tys, &ScriptFilter::empty()), 4);
    assert_eq!(count_selected(&tys, &ScriptFilter::with_empty_mode(" ", EmptyFilter::MatchNone)), 0);
    assert_eq!(count_selected(&vec![], &ScriptFilter::empty()), 0);
}
