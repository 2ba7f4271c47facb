use uniscan::enrich::{enrich, find_entry, prepare_object, put_entry};
use uniscan::filter::{ScriptFilter, TypeDescriptor};
use uniscan::scan::{ObjectAction, Scan};
use uniscan::qualify_pptr::QualifyError;
use uniscan::value::Value;

fn s(t: &str) -> String {
    t.to_string()
}

fn obj(entries: Vec<(&str, Value)>) -> Value {
    Value::Obj(entries.into_iter().map(|(k, v)| (k.to_string(), v)).collect())
}

fn field<'a>(v: &'a Value, k: &str) -> Option<&'a Value> {
    match v {
        Value::Obj(m) => find_entry(m, k),
        _ => None,
    }
}

fn foo() -> TypeDescriptor {
    TypeDescriptor { full_name: s("Foo"), assembly: s("Assembly-CSharp") }
}

#[test]
fn enrich_adds_origin_and_type() {
    let v = obj(vec![("x", Value::Int(1))]);
    let ty = foo();
    let r = enrich(v, &s("A"), Some(&ty), None);
    assert_eq!(
        r,
        obj(vec![
            ("x", Value::Int(1)),
            ("_file", Value::Str(s("A"))),
            ("_type", Value::Str(s("Foo"))),
            ("_asm", Value::Str(s("Assembly-CSharp"))),
        ])
    );
}

#[test]
fn enrich_without_type_adds_only_origin() {
    let r = enrich(obj(vec![]), &s("B"), None, None);
    assert_eq!(r, obj(vec![("_file", Value::Str(s("B")))]));
}

#[test]
fn enrich_overwrites_existing_fields() {
    let v = obj(vec![("_file", Value::Str(s("old"))), ("y", Value::Null)]);
    let r = enrich(v, &s("A"), None, None);
    assert_eq!(r, obj(vec![("_file", Value::Str(s("A"))), ("y", Value::Null)]));
}

#[test]
fn enrich_adds_scene_name_for_level_files() {
    let scenes = vec![s("Menu"), s("Town"), s("Crossroads")];
    let r = enrich(obj(vec![]), &s("level2"), None, Some(&scenes));
    assert_eq!(field(&r, "_scene"), Some(&Value::Str(s("Crossroads"))));
    assert_eq!(field(&r, "_file"), Some(&Value::Str(s("level2"))));
}

#[test]
fn enrich_skips_scene_when_absent() {
    let scenes = vec![s("Menu")];
    let out_of_range = enrich(obj(vec![]), &s("level7"), None, Some(&scenes));
    assert_eq!(field(&out_of_range, "_scene"), None);
    let no_number = enrich(obj(vec![]), &s("level"), None, Some(&scenes));
    assert_eq!(field(&no_number, "_scene"), None);
    let not_digits = enrich(obj(vec![]), &s("level0x"), None, Some(&scenes));
    assert_eq!(field(&not_digits, "_scene"), None);
    let other = enrich(obj(vec![]), &s("sharedassets0.assets"), None, Some(&scenes));
    assert_eq!(field(&other, "_scene"), None);
    let huge = enrich(obj(vec![]), &s("level99999999999999999999999"), None, Some(&scenes));
    assert_eq!(field(&huge, "_scene"), None);
    let no_table = enrich(obj(vec![]), &s("level0"), None, None);
    assert_eq!(field(&no_table, "_scene"), None);
}

#[test]
fn put_entry_replaces_or_appends() {
    let mut m = vec![(s("a"), Value::Int(1)), (s("b"), Value::Int(2))];
    put_entry(&mut m, s("b"), Value::Int(3));
    assert_eq!(m, vec![(s("a"), Value::Int(1)), (s("b"), Value::Int(3))]);
    put_entry(&mut m, s("c"), Value::Null);
    assert_eq!(m, vec![(s("a"), Value::Int(1)), (s("b"), Value::Int(3)), (s("c"), Value::Null)]);
}

#[test]
fn prepare_object_qualifies_then_enriches() {
    let v = obj(vec![(
        "m_GameObject",
        obj(vec![("m_FileID", Value::Int(0)), ("m_PathID", Value::Int(8))]),
    )]);
    let ty = foo();
    let r = prepare_object(v, &s("A"), &vec![], Some(&ty), None).unwrap();
    assert_eq!(
        field(&r, "m_GameObject"),
        Some(&obj(vec![("file", Value::Str(s("A"))), ("pathId", Value::Int(8))]))
    );
    assert_eq!(field(&r, "_type"), Some(&Value::Str(s("Foo"))));
}

#[test]
fn prepare_object_reports_unresolved_pointer() {
    let v = obj(vec![("p", obj(vec![("m_FileID", Value::Int(4)), ("m_PathID", Value::Int(1))]))]);
    assert_eq!(
        prepare_object(v, &s("A"), &vec![s("B")], None, None),
        Err(QualifyError::UnresolvedExternal { file_index: 4 })
    );
}

/// File A holds one `Foo` with a local and an external pointer; the identity
/// program returns the prepared object.
#[test]
fn end_to_end_identity_scan_of_one_object() {
    let body = obj(vec![
        ("local", obj(vec![("m_FileID", Value::Int(0)), ("m_PathID", Value::Int(5))])),
        ("external", obj(vec![("m_FileID", Value::Int(1)), ("m_PathID", Value::Int(5))])),
    ]);
    let filter = ScriptFilter::new("Foo");
    let ty = foo();
    let mut scan = Scan::new(usize::MAX, 1);
    let file = scan.begin_file(false).unwrap();
    assert_eq!(scan.consider(file, Some(&ty), &filter), ObjectAction::Keep);
    let prepared = prepare_object(body, &s("A"), &vec![s("B")], Some(&ty), None).unwrap();
    scan.record(file, vec![prepared]);
    scan.end_file();
    let res = scan.into_results();
    assert_eq!(res.count, 1);
    assert_eq!(res.items.len(), 1);
    let v = &res.items[0];
    assert_eq!(field(v, "_file"), Some(&Value::Str(s("A"))));
    assert_eq!(field(v, "_type"), Some(&Value::Str(s("Foo"))));
    assert_eq!(field(v, "_asm"), Some(&Value::Str(s("Assembly-CSharp"))));
    assert_eq!(
        field(v, "local"),
        Some(&obj(vec![("file", Value::Str(s("A"))), ("pathId", Value::Int(5))]))
    );
    assert_eq!(
        field(v, "external"),
        Some(&obj(vec![("file", Value::Str(s("B"))), ("pathId", Value::Int(5))]))
    );
}

#[test]
fn a_body_that_is_a_pointer_record_is_refused() {
    let body = obj(vec![("m_FileID", Value::Int(0)), ("m_PathID", Value::Int(0))]);
    let ty = foo();
    let scenes = vec![s("Menu")];
    assert_eq!(
        prepare_object(body, &s("level0"), &vec![], Some(&ty), Some(&scenes)),
        Err(QualifyError::PointerBody)
    );
    let local = obj(vec![("m_FileID", Value::Int(0)), ("m_PathID", Value::Int(4))]);
    assert_eq!(prepare_object(local, &s("A"), &vec![], None, None), Err(QualifyError::PointerBody));
}
