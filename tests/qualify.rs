use uniscan::qualify_pptr::{
    pointer_of, qualify_pptrs, qualify_pptrs_with_classes, QualifyError, RawPointer,
};
use uniscan::value::Value;

fn s(t: &str) -> String {
    t.to_string()
}

fn obj(entries: Vec<(&str, Value)>) -> Value {
    Value::Obj(entries.into_iter().map(|(k, v)| (k.to_string(), v)).collect())
}

fn pptr(file: i64, path: i64) -> Value {
    obj(vec![("m_FileID", Value::Int(file)), ("m_PathID", Value::Int(path))])
}

fn reference(file: &str, path: i64) -> Value {
    obj(vec![("file", Value::Str(s(file))), ("pathId", Value::Int(path))])
}

#[test]
fn null_pointer_becomes_null() {
    let r = qualify_pptrs(pptr(0, 0), &s("A"), &vec![]);
    assert_eq!(r, Ok(Value::Null));
}

#[test]
fn null_pointer_inside_object_becomes_null() {
    let v = obj(vec![("m_Script", pptr(0, 0)), ("name", Value::Str(s("x")))]);
    let r = qualify_pptrs(v, &s("A"), &vec![s("B")]).unwrap();
    assert_eq!(r, obj(vec![("m_Script", Value::Null), ("name", Value::Str(s("x")))]));
}

#[test]
fn local_pointer_uses_current_file() {
    let r = qualify_pptrs(pptr(0, 5), &s("A"), &vec![s("B")]);
    assert_eq!(r, Ok(reference("A", 5)));
}

#[test]
fn local_pointer_with_negative_id_uses_current_file() {
    let r = qualify_pptrs(pptr(0, -7), &s("level1"), &vec![]);
    assert_eq!(r, Ok(reference("level1", -7)));
}

#[test]
fn external_pointer_uses_external_table() {
    let ext = vec![s("B"), s("C")];
    assert_eq!(qualify_pptrs(pptr(1, 5), &s("A"), &ext), Ok(reference("B", 5)));
    assert_eq!(qualify_pptrs(pptr(2, 9), &s("A"), &ext), Ok(reference("C", 9)));
}

#[test]
fn external_pointer_out_of_range_fails() {
    let ext = vec![s("B")];
    assert_eq!(
        qualify_pptrs(pptr(2, 5), &s("A"), &ext),
        Err(QualifyError::UnresolvedExternal { file_index: 2 })
    );
    assert_eq!(
        qualify_pptrs(pptr(-1, 5), &s("A"), &ext),
        Err(QualifyError::UnresolvedExternal { file_index: -1 })
    );
}

#[test]
fn unresolved_pointer_deep_inside_fails_whole_value() {
    let v = Value::Arr(vec![pptr(0, 1), obj(vec![("child", pptr(3, 1))])]);
    assert_eq!(
        qualify_pptrs(v, &s("A"), &vec![]),
        Err(QualifyError::UnresolvedExternal { file_index: 3 })
    );
}

#[test]
fn reversed_key_order_is_a_pointer() {
    let v = obj(vec![("m_PathID", Value::Int(4)), ("m_FileID", Value::Int(1))]);
    assert_eq!(qualify_pptrs(v, &s("A"), &vec![s("B")]), Ok(reference("B", 4)));
}

#[test]
fn other_two_field_maps_are_not_pointers() {
    let v = obj(vec![("m_FileID", Value::Int(0)), ("m_Other", Value::Int(3))]);
    let again = obj(vec![("m_FileID", Value::Int(0)), ("m_Other", Value::Int(3))]);
    assert_eq!(qualify_pptrs(v, &s("A"), &vec![]), Ok(again));
    let three = obj(vec![
        ("m_FileID", Value::Int(0)),
        ("m_PathID", Value::Int(3)),
        ("x", Value::Bool(true)),
    ]);
    let kept = obj(vec![
        ("m_FileID", Value::Int(0)),
        ("m_PathID", Value::Int(3)),
        ("x", Value::Bool(true)),
    ]);
    assert_eq!(qualify_pptrs(three, &s("A"), &vec![]), Ok(kept));
    let text_id = obj(vec![("m_FileID", Value::Int(0)), ("m_PathID", Value::Str(s("3")))]);
    assert_eq!(pointer_of(match &text_id {
        Value::Obj(m) => m,
        _ => unreachable!(),
    }), None);
}

#[test]
fn pointer_of_reads_both_fields() {
    let m = vec![(s("m_FileID"), Value::Int(2)), (s("m_PathID"), Value::Int(-3))];
    assert_eq!(pointer_of(&m), Some(RawPointer { file_index: 2, local_id: -3 }));
}

#[test]
fn arrays_are_qualified_element_wise() {
    let v = Value::Arr(vec![pptr(0, 1), Value::Int(3), pptr(1, 2), pptr(0, 0)]);
    let r = qualify_pptrs(v, &s("A"), &vec![s("B")]).unwrap();
    assert_eq!(
        r,
        Value::Arr(vec![reference("A", 1), Value::Int(3), reference("B", 2), Value::Null])
    );
}

#[test]
fn qualifying_twice_changes_nothing() {
    let v = obj(vec![
        ("a", pptr(0, 1)),
        ("b", Value::Arr(vec![pptr(1, 2), pptr(0, 0)])),
        ("c", Value::Num(s("1.5"))),
    ]);
    let once = qualify_pptrs(v, &s("A"), &vec![s("B")]).unwrap();
    let copy = qualify_pptrs(
        obj(vec![
            ("a", pptr(0, 1)),
            ("b", Value::Arr(vec![pptr(1, 2), pptr(0, 0)])),
            ("c", Value::Num(s("1.5"))),
        ]),
        &s("A"),
        &vec![s("B")],
    )
    .unwrap();
    let twice = qualify_pptrs(once, &s("Z"), &vec![]).unwrap();
    assert_eq!(twice, copy);
}

#[test]
fn class_ids_are_recorded_when_asked_for() {
    let class_of = |file: &String, id: i64| -> Option<String> {
        if file == "B" && id == 5 {
            Some("MonoBehaviour".to_string())
        } else {
            None
        }
    };
    let v = obj(vec![("ext", pptr(1, 5)), ("local", pptr(0, 2)), ("none", pptr(0, 0))]);
    let r = qualify_pptrs_with_classes(v, &s("A"), &vec![s("B")], &class_of)
        .unwrap();
    assert_eq!(
        r,
        obj(vec![
            (
                "ext",
                obj(vec![
                    ("file", Value::Str(s("B"))),
                    ("pathId", Value::Int(5)),
                    ("classId", Value::Str(s("MonoBehaviour"))),
                ])
            ),
            ("local", reference("A", 2)),
            ("none", Value::Null),
        ])
    );
    let bad = qualify_pptrs_with_classes(pptr(2, 1), &s("A"), &vec![], &class_of);
    assert_eq!(bad, Err(QualifyError::UnresolvedExternal { file_index: 2 }));
}
