use uniscan::deref::{reference_of, resolve_dereference, DerefError};
use uniscan::enrich::find_entry;
use uniscan::filter::TypeDescriptor;
use uniscan::qualify_pptr::{QualifiedPPtr, QualifyError};
use uniscan::value::Value;

fn s(t: &str) -> String {
    t.to_string()
}

fn obj(entries: Vec<(&str, Value)>) -> Value {
    Value::Obj(entries.into_iter().map(|(k, v)| (k.to_string(), v)).collect())
}

fn field<'a>(v: &'a Value, k: &str) -> Option<&'a Value> {
    match v {
        Value::Obj(m) => find_entry(m, k),
        _ => None,
    }
}

#[test]
fn reference_of_reads_file_and_path_id() {
    let r = obj(vec![("file", Value::Str(s("B"))), ("pathId", Value::Int(5))]);
    assert_eq!(reference_of(&r), Ok(QualifiedPPtr { file: s("B"), path_id: 5 }));
    let with_class = obj(vec![
        ("classId", Value::Str(s("MonoBehaviour"))),
        ("pathId", Value::Int(-2)),
        ("file", Value::Str(s("C"))),
    ]);
    assert_eq!(reference_of(&with_class), Ok(QualifiedPPtr { file: s("C"), path_id: -2 }));
}

#[test]
fn non_references_are_rejected() {
    assert_eq!(reference_of(&Value::Int(3)), Err(DerefError::NotAReference));
    assert_eq!(reference_of(&Value::Null), Err(DerefError::NotAReference));
    let bad = obj(vec![("file", Value::Int(1)), ("pathId", Value::Int(5))]);
    assert_eq!(reference_of(&bad), Err(DerefError::NotAReference));
    let missing = obj(vec![("file", Value::Str(s("B")))]);
    assert_eq!(reference_of(&missing), Err(DerefError::NotAReference));
}

/// `.ptr | dereference | .name` where `.ptr` refers to B#5 whose `name` is "bar".
#[test]
fn dereference_then_field_yields_name() {
    let input = obj(vec![(
        "ptr",
        obj(vec![("file", Value::Str(s("B"))), ("pathId", Value::Int(5))]),
    )]);
    let ptr = field(&input, "ptr").unwrap();
    let QualifiedPPtr { file, path_id } = reference_of(ptr).unwrap();
    assert_eq!(path_id, 5);
    let body = obj(vec![("name", Value::Str(s("bar")))]);
    let ty = TypeDescriptor { full_name: s("Bar"), assembly: s("Asm") };
    let target = resolve_dereference(body, &file, &vec![], Some(&ty)).unwrap();
    let outputs: Vec<&Value> = field(&target, "name").into_iter().collect();
    assert_eq!(outputs, vec![&Value::Str(s("bar"))]);
    assert_eq!(field(&target, "_file"), Some(&Value::Str(s("B"))));
    assert_eq!(field(&target, "_scene"), None);
}

#[test]
fn dereferenced_object_is_qualified_against_its_own_file() {
    let body = obj(vec![
        ("here", obj(vec![("m_FileID", Value::Int(0)), ("m_PathID", Value::Int(2))])),
        ("there", obj(vec![("m_FileID", Value::Int(1)), ("m_PathID", Value::Int(3))])),
    ]);
    let r = resolve_dereference(body, &s("B"), &vec![s("C")], None).unwrap();
    assert_eq!(
        field(&r, "here"),
        Some(&obj(vec![("file", Value::Str(s("B"))), ("pathId", Value::Int(2))]))
    );
    assert_eq!(
        field(&r, "there"),
        Some(&obj(vec![("file", Value::Str(s("C"))), ("pathId", Value::Int(3))]))
    );
}

#[test]
fn dereference_errors() {
    assert_eq!(
        resolve_dereference(Value::Int(1), &s("B"), &vec![], None),
        Err(DerefError::NotAnObject)
    );
    let body = obj(vec![("p", obj(vec![("m_FileID", Value::Int(1)), ("m_PathID", Value::Int(3))]))]);
    assert_eq!(
        resolve_dereference(body, &s("B"), &vec![], None),
        Err(DerefError::Unresolved(QualifyError::UnresolvedExternal { file_index: 1 }))
    );
}

#[test]
fn error_messages_name_the_cause() {
    assert_eq!(
        DerefError::NotAReference.message(),
        "Cannot call `dereference`: not a reference {file, pathId}"
    );
    assert_eq!(
        DerefError::Load(s("file not found")).message(),
        "Cannot call `dereference`: file not found"
    );
}

#[test]
fn dereferenced_pointer_record_is_not_an_object() {
    let body = obj(vec![("m_FileID", Value::Int(0)), ("m_PathID", Value::Int(0))]);
    assert_eq!(resolve_dereference(body, &s("B"), &vec![], None), Err(DerefError::NotAnObject));
}
