use vstd::prelude::*;

use crate::enrich::{enriched, entries, find_entry, has_fields, lookup, prepare_object};
use crate::filter::TypeDescriptor;
use crate::qualify_pptr::{
    file_key, path_key, pointer_free, qualifies, resolvable, QualifiedPPtr, QualifyError,
};
use crate::text::{owned, push_str};
use crate::value::Value;

verus! {

/// Why `dereference` failed on a value.
#[derive(Debug, Clone, PartialEq, Eq)]
pub enum DerefError {
    /// The input is not a qualified reference `{file, pathId}`.
    NotAReference,
    /// The target file could not be loaded or holds no such object; the
    /// text says why.
    Load(String),
    /// The target object's body is not a map with fields of its own.
    NotAnObject,
    /// A pointer inside the target object could not be resolved.
    Unresolved(QualifyError),
}

/// The target of a qualified reference: a map whose `file` is a string and
/// whose `pathId` is an integer (other entries are ignored).
pub open spec fn reference_target(v: Value) -> Option<(String, i64)> {
    match v {
        Value::Obj(m) => match (lookup(entries(m@), file_key()), lookup(entries(m@), path_key())) {
            (Some(Value::Str(f)), Some(Value::Int(id))) => Some((f, id)),
            _ => None,
        },
        _ => None,
    }
}

/// The file and object id that a query value refers to.
pub fn reference_of(v: &Value) -> (r: Result<QualifiedPPtr, DerefError>)
    ensures
        r matches Ok(t) ==> reference_target(*v) == Some((t.file, t.path_id)),
        r is Err ==> reference_target(*v) is None && r == Err::<QualifiedPPtr, DerefError>(
            DerefError::NotAReference,
        ),
{
    proof {
        reveal_strlit("file");
        reveal_strlit("pathId");
        assert("file"@ =~= file_key());
        assert("pathId"@ =~= path_key());
    }
    match v {
        Value::Obj(m) => match (find_entry(m, "file"), find_entry(m, "pathId")) {
            (Some(Value::Str(f)), Some(Value::Int(id))) => Ok(QualifiedPPtr { file: f.clone(), path_id: *id }),
            _ => Err(DerefError::NotAReference),
        },
        _ => Err(DerefError::NotAReference),
    }
}

/// Finishes a `dereference` once the target object has been read from
/// `target`: its pointers are qualified against the target file and its
/// external table, and it is enriched with the target's path and declared
/// type but no scene.
pub fn resolve_dereference(
    body: Value,
    target: &String,
    externals: &Vec<String>,
    ty: Option<&TypeDescriptor>,
) -> (r: Result<Value, DerefError>)
    ensures
        r is Ok <==> (has_fields(body) && resolvable(body, externals@)),
        !has_fields(body) ==> r == Err::<Value, DerefError>(DerefError::NotAnObject),
        r matches Ok(e) ==> exists|q: Value|
            #![trigger qualifies(body, q, *target, externals@)]
            {
                &&& qualifies(body, q, *target, externals@)
                &&& pointer_free(q)
                &&& q is Obj
                &&& e is Obj
                &&& entries(e->Obj_0@) == enriched(entries(q->Obj_0@), *target, ty, None)
            },
{
    if let Value::Obj(_) = &body {
        match prepare_object(body, target, externals, ty, None) {
            Ok(e) => Ok(e),
            Err(QualifyError::PointerBody) => Err(DerefError::NotAnObject),
            Err(err) => Err(DerefError::Unresolved(err)),
        }
    } else {
        Err(DerefError::NotAnObject)
    }
}

/// The cause part of an error's text.
pub open spec fn cause_text(e: DerefError) -> Seq<char> {
    match e {
        DerefError::NotAReference => "not a reference {file, pathId}"@,
        DerefError::Load(why) => why@,
        DerefError::NotAnObject => "the target object is not a map"@,
        DerefError::Unresolved(_) => "a pointer in the target object names no external file"@,
    }
}

impl DerefError {
    /// The text a query reports for this error.
    pub fn message(&self) -> (r: String)
        ensures
            r@ == "Cannot call `dereference`: "@ + cause_text(*self),
    {
        let mut s = owned("Cannot call `dereference`: ");
        match self {
            DerefError::NotAReference => push_str(&mut s, "not a reference {file, pathId}"),
            DerefError::Load(why) => push_str(&mut s, why.as_str()),
            DerefError::NotAnObject => push_str(&mut s, "the target object is not a map"),
            DerefError::Unresolved(_) => push_str(
                &mut s,
                "a pointer in the target object names no external file",
            ),
        }
        s
    }
}

} // verus!
