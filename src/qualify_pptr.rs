use vstd::prelude::*;

use crate::text::{owned, text_eq};
use crate::value::Value;

verus! {

broadcast use vstd::std_specs::vec::group_vec_axioms, vstd::seq::group_seq_axioms;

/// A pointer record as the container stores it: an index into the owning
/// file's table of external files (zero for the file itself) and an object id.
#[derive(Debug, Clone, Copy, PartialEq, Eq)]
pub struct RawPointer {
    pub file_index: i64,
    pub local_id: i64,
}

/// A reference valid wherever it is found: a file path and the id of an
/// object in that file.
#[derive(Debug, Clone, PartialEq, Eq)]
pub struct QualifiedPPtr {
    pub file: String,
    pub path_id: i64,
}

/// Why a tree could not be qualified.
#[derive(Debug, Clone, Copy, PartialEq, Eq)]
pub enum QualifyError {
    /// A pointer names an entry that the external-file table does not hold.
    UnresolvedExternal { file_index: i64 },
    /// An object body is itself a pointer record, so it has no fields of
    /// its own to enrich.
    PointerBody,
}

pub open spec fn file_id_key() -> Seq<char> {
    seq!['m', '_', 'F', 'i', 'l', 'e', 'I', 'D']
}

pub open spec fn path_id_key() -> Seq<char> {
    seq!['m', '_', 'P', 'a', 't', 'h', 'I', 'D']
}

pub open spec fn file_key() -> Seq<char> {
    seq!['f', 'i', 'l', 'e']
}

pub open spec fn path_key() -> Seq<char> {
    seq!['p', 'a', 't', 'h', 'I', 'd']
}

/// The pointer that a map stands for: exactly two entries, named `m_FileID`
/// and `m_PathID` in either order, both integers.
pub open spec fn raw_pointer(m: Seq<(String, Value)>) -> Option<RawPointer> {
    if m.len() == 2 {
        if m[0].0@ == file_id_key() && m[1].0@ == path_id_key() {
            match (m[0].1, m[1].1) {
                (Value::Int(f), Value::Int(p)) => Some(RawPointer { file_index: f, local_id: p }),
                _ => None,
            }
        } else if m[0].0@ == path_id_key() && m[1].0@ == file_id_key() {
            match (m[1].1, m[0].1) {
                (Value::Int(f), Value::Int(p)) => Some(RawPointer { file_index: f, local_id: p }),
                _ => None,
            }
        } else {
            None
        }
    } else {
        None
    }
}

pub open spec fn is_null_pointer(p: RawPointer) -> bool {
    p.file_index == 0 && p.local_id == 0
}

/// The file a pointer lands in: the current file for index zero, entry
/// `index - 1` of the external table otherwise.
pub open spec fn target_file(p: RawPointer, current: String, externals: Seq<String>) -> Option<
    String,
> {
    if p.file_index == 0 {
        Some(current)
    } else if 1 <= p.file_index <= externals.len() {
        Some(externals[p.file_index - 1])
    } else {
        None
    }
}

/// `r` is the qualified reference `{file, pathId}`.
pub open spec fn is_reference(r: Value, file: String, path_id: i64) -> bool {
    &&& r matches Value::Obj(m)
    &&& m@.len() == 2
    &&& m@[0].0@ == file_key()
    &&& m@[0].1 == Value::Str(file)
    &&& m@[1].0@ == path_key()
    &&& m@[1].1 == Value::Int(path_id)
}

/// What a pointer becomes: `null` for the null sentinel, else a reference.
pub open spec fn pointer_qualifies(
    p: RawPointer,
    r: Value,
    current: String,
    externals: Seq<String>,
) -> bool {
    if is_null_pointer(p) {
        r == Value::Null
    } else {
        match target_file(p, current, externals) {
            Some(f) => is_reference(r, f, p.local_id),
            None => false,
        }
    }
}

pub open spec fn pointer_resolvable(p: RawPointer, externals: Seq<String>) -> bool {
    is_null_pointer(p) || p.file_index == 0 || 1 <= p.file_index <= externals.len()
}

/// Every pointer record in `v` can be resolved against `externals`.
pub open spec fn resolvable(v: Value, externals: Seq<String>) -> bool
    decreases v,
{
    match v {
        Value::Arr(xs) => forall|i: int| 0 <= i < xs@.len() ==> resolvable(#[trigger] xs@[i], externals),
        Value::Obj(m) => match raw_pointer(m@) {
            Some(p) => pointer_resolvable(p, externals),
            None => forall|i: int| 0 <= i < m@.len() ==> resolvable(#[trigger] m@[i].1, externals),
        },
        _ => true,
    }
}

/// No map in `v` has the pointer-record shape.
pub open spec fn pointer_free(v: Value) -> bool
    decreases v,
{
    match v {
        Value::Arr(xs) => forall|i: int| 0 <= i < xs@.len() ==> pointer_free(#[trigger] xs@[i]),
        Value::Obj(m) => raw_pointer(m@) is None && forall|i: int|
            0 <= i < m@.len() ==> pointer_free(#[trigger] m@[i].1),
        _ => true,
    }
}

/// `r` is `v` with each pointer record replaced by what it qualifies to:
/// arrays element by element, maps that are no pointer value by value with
/// their keys kept, everything else unchanged.
pub open spec fn qualifies(v: Value, r: Value, current: String, externals: Seq<String>) -> bool
    decreases v,
{
    match v {
        Value::Arr(xs) => {
            &&& r matches Value::Arr(ys)
            &&& ys@.len() == xs@.len()
            &&& forall|i: int|
                0 <= i < xs@.len() ==> qualifies(#[trigger] xs@[i], ys@[i], current, externals)
        },
        Value::Obj(m) => match raw_pointer(m@) {
            Some(p) => pointer_qualifies(p, r, current, externals),
            None => {
                &&& r matches Value::Obj(n)
                &&& n@.len() == m@.len()
                &&& forall|i: int|
                    0 <= i < m@.len() ==> n@[i].0 == m@[i].0 && qualifies(
                        #[trigger] m@[i].1,
                        n@[i].1,
                        current,
                        externals,
                    )
            },
        },
        _ => r == v,
    }
}


/// The pointer that an entry list stands for, if it has the pointer shape.
pub fn pointer_of(m: &Vec<(String, Value)>) -> (r: Option<RawPointer>)
    ensures
        r == raw_pointer(m@),
{
    proof {
        reveal_strlit("m_FileID");
        reveal_strlit("m_PathID");
        assert("m_FileID"@ =~= file_id_key());
        assert("m_PathID"@ =~= path_id_key());
    }
    if m.len() != 2 {
        return None;
    }
    let file_first = text_eq(m[0].0.as_str(), "m_FileID") && text_eq(m[1].0.as_str(), "m_PathID");
    let path_first = text_eq(m[0].0.as_str(), "m_PathID") && text_eq(m[1].0.as_str(), "m_FileID");
    let (fi, pi) = if file_first {
        (0usize, 1usize)
    } else if path_first {
        (1usize, 0usize)
    } else {
        return None;
    };
    match (&m[fi].1, &m[pi].1) {
        (Value::Int(f), Value::Int(p)) => Some(RawPointer { file_index: *f, local_id: *p }),
        _ => None,
    }
}

/// The value a non-null pointer qualifies to.
fn reference_value(file: String, path_id: i64) -> (r: Value)
    ensures
        is_reference(r, file, path_id),
{
    let mut m: Vec<(String, Value)> = Vec::new();
    m.push(("file".to_owned(), Value::Str(file)));
    m.push(("pathId".to_owned(), Value::Int(path_id)));
    proof {
        reveal_strlit("file");
        reveal_strlit("pathId");
        assert("file"@ =~= file_key());
        assert("pathId"@ =~= path_key());
    }
    Value::Obj(m)
}

/// Replaces each pointer record in `v` by `null` (the null sentinel) or by a
/// qualified reference `{file, pathId}`, where `file` is `current` for a
/// local pointer and the external table's entry `file_index - 1` otherwise.
/// Fails exactly when some pointer names no entry of the table.
pub fn qualify_pptrs(v: Value, current: &String, externals: &Vec<String>) -> (r: Result<
    Value,
    QualifyError,
>)
    ensures
        r is Ok <==> resolvable(v, externals@),
        r matches Ok(q) ==> qualifies(v, q, *current, externals@) && pointer_free(q),
    decreases v,
{
    let ghost gv = v;
    match v {
        Value::Arr(mut xs) => {
            let ghost old_xs = xs@;
            let mut i: usize = 0;
            while i < xs.len()
                invariant
                    xs@.len() == old_xs.len(),
                    0 <= i <= xs@.len(),
                    gv == v,
                    gv matches Value::Arr(g) && g@ == old_xs,
                    forall|j: int| 0 <= j < i ==> resolvable(#[trigger] old_xs[j], externals@),
                    forall|j: int|
                        0 <= j < i ==> qualifies(#[trigger] old_xs[j], xs@[j], *current, externals@),
                    forall|j: int| 0 <= j < i ==> pointer_free(#[trigger] xs@[j]),
                    forall|j: int| i <= j < xs@.len() ==> #[trigger] xs@[j] == old_xs[j],
                decreases xs@.len() - i,
            {
                let mut item = Value::Null;
                std::mem::swap(&mut item, &mut xs[i]);
                proof {
                    let g = gv->Arr_0;
                    assert(decreases_to!(gv => g));
                    assert(decreases_to!(g => g@));
                    assert(decreases_to!(g@ => g@[i as int]));
                    assert(item == g@[i as int]);
                    assert(decreases_to!(gv => item));
                }
                match qualify_pptrs(item, current, externals) {
                    Ok(q) => {
                        xs[i] = q;
                    },
                    Err(e) => {
                        assert(!resolvable(old_xs[i as int], externals@));
                        return Err(e);
                    },
                }
                i += 1;
            }
            let r = Value::Arr(xs);
            assert(qualifies(gv, r, *current, externals@));
            assert(pointer_free(r));
            Ok(r)
        },
        Value::Obj(mut m) => {
            match pointer_of(&m) {
                Some(p) => {
                    if p.file_index == 0 && p.local_id == 0 {
                        Ok(Value::Null)
                    } else if p.file_index == 0 {
                        let r = reference_value(current.clone(), p.local_id);
                        proof {
                            lemma_reference_pointer_free(r, *current, p.local_id);
                        }
                        Ok(r)
                    } else if 1 <= p.file_index && p.file_index as u64 <= externals.len() as u64 {
                        let f = externals[(p.file_index - 1) as usize].clone();
                        let r = reference_value(f, p.local_id);
                        proof {
                            lemma_reference_pointer_free(r, f, p.local_id);
                        }
                        Ok(r)
                    } else {
                        Err(QualifyError::UnresolvedExternal { file_index: p.file_index })
                    }
                },
                None => {
                    let ghost old_m = m@;
                    let mut i: usize = 0;
                    while i < m.len()
                        invariant
                            m@.len() == old_m.len(),
                            0 <= i <= m@.len(),
                            gv == v,
                            gv matches Value::Obj(g) && g@ == old_m,
                            raw_pointer(old_m) is None,
                            forall|j: int|
                                0 <= j < i ==> resolvable(#[trigger] old_m[j].1, externals@),
                            forall|j: int|
                                0 <= j < i ==> (#[trigger] m@[j]).0 == old_m[j].0 && qualifies(
                                    old_m[j].1,
                                    m@[j].1,
                                    *current,
                                    externals@,
                                ) && pointer_free(m@[j].1),
                            forall|j: int| i <= j < m@.len() ==> #[trigger] m@[j] == old_m[j],
                        decreases m@.len() - i,
                    {
                        let mut item = Value::Null;
                        std::mem::swap(&mut item, &mut m[i].1);
                        proof {
                            let g = gv->Obj_0;
                            assert(decreases_to!(gv => g));
                            assert(decreases_to!(g => g@));
                            assert(decreases_to!(g@ => g@[i as int]));
                            assert(decreases_to!(g@[i as int] => g@[i as int].1));
                            assert(item == g@[i as int].1);
                            assert(decreases_to!(gv => item));
                        }
                        match qualify_pptrs(item, current, externals) {
                            Ok(q) => {
                                m[i].1 = q;
                            },
                            Err(e) => {
                                assert(!resolvable(old_m[i as int].1, externals@));
                                return Err(e);
                            },
                        }
                        i += 1;
                    }
                    proof {
                        lemma_same_shape_no_pointer(old_m, m@, *current, externals@);
                    }
                    let r = Value::Obj(m);
                    assert(qualifies(gv, r, *current, externals@));
                    assert(pointer_free(r));
                    Ok(r)
                },
            }
        },
        other => Ok(other),
    }
}

pub open spec fn class_key() -> Seq<char> {
    seq!['c', 'l', 'a', 's', 's', 'I', 'd']
}

/// `r` is the qualified reference `{file, pathId, classId}`.
pub open spec fn is_class_reference(r: Value, file: String, path_id: i64, class: String) -> bool {
    &&& r matches Value::Obj(m)
    &&& m@.len() == 3
    &&& m@[0].0@ == file_key()
    &&& m@[0].1 == Value::Str(file)
    &&& m@[1].0@ == path_key()
    &&& m@[1].1 == Value::Int(path_id)
    &&& m@[2].0@ == class_key()
    &&& m@[2].1 == Value::Str(class)
}

/// What a non-null pointer to object `path_id` of `file` becomes when class
/// names are looked up: the reference with the class `class_of` gave, or the
/// plain reference when it gave none.
pub open spec fn class_reference_for<F: Fn(&String, i64) -> Option<String>>(
    r: Value,
    file: String,
    path_id: i64,
    class_of: F,
) -> bool {
    ||| class_of.ensures((&file, path_id), None) && is_reference(r, file, path_id)
    ||| exists|c: String|
        class_of.ensures((&file, path_id), Some(c)) && #[trigger] is_class_reference(
            r,
            file,
            path_id,
            c,
        )
}

/// Like `qualifies`, with each non-null pointer's reference carrying the
/// class name that `class_of` looked up for it.
pub open spec fn qualifies_with_classes<F: Fn(&String, i64) -> Option<String>>(
    v: Value,
    r: Value,
    current: String,
    externals: Seq<String>,
    class_of: F,
) -> bool
    decreases v,
{
    match v {
        Value::Arr(xs) => {
            &&& r matches Value::Arr(ys)
            &&& ys@.len() == xs@.len()
            &&& forall|i: int|
                0 <= i < xs@.len() ==> qualifies_with_classes(
                    #[trigger] xs@[i],
                    ys@[i],
                    current,
                    externals,
                    class_of,
                )
        },
        Value::Obj(m) => match raw_pointer(m@) {
            Some(p) => if is_null_pointer(p) {
                r == Value::Null
            } else {
                match target_file(p, current, externals) {
                    Some(f) => class_reference_for(r, f, p.local_id, class_of),
                    None => false,
                }
            },
            None => {
                &&& r matches Value::Obj(n)
                &&& n@.len() == m@.len()
                &&& forall|i: int|
                    0 <= i < m@.len() ==> n@[i].0 == m@[i].0 && qualifies_with_classes(
                        #[trigger] m@[i].1,
                        n@[i].1,
                        current,
                        externals,
                        class_of,
                    )
            },
        },
        _ => r == v,
    }
}

/// The reference for a non-null pointer, with the class `class_of` finds.
fn class_reference_value<F: Fn(&String, i64) -> Option<String>>(
    file: String,
    path_id: i64,
    class_of: &F,
) -> (r: Value)
    requires
        class_of.requires((&file, path_id)),
    ensures
        class_reference_for(r, file, path_id, *class_of),
        r is Obj,
        pointer_free(r),
{
    let class = class_of(&file, path_id);
    match class {
        Some(c) => {
            let ghost gc = c;
            let mut m: Vec<(String, Value)> = Vec::new();
            m.push((owned("file"), Value::Str(file)));
            m.push((owned("pathId"), Value::Int(path_id)));
            m.push((owned("classId"), Value::Str(c)));
            proof {
                reveal_strlit("file");
                reveal_strlit("pathId");
                reveal_strlit("classId");
                assert("file"@ =~= file_key());
                assert("pathId"@ =~= path_key());
                assert("classId"@ =~= class_key());
            }
            let r = Value::Obj(m);
            assert(is_class_reference(r, file, path_id, gc));
            assert(pointer_free(m@[0].1) && pointer_free(m@[1].1) && pointer_free(m@[2].1));
            r
        },
        None => {
            let r = reference_value(file, path_id);
            proof {
                lemma_reference_pointer_free(r, file, path_id);
            }
            r
        },
    }
}

/// Qualifies like `qualify_pptrs` and also records in each reference the
/// class name of the object it points to, as `class_of` looks it up (no
/// entry when it finds none). Slower: one lookup per pointer.
pub fn qualify_pptrs_with_classes<F: Fn(&String, i64) -> Option<String>>(
    v: Value,
    current: &String,
    externals: &Vec<String>,
    class_of: &F,
) -> (r: Result<Value, QualifyError>)
    requires
        forall|f: &String, id: i64| class_of.requires((f, id)),
    ensures
        r is Ok <==> resolvable(v, externals@),
        r matches Ok(q) ==> qualifies_with_classes(v, q, *current, externals@, *class_of)
            && pointer_free(q),
    decreases v,
{
    let ghost gv = v;
    match v {
        Value::Arr(mut xs) => {
            let ghost old_xs = xs@;
            let mut i: usize = 0;
            while i < xs.len()
                invariant
                    forall|f: &String, id: i64| class_of.requires((f, id)),
                    xs@.len() == old_xs.len(),
                    0 <= i <= xs@.len(),
                    gv == v,
                    gv matches Value::Arr(g) && g@ == old_xs,
                    forall|j: int| 0 <= j < i ==> resolvable(#[trigger] old_xs[j], externals@),
                    forall|j: int|
                        0 <= j < i ==> qualifies_with_classes(
                            #[trigger] old_xs[j],
                            xs@[j],
                            *current,
                            externals@,
                            *class_of,
                        ),
                    forall|j: int| 0 <= j < i ==> pointer_free(#[trigger] xs@[j]),
                    forall|j: int| i <= j < xs@.len() ==> #[trigger] xs@[j] == old_xs[j],
                decreases xs@.len() - i,
            {
                let mut item = Value::Null;
                std::mem::swap(&mut item, &mut xs[i]);
                proof {
                    let g = gv->Arr_0;
                    assert(decreases_to!(gv => g));
                    assert(decreases_to!(g => g@));
                    assert(decreases_to!(g@ => g@[i as int]));
                    assert(item == g@[i as int]);
                    assert(decreases_to!(gv => item));
                }
                match qualify_pptrs_with_classes(item, current, externals, class_of) {
                    Ok(q) => {
                        xs[i] = q;
                    },
                    Err(e) => {
                        assert(!resolvable(old_xs[i as int], externals@));
                        return Err(e);
                    },
                }
                i += 1;
            }
            let r = Value::Arr(xs);
            assert(qualifies_with_classes(gv, r, *current, externals@, *class_of));
            assert(pointer_free(r));
            Ok(r)
        },
        Value::Obj(mut m) => {
            match pointer_of(&m) {
                Some(p) => {
                    if p.file_index == 0 && p.local_id == 0 {
                        Ok(Value::Null)
                    } else if p.file_index == 0 {
                        Ok(class_reference_value(current.clone(), p.local_id, class_of))
                    } else if 1 <= p.file_index && p.file_index as u64 <= externals.len() as u64 {
                        let f = externals[(p.file_index - 1) as usize].clone();
                        Ok(class_reference_value(f, p.local_id, class_of))
                    } else {
                        Err(QualifyError::UnresolvedExternal { file_index: p.file_index })
                    }
                },
                None => {
                    let ghost old_m = m@;
                    let mut i: usize = 0;
                    while i < m.len()
                        invariant
                            forall|f: &String, id: i64| class_of.requires((f, id)),
                            m@.len() == old_m.len(),
                            0 <= i <= m@.len(),
                            gv == v,
                            gv matches Value::Obj(g) && g@ == old_m,
                            raw_pointer(old_m) is None,
                            forall|j: int|
                                0 <= j < i ==> resolvable(#[trigger] old_m[j].1, externals@),
                            forall|j: int|
                                0 <= j < i ==> (#[trigger] m@[j]).0 == old_m[j].0
                                    && qualifies_with_classes(
                                    old_m[j].1,
                                    m@[j].1,
                                    *current,
                                    externals@,
                                    *class_of,
                                ) && pointer_free(m@[j].1),
                            forall|j: int| i <= j < m@.len() ==> #[trigger] m@[j] == old_m[j],
                        decreases m@.len() - i,
                    {
                        let mut item = Value::Null;
                        std::mem::swap(&mut item, &mut m[i].1);
                        proof {
                            let g = gv->Obj_0;
                            assert(decreases_to!(gv => g));
                            assert(decreases_to!(g => g@));
                            assert(decreases_to!(g@ => g@[i as int]));
                            assert(decreases_to!(g@[i as int] => g@[i as int].1));
                            assert(item == g@[i as int].1);
                            assert(decreases_to!(gv => item));
                        }
                        match qualify_pptrs_with_classes(item, current, externals, class_of) {
                            Ok(q) => {
                                m[i].1 = q;
                            },
                            Err(e) => {
                                assert(!resolvable(old_m[i as int].1, externals@));
                                return Err(e);
                            },
                        }
                        i += 1;
                    }
                    proof {
                        lemma_same_shape_no_pointer_with_classes(
                            old_m,
                            m@,
                            *current,
                            externals@,
                            *class_of,
                        );
                    }
                    let r = Value::Obj(m);
                    assert(qualifies_with_classes(gv, r, *current, externals@, *class_of));
                    assert(pointer_free(r));
                    Ok(r)
                },
            }
        },
        other => Ok(other),
    }
}

proof fn lemma_keeps_ints_with_classes<F: Fn(&String, i64) -> Option<String>>(
    v: Value,
    r: Value,
    current: String,
    externals: Seq<String>,
    class_of: F,
)
    requires
        qualifies_with_classes(v, r, current, externals, class_of),
    ensures
        (r is Int) <==> (v is Int),
        v is Int ==> r == v,
{
    match v {
        Value::Obj(m) => {
            if let Some(p) = raw_pointer(m@) {
                if !is_null_pointer(p) {
                    let f = target_file(p, current, externals)->0;
                    if !(class_of.ensures((&f, p.local_id), None) && is_reference(r, f, p.local_id)) {
                        let c = choose|c: String|
                            class_of.ensures((&f, p.local_id), Some(c)) && #[trigger] is_class_reference(
                                r,
                                f,
                                p.local_id,
                                c,
                            );
                    }
                    assert(r is Obj);
                }
            }
        },
        _ => {},
    }
}

proof fn lemma_same_shape_no_pointer_with_classes<F: Fn(&String, i64) -> Option<String>>(
    m: Seq<(String, Value)>,
    n: Seq<(String, Value)>,
    current: String,
    externals: Seq<String>,
    class_of: F,
)
    requires
        raw_pointer(m) is None,
        n.len() == m.len(),
        forall|j: int|
            0 <= j < m.len() ==> (#[trigger] n[j]).0 == m[j].0 && qualifies_with_classes(
                m[j].1,
                n[j].1,
                current,
                externals,
                class_of,
            ),
    ensures
        raw_pointer(n) is None,
{
    if m.len() == 2 {
        assert(n[0].0 == m[0].0 && n[1].0 == m[1].0);
        lemma_keeps_ints_with_classes(m[0].1, n[0].1, current, externals, class_of);
        lemma_keeps_ints_with_classes(m[1].1, n[1].1, current, externals, class_of);
    }
}

/// A qualified reference holds no pointer record.
proof fn lemma_reference_pointer_free(r: Value, file: String, path_id: i64)
    requires
        is_reference(r, file, path_id),
    ensures
        pointer_free(r),
{
    let m = r->Obj_0;
    assert(m@[0].0@ != file_id_key());
    assert(m@[0].0@ != path_id_key());
    assert(m@[1].1 is Int);
    assert(pointer_free(m@[0].1));
    assert(pointer_free(m@[1].1));
}

/// Qualification keeps integers as they are and makes no integer of
/// anything else.
proof fn lemma_qualify_keeps_ints(v: Value, r: Value, current: String, externals: Seq<String>)
    requires
        qualifies(v, r, current, externals),
    ensures
        (r is Int) <==> (v is Int),
        v is Int ==> r == v,
{
    match v {
        Value::Obj(m) => {
            if let Some(p) = raw_pointer(m@) {
                if !is_null_pointer(p) {
                    assert(r is Obj);
                }
            }
        },
        _ => {},
    }
}

/// A map whose values were qualified one by one keeps its (absent) pointer
/// shape.
proof fn lemma_same_shape_no_pointer(
    m: Seq<(String, Value)>,
    n: Seq<(String, Value)>,
    current: String,
    externals: Seq<String>,
)
    requires
        raw_pointer(m) is None,
        n.len() == m.len(),
        forall|j: int|
            0 <= j < m.len() ==> (#[trigger] n[j]).0 == m[j].0 && qualifies(
                m[j].1,
                n[j].1,
                current,
                externals,
            ),
    ensures
        raw_pointer(n) is None,
{
    if m.len() == 2 {
        assert(n[0].0 == m[0].0 && n[1].0 == m[1].0);
        lemma_qualify_keeps_ints(m[0].1, n[0].1, current, externals);
        lemma_qualify_keeps_ints(m[1].1, n[1].1, current, externals);
    }
}

/// `a` and `b` are the same tree: equal leaves, and containers of the same
/// length whose keys hold the same characters and whose children are the same.
pub open spec fn same_tree(a: Value, b: Value) -> bool
    decreases a,
{
    match a {
        Value::Arr(xs) => {
            &&& b matches Value::Arr(ys)
            &&& ys@.len() == xs@.len()
            &&& forall|i: int| 0 <= i < xs@.len() ==> same_tree(#[trigger] xs@[i], ys@[i])
        },
        Value::Obj(m) => {
            &&& b matches Value::Obj(n)
            &&& n@.len() == m@.len()
            &&& forall|i: int|
                0 <= i < m@.len() ==> (#[trigger] m@[i]).0@ == n@[i].0@ && same_tree(m@[i].1, n@[i].1)
        },
        _ => b == a,
    }
}

/// Whatever qualification produces holds no pointer record.
pub proof fn lemma_qualified_is_pointer_free(
    v: Value,
    q: Value,
    current: String,
    externals: Seq<String>,
)
    requires
        qualifies(v, q, current, externals),
    ensures
        pointer_free(q),
    decreases v,
{
    match v {
        Value::Arr(xs) => {
            let ys = q->Arr_0;
            assert forall|i: int| 0 <= i < ys@.len() implies pointer_free(#[trigger] ys@[i]) by {
                lemma_qualified_is_pointer_free(xs@[i], ys@[i], current, externals);
            }
        },
        Value::Obj(m) => {
            match raw_pointer(m@) {
                Some(p) => {
                    if !is_null_pointer(p) {
                        let f = target_file(p, current, externals)->0;
                        lemma_reference_pointer_free(q, f, p.local_id);
                    }
                },
                None => {
                    let n = q->Obj_0;
                    assert forall|i: int| 0 <= i < n@.len() implies pointer_free(
                        #[trigger] n@[i].1,
                    ) by {
                        assert(m@[i].0 == n@[i].0);
                        lemma_qualified_is_pointer_free(m@[i].1, n@[i].1, current, externals);
                    }
                    assert forall|j: int| 0 <= j < m@.len() implies (#[trigger] n@[j]).0 == m@[j].0
                        && qualifies(m@[j].1, n@[j].1, current, externals) by {
                        assert(qualifies(m@[j].1, n@[j].1, current, externals));
                    }
                    lemma_same_shape_no_pointer(m@, n@, current, externals);
                },
            }
        },
        _ => {},
    }
}

/// A tree without pointer records resolves against any table, and each of
/// its qualifications is the tree itself.
pub proof fn lemma_pointer_free_fixed(
    v: Value,
    r: Value,
    current: String,
    externals: Seq<String>,
)
    requires
        pointer_free(v),
    ensures
        resolvable(v, externals),
        qualifies(v, r, current, externals) ==> same_tree(r, v),
    decreases v,
{
    match v {
        Value::Arr(xs) => {
            assert forall|i: int| 0 <= i < xs@.len() implies resolvable(
                #[trigger] xs@[i],
                externals,
            ) by {
                lemma_pointer_free_fixed(xs@[i], xs@[i], current, externals);
            }
            if qualifies(v, r, current, externals) {
                let ys = r->Arr_0;
                assert forall|i: int| 0 <= i < ys@.len() implies same_tree(#[trigger] ys@[i], xs@[i]) by {
                    lemma_pointer_free_fixed(xs@[i], ys@[i], current, externals);
                }
            }
        },
        Value::Obj(m) => {
            assert forall|i: int| 0 <= i < m@.len() implies resolvable(
                #[trigger] m@[i].1,
                externals,
            ) by {
                lemma_pointer_free_fixed(m@[i].1, m@[i].1, current, externals);
            }
            if qualifies(v, r, current, externals) {
                let n = r->Obj_0;
                assert forall|i: int| 0 <= i < n@.len() implies (#[trigger] n@[i]).0@ == m@[i].0@
                    && same_tree(n@[i].1, m@[i].1) by {
                    lemma_pointer_free_fixed(m@[i].1, n@[i].1, current, externals);
                }
            }
        },
        _ => {},
    }
}

/// The null sentinel `{m_FileID: 0, m_PathID: 0}` always resolves, and
/// qualifies to `null` and nothing else.
pub proof fn lemma_null_pointer_is_null(
    m: Vec<(String, Value)>,
    r: Value,
    current: String,
    externals: Seq<String>,
)
    requires
        raw_pointer(m@) matches Some(p) && p.file_index == 0 && p.local_id == 0,
    ensures
        resolvable(Value::Obj(m), externals),
        qualifies(Value::Obj(m), r, current, externals) <==> r == Value::Null,
{
}

/// A local pointer `{m_FileID: 0, m_PathID: id}` with `id != 0` always
/// resolves, and qualifies to exactly `{file: current, pathId: id}`.
pub proof fn lemma_local_pointer_in_current_file(
    m: Vec<(String, Value)>,
    r: Value,
    current: String,
    externals: Seq<String>,
)
    requires
        raw_pointer(m@) matches Some(p) && p.file_index == 0 && p.local_id != 0,
    ensures
        resolvable(Value::Obj(m), externals),
        qualifies(Value::Obj(m), r, current, externals) <==> is_reference(
            r,
            current,
            raw_pointer(m@)->0.local_id,
        ),
{
}

/// Qualifying a qualified tree again changes nothing, whatever file and
/// table it is qualified against the second time.
pub proof fn lemma_qualify_idempotent(
    v: Value,
    q: Value,
    r: Value,
    current: String,
    externals: Seq<String>,
    current2: String,
    externals2: Seq<String>,
)
    requires
        qualifies(v, q, current, externals),
    ensures
        resolvable(q, externals2),
        qualifies(q, r, current2, externals2) ==> same_tree(r, q),
{
    lemma_qualified_is_pointer_free(v, q, current, externals);
    lemma_pointer_free_fixed(q, r, current2, externals2);
}

} // verus!
