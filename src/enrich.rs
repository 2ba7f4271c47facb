use vstd::prelude::*;

use crate::filter::TypeDescriptor;
use crate::qualify_pptr::{
    pointer_free, pointer_of, qualifies, qualifies_with_classes, raw_pointer, qualify_pptrs, qualify_pptrs_with_classes,
    resolvable, QualifyError,
};
use crate::text::{owned, text_eq};
use crate::value::Value;

verus! {

broadcast use vstd::seq::group_seq_axioms;

/// The entries of a map with their keys as characters.
pub open spec fn entries(m: Seq<(String, Value)>) -> Seq<(Seq<char>, Value)> {
    m.map_values(|e: (String, Value)| (e.0@, e.1))
}

/// Position of the first entry with key `k`, or -1.
pub open spec fn key_pos(es: Seq<(Seq<char>, Value)>, k: Seq<char>) -> int
    decreases es.len(),
{
    if es.len() == 0 {
        -1
    } else if es[0].0 == k {
        0
    } else {
        let p = key_pos(es.drop_first(), k);
        if p < 0 {
            -1
        } else {
            p + 1
        }
    }
}

/// `es` with the value under `k` set to `v`: the first entry with that key
/// takes the new value, or a new entry goes at the end.
pub open spec fn put(es: Seq<(Seq<char>, Value)>, k: Seq<char>, v: Value) -> Seq<(Seq<char>, Value)> {
    let p = key_pos(es, k);
    if p >= 0 {
        es.update(p, (k, v))
    } else {
        es.push((k, v))
    }
}

/// The value under key `k`, if any.
pub open spec fn lookup(es: Seq<(Seq<char>, Value)>, k: Seq<char>) -> Option<Value> {
    let p = key_pos(es, k);
    if p >= 0 {
        Some(es[p].1)
    } else {
        None
    }
}

proof fn lemma_key_pos(es: Seq<(Seq<char>, Value)>, k: Seq<char>, i: int)
    requires
        0 <= i <= es.len(),
        forall|j: int| 0 <= j < i ==> es[j].0 != k,
    ensures
        i < es.len() && es[i].0 == k ==> key_pos(es, k) == i,
        i == es.len() ==> key_pos(es, k) == -1,
    decreases i,
{
    if i > 0 {
        lemma_key_pos(es.drop_first(), k, i - 1);
    }
}

/// The value under key `k` in an entry list.
pub fn find_entry<'a>(m: &'a Vec<(String, Value)>, k: &str) -> (r: Option<&'a Value>)
    ensures
        r matches Some(x) ==> lookup(entries(m@), k@) == Some(*x),
        r is None ==> lookup(entries(m@), k@) is None,
{
    let ghost es = entries(m@);
    let mut i: usize = 0;
    while i < m.len()
        invariant
            es == entries(m@),
            0 <= i <= m@.len(),
            forall|j: int| 0 <= j < i ==> es[j].0 != k@,
        decreases m@.len() - i,
    {
        if text_eq(m[i].0.as_str(), k) {
            proof {
                assert(es[i as int].0 == k@);
                lemma_key_pos(es, k@, i as int);
            }
            return Some(&m[i].1);
        }
        i += 1;
    }
    proof {
        lemma_key_pos(es, k@, i as int);
    }
    None
}

proof fn lemma_key_pos_first(es: Seq<(Seq<char>, Value)>, k: Seq<char>)
    ensures
        -1 <= key_pos(es, k) < es.len(),
        key_pos(es, k) >= 0 ==> es[key_pos(es, k)].0 == k && forall|j: int|
            0 <= j < key_pos(es, k) ==> es[j].0 != k,
        key_pos(es, k) == -1 ==> forall|j: int| 0 <= j < es.len() ==> es[j].0 != k,
    decreases es.len(),
{
    if es.len() > 0 && es[0].0 != k {
        let rest = es.drop_first();
        lemma_key_pos_first(rest, k);
        assert forall|j: int| 1 <= j < es.len() implies es[j].0 == rest[j - 1].0 by {}
    }
}

/// Setting a key leaves the value under every other key as it was.
pub proof fn lemma_lookup_put(es: Seq<(Seq<char>, Value)>, k: Seq<char>, v: Value, k2: Seq<char>)
    ensures
        lookup(put(es, k, v), k2) == if k2 == k {
            Some(v)
        } else {
            lookup(es, k2)
        },
{
    let fs = put(es, k, v);
    lemma_key_pos_first(es, k);
    lemma_key_pos_first(es, k2);
    lemma_key_pos_first(fs, k2);
    let p = key_pos(es, k);
    let q = key_pos(fs, k2);
    let r = key_pos(es, k2);
    assert forall|j: int| 0 <= j < es.len() implies fs[j].0 == es[j].0 by {}
    if p < 0 {
        assert(fs[es.len() as int].0 == k);
    }
    if k2 == k {
        if p >= 0 {
            if q >= 0 && q < p {
                assert(es[q].0 == k);
            }
            assert(fs[p].0 == k);
        } else {
            if q >= 0 && q < es.len() {
                assert(es[q].0 == k);
            }
        }
    } else {
        if r >= 0 {
            assert(fs[r].0 == k2);
            if q >= 0 && q < r {
                assert(es[q].0 == k2);
            }
            assert(q == r);
            if p >= 0 {
                assert(r != p);
            }
        } else {
            if q >= 0 && q < es.len() {
                assert(es[q].0 == k2);
            }
        }
    }
}

/// Sets the value under key `k` in `m`, overwriting an entry with that key.
pub fn put_entry(m: &mut Vec<(String, Value)>, k: String, v: Value)
    ensures
        entries(final(m)@) == put(entries(old(m)@), k@, v),
{
    let ghost es = entries(m@);
    let mut i: usize = 0;
    while i < m.len()
        invariant
            es == entries(m@),
            m@ == old(m)@,
            0 <= i <= m@.len(),
            forall|j: int| 0 <= j < i ==> es[j].0 != k@,
        decreases m@.len() - i,
    {
        if text_eq(m[i].0.as_str(), k.as_str()) {
            proof {
                assert(es[i as int].0 == k@);
                lemma_key_pos(es, k@, i as int);
            }
            m[i].1 = v;
            proof {
                assert(entries(m@) =~= es.update(i as int, (k@, v)));
            }
            return ;
        }
        i += 1;
    }
    proof {
        lemma_key_pos(es, k@, i as int);
    }
    m.push((k, v));
    assert(entries(m@) =~= es.push((k@, v)));
}

pub open spec fn level_prefix() -> Seq<char> {
    seq!['l', 'e', 'v', 'e', 'l']
}

pub open spec fn is_digit(c: char) -> bool {
    '0' <= c && c <= '9'
}

/// The number that a string of decimal digits spells.
pub open spec fn decimal(s: Seq<char>) -> nat
    decreases s.len(),
{
    if s.len() == 0 {
        0
    } else {
        decimal(s.drop_last()) * 10 + ((s.last() as u32 - '0' as u32) as nat)
    }
}

/// The scene index that a file path names: `level` followed by one or more
/// decimal digits and nothing else.
pub open spec fn scene_index(path: Seq<char>) -> Option<nat> {
    let rest = path.subrange(5, path.len() as int);
    if path.len() > 5 && path.subrange(0, 5) == level_prefix() && forall|i: int|
        0 <= i < rest.len() ==> is_digit(#[trigger] rest[i]) {
        Some(decimal(rest))
    } else {
        None
    }
}

/// The scene name for a file path, when the path names a scene that the
/// table holds.
pub open spec fn scene_name(path: Seq<char>, scenes: Seq<String>) -> Option<String> {
    match scene_index(path) {
        Some(i) => if i < scenes.len() {
            Some(scenes[i as int])
        } else {
            None
        },
        None => None,
    }
}

proof fn lemma_decimal_grows(s: Seq<char>, i: int)
    requires
        0 <= i <= s.len(),
        forall|j: int| 0 <= j < s.len() ==> is_digit(#[trigger] s[j]),
    ensures
        decimal(s.subrange(0, i)) <= decimal(s),
    decreases s.len() - i,
{
    if i < s.len() {
        lemma_decimal_grows(s, i + 1);
        let p = s.subrange(0, i + 1);
        assert(p.drop_last() =~= s.subrange(0, i));
    } else {
        assert(s.subrange(0, i) =~= s);
    }
}

/// The scene index that `path` names, if it names one and the index fits
/// in `usize`.
fn scene_index_of(path: &str) -> (r: Option<usize>)
    ensures
        r matches Some(i) ==> scene_index(path@) == Some(i as nat),
        r is None ==> (scene_index(path@) is None || scene_index(path@)->0 > usize::MAX),
{
    let n = path.unicode_len();
    if n <= 5 {
        return None;
    }
    let head = path.substring_char(0, 5);
    proof {
        reveal_strlit("level");
        assert("level"@ =~= level_prefix());
    }
    if !text_eq(head, "level") {
        return None;
    }
    let ghost rest = path@.subrange(5, n as int);
    let mut acc: usize = 0;
    let mut i: usize = 5;
    while i < n
        invariant
            n == path@.len(),
            5 <= i <= n,
            rest == path@.subrange(5, n as int),
            path@.subrange(0, 5) == level_prefix(),
            forall|j: int| 0 <= j < i - 5 ==> is_digit(#[trigger] rest[j]),
            acc as nat == decimal(rest.subrange(0, i - 5)),
        decreases n - i,
    {
        let c = path.get_char(i);
        if !('0' <= c && c <= '9') {
            assert(!is_digit(rest[i - 5]));
            return None;
        }
        let d = (c as u32 - '0' as u32) as usize;
        assert(rest.subrange(0, i + 1 - 5).drop_last() =~= rest.subrange(0, i - 5));
        if acc > (usize::MAX - d) / 10 {
            proof {
                let a = acc as int;
                let dd = d as int;
                let mx = usize::MAX as int;
                assert(a * 10 + dd > mx) by (nonlinear_arith)
                    requires
                        a > (mx - dd) / 10,
                        0 <= dd <= 9,
                        mx > 9,
                ;
                if forall|j: int| 0 <= j < rest.len() ==> is_digit(#[trigger] rest[j]) {
                    lemma_decimal_grows(rest, i + 1 - 5);
                }
            }
            return None;
        }
        acc = acc * 10 + d;
        i += 1;
    }
    assert(rest.subrange(0, n - 5) =~= rest);
    Some(acc)
}

pub open spec fn file_field() -> Seq<char> {
    seq!['_', 'f', 'i', 'l', 'e']
}

pub open spec fn type_field() -> Seq<char> {
    seq!['_', 't', 'y', 'p', 'e']
}

pub open spec fn asm_field() -> Seq<char> {
    seq!['_', 'a', 's', 'm']
}

pub open spec fn scene_field() -> Seq<char> {
    seq!['_', 's', 'c', 'e', 'n', 'e']
}

/// The scene name that enrichment records, if a table is given.
pub open spec fn scene_for(path: Seq<char>, scenes: Option<&Vec<String>>) -> Option<String> {
    match scenes {
        Some(t) => scene_name(path, t@),
        None => None,
    }
}

/// The entries after enrichment: `_file` set to the origin path; `_type`
/// and `_asm` to the declared type's full name and assembly when it is
/// known; `_scene` to the scene name when there is one; each overwriting an
/// entry of the same key.
pub open spec fn enriched(
    es: Seq<(Seq<char>, Value)>,
    path: String,
    ty: Option<&TypeDescriptor>,
    scene: Option<String>,
) -> Seq<(Seq<char>, Value)> {
    let a = put(es, file_field(), Value::Str(path));
    let b = match ty {
        Some(t) => put(
            put(a, type_field(), Value::Str(t.full_name)),
            asm_field(),
            Value::Str(t.assembly),
        ),
        None => a,
    };
    match scene {
        Some(s) => put(b, scene_field(), Value::Str(s)),
        None => b,
    }
}

/// Enrichment sets each reserved field, overwriting whatever the object held
/// under that key, and leaves every other field as it was.
pub proof fn lemma_enriched_fields(
    es: Seq<(Seq<char>, Value)>,
    path: String,
    ty: Option<&TypeDescriptor>,
    scene: Option<String>,
    k: Seq<char>,
)
    ensures
        lookup(enriched(es, path, ty, scene), file_field()) == Some(Value::Str(path)),
        ty matches Some(t) ==> lookup(enriched(es, path, ty, scene), type_field()) == Some(
            Value::Str(t.full_name),
        ) && lookup(enriched(es, path, ty, scene), asm_field()) == Some(Value::Str(t.assembly)),
        scene matches Some(n) ==> lookup(enriched(es, path, ty, scene), scene_field()) == Some(
            Value::Str(n),
        ),
        k != file_field() && k != type_field() && k != asm_field() && k != scene_field() ==> lookup(
            enriched(es, path, ty, scene),
            k,
        ) == lookup(es, k),
{
    assert(file_field() != type_field()) by {
        assert(file_field()[1] != type_field()[1]);
    }
    assert(file_field() != asm_field()) by {
        assert(file_field().len() != asm_field().len());
    }
    assert(file_field() != scene_field()) by {
        assert(file_field().len() != scene_field().len());
    }
    assert(type_field() != asm_field()) by {
        assert(type_field().len() != asm_field().len());
    }
    assert(type_field() != scene_field()) by {
        assert(type_field().len() != scene_field().len());
    }
    assert(asm_field() != scene_field()) by {
        assert(asm_field().len() != scene_field().len());
    }
    let a = put(es, file_field(), Value::Str(path));
    let b = match ty {
        Some(t) => put(
            put(a, type_field(), Value::Str(t.full_name)),
            asm_field(),
            Value::Str(t.assembly),
        ),
        None => a,
    };
    let keys = seq![file_field(), type_field(), asm_field(), scene_field(), k];
    assert forall|i: int| 0 <= i < keys.len() implies lookup(a, #[trigger] keys[i]) == (if keys[i]
        == file_field() {
        Some(Value::Str(path))
    } else {
        lookup(es, keys[i])
    }) by {
        lemma_lookup_put(es, file_field(), Value::Str(path), keys[i]);
    }
    if let Some(t) = ty {
        let a2 = put(a, type_field(), Value::Str(t.full_name));
        assert forall|i: int| 0 <= i < keys.len() implies lookup(b, #[trigger] keys[i]) == (
        if keys[i] == asm_field() {
            Some(Value::Str(t.assembly))
        } else if keys[i] == type_field() {
            Some(Value::Str(t.full_name))
        } else {
            lookup(a, keys[i])
        }) by {
            lemma_lookup_put(a, type_field(), Value::Str(t.full_name), keys[i]);
            lemma_lookup_put(a2, asm_field(), Value::Str(t.assembly), keys[i]);
        }
    }
    if let Some(n) = scene {
        assert forall|i: int| 0 <= i < keys.len() implies lookup(
            put(b, scene_field(), Value::Str(n)),
            #[trigger] keys[i],
        ) == (if keys[i] == scene_field() {
            Some(Value::Str(n))
        } else {
            lookup(b, keys[i])
        }) by {
            lemma_lookup_put(b, scene_field(), Value::Str(n), keys[i]);
        }
    }
    assert(keys[0] == file_field() && keys[1] == type_field() && keys[2] == asm_field() && keys[3]
        == scene_field() && keys[4] == k);
}

/// Adds the origin metadata to the top-level map of an object.
pub fn enrich(
    value: Value,
    path: &String,
    ty: Option<&TypeDescriptor>,
    scenes: Option<&Vec<String>>,
) -> (r: Value)
    requires
        value is Obj,
    ensures
        r matches Value::Obj(n) && entries(n@) == enriched(
            entries(value->Obj_0@),
            *path,
            ty,
            scene_for(path@, scenes),
        ),
{
    proof {
        reveal_strlit("_file");
        reveal_strlit("_type");
        reveal_strlit("_asm");
        reveal_strlit("_scene");
        assert("_file"@ =~= file_field());
        assert("_type"@ =~= type_field());
        assert("_asm"@ =~= asm_field());
        assert("_scene"@ =~= scene_field());
    }
    let mut m = match value {
        Value::Obj(m) => m,
        _ => Vec::new(),
    };
    put_entry(&mut m, owned("_file"), Value::Str(path.clone()));
    match ty {
        Some(t) => {
            put_entry(&mut m, owned("_type"), Value::Str(t.full_name.clone()));
            put_entry(&mut m, owned("_asm"), Value::Str(t.assembly.clone()));
        },
        None => {},
    }
    match scenes {
        Some(table) => match scene_index_of(path.as_str()) {
            Some(i) => {
                if i < table.len() {
                    put_entry(&mut m, owned("_scene"), Value::Str(table[i].clone()));
                }
            },
            None => {},
        },
        None => {},
    }
    Value::Obj(m)
}

/// The body holds fields: it is a map that is not itself a pointer record.
pub open spec fn has_fields(value: Value) -> bool {
    value matches Value::Obj(m) && raw_pointer(m@) is None
}

/// Qualifies the pointers of an object read from file `path` and then
/// enriches it: what a scan hands to the query. A body that is itself a
/// pointer record has no fields to enrich and is refused.
pub fn prepare_object(
    value: Value,
    path: &String,
    externals: &Vec<String>,
    ty: Option<&TypeDescriptor>,
    scenes: Option<&Vec<String>>,
) -> (r: Result<Value, QualifyError>)
    requires
        value is Obj,
    ensures
        !has_fields(value) ==> r == Err::<Value, QualifyError>(QualifyError::PointerBody),
        r is Ok <==> (has_fields(value) && resolvable(value, externals@)),
        r matches Ok(e) ==> exists|q: Value|
            #![trigger qualifies(value, q, *path, externals@)]
            {
                &&& qualifies(value, q, *path, externals@)
                &&& pointer_free(q)
                &&& q is Obj
                &&& e is Obj
                &&& entries(e->Obj_0@) == enriched(
                    entries(q->Obj_0@),
                    *path,
                    ty,
                    scene_for(path@, scenes),
                )
            },
{
    if let Value::Obj(m) = &value {
        if pointer_of(m).is_some() {
            return Err(QualifyError::PointerBody);
        }
    }
    let ghost v = value;
    match qualify_pptrs(value, path, externals) {
        Ok(q) => {
            assert(q is Obj);
            let ghost gq = q;
            let e = enrich(q, path, ty, scenes);
            assert(qualifies(v, gq, *path, externals@));
            Ok(e)
        },
        Err(err) => Err(err),
    }
}

/// Like `prepare_object`, with each reference also carrying the class name
/// that `class_of` looks up for its target.
pub fn prepare_object_with_classes<F: Fn(&String, i64) -> Option<String>>(
    value: Value,
    path: &String,
    externals: &Vec<String>,
    ty: Option<&TypeDescriptor>,
    scenes: Option<&Vec<String>>,
    class_of: &F,
) -> (r: Result<Value, QualifyError>)
    requires
        value is Obj,
        forall|f: &String, id: i64| class_of.requires((f, id)),
    ensures
        !has_fields(value) ==> r == Err::<Value, QualifyError>(QualifyError::PointerBody),
        r is Ok <==> (has_fields(value) && resolvable(value, externals@)),
        r matches Ok(e) ==> exists|q: Value|
            #![trigger qualifies_with_classes(value, q, *path, externals@, *class_of)]
            {
                &&& qualifies_with_classes(value, q, *path, externals@, *class_of)
                &&& pointer_free(q)
                &&& q is Obj
                &&& e is Obj
                &&& entries(e->Obj_0@) == enriched(
                    entries(q->Obj_0@),
                    *path,
                    ty,
                    scene_for(path@, scenes),
                )
            },
{
    if let Value::Obj(m) = &value {
        if pointer_of(m).is_some() {
            return Err(QualifyError::PointerBody);
        }
    }
    let ghost v = value;
    match qualify_pptrs_with_classes(value, path, externals, class_of) {
        Ok(q) => {
            assert(q is Obj);
            let ghost gq = q;
            let e = enrich(q, path, ty, scenes);
            assert(qualifies_with_classes(v, gq, *path, externals@, *class_of));
            Ok(e)
        },
        Err(err) => Err(err),
    }
}

} // verus!
