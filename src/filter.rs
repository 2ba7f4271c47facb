use vstd::prelude::*;

use crate::text::{
    contains, find, is_blank, lower, lower_char, owned, push_char, push_str, text_eq, to_lower, trim,
    trimmed,
};

verus! {

/// The declared type of an object: its namespace-qualified class name and
/// the assembly that defines it.
#[derive(Debug, Clone, PartialEq, Eq)]
pub struct TypeDescriptor {
    pub full_name: String,
    pub assembly: String,
}

/// The full name of a class: `namespace.class`, or the class alone when the
/// namespace is empty.
pub open spec fn qualified_name(class_name: Seq<char>, namespace: Seq<char>) -> Seq<char> {
    if namespace.len() == 0 {
        class_name
    } else {
        namespace.push('.') + class_name
    }
}

impl TypeDescriptor {
    /// The declared type of an object from its script's class name,
    /// namespace and assembly name.
    pub fn from_script(class_name: &str, namespace: &str, assembly: &str) -> (r: TypeDescriptor)
        ensures
            r.full_name@ == qualified_name(class_name@, namespace@),
            r.assembly@ == assembly@,
    {
        let mut full_name = owned(namespace);
        if namespace.unicode_len() > 0 {
            push_char(&mut full_name, '.');
        }
        push_str(&mut full_name, class_name);
        proof {
            if namespace@.len() == 0 {
                assert(full_name@ =~= class_name@);
            }
        }
        TypeDescriptor { full_name, assembly: owned(assembly) }
    }
}

/// What an empty type filter selects.
#[derive(Debug, Clone, Copy, PartialEq, Eq, Structural)]
pub enum EmptyFilter {
    /// Every object: a bulk scan.
    MatchAll,
    /// No object: nothing is scanned until a filter is given.
    MatchNone,
}

/// A case-insensitive filter on declared type names.
#[derive(Debug, Clone, PartialEq, Eq)]
pub struct ScriptFilter {
    filter: String,
    empty: EmptyFilter,
}

/// Index of the last `.` in `s`, or -1.
pub open spec fn last_dot(s: Seq<char>) -> int
    decreases s.len(),
{
    if s.len() == 0 {
        -1
    } else if s.last() == '.' {
        s.len() - 1
    } else {
        last_dot(s.drop_last())
    }
}

/// The class name without its namespace: what follows the last `.`.
pub open spec fn short_name(full_name: Seq<char>) -> Seq<char> {
    full_name.subrange(last_dot(full_name) + 1, full_name.len() as int)
}

/// The selection rule, for a filter already trimmed and lower-cased: an
/// empty filter selects by its mode; one of fewer than three characters
/// selects a type whose short name equals it; a longer one selects a type
/// whose full name contains it; names compared in lower case.
pub open spec fn filter_accepts(filter: Seq<char>, empty: EmptyFilter, full_name: Seq<char>) -> bool {
    if filter.len() == 0 {
        empty == EmptyFilter::MatchAll
    } else if filter.len() < 3 {
        short_name(lower(full_name)) == filter
    } else {
        contains(lower(full_name), filter)
    }
}

proof fn lemma_last_dot_bounds(s: Seq<char>)
    ensures
        -1 <= last_dot(s) < s.len(),
        last_dot(s) >= 0 ==> s[last_dot(s)] == '.',
    decreases s.len(),
{
    if s.len() > 0 && s.last() != '.' {
        lemma_last_dot_bounds(s.drop_last());
    }
}

/// The part of `full_name` after its last `.`.
fn short_name_of(full_name: &str) -> (r: &str)
    ensures
        r@ == short_name(full_name@),
{
    let n = full_name.unicode_len();
    let mut j: usize = n;
    assert(full_name@.subrange(0, n as int) =~= full_name@);
    while j > 0 && full_name.get_char(j - 1) != '.'
        invariant
            n == full_name@.len(),
            j <= n,
            last_dot(full_name@) == last_dot(full_name@.subrange(0, j as int)),
        decreases j,
    {
        assert(full_name@.subrange(0, j as int).drop_last() =~= full_name@.subrange(
            0,
            j - 1,
        ));
        j -= 1;
    }
    proof {
        assert(full_name@.subrange(0, n as int) =~= full_name@);
        lemma_last_dot_bounds(full_name@);
    }
    full_name.substring_char(j, n)
}

impl View for ScriptFilter {
    /// The trimmed, lower-cased filter text and what it selects when empty.
    type V = (Seq<char>, EmptyFilter);

    closed spec fn view(&self) -> (Seq<char>, EmptyFilter) {
        (self.filter@, self.empty)
    }
}

impl ScriptFilter {
    /// The empty filter, which selects every object.
    pub fn empty() -> (r: ScriptFilter)
        ensures
            r@ == (Seq::<char>::empty(), EmptyFilter::MatchAll),
    {
        let r = ScriptFilter { filter: String::new(), empty: EmptyFilter::MatchAll };
        assert(r@.0 =~= Seq::<char>::empty());
        r
    }

    /// A filter from user text, trimmed and lower-cased; left empty, it
    /// selects every object.
    pub fn new(filter: &str) -> (r: ScriptFilter)
        ensures
            r@ == (lower(trimmed(filter@)), EmptyFilter::MatchAll),
    {
        ScriptFilter::with_empty_mode(filter, EmptyFilter::MatchAll)
    }

    /// A filter from user text, trimmed and lower-cased, with what it
    /// selects when that leaves it empty.
    pub fn with_empty_mode(filter: &str, empty: EmptyFilter) -> (r: ScriptFilter)
        ensures
            r@ == (lower(trimmed(filter@)), empty),
    {
        ScriptFilter { filter: to_lower(trim(filter)), empty }
    }

    /// The filter text as it is compared.
    pub fn text(&self) -> (r: String)
        ensures
            r@ == self@.0,
    {
        owned(self.filter.as_str())
    }

    /// Whether the filter selects objects of the declared type `ty`.
    pub fn matches(&self, ty: &TypeDescriptor) -> (r: bool)
        ensures
            r == filter_accepts(self@.0, self@.1, ty.full_name@),
    {
        let n = self.filter.as_str().unicode_len();
        if n == 0 {
            return match self.empty {
                EmptyFilter::MatchAll => true,
                EmptyFilter::MatchNone => false,
            };
        }
        let class = to_lower(ty.full_name.as_str());
        if n < 3 {
            text_eq(short_name_of(class.as_str()), self.filter.as_str())
        } else {
            find(class.as_str(), self.filter.as_str())
        }
    }
}

proof fn lemma_trimmed_without_blanks(t: Seq<char>)
    requires
        t.len() > 0,
        forall|i: int| 0 <= i < t.len() ==> !is_blank(#[trigger] t[i]),
    ensures
        trimmed(t) == t,
{
    assert(!is_blank(t[0]));
    let a = choose|a: int|
        0 <= a < t.len() && !is_blank(t[a]) && forall|j: int| 0 <= j < a ==> is_blank(t[j]);
    if a > 0 {
        assert(is_blank(t[0]));
    }
    assert(a == 0);
    let b = choose|b: int|
        a <= b < t.len() && !is_blank(t[b]) && forall|j: int| b < j < t.len() ==> is_blank(t[j]);
    if b < t.len() - 1 {
        assert(is_blank(t[t.len() - 1]));
    }
    assert(b == t.len() - 1);
    assert(t.subrange(a, b + 1) =~= t);
}

/// Filter text without blanks and without upper-case letters is kept as it
/// is: `ScriptFilter::new` on it holds that very text.
pub proof fn lemma_plain_filter_text(t: Seq<char>)
    requires
        t.len() > 0,
        forall|i: int| 0 <= i < t.len() ==> !is_blank(#[trigger] t[i]),
        forall|i: int| 0 <= i < t.len() ==> lower_char(#[trigger] t[i]) == t[i],
    ensures
        lower(trimmed(t)) == t,
{
    lemma_trimmed_without_blanks(t);
    lemma_lower_keeps(t);
}

proof fn lemma_lower_keeps(t: Seq<char>)
    requires
        forall|i: int| 0 <= i < t.len() ==> lower_char(#[trigger] t[i]) == t[i],
    ensures
        lower(t) == t,
{
    assert forall|i: int| 0 <= i < t.len() implies #[trigger] lower(t)[i] == t[i] by {
        assert(lower_char(t[i]) == t[i]);
    }
    assert(lower(t) =~= t);
}

/// An empty filter in the select-all mode selects every declared type.
pub proof fn lemma_empty_filter_selects_all(f: ScriptFilter, full_name: Seq<char>)
    requires
        f@.0.len() == 0,
        f@.1 == EmptyFilter::MatchAll,
    ensures
        filter_accepts(f@.0, f@.1, full_name),
{
}

/// A filter of one or two characters selects by equality with the lower-cased
/// short name only: a type whose name merely contains it is not selected.
pub proof fn lemma_short_filter_is_exact(f: ScriptFilter, full_name: Seq<char>)
    requires
        0 < f@.0.len() < 3,
    ensures
        filter_accepts(f@.0, f@.1, full_name) <==> short_name(lower(full_name)) == f@.0,
{
}

} // verus!
