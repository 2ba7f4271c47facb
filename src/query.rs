use vstd::prelude::*;

use crate::text::{push_char, push_str};
use crate::value::Value;

verus! {

/// One problem found while loading a query program.
#[derive(Debug, Clone, PartialEq, Eq)]
pub enum LoadIssue {
    /// A module file could not be read.
    Io { path: String, error: String },
    /// The lexer expected one thing and found another.
    Lex { expected: String, found: String },
    /// The parser expected one thing and found another; `found` is empty at
    /// the end of the input.
    Parse { expected: String, found: String },
}

/// The line that reports one load issue.
pub open spec fn issue_line(i: LoadIssue) -> Seq<char> {
    match i {
        LoadIssue::Io { path, error } => "could not load file "@ + path@ + ": "@ + error@,
        LoadIssue::Lex { expected, found } => "expected "@ + expected@ + ", found "@ + found@,
        LoadIssue::Parse { expected, found } => "expected "@ + expected@ + ", found "@ + (if found@.len()
            == 0 {
            "unexpected end of input"@
        } else {
            found@
        }),
    }
}

/// The line that reports a name the program uses but nothing defines.
pub open spec fn undefined_line(u: (String, String)) -> Seq<char> {
    "undefined "@ + u.0@ + ": "@ + u.1@
}

/// Lines joined by newlines, without a trailing one.
pub open spec fn joined(lines: Seq<Seq<char>>) -> Seq<char>
    decreases lines.len(),
{
    if lines.len() == 0 {
        Seq::empty()
    } else if lines.len() == 1 {
        lines[0]
    } else {
        joined(lines.drop_last()).push('\n') + lines.last()
    }
}

fn push_issue(s: &mut String, i: &LoadIssue)
    ensures
        final(s)@ == old(s)@ + issue_line(*i),
{
    match i {
        LoadIssue::Io { path, error } => {
            push_str(s, "could not load file ");
            push_str(s, path.as_str());
            push_str(s, ": ");
            push_str(s, error.as_str());
        },
        LoadIssue::Lex { expected, found } => {
            push_str(s, "expected ");
            push_str(s, expected.as_str());
            push_str(s, ", found ");
            push_str(s, found.as_str());
        },
        LoadIssue::Parse { expected, found } => {
            push_str(s, "expected ");
            push_str(s, expected.as_str());
            push_str(s, ", found ");
            if found.as_str().unicode_len() == 0 {
                push_str(s, "unexpected end of input");
            } else {
                push_str(s, found.as_str());
            }
        },
    }
    assert(final(s)@ =~= old(s)@ + issue_line(*i));
}

/// The error text for a program that failed to load: one line per issue.
pub fn load_error_text(issues: &Vec<LoadIssue>) -> (r: String)
    ensures
        r@ == joined(issues@.map_values(|i: LoadIssue| issue_line(i))),
{
    let ghost lines = issues@.map_values(|i: LoadIssue| issue_line(i));
    let mut s = String::new();
    let mut k: usize = 0;
    while k < issues.len()
        invariant
            lines == issues@.map_values(|i: LoadIssue| issue_line(i)),
            0 <= k <= issues@.len(),
            s@ == joined(lines.subrange(0, k as int)),
        decreases issues@.len() - k,
    {
        let ghost before = s@;
        if k > 0 {
            push_char(&mut s, '\n');
        }
        push_issue(&mut s, &issues[k]);
        proof {
            let prefix = lines.subrange(0, k + 1);
            assert(prefix.drop_last() =~= lines.subrange(0, k as int));
            if k == 0 {
                assert(before =~= Seq::<char>::empty());
                assert(s@ =~= prefix[0]);
            } else {
                assert(s@ =~= joined(prefix.drop_last()).push('\n') + prefix.last());
            }
        }
        k += 1;
    }
    assert(lines.subrange(0, issues@.len() as int) =~= lines);
    s
}

/// The error text for a program that names undefined things: one line per
/// (kind, name) pair.
pub fn undefined_error_text(items: &Vec<(String, String)>) -> (r: String)
    ensures
        r@ == joined(items@.map_values(|u: (String, String)| undefined_line(u))),
{
    let ghost lines = items@.map_values(|u: (String, String)| undefined_line(u));
    let mut s = String::new();
    let mut k: usize = 0;
    while k < items.len()
        invariant
            lines == items@.map_values(|u: (String, String)| undefined_line(u)),
            0 <= k <= items@.len(),
            s@ == joined(lines.subrange(0, k as int)),
        decreases items@.len() - k,
    {
        let ghost before = s@;
        if k > 0 {
            push_char(&mut s, '\n');
        }
        let ghost mid = s@;
        push_str(&mut s, "undefined ");
        push_str(&mut s, items[k].0.as_str());
        push_str(&mut s, ": ");
        push_str(&mut s, items[k].1.as_str());
        proof {
            assert(s@ =~= mid + undefined_line(items@[k as int]));
            let prefix = lines.subrange(0, k + 1);
            assert(prefix.drop_last() =~= lines.subrange(0, k as int));
            if k == 0 {
                assert(before =~= Seq::<char>::empty());
                assert(s@ =~= prefix[0]);
            } else {
                assert(s@ =~= joined(prefix.drop_last()).push('\n') + prefix.last());
            }
        }
        k += 1;
    }
    assert(lines.subrange(0, items@.len() as int) =~= lines);
    s
}

/// The values among a run's outputs, in order.
pub open spec fn successes(outs: Seq<Result<Value, String>>) -> Seq<Value>
    decreases outs.len(),
{
    if outs.len() == 0 {
        Seq::empty()
    } else {
        match outs.last() {
            Ok(v) => successes(outs.drop_last()).push(v),
            Err(_) => successes(outs.drop_last()),
        }
    }
}

/// The errors among a run's outputs, in order.
pub open spec fn failures(outs: Seq<Result<Value, String>>) -> Seq<String>
    decreases outs.len(),
{
    if outs.len() == 0 {
        Seq::empty()
    } else {
        match outs.last() {
            Ok(_) => failures(outs.drop_last()),
            Err(e) => failures(outs.drop_last()).push(e),
        }
    }
}

/// Splits the outputs of one program run: a failed output is reported
/// without discarding the values that other outputs produced.
pub fn split_outputs(outs: Vec<Result<Value, String>>) -> (r: (Vec<Value>, Vec<String>))
    ensures
        r.0@ == successes(outs@),
        r.1@ == failures(outs@),
{
    let ghost all = outs@;
    let mut outs = outs;
    let mut values: Vec<Value> = Vec::new();
    let mut errors: Vec<String> = Vec::new();
    let mut i: usize = 0;
    while i < outs.len()
        invariant
            outs@.len() == all.len(),
            0 <= i <= all.len(),
            forall|j: int| i <= j < all.len() ==> #[trigger] outs@[j] == all[j],
            values@ == successes(all.subrange(0, i as int)),
            errors@ == failures(all.subrange(0, i as int)),
        decreases all.len() - i,
    {
        let mut item: Result<Value, String> = Err(String::new());
        std::mem::swap(&mut item, &mut outs[i]);
        assert(all.subrange(0, i + 1).drop_last() =~= all.subrange(0, i as int));
        match item {
            Ok(v) => values.push(v),
            Err(e) => errors.push(e),
        }
        i += 1;
    }
    assert(all.subrange(0, all.len() as int) =~= all);
    (values, errors)
}

} // verus!
