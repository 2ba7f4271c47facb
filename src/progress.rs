use vstd::prelude::*;

use crate::text::{decimal_digits, decimal_text, owned, push_char, push_str};

verus! {

/// What a progress display shows: a message, a count of files out of a
/// total, or nothing once the work is done.
#[derive(Debug, Clone, Copy, PartialEq)]
pub enum Progress {
    Text(&'static str),
    Progress { current: usize, max: usize },
    Done,
}

impl Progress {
    /// The progress while work remains; `None` once it is done.
    pub fn unfinished(self) -> (r: Option<Progress>)
        ensures
            r == (if self is Done {
                None
            } else {
                Some(self)
            }),
    {
        match self {
            Progress::Done => None,
            other => Some(other),
        }
    }

    /// The label shown on the bar: the message, `current/max`, or nothing.
    pub fn label(&self) -> (r: String)
        ensures
            r@ == match *self {
                Progress::Text(t) => t@,
                Progress::Progress { current, max } => decimal_digits(current as nat).push('/')
                    + decimal_digits(max as nat),
                Progress::Done => Seq::empty(),
            },
    {
        match self {
            Progress::Text(t) => owned(t),
            Progress::Progress { current, max } => {
                let mut s = decimal_text(*current);
                push_char(&mut s, '/');
                let m = decimal_text(*max);
                push_str(&mut s, m.as_str());
                s
            },
            Progress::Done => {
                let s = String::new();
                assert(s@ =~= Seq::<char>::empty());
                s
            },
        }
    }
}

} // verus!
