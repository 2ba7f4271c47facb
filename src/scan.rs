use vstd::prelude::*;

use crate::enrich::{is_digit, level_prefix};
use crate::filter::{filter_accepts, ScriptFilter, TypeDescriptor};
use crate::text::text_eq;
use crate::value::Value;

verus! {

broadcast use vstd::seq::group_seq_axioms;

/// Where a scan stands.
#[derive(Debug, Clone, Copy, PartialEq, Eq, Structural)]
pub enum ScanPhase {
    Running,
    /// Every file was handed out and finished.
    Completed,
    /// Cancellation was seen; no file is handed out any more.
    Cancelled,
}

/// What to do with one object of a file.
#[derive(Debug, Clone, Copy, PartialEq, Eq, Structural)]
pub enum ObjectAction {
    /// Its declared type is unknown or not selected.
    Skip,
    /// Selected, but the cap is reached: counted only.
    Count,
    /// Selected and within the cap: decode it and keep its outputs.
    Keep,
}

/// The type filter selects an object of declared type `ty`; an object whose
/// type is unknown is never selected.
pub open spec fn selected(ty: Option<&TypeDescriptor>, filter: &ScriptFilter) -> bool {
    match ty {
        Some(t) => filter_accepts(filter@.0, filter@.1, t.full_name@),
        None => false,
    }
}

/// How many of the declared types `tys` the filter selects.
pub open spec fn selected_count(tys: Seq<Option<TypeDescriptor>>, filter: ScriptFilter) -> nat
    decreases tys.len(),
{
    if tys.len() == 0 {
        0
    } else {
        selected_count(tys.drop_last(), filter) + match tys.last() {
            Some(t) => if filter_accepts(filter@.0, filter@.1, t.full_name@) {
                1nat
            } else {
                0nat
            },
            None => 0nat,
        }
    }
}

/// Counts the objects of a file, given their declared types, that the
/// filter selects: the counting-only pass once the cap is reached.
pub fn count_selected(tys: &Vec<Option<TypeDescriptor>>, filter: &ScriptFilter) -> (r: usize)
    ensures
        r == selected_count(tys@, *filter),
{
    let mut n: usize = 0;
    let mut i: usize = 0;
    while i < tys.len()
        invariant
            0 <= i <= tys@.len(),
            n == selected_count(tys@.subrange(0, i as int), *filter),
            n <= i,
        decreases tys@.len() - i,
    {
        assert(tys@.subrange(0, i + 1).drop_last() =~= tys@.subrange(0, i as int));
        match &tys[i] {
            Some(t) => {
                if filter.matches(t) {
                    n = n + 1;
                }
            },
            None => {},
        }
        i += 1;
    }
    assert(tys@.subrange(0, tys@.len() as int) =~= tys@);
    n
}

/// A scene file name: `level` followed by one or more decimal digits.
pub open spec fn is_level_name(name: Seq<char>) -> bool {
    &&& name.len() > 5
    &&& name.subrange(0, 5) == level_prefix()
    &&& forall|i: int| 5 <= i < name.len() ==> is_digit(#[trigger] name[i])
}

/// The files of a game that hold objects: the scene files, the `.assets`
/// files and `globalgamemanagers`.
pub open spec fn is_scanned_name(name: Seq<char>) -> bool {
    ||| is_level_name(name)
    ||| name.len() >= 7 && name.subrange(name.len() - 7, name.len() as int) == ".assets"@
    ||| name == "globalgamemanagers"@
}

/// Whether the game file called `name` is scanned.
pub fn is_scanned_file(name: &str) -> (r: bool)
    ensures
        r == is_scanned_name(name@),
{
    let n = name.unicode_len();
    proof {
        reveal_strlit("level");
        assert("level"@ =~= level_prefix());
    }
    if n > 5 && text_eq(name.substring_char(0, 5), "level") {
        let mut i: usize = 5;
        let mut digits = true;
        while i < n
            invariant
                n == name@.len(),
                5 <= i <= n,
                digits == forall|j: int| 5 <= j < i ==> is_digit(#[trigger] name@[j]),
            decreases n - i,
        {
            let c = name.get_char(i);
            if !('0' <= c && c <= '9') {
                digits = false;
            }
            i += 1;
        }
        if digits {
            return true;
        }
    }
    let suffix = n >= 7 && text_eq(name.substring_char(n - 7, n), ".assets");
    suffix || text_eq(name, "globalgamemanagers")
}

/// What a scan returns: the kept output values, how many objects passed the
/// type filter, and how many output values were kept.
#[derive(Debug)]
pub struct ScanResults {
    pub items: Vec<Value>,
    pub count: usize,
    pub query_count: usize,
}

/// The model of a scan in progress.
pub ghost struct ScanView {
    pub limit: nat,
    pub files: nat,
    /// Files handed out so far; they are handed out in order.
    pub started: nat,
    pub finished: nat,
    /// Objects that passed the type filter.
    pub matched: nat,
    /// Matched objects whose outputs are kept.
    pub kept: nat,
    /// Kept objects whose outputs were recorded.
    pub recorded: nat,
    pub items: Seq<Value>,
    /// The file, by position, that each item came from.
    pub item_files: Seq<int>,
    pub phase: ScanPhase,
    /// Matched objects counted in each file handed out.
    pub per_file: Seq<int>,
}

/// The sum of a sequence.
pub open spec fn total(s: Seq<int>) -> int
    decreases s.len(),
{
    if s.len() == 0 {
        0
    } else {
        total(s.drop_last()) + s.last()
    }
}

proof fn lemma_total_add(s: Seq<int>, i: int, n: int)
    requires
        0 <= i < s.len(),
    ensures
        total(s.update(i, s[i] + n)) == total(s) + n,
    decreases s.len(),
{
    let t = s.update(i, s[i] + n);
    if i < s.len() - 1 {
        assert(t.drop_last() =~= s.drop_last().update(i, s[i] + n));
        lemma_total_add(s.drop_last(), i, n);
    } else {
        assert(t.drop_last() =~= s.drop_last());
    }
}

proof fn lemma_total_push_zero(s: Seq<int>)
    ensures
        total(s.push(0)) == total(s),
{
    assert(s.push(0).drop_last() =~= s);
}

/// What handing out a file does: a running scan with the flag clear and
/// files left hands out the next one; a running scan that sees the flag set
/// becomes cancelled; otherwise nothing changes and no file is handed out.
pub open spec fn begin_file_post(
    s: ScanView,
    t: ScanView,
    cancel_requested: bool,
    r: Option<usize>,
) -> bool {
    if s.phase == ScanPhase::Running && cancel_requested {
        r is None && t == (ScanView { phase: ScanPhase::Cancelled, ..s })
    } else if s.phase == ScanPhase::Running && s.started < s.files {
        r == Some(s.started as usize) && t == (ScanView {
            started: s.started + 1,
            per_file: s.per_file.push(0),
            ..s
        })
    } else {
        r is None && t == s
    }
}

/// The aggregation state of one scan: which files have been handed out,
/// the global output cap, the counts, and cancellation.
pub struct Scan {
    limit: usize,
    files: usize,
    started: usize,
    finished: usize,
    matched: usize,
    kept: usize,
    recorded: usize,
    items: Vec<Value>,
    item_files: Ghost<Seq<int>>,
    phase: ScanPhase,
    per_file: Ghost<Seq<int>>,
}

impl View for Scan {
    type V = ScanView;

    closed spec fn view(&self) -> ScanView {
        ScanView {
            limit: self.limit as nat,
            files: self.files as nat,
            started: self.started as nat,
            finished: self.finished as nat,
            matched: self.matched as nat,
            kept: self.kept as nat,
            recorded: self.recorded as nat,
            items: self.items@,
            item_files: self.item_files@,
            phase: self.phase,
            per_file: self.per_file@,
        }
    }
}

impl Scan {
    /// The invariant of a scan.
    pub open spec fn wf(&self) -> bool {
        let v = self@;
        &&& v.started <= v.files
        &&& v.finished <= v.started
        &&& v.per_file.len() == v.started
        &&& v.matched == total(v.per_file)
        &&& v.kept <= v.limit
        &&& v.kept <= v.matched
        &&& v.recorded <= v.kept
        &&& v.item_files.len() == v.items.len()
        &&& forall|i: int| 0 <= i < v.items.len() ==> 0 <= #[trigger] v.item_files[i] < v.started
        &&& v.phase == ScanPhase::Completed ==> v.finished == v.files
        &&& v.matched <= usize::MAX
    }

    /// A running scan over `files` files that keeps the outputs of at most
    /// `limit` matched objects.
    pub fn new(limit: usize, files: usize) -> (r: Scan)
        ensures
            r.wf(),
            r@ == (ScanView {
                limit: limit as nat,
                files: files as nat,
                started: 0,
                finished: 0,
                matched: 0,
                kept: 0,
                recorded: 0,
                items: Seq::empty(),
                item_files: Seq::empty(),
                phase: ScanPhase::Running,
                per_file: Seq::empty(),
            }),
    {
        let r = Scan {
            limit,
            files,
            started: 0,
            finished: 0,
            matched: 0,
            kept: 0,
            recorded: 0,
            items: Vec::new(),
            item_files: Ghost(Seq::empty()),
            phase: ScanPhase::Running,
            per_file: Ghost(Seq::empty()),
        };
        assert(r@.items =~= Seq::<Value>::empty());
        r
    }

    /// Hands out the next file, by its position in the file list, unless the
    /// scan is over. `cancel_requested` is the cancellation flag as read now:
    /// once it is seen set, no file is handed out again.
    pub fn begin_file(&mut self, cancel_requested: bool) -> (r: Option<usize>)
        requires
            old(self).wf(),
        ensures
            final(self).wf(),
            begin_file_post(old(self)@, final(self)@, cancel_requested, r),
    {
        if self.phase != ScanPhase::Running {
            return None;
        }
        if cancel_requested {
            self.phase = ScanPhase::Cancelled;
            return None;
        }
        if self.started == self.files {
            return None;
        }
        let i = self.started;
        self.started = self.started + 1;
        self.per_file = Ghost(self.per_file@.push(0));
        proof {
            lemma_total_push_zero(old(self)@.per_file);
        }
        Some(i)
    }

    /// Counts one matched object of file `file` and says whether its outputs
    /// are kept: exactly when fewer than `limit` objects matched before it.
    pub fn count_match(&mut self, file: usize) -> (r: bool)
        requires
            old(self).wf(),
            file < old(self)@.started,
            old(self)@.matched < usize::MAX,
        ensures
            final(self).wf(),
            r == (old(self)@.matched < old(self)@.limit),
            final(self)@ == (ScanView {
                matched: old(self)@.matched + 1,
                kept: if r {
                    old(self)@.kept + 1
                } else {
                    old(self)@.kept
                },
                per_file: old(self)@.per_file.update(
                    file as int,
                    old(self)@.per_file[file as int] + 1,
                ),
                ..old(self)@
            }),
    {
        let keep = self.matched < self.limit;
        self.matched = self.matched + 1;
        if keep {
            self.kept = self.kept + 1;
        }
        self.per_file = Ghost(self.per_file@.update(file as int, self.per_file@[file as int] + 1));
        proof {
            lemma_total_add(old(self)@.per_file, file as int, 1);
        }
        keep
    }

    /// Decides on one object of file `file` whose declared type is `ty`:
    /// skipped unless the filter selects it; otherwise counted, and kept
    /// while fewer than `limit` objects matched before it.
    pub fn consider(
        &mut self,
        file: usize,
        ty: Option<&TypeDescriptor>,
        filter: &ScriptFilter,
    ) -> (r: ObjectAction)
        requires
            old(self).wf(),
            file < old(self)@.started,
            old(self)@.matched < usize::MAX,
        ensures
            final(self).wf(),
            !selected(ty, filter) ==> r == ObjectAction::Skip && final(self)@ == old(self)@,
            selected(ty, filter) ==> r == (if old(self)@.matched < old(self)@.limit {
                ObjectAction::Keep
            } else {
                ObjectAction::Count
            }) && final(self)@ == (ScanView {
                matched: old(self)@.matched + 1,
                kept: if r == ObjectAction::Keep {
                    old(self)@.kept + 1
                } else {
                    old(self)@.kept
                },
                per_file: old(self)@.per_file.update(
                    file as int,
                    old(self)@.per_file[file as int] + 1,
                ),
                ..old(self)@
            }),
    {
        let chosen = match ty {
            Some(t) => filter.matches(t),
            None => false,
        };
        if !chosen {
            return ObjectAction::Skip;
        }
        if self.count_match(file) {
            ObjectAction::Keep
        } else {
            ObjectAction::Count
        }
    }

    /// Counts `n` matched objects of file `file` whose outputs are not kept:
    /// the counting-only pass once the cap is reached.
    pub fn count_only(&mut self, file: usize, n: usize)
        requires
            old(self).wf(),
            file < old(self)@.started,
            old(self)@.matched + n <= usize::MAX,
        ensures
            final(self).wf(),
            final(self)@ == (ScanView {
                matched: old(self)@.matched + n as nat,
                per_file: old(self)@.per_file.update(
                    file as int,
                    old(self)@.per_file[file as int] + n,
                ),
                ..old(self)@
            }),
    {
        self.matched = self.matched + n;
        self.per_file = Ghost(self.per_file@.update(file as int, self.per_file@[file as int] + n));
        proof {
            lemma_total_add(old(self)@.per_file, file as int, n as int);
        }
    }

    /// Appends the outputs of an object of file `file` that `consider` kept
    /// and whose outputs were not recorded yet.
    pub fn record(&mut self, file: usize, outputs: Vec<Value>)
        requires
            old(self).wf(),
            file < old(self)@.started,
            old(self)@.recorded < old(self)@.kept,
        ensures
            final(self).wf(),
            final(self)@ == (ScanView {
                recorded: old(self)@.recorded + 1,
                items: old(self)@.items + outputs@,
                item_files: old(self)@.item_files + Seq::new(outputs@.len(), |i: int| file as int),
                ..old(self)@
            }),
    {
        let ghost added = Seq::new(outputs@.len(), |i: int| file as int);
        let mut outputs = outputs;
        self.items.append(&mut outputs);
        self.recorded = self.recorded + 1;
        self.item_files = Ghost(self.item_files@ + added);
        assert forall|i: int| 0 <= i < self@.items.len() implies 0 <= #[trigger] self@.item_files[i]
            < self@.started by {
            if i >= old(self)@.items.len() {
                assert(self@.item_files[i] == added[i - old(self)@.items.len()]);
            } else {
                assert(self@.item_files[i] == old(self)@.item_files[i]);
            }
        }
    }

    /// How many kept objects still await their outputs.
    pub fn pending_records(&self) -> (r: usize)
        requires
            self.wf(),
        ensures
            r == self@.kept - self@.recorded,
    {
        self.kept - self.recorded
    }

    /// Whether a match now would still be kept; when not, a file can be
    /// counted without decoding its objects.
    pub fn wants_values(&self) -> (r: bool)
        ensures
            r == (self@.matched < self@.limit),
    {
        self.matched < self.limit
    }

    /// How many objects matched so far.
    pub fn matched(&self) -> (r: usize)
        ensures
            r == self@.matched,
    {
        self.matched
    }

    /// Marks a handed-out file as done; the scan is complete when every file
    /// is.
    pub fn end_file(&mut self)
        requires
            old(self).wf(),
            old(self)@.finished < old(self)@.started,
        ensures
            final(self).wf(),
            final(self)@ == (ScanView {
                finished: old(self)@.finished + 1,
                phase: if old(self)@.phase == ScanPhase::Running && old(self)@.finished + 1
                    == old(self)@.files {
                    ScanPhase::Completed
                } else {
                    old(self)@.phase
                },
                ..old(self)@
            }),
    {
        self.finished = self.finished + 1;
        if self.phase == ScanPhase::Running && self.finished == self.files {
            self.phase = ScanPhase::Completed;
        }
    }

    /// How many handed-out files are not finished yet.
    pub fn files_in_flight(&self) -> (r: usize)
        requires
            self.wf(),
        ensures
            r == self@.started - self@.finished,
    {
        self.started - self.finished
    }

    /// Where the scan stands.
    pub fn phase(&self) -> (r: ScanPhase)
        ensures
            r == self@.phase,
    {
        self.phase
    }

    /// The number of files handed out when that is a multiple of `every`
    /// (and not zero): the moments to report progress.
    pub fn progress_due(&self, every: usize) -> (r: Option<usize>)
        requires
            every > 0,
        ensures
            r == (if self@.started > 0 && self@.started % (every as nat) == 0 {
                Some(self@.started as usize)
            } else {
                None
            }),
    {
        if self.started > 0 && self.started % every == 0 {
            Some(self.started)
        } else {
            None
        }
    }

    /// The results: the kept values, the matched count, and how many values
    /// were kept.
    pub fn into_results(self) -> (r: ScanResults)
        ensures
            r.items@ == self@.items,
            r.count == self@.matched,
            r.query_count == self@.items.len(),
    {
        let n = self.items.len();
        ScanResults { items: self.items, count: self.matched, query_count: n }
    }
}

/// However the scan proceeds, the items come from at most `limit` matched
/// objects, no more objects are kept than matched, and every item comes from
/// a file that was handed out.
pub proof fn lemma_kept_within_limit(s: Scan)
    requires
        s.wf(),
    ensures
        s@.recorded <= s@.kept,
        s@.kept <= s@.limit,
        s@.kept <= s@.matched,
        forall|i: int| 0 <= i < s@.items.len() ==> 0 <= #[trigger] s@.item_files[i] < s@.started,
{
}

/// The matched count is always the sum of the counts of the files actually
/// handed out, one count per file.
pub proof fn lemma_counts_consistent(s: Scan)
    requires
        s.wf(),
    ensures
        s@.matched == total(s@.per_file),
        s@.per_file.len() == s@.started,
{
}

/// Once `begin_file` has seen the cancellation flag, no later call hands
/// out a file, whatever the flag reads then, and the started files stay
/// those started before.
pub proof fn lemma_cancel_is_final(
    s: ScanView,
    t: ScanView,
    u: ScanView,
    r1: Option<usize>,
    later_flag: bool,
    r2: Option<usize>,
)
    requires
        s.phase == ScanPhase::Running,
        begin_file_post(s, t, true, r1),
        begin_file_post(t, u, later_flag, r2),
    ensures
        r1 is None,
        r2 is None,
        u.started == s.started,
        u.phase == ScanPhase::Cancelled,
{
}

} // verus!
