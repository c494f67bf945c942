//! Per-line index over the latest diagnostics snapshot.

use vstd::prelude::*;

use crate::events::Diagnostic;
use crate::events::DiagnosticView;
use crate::events::Severity;

verus! {

/// The diagnostics on `line`, in snapshot order.
pub open spec fn diags_for_line(all: Seq<DiagnosticView>, line: int) -> Seq<DiagnosticView>
    decreases all.len(),
{
    if all.len() == 0 {
        Seq::<DiagnosticView>::empty()
    } else {
        let rest = diags_for_line(all.drop_first(), line);
        if all[0].range.start.line == line {
            seq![all[0]] + rest
        } else {
            rest
        }
    }
}

/// How many diagnostics carry this severity.
pub open spec fn count_severity(all: Seq<DiagnosticView>, sev: Severity) -> int
    decreases all.len(),
{
    if all.len() == 0 {
        0
    } else {
        (if all[0].severity == Option::Some(sev) {
            1int
        } else {
            0int
        }) + count_severity(all.drop_first(), sev)
    }
}

/// Index of the first diagnostic with this severity, or -1.
pub open spec fn first_with_severity(ds: Seq<DiagnosticView>, sev: Severity, i: int) -> int
    decreases ds.len() - i,
{
    if i < 0 || i >= ds.len() {
        -1
    } else if ds[i].severity == Option::Some(sev) {
        i
    } else {
        first_with_severity(ds, sev, i + 1)
    }
}

/// The most severe diagnostic of a line's list: the first error, else the
/// first warning, else the first information, else the first hint.
pub open spec fn most_severe_spec(ds: Seq<DiagnosticView>) -> Option<DiagnosticView> {
    if first_with_severity(ds, Severity::Error, 0) >= 0 {
        Option::Some(ds[first_with_severity(ds, Severity::Error, 0)])
    } else if first_with_severity(ds, Severity::Warning, 0) >= 0 {
        Option::Some(ds[first_with_severity(ds, Severity::Warning, 0)])
    } else if first_with_severity(ds, Severity::Information, 0) >= 0 {
        Option::Some(ds[first_with_severity(ds, Severity::Information, 0)])
    } else if first_with_severity(ds, Severity::Hint, 0) >= 0 {
        Option::Some(ds[first_with_severity(ds, Severity::Hint, 0)])
    } else {
        Option::None
    }
}

/// Holds the latest diagnostics snapshot for the document and answers
/// per-line queries on it.
#[derive(Debug)]
pub struct DiagnosticsManager {
    pub diagnostics: Vec<Diagnostic>,
}

/// Copies a diagnostic, exact in the contract.
fn copy_diag(d: &Diagnostic) -> (r: Diagnostic)
    ensures
        r@ == d@,
{
    Diagnostic { range: d.range, severity: d.severity, message: d.message.clone() }
}

impl DiagnosticsManager {
    /// An empty index.
    pub fn new() -> (r: Self)
        ensures
            r.diagnostics@.len() == 0,
    {
        DiagnosticsManager { diagnostics: Vec::new() }
    }

    /// Replaces the whole snapshot; nothing of the previous one remains.
    pub fn update(&mut self, diagnostics: Vec<Diagnostic>)
        ensures
            final(self).diagnostics@ == diagnostics@,
    {
        self.diagnostics = diagnostics;
    }

    /// Forgets the snapshot.
    pub fn clear(&mut self)
        ensures
            final(self).diagnostics@.len() == 0,
    {
        self.diagnostics.clear();
    }

    /// The diagnostics on a line, or nothing when the line has none.
    pub fn get_for_line(&self, line: u32) -> (r: Option<Vec<Diagnostic>>)
        ensures
            match r {
                Some(ds) => ds.deep_view() == diags_for_line(
                    self.diagnostics.deep_view(),
                    line as int,
                ) && ds.deep_view().len() > 0,
                None => diags_for_line(self.diagnostics.deep_view(), line as int).len() == 0,
            },
    {
        let ghost all = self.diagnostics.deep_view();
        let mut out: Vec<Diagnostic> = Vec::new();
        let mut i: usize = 0;
        proof {
            assert(out.deep_view() =~= Seq::<DiagnosticView>::empty());
            assert(all.skip(0) =~= all);
        }
        while i < self.diagnostics.len()
            invariant
                0 <= i <= self.diagnostics@.len(),
                all == self.diagnostics.deep_view(),
                all.len() == self.diagnostics@.len(),
                forall|k: int|
                    0 <= k < all.len() ==> #[trigger] all[k] == (self.diagnostics@[k])@,
                diags_for_line(all, line as int) == out.deep_view() + diags_for_line(
                    all.skip(i as int),
                    line as int,
                ),
            decreases self.diagnostics@.len() - i,
        {
            let ghost pre = out.deep_view();
            proof {
                assert(all.skip(i as int).len() > 0);
                assert(all.skip(i as int)[0] == all[i as int]);
                assert(all.skip(i as int).drop_first() =~= all.skip(i as int + 1));
            }
            let d = &self.diagnostics[i];
            if d.range.start.line == line {
                out.push(copy_diag(d));
                proof {
                    assert(out.deep_view() =~= pre.push(all[i as int]));
                    assert(pre + (seq![all[i as int]] + diags_for_line(
                        all.skip(i as int + 1),
                        line as int,
                    )) =~= out.deep_view() + diags_for_line(all.skip(i as int + 1), line as int));
                }
            }
            i = i + 1;
        }
        proof {
            assert(all.skip(all.len() as int) =~= Seq::<DiagnosticView>::empty());
            assert(out.deep_view() + Seq::<DiagnosticView>::empty() =~= out.deep_view());
        }
        if out.len() == 0 {
            None
        } else {
            Some(out)
        }
    }

    /// All diagnostics of the snapshot, in order.
    pub fn all(&self) -> (r: Vec<Diagnostic>)
        ensures
            r.deep_view() == self.diagnostics.deep_view(),
    {
        let mut out: Vec<Diagnostic> = Vec::new();
        let mut i: usize = 0;
        while i < self.diagnostics.len()
            invariant
                0 <= i <= self.diagnostics@.len(),
                self.diagnostics.deep_view().len() == self.diagnostics@.len(),
                forall|k: int|
                    0 <= k < self.diagnostics@.len() ==> #[trigger] self.diagnostics.deep_view()[k]
                        == (self.diagnostics@[k])@,
                out.deep_view() == self.diagnostics.deep_view().take(i as int),
            decreases self.diagnostics@.len() - i,
        {
            let ghost pre = out.deep_view();
            out.push(copy_diag(&self.diagnostics[i]));
            proof {
                assert(out.deep_view() =~= pre.push(self.diagnostics.deep_view()[i as int]));
                assert(self.diagnostics.deep_view().take(i as int + 1)
                    =~= self.diagnostics.deep_view().take(i as int).push(
                    self.diagnostics.deep_view()[i as int],
                ));
            }
            i = i + 1;
        }
        proof {
            assert(self.diagnostics.deep_view().take(self.diagnostics@.len() as int)
                =~= self.diagnostics.deep_view());
        }
        out
    }

    /// How many diagnostics of the snapshot carry this severity.
    fn count_with(&self, sev: Severity) -> (r: usize)
        ensures
            r == count_severity(self.diagnostics.deep_view(), sev),
    {
        let ghost all = self.diagnostics.deep_view();
        let mut n: usize = 0;
        let mut i: usize = 0;
        proof {
            assert(all.skip(0) =~= all);
        }
        while i < self.diagnostics.len()
            invariant
                0 <= i <= self.diagnostics@.len(),
                all == self.diagnostics.deep_view(),
                all.len() == self.diagnostics@.len(),
                forall|k: int|
                    0 <= k < all.len() ==> #[trigger] all[k] == (self.diagnostics@[k])@,
                n <= i,
                count_severity(all, sev) == n + count_severity(all.skip(i as int), sev),
            decreases self.diagnostics@.len() - i,
        {
            proof {
                assert(all.skip(i as int).len() > 0);
                assert(all.skip(i as int)[0] == all[i as int]);
                assert(all.skip(i as int).drop_first() =~= all.skip(i as int + 1));
            }
            let hit = match &self.diagnostics[i].severity {
                Option::Some(s) => *s == sev,
                Option::None => false,
            };
            if hit {
                n = n + 1;
            }
            i = i + 1;
        }
        proof {
            assert(all.skip(all.len() as int) =~= Seq::<DiagnosticView>::empty());
        }
        n
    }

    /// How many diagnostics are errors.
    pub fn error_count(&self) -> (r: usize)
        ensures
            r == count_severity(self.diagnostics.deep_view(), Severity::Error),
    {
        self.count_with(Severity::Error)
    }

    /// How many diagnostics are warnings.
    pub fn warning_count(&self) -> (r: usize)
        ensures
            r == count_severity(self.diagnostics.deep_view(), Severity::Warning),
    {
        self.count_with(Severity::Warning)
    }

    /// Whether the snapshot holds any diagnostic.
    pub fn has_diagnostics(&self) -> (r: bool)
        ensures
            r == (self.diagnostics@.len() > 0),
    {
        self.diagnostics.len() > 0
    }

    /// The most severe diagnostic on a line, errors before warnings before
    /// information before hints; the first in snapshot order within equal
    /// severity.
    pub fn most_severe_for_line(&self, line: u32) -> (r: Option<Diagnostic>)
        ensures
            match r {
                Some(d) => most_severe_spec(
                    diags_for_line(self.diagnostics.deep_view(), line as int),
                ) == Option::Some(d@),
                None => most_severe_spec(
                    diags_for_line(self.diagnostics.deep_view(), line as int),
                ) is None,
            },
    {
        let ghost lds = diags_for_line(self.diagnostics.deep_view(), line as int);
        let ds = match self.get_for_line(line) {
            Some(ds) => ds,
            None => {
                proof {
                    lemma_first_none_on_empty(lds, Severity::Error);
                    lemma_first_none_on_empty(lds, Severity::Warning);
                    lemma_first_none_on_empty(lds, Severity::Information);
                    lemma_first_none_on_empty(lds, Severity::Hint);
                }
                return None;
            },
        };
        match Self::first_of(&ds, Severity::Error) {
            Some(d) => {
                return Some(d);
            },
            None => {},
        }
        match Self::first_of(&ds, Severity::Warning) {
            Some(d) => {
                return Some(d);
            },
            None => {},
        }
        match Self::first_of(&ds, Severity::Information) {
            Some(d) => {
                return Some(d);
            },
            None => {},
        }
        match Self::first_of(&ds, Severity::Hint) {
            Some(d) => {
                return Some(d);
            },
            None => {},
        }
        None
    }

    /// First diagnostic of the list with this severity.
    fn first_of(ds: &Vec<Diagnostic>, sev: Severity) -> (r: Option<Diagnostic>)
        ensures
            match r {
                Some(d) => first_with_severity(ds.deep_view(), sev, 0) >= 0 && d@
                    == ds.deep_view()[first_with_severity(ds.deep_view(), sev, 0)],
                None => first_with_severity(ds.deep_view(), sev, 0) == -1,
            },
    {
        let ghost dv = ds.deep_view();
        let mut i: usize = 0;
        while i < ds.len()
            invariant
                0 <= i <= ds@.len(),
                dv == ds.deep_view(),
                dv.len() == ds@.len(),
                forall|k: int| 0 <= k < dv.len() ==> #[trigger] dv[k] == (ds@[k])@,
                first_with_severity(dv, sev, 0) == first_with_severity(dv, sev, i as int),
            decreases ds@.len() - i,
        {
            let hit = match &ds[i].severity {
                Option::Some(s) => *s == sev,
                Option::None => false,
            };
            if hit {
                return Some(copy_diag(&ds[i]));
            }
            i = i + 1;
        }
        None
    }
}

/// On an empty list no severity occurs.
proof fn lemma_first_none_on_empty(ds: Seq<DiagnosticView>, sev: Severity)
    requires
        ds.len() == 0,
    ensures
        first_with_severity(ds, sev, 0) == -1,
{
}

impl Default for DiagnosticsManager {
    fn default() -> (r: Self)
        ensures
            r.diagnostics@.len() == 0,
    {
        Self::new()
    }
}

} // verus!
