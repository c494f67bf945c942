//! Jump history for back/forward navigation between file locations.

use vstd::prelude::*;

use crate::text::str_eq;

verus! {

/// A location in a file: path, line and column.
#[derive(Debug, Clone)]
pub struct FileLocation {
    pub path: String,
    pub line: usize,
    pub column: usize,
}

/// Mathematical shape of a location.
pub struct FileLocationView {
    pub path: Seq<char>,
    pub line: int,
    pub column: int,
}

impl View for FileLocation {
    type V = FileLocationView;

    open spec fn view(&self) -> FileLocationView {
        FileLocationView { path: self.path@, line: self.line as int, column: self.column as int }
    }
}

impl PartialEq for FileLocation {
    fn eq(&self, other: &Self) -> (r: bool) {
        str_eq(self.path.as_str(), other.path.as_str()) && self.line == other.line && self.column
            == other.column
    }
}

impl vstd::std_specs::cmp::PartialEqSpecImpl for FileLocation {
    open spec fn obeys_eq_spec() -> bool {
        true
    }

    open spec fn eq_spec(&self, other: &Self) -> bool {
        self@ == other@
    }
}

impl FileLocation {
    pub fn new(path: String, line: usize, column: usize) -> (r: Self)
        ensures
            r.path@ == path@ && r.line == line && r.column == column,
    {
        Self { path, line, column }
    }
}

/// The locations of a history as views.
pub open spec fn loc_views(h: Seq<FileLocation>) -> Seq<FileLocationView> {
    h.map_values(|l: FileLocation| l@)
}

/// Back/forward navigation history.
///
/// `current` counts how many entries lie at or before the current position:
/// it is 0 when nothing is current, and `history.len()` right after a push.
#[derive(Debug)]
pub struct NavigationHistory {
    pub history: Vec<FileLocation>,
    pub current: usize,
}

impl NavigationHistory {
    /// The structural invariant: the current index never passes the end.
    pub open spec fn wf(&self) -> bool {
        self.current <= self.history@.len()
    }

    /// An empty history.
    pub fn new() -> (r: Self)
        ensures
            r.wf(),
            r.history@.len() == 0,
            r.current == 0,
    {
        Self { history: Vec::new(), current: 0 }
    }

    /// Pushes a new location: a repeat of the newest entry is dropped, any
    /// forward history is cut off, and the new location becomes current.
    pub fn push(&mut self, location: FileLocation)
        requires
            old(self).wf(),
        ensures
            final(self).wf(),
            ({
                let h = old(self).history@;
                if h.len() > 0 && h.last()@ == location@ {
                    *final(self) == *old(self)
                } else {
                    final(self).history@ == h.take(old(self).current as int).push(location)
                        && final(self).current == old(self).current + 1
                }
            }),
    {
        if self.history.len() > 0 {
            let last = &self.history[self.history.len() - 1];
            if str_eq(last.path.as_str(), location.path.as_str()) && last.line == location.line
                && last.column == location.column {
                return ;
            }
        }
        if self.current < self.history.len() {
            self.history.truncate(self.current);
        } else {
            proof {
                assert(self.history@.take(self.current as int) =~= self.history@);
            }
        }
        self.history.push(location);
        self.current = self.history.len();
    }

    /// Steps back in history and returns the location stepped to.
    pub fn back(&mut self) -> (r: Option<&FileLocation>)
        requires
            old(self).wf(),
        ensures
            final(self).wf(),
            final(self).history@ == old(self).history@,
            match r {
                Some(l) => old(self).current > 1 && final(self).current == old(self).current - 1
                    && *l == old(self).history@[old(self).current - 2],
                None => old(self).current <= 1 && final(self).current == old(self).current,
            },
    {
        if self.current > 1 {
            self.current = self.current - 1;
            Some(&self.history[self.current - 1])
        } else {
            None
        }
    }

    /// Steps forward in history and returns the location stepped to.
    pub fn forward(&mut self) -> (r: Option<&FileLocation>)
        requires
            old(self).wf(),
        ensures
            final(self).wf(),
            final(self).history@ == old(self).history@,
            match r {
                Some(l) => old(self).current < old(self).history@.len() && final(self).current
                    == old(self).current + 1 && *l == old(self).history@[old(self).current as int],
                None => old(self).current >= old(self).history@.len() && final(self).current == old(
                    self,
                ).current,
            },
    {
        if self.current < self.history.len() {
            self.current = self.current + 1;
            Some(&self.history[self.current - 1])
        } else {
            None
        }
    }

    /// The current location, if any.
    pub fn current(&self) -> (r: Option<&FileLocation>)
        requires
            self.wf(),
        ensures
            match r {
                Some(l) => self.current > 0 && *l == self.history@[self.current - 1],
                None => self.current == 0,
            },
    {
        if self.current > 0 {
            Some(&self.history[self.current - 1])
        } else {
            None
        }
    }

    /// Whether a step back is possible.
    pub fn can_go_back(&self) -> (r: bool)
        ensures
            r == (self.current > 1),
    {
        self.current > 1
    }

    /// Whether a step forward is possible.
    pub fn can_go_forward(&self) -> (r: bool)
        ensures
            r == (self.current < self.history@.len()),
    {
        self.current < self.history.len()
    }

    /// Number of recorded locations.
    pub fn len(&self) -> (r: usize)
        ensures
            r == self.history@.len(),
    {
        self.history.len()
    }

    /// Whether no location is recorded.
    pub fn is_empty(&self) -> (r: bool)
        ensures
            r == (self.history@.len() == 0),
    {
        self.history.is_empty()
    }

    /// Forgets all history.
    pub fn clear(&mut self)
        ensures
            final(self).wf(),
            final(self).history@.len() == 0,
            final(self).current == 0,
    {
        self.history.clear();
        self.current = 0;
    }
}

impl Default for NavigationHistory {
    fn default() -> (r: Self)
        ensures
            r.wf(),
            r.history@.len() == 0,
            r.current == 0,
    {
        Self::new()
    }
}

} // verus!
