//! Undo/redo history of edit actions.

use vstd::prelude::*;

use crate::cursor::Cursor;

verus! {

/// One edit action that can be undone or redone.
#[derive(Debug, Clone)]
pub enum EditAction {
    /// A character was inserted at a position.
    InsertChar { line: usize, column: usize, c: char },
    /// A string was inserted at a position.
    InsertStr { line: usize, column: usize, text: String },
    /// A newline was inserted at a position, splitting the line.
    InsertNewline { line: usize, column: usize },
    /// A character was deleted within a line.
    DeleteChar { line: usize, column: usize, deleted: char },
    /// Two lines were joined by a backspace at column 0.
    JoinLines { line: usize, column: usize },
    /// A range of characters was deleted on a line.
    DeleteRange { line: usize, start_col: usize, deleted: String },
    /// Text was replaced at a position.
    ReplaceAt { line: usize, column: usize, old_text: String, new_text: String },
}

/// A history entry: an action with the cursor state before it.
#[derive(Debug, Clone)]
pub struct HistoryEntry {
    pub action: EditAction,
    pub cursor_before: Cursor,
}

/// Undo/redo stacks with a bounded depth.
#[derive(Debug, Clone)]
pub struct EditHistory {
    pub undo_stack: Vec<HistoryEntry>,
    pub redo_stack: Vec<HistoryEntry>,
    pub max_history: usize,
}

/// Field-by-field copy of an action, exact in the contract, which a derived
/// clone would not be.
fn copy_action(a: &EditAction) -> (r: EditAction)
    ensures
        r == *a,
{
    match a {
        EditAction::InsertChar { line, column, c } => EditAction::InsertChar {
            line: *line,
            column: *column,
            c: *c,
        },
        EditAction::InsertStr { line, column, text } => EditAction::InsertStr {
            line: *line,
            column: *column,
            text: text.clone(),
        },
        EditAction::InsertNewline { line, column } => EditAction::InsertNewline {
            line: *line,
            column: *column,
        },
        EditAction::DeleteChar { line, column, deleted } => EditAction::DeleteChar {
            line: *line,
            column: *column,
            deleted: *deleted,
        },
        EditAction::JoinLines { line, column } => EditAction::JoinLines {
            line: *line,
            column: *column,
        },
        EditAction::DeleteRange { line, start_col, deleted } => EditAction::DeleteRange {
            line: *line,
            start_col: *start_col,
            deleted: deleted.clone(),
        },
        EditAction::ReplaceAt { line, column, old_text, new_text } => EditAction::ReplaceAt {
            line: *line,
            column: *column,
            old_text: old_text.clone(),
            new_text: new_text.clone(),
        },
    }
}

/// Field-by-field copy of a history entry.
fn copy_entry(e: &HistoryEntry) -> (r: HistoryEntry)
    ensures
        r == *e,
{
    HistoryEntry { action: copy_action(&e.action), cursor_before: e.cursor_before }
}

impl EditHistory {
    /// An empty history keeping up to 1000 actions.
    pub fn new() -> (r: Self)
        ensures
            r.undo_stack@.len() == 0,
            r.redo_stack@.len() == 0,
            r.max_history == 1000,
    {
        Self { undo_stack: Vec::new(), redo_stack: Vec::new(), max_history: 1000 }
    }

    /// Records a new action: the redo stack is cleared, the action goes on
    /// the undo stack, and the oldest entry falls off past the bound.
    pub fn push(&mut self, action: EditAction, cursor_before: Cursor)
        ensures
            final(self).redo_stack@.len() == 0,
            final(self).max_history == old(self).max_history,
            ({
                let grown = old(self).undo_stack@.push(
                    (HistoryEntry { action, cursor_before }),
                );
                final(self).undo_stack@ == if grown.len() > old(self).max_history {
                    grown.drop_first()
                } else {
                    grown
                }
            }),
    {
        self.redo_stack.clear();
        self.undo_stack.push(HistoryEntry { action, cursor_before });
        if self.undo_stack.len() > self.max_history {
            self.undo_stack.remove(0);
            proof {
                assert(final(self).undo_stack@ =~= old(self).undo_stack@.push(
                    (HistoryEntry { action, cursor_before }),
                ).drop_first());
            }
        }
    }

    /// Moves the newest undo entry to the redo stack and returns it.
    pub fn undo(&mut self) -> (r: Option<HistoryEntry>)
        ensures
            final(self).max_history == old(self).max_history,
            match r {
                Some(e) => old(self).undo_stack@.len() > 0 && e == old(self).undo_stack@.last()
                    && final(self).undo_stack@ == old(self).undo_stack@.drop_last()
                    && final(self).redo_stack@ == old(self).redo_stack@.push(e),
                None => old(self).undo_stack@.len() == 0 && final(self).undo_stack@ == old(
                    self,
                ).undo_stack@ && final(self).redo_stack@ == old(self).redo_stack@,
            },
    {
        let entry = match self.undo_stack.pop() {
            Some(e) => e,
            None => {
                return None;
            },
        };
        self.redo_stack.push(copy_entry(&entry));
        Some(entry)
    }

    /// Moves the newest redo entry back to the undo stack and returns it.
    pub fn redo(&mut self) -> (r: Option<HistoryEntry>)
        ensures
            final(self).max_history == old(self).max_history,
            match r {
                Some(e) => old(self).redo_stack@.len() > 0 && e == old(self).redo_stack@.last()
                    && final(self).redo_stack@ == old(self).redo_stack@.drop_last()
                    && final(self).undo_stack@ == old(self).undo_stack@.push(e),
                None => old(self).redo_stack@.len() == 0 && final(self).undo_stack@ == old(
                    self,
                ).undo_stack@ && final(self).redo_stack@ == old(self).redo_stack@,
            },
    {
        let entry = match self.redo_stack.pop() {
            Some(e) => e,
            None => {
                return None;
            },
        };
        self.undo_stack.push(copy_entry(&entry));
        Some(entry)
    }
}

impl Default for EditHistory {
    fn default() -> (r: Self)
        ensures
            r.undo_stack@.len() == 0,
            r.redo_stack@.len() == 0,
            r.max_history == 1000,
    {
        Self::new()
    }
}

} // verus!
