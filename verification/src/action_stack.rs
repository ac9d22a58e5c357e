//! Bounded undo / redo history of editor commands.
//!
//! The stack only stores commands; running a command against the editor
//! world is the caller's business.  An undo is: take the newest command from
//! the undo list (`pop_undo`), revert it, then file it on the redo list
//! (`record_undone`).  A redo is the mirror image.
use vstd::prelude::*;

verus! {

/// Number of commands that each list keeps by default.
pub const DEFAULT_MAX_SIZE: usize = 50;

/// `s` with `c` pushed on top, dropping the oldest entry when the result
/// holds more than `max` entries.
pub open spec fn bounded_push<C>(s: Seq<C>, c: C, max: nat) -> Seq<C> {
    if s.push(c).len() > max {
        s.push(c).drop_first()
    } else {
        s.push(c)
    }
}

/// Undo and redo lists of commands, newest last, each capped at `max_size`.
pub struct ActionStack<C> {
    pub undo: Vec<C>,
    pub redo: Vec<C>,
    pub max_size: usize,
}

impl<C> ActionStack<C> {
    /// Both lists hold at most `max_size` commands.  Every operation keeps
    /// this; a stack built by `new` starts with it.
    pub open spec fn within_bounds(&self) -> bool {
        &&& self.undo@.len() <= self.max_size
        &&& self.redo@.len() <= self.max_size
    }

    /// An empty history that keeps `DEFAULT_MAX_SIZE` commands per list.
    pub fn new() -> (s: Self)
        ensures
            s.undo@ == Seq::<C>::empty(),
            s.redo@ == Seq::<C>::empty(),
            s.max_size == DEFAULT_MAX_SIZE,
            s.within_bounds(),
    {
        ActionStack { undo: Vec::new(), redo: Vec::new(), max_size: DEFAULT_MAX_SIZE }
    }

    /// Records a freshly performed command: it goes on top of the undo list
    /// (the oldest entry is dropped when the list would exceed `max_size`)
    /// and the redo list is cleared.
    pub fn push(&mut self, command: C)
        ensures
            final(self).undo@ == bounded_push(old(self).undo@, command, old(self).max_size as nat),
            final(self).redo@ == Seq::<C>::empty(),
            final(self).max_size == old(self).max_size,
    {
        self.undo.push(command);
        self.redo.clear();
        if self.undo.len() > self.max_size {
            self.undo.remove(0);
        }
    }

    /// Takes the newest command off the undo list, if there is one.
    pub fn pop_undo(&mut self) -> (command: Option<C>)
        ensures
            old(self).undo@.len() == 0 ==> command is None && final(self).undo@ == old(self).undo@,
            old(self).undo@.len() > 0 ==> command == Some(old(self).undo@.last())
                && final(self).undo@ == old(self).undo@.drop_last(),
            final(self).redo@ == old(self).redo@,
            final(self).max_size == old(self).max_size,
    {
        self.undo.pop()
    }

    /// Files a command that has just been reverted on top of the redo list,
    /// dropping the oldest redo entry when the list would exceed `max_size`.
    pub fn record_undone(&mut self, command: C)
        ensures
            final(self).redo@ == bounded_push(old(self).redo@, command, old(self).max_size as nat),
            final(self).undo@ == old(self).undo@,
            final(self).max_size == old(self).max_size,
    {
        self.redo.push(command);
        if self.redo.len() > self.max_size {
            self.redo.remove(0);
        }
    }

    /// Takes the newest command off the redo list, if there is one.
    pub fn pop_redo(&mut self) -> (command: Option<C>)
        ensures
            old(self).redo@.len() == 0 ==> command is None && final(self).redo@ == old(self).redo@,
            old(self).redo@.len() > 0 ==> command == Some(old(self).redo@.last())
                && final(self).redo@ == old(self).redo@.drop_last(),
            final(self).undo@ == old(self).undo@,
            final(self).max_size == old(self).max_size,
    {
        self.redo.pop()
    }

    /// Files a command that has just been re-applied on top of the undo
    /// list, dropping the oldest undo entry when the list would exceed
    /// `max_size`.  Unlike `push`, the redo list is left alone.
    pub fn record_redone(&mut self, command: C)
        ensures
            final(self).undo@ == bounded_push(old(self).undo@, command, old(self).max_size as nat),
            final(self).redo@ == old(self).redo@,
            final(self).max_size == old(self).max_size,
    {
        self.undo.push(command);
        if self.undo.len() > self.max_size {
            self.undo.remove(0);
        }
    }

    /// Whether an undo is available (the undo button is enabled).
    pub fn can_undo(&self) -> (b: bool)
        ensures
            b == (self.undo@.len() > 0),
    {
        !self.undo.is_empty()
    }

    /// Whether a redo is available (the redo button is enabled).
    pub fn can_redo(&self) -> (b: bool)
        ensures
            b == (self.redo@.len() > 0),
    {
        !self.redo.is_empty()
    }
}

impl<C> Default for ActionStack<C> {
    fn default() -> (s: Self)
        ensures
            s.undo@ == Seq::<C>::empty(),
            s.redo@ == Seq::<C>::empty(),
            s.max_size == DEFAULT_MAX_SIZE,
    {
        ActionStack::new()
    }
}

/// Every operation keeps both lists within `max_size`: recording a command
/// on either list never lets that list grow past the cap.
pub proof fn law_operations_keep_bounds<C>(undo: Seq<C>, redo: Seq<C>, c: C, max: nat)
    requires
        undo.len() <= max,
        redo.len() <= max,
    ensures
        bounded_push(undo, c, max).len() <= max,
        bounded_push(redo, c, max).len() <= max,
        undo.len() > 0 ==> undo.drop_last().len() <= max,
        redo.len() > 0 ==> redo.drop_last().len() <= max,
{
}

/// A command that was just pushed is the one an undo takes back, provided
/// the stack keeps at least one command.
pub proof fn law_push_then_undo_returns_command<C>(undo: Seq<C>, c: C, max: nat)
    requires
        max > 0,
        undo.len() <= max,
    ensures
        bounded_push(undo, c, max).len() > 0,
        bounded_push(undo, c, max).last() == c,
        bounded_push(undo, c, max).drop_last() == (if undo.len() == max {
            undo.drop_first()
        } else {
            undo
        }),
{
    if undo.len() == max {
        assert(undo.push(c).drop_first().drop_last() =~= undo.drop_first());
    } else {
        assert(undo.push(c).drop_last() =~= undo);
    }
}

/// Undo followed by redo gives the undo list back exactly, and the redo
/// list back whenever it was not already full.
pub proof fn law_undo_then_redo_restores<C>(undo: Seq<C>, redo: Seq<C>, max: nat)
    requires
        undo.len() > 0,
        undo.len() <= max,
        redo.len() <= max,
    ensures
        ({
            let c = undo.last();
            let undo1 = undo.drop_last();
            let redo1 = bounded_push(redo, c, max);
            &&& redo1.len() > 0
            &&& redo1.last() == c
            &&& bounded_push(undo1, redo1.last(), max) == undo
            &&& (redo.len() < max ==> redo1.drop_last() == redo)
        }),
{
    let c = undo.last();
    let undo1 = undo.drop_last();
    assert(undo1.push(c) =~= undo);
    if redo.len() < max {
        assert(redo.push(c).drop_last() =~= redo);
    }
}

/// Redo followed by undo gives the redo list back exactly, and the undo
/// list back whenever it was not already full.
pub proof fn law_redo_then_undo_restores<C>(undo: Seq<C>, redo: Seq<C>, max: nat)
    requires
        redo.len() > 0,
        undo.len() <= max,
        redo.len() <= max,
    ensures
        ({
            let c = redo.last();
            let redo1 = redo.drop_last();
            let undo1 = bounded_push(undo, c, max);
            &&& undo1.len() > 0
            &&& undo1.last() == c
            &&& bounded_push(redo1, undo1.last(), max) == redo
            &&& (undo.len() < max ==> undo1.drop_last() == undo)
        }),
{
    law_undo_then_redo_restores(redo, undo, max);
}

} // verus!
