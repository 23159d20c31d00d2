//! Undo and redo history of the desk's edits (a look or a sequence): at
//! most 80 undo steps are kept, and a new edit clears the redo history.
use vstd::prelude::*;

verus! {

/// How many undo steps are kept.
pub const MAX_UNDO: usize = 80;

/// Undo and redo stacks; the last element is the most recent.
pub struct EditStack<E> {
    undo: Vec<E>,
    redo: Vec<E>,
}

/// The undo stack after pushing `e`: the oldest entry goes once there are
/// more than `MAX_UNDO`.
pub open spec fn capped_push<E>(s: Seq<E>, e: E) -> Seq<E> {
    if s.push(e).len() > MAX_UNDO {
        s.push(e).drop_first()
    } else {
        s.push(e)
    }
}

impl<E> View for EditStack<E> {
    /// The undo stack and the redo stack.
    type V = (Seq<E>, Seq<E>);

    closed spec fn view(&self) -> (Seq<E>, Seq<E>) {
        (self.undo@, self.redo@)
    }
}

impl<E> EditStack<E> {
    /// Empty history.
    pub fn new() -> (s: Self)
        ensures
            s@ == (Seq::<E>::empty(), Seq::<E>::empty()),
    {
        EditStack { undo: Vec::new(), redo: Vec::new() }
    }

    /// Records an edit that can be undone; the redo history is dropped.
    pub fn push(&mut self, edit: E)
        ensures
            final(self)@.0 == capped_push(old(self)@.0, edit),
            final(self)@.1 == Seq::<E>::empty(),
    {
        self.undo.push(edit);
        if self.undo.len() > MAX_UNDO {
            self.undo.remove(0);
        }
        self.redo.clear();
    }

    /// Takes the most recent undo entry.
    pub fn pop_undo(&mut self) -> (r: Option<E>)
        ensures
            old(self)@.0.len() == 0 ==> r is None && final(self)@ == old(self)@,
            old(self)@.0.len() > 0 ==> r == Some(old(self)@.0.last()) && final(self)@ == (
                old(self)@.0.drop_last(),
                old(self)@.1,
            ),
    {
        self.undo.pop()
    }

    /// Takes the most recent redo entry.
    pub fn pop_redo(&mut self) -> (r: Option<E>)
        ensures
            old(self)@.1.len() == 0 ==> r is None && final(self)@ == old(self)@,
            old(self)@.1.len() > 0 ==> r == Some(old(self)@.1.last()) && final(self)@ == (
                old(self)@.0,
                old(self)@.1.drop_last(),
            ),
    {
        self.redo.pop()
    }

    /// Records an entry that can be redone.
    pub fn push_redo(&mut self, edit: E)
        ensures
            final(self)@ == (old(self)@.0, old(self)@.1.push(edit)),
    {
        self.redo.push(edit);
    }

    /// Whether there is something to undo.
    pub fn can_undo(&self) -> (b: bool)
        ensures
            b == (self@.0.len() > 0),
    {
        self.undo.len() > 0
    }

    /// Whether there is something to redo.
    pub fn can_redo(&self) -> (b: bool)
        ensures
            b == (self@.1.len() > 0),
    {
        self.redo.len() > 0
    }

    /// Undo: with history, the state to go back to, and `current` goes onto
    /// the redo stack; without, `current` itself and nothing changes.
    pub fn undo(&mut self, current: E) -> (r: E)
        ensures
            (final(self)@, r) == undo_spec(old(self)@, current),
    {
        match self.undo.pop() {
            Some(prev) => {
                self.redo.push(current);
                prev
            },
            None => current,
        }
    }

    /// Redo: with redo history, the state to go forward to, and `current`
    /// goes back onto the undo stack (without dropping old entries); without,
    /// `current` itself and nothing changes.
    pub fn redo(&mut self, current: E) -> (r: E)
        ensures
            (final(self)@, r) == redo_spec(old(self)@, current),
    {
        match self.redo.pop() {
            Some(next) => {
                self.undo.push(current);
                next
            },
            None => current,
        }
    }
}

/// The history after an undo from `current`, and the state it yields.
pub open spec fn undo_spec<E>(h: (Seq<E>, Seq<E>), current: E) -> ((Seq<E>, Seq<E>), E) {
    if h.0.len() > 0 {
        ((h.0.drop_last(), h.1.push(current)), h.0.last())
    } else {
        (h, current)
    }
}

/// The history after a redo from `current`, and the state it yields.
pub open spec fn redo_spec<E>(h: (Seq<E>, Seq<E>), current: E) -> ((Seq<E>, Seq<E>), E) {
    if h.1.len() > 0 {
        ((h.0.push(current), h.1.drop_last()), h.1.last())
    } else {
        (h, current)
    }
}

/// Undo followed by redo gives back the state and the history it started
/// from, whenever there was something to undo.
pub proof fn lemma_undo_then_redo<E>(h: (Seq<E>, Seq<E>), current: E)
    requires
        h.0.len() > 0,
    ensures
        redo_spec(undo_spec(h, current).0, undo_spec(h, current).1) == (h, current),
{
    assert(h.0.drop_last().push(h.0.last()) =~= h.0);
    assert(h.1.push(current).drop_last() =~= h.1);
}

/// Redo followed by undo gives back the state and the history it started
/// from, whenever there was something to redo.
pub proof fn lemma_redo_then_undo<E>(h: (Seq<E>, Seq<E>), current: E)
    requires
        h.1.len() > 0,
    ensures
        undo_spec(redo_spec(h, current).0, redo_spec(h, current).1) == (h, current),
{
    assert(h.1.drop_last().push(h.1.last()) =~= h.1);
    assert(h.0.push(current).drop_last() =~= h.0);
}

/// Recording an edit and undoing at once gives the recorded edit back.
pub proof fn lemma_push_then_undo<E>(undo: Seq<E>, recorded: E, current: E)
    ensures
        undo_spec((capped_push(undo, recorded), Seq::<E>::empty()), current).1 == recorded,
{
    let s = undo.push(recorded);
    if s.len() > MAX_UNDO {
        assert(s.drop_first().last() == recorded);
    }
}

/// The undo history never grows past `MAX_UNDO` through recorded edits.
pub proof fn lemma_push_bounded<E>(undo: Seq<E>, e: E)
    requires
        undo.len() <= MAX_UNDO,
    ensures
        capped_push(undo, e).len() <= MAX_UNDO,
{
}

} // verus!
