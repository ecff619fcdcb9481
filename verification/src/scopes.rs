//! The size of a stack of scopes, and how the changes that a grammar asks
//! for move it.

use vstd::prelude::*;

verus! {

/// What a change to the scope stack does to the number of scopes on it.
#[derive(Clone, Copy, Debug, PartialEq, Eq, Structural)]
pub enum OpShape {
    /// One scope is pushed.
    Push,
    /// This many scopes are popped.
    Pop(usize),
    /// At most this many scopes are taken off the top and set aside.
    ClearTop(usize),
    /// Every scope is taken off and set aside.
    ClearAll,
    /// The scopes that were last set aside are pushed back.
    Restore,
    /// Nothing changes.
    Noop,
}

/// The size of a scope stack: how many scopes it holds, and how large each
/// group of scopes is that was set aside and waits to be restored, oldest
/// group first.
pub struct StackShape {
    pub depth: usize,
    pub cleared: Seq<usize>,
}

/// The size of a stack after one change, or `None` where the change asks for
/// scopes that are not there: a pop of more scopes than the stack holds, or
/// a restore when nothing was set aside. A stack is taken to hold at most
/// `isize::MAX` scopes.
pub open spec fn step(shape: StackShape, op: OpShape) -> Option<StackShape> {
    match op {
        OpShape::Push => if shape.depth < isize::MAX {
            Some(StackShape { depth: (shape.depth + 1) as usize, cleared: shape.cleared })
        } else {
            None
        },
        OpShape::Pop(n) => if n <= shape.depth {
            Some(StackShape { depth: (shape.depth - n) as usize, cleared: shape.cleared })
        } else {
            None
        },
        OpShape::ClearTop(n) => {
            let taken = if n <= shape.depth {
                n
            } else {
                shape.depth
            };
            Some(
                StackShape {
                    depth: (shape.depth - taken) as usize,
                    cleared: shape.cleared.push(taken),
                },
            )
        },
        OpShape::ClearAll => Some(
            StackShape { depth: 0, cleared: shape.cleared.push(shape.depth) },
        ),
        OpShape::Restore => if shape.cleared.len() > 0 && shape.depth + shape.cleared.last()
            <= isize::MAX {
            Some(
                StackShape {
                    depth: (shape.depth + shape.cleared.last()) as usize,
                    cleared: shape.cleared.drop_last(),
                },
            )
        } else {
            None
        },
        OpShape::Noop => Some(shape),
    }
}

/// The size of a stack after a run of changes, or `None` where one of them
/// asks for scopes that are not there.
pub open spec fn walk(ops: Seq<OpShape>, start: StackShape) -> Option<StackShape>
    decreases ops.len(),
{
    if ops.len() == 0 {
        Some(start)
    } else {
        match walk(ops.drop_last(), start) {
            Some(shape) => step(shape, ops.last()),
            None => None,
        }
    }
}

/// A failing prefix of a run of changes makes the whole run fail.
pub proof fn lemma_walk_stays_none(ops: Seq<OpShape>, start: StackShape, j: int)
    requires
        0 <= j <= ops.len(),
        walk(ops.take(j), start) is None,
    ensures
        walk(ops, start) is None,
    decreases ops.len(),
{
    if j == ops.len() {
        assert(ops.take(j) =~= ops);
    } else {
        assert(ops.drop_last().take(j) =~= ops.take(j));
        lemma_walk_stays_none(ops.drop_last(), start, j);
    }
}

} // verus!
