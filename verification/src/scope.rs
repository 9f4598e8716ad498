//! The stack of open sections, as the indentation widths at which each was
//! opened.
//!
//! A line at some width closes every open section that was opened at that
//! width or further in. Both the schema loader and the document parser keep
//! their stack by this rule, so the widths on it always grow strictly from
//! the outermost section to the innermost.

use vstd::prelude::*;

verus! {

/// The widths grow strictly from the bottom of the stack to its top.
pub open spec fn increasing(indents: Seq<usize>) -> bool {
    forall|i: int, j: int| 0 <= i < j < indents.len() ==> indents[i] < indents[j]
}

/// How many sections stay open when a line at `width` arrives: sections are
/// closed from the top of the stack for as long as the top was opened at
/// `width` or further in.
pub open spec fn kept(indents: Seq<usize>, width: usize) -> nat
    decreases indents.len(),
{
    if indents.len() > 0 && indents.last() >= width {
        kept(indents.drop_last(), width)
    } else {
        indents.len()
    }
}

/// What is closed was opened at `width` or further in, and the section on
/// top of what stays open was opened at a smaller width.
pub proof fn lemma_kept(indents: Seq<usize>, width: usize)
    ensures
        kept(indents, width) <= indents.len(),
        forall|i: int| kept(indents, width) <= i < indents.len() ==> #[trigger] indents[i] >= width,
        kept(indents, width) > 0 ==> indents[kept(indents, width) - 1] < width,
    decreases indents.len(),
{
    if indents.len() > 0 && indents.last() >= width {
        let rest = indents.drop_last();
        lemma_kept(rest, width);
        let k = kept(rest, width) as int;
        assert forall|i: int| k <= i < indents.len() implies #[trigger] indents[i] >= width by {
            if i < rest.len() {
                assert(indents[i] == rest[i]);
            }
        }
        if k > 0 {
            assert(indents[k - 1] == rest[k - 1]);
        }
    }
}

/// On a stack whose widths grow strictly, a line at `width` closes exactly
/// the sections opened at `width` or further in, and no others: every section
/// that stays open was opened at a smaller width, every section that is closed
/// at `width` or a larger one. Opening a section at `width` afterwards keeps
/// the widths growing strictly.
pub proof fn lemma_closes_exactly(indents: Seq<usize>, width: usize)
    requires
        increasing(indents),
    ensures
        kept(indents, width) <= indents.len(),
        forall|i: int| 0 <= i < kept(indents, width) ==> #[trigger] indents[i] < width,
        forall|i: int| kept(indents, width) <= i < indents.len() ==> #[trigger] indents[i] >= width,
        increasing(indents.take(kept(indents, width) as int)),
        increasing(indents.take(kept(indents, width) as int).push(width)),
{
    lemma_kept(indents, width);
    let k = kept(indents, width) as int;
    assert forall|i: int| 0 <= i < k implies #[trigger] indents[i] < width by {
        if i < k - 1 {
            assert(indents[i] < indents[k - 1]);
        }
    }
}

/// Closes the sections that a line at `width` closes, and says how many stay
/// open.
pub fn close(indents: &mut Vec<usize>, width: usize) -> (n: usize)
    ensures
        n == kept(old(indents)@, width),
        n <= old(indents)@.len(),
        final(indents)@ == old(indents)@.take(n as int),
{
    let ghost before = indents@;
    assert(before.take(before.len() as int) =~= before);
    while indents.len() > 0 && indents[indents.len() - 1] >= width
        invariant
            indents@.len() <= before.len(),
            indents@ == before.take(indents@.len() as int),
            kept(before, width) == kept(indents@, width),
        decreases indents@.len(),
    {
        let ghost cur = indents@;
        indents.pop();
        assert(indents@ =~= cur.drop_last());
        assert(indents@ =~= before.take(indents@.len() as int));
    }
    indents.len()
}

} // verus!
