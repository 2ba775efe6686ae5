//! Line marks of a block, and the search for the next hole among them.
//!
//! The marks are one byte per line, kept in the tail of the block that they
//! describe. The last mark byte doubles as the mark of the whole block.

use vstd::prelude::*;
use crate::blockalloc::Block;
use crate::constants::{BLOCK_CAPACITY, BLOCK_SIZE, LINE_COUNT, LINE_MARK_START, LINE_SIZE};

verus! {

/// The line marks held in the tail of a block: one byte per line, zero for
/// an unmarked line.
pub open spec fn line_marks(block: Block) -> Seq<u8> {
    block@.subrange(LINE_MARK_START as int, BLOCK_SIZE as int)
}

/// The highest marked line below line `end`, or `-1` if every line below
/// `end` is unmarked.
pub open spec fn marked_below(marks: Seq<u8>, end: int) -> int
    decreases end,
{
    if end <= 0 {
        -1
    } else if marks[end - 1] != 0 {
        end - 1
    } else {
        marked_below(marks, end - 1)
    }
}

/// The number of lines that `alloc_size` bytes need.
pub open spec fn lines_required(alloc_size: int) -> int {
    (alloc_size + LINE_SIZE - 1) / (LINE_SIZE as int)
}

/// The first hole at or below line `end` with room for `required` lines, as
/// the byte offsets of its high and its low edge.
///
/// The run of unmarked lines below `end` is a hole if it reaches line 0 and
/// has at least `required` lines, or if it stops above a marked line and has
/// more than `required` lines: the line just above a marked line counts as
/// marked too, since an object in the marked line may reach into it. If that
/// run is no hole, the search goes on below the marked line that ended it.
pub open spec fn hole_below(marks: Seq<u8>, end: int, required: int) -> Option<(int, int)>
    decreases end,
    via hole_below_decreases
{
    if end <= 0 {
        None
    } else {
        let marked = marked_below(marks, end);
        if marked < 0 {
            if end >= required {
                Some((end * LINE_SIZE, 0))
            } else {
                None
            }
        } else if end - marked - 1 > required {
            Some((end * LINE_SIZE, (marked + 2) * LINE_SIZE))
        } else {
            hole_below(marks, marked, required)
        }
    }
}

#[via_fn]
proof fn hole_below_decreases(marks: Seq<u8>, end: int, required: int) {
    lemma_marked_below_bound(marks, end);
}

/// The hole that a search from byte offset `starting_at` downward finds for
/// `alloc_size` bytes.
pub open spec fn next_available_hole(marks: Seq<u8>, starting_at: int, alloc_size: int) -> Option<
    (int, int),
> {
    hole_below(marks, starting_at / (LINE_SIZE as int), lines_required(alloc_size))
}

/// Access to the line marks of one block.
pub struct BlockMeta {
    lines: usize,
}

impl BlockMeta {
    /// The address of the first line mark.
    pub closed spec fn spec_lines(&self) -> int {
        self.lines as int
    }

    /// These are the marks of `block`, which is a block of the heap's block
    /// size.
    pub open spec fn describes(&self, block: Block) -> bool {
        &&& block.wf()
        &&& block.spec_size() == BLOCK_SIZE
        &&& self.spec_lines() == block.spec_ptr() + LINE_MARK_START
    }

    /// The marks of `block`, all cleared.
    pub fn new(block: &mut Block) -> (meta: BlockMeta)
        requires
            old(block).wf(),
            old(block).spec_size() == BLOCK_SIZE,
        ensures
            meta.describes(*final(block)),
            final(block).spec_ptr() == old(block).spec_ptr(),
            line_marks(*final(block)) == Seq::new(LINE_COUNT as nat, |i: int| 0u8),
            final(block)@.subrange(0, LINE_MARK_START as int) == old(block)@.subrange(
                0,
                LINE_MARK_START as int,
            ),
    {
        let mut meta = BlockMeta { lines: block.as_ptr() + LINE_MARK_START };
        meta.reset(block);
        meta
    }

    /// Marks line `index`.
    pub fn mark_line(&mut self, block: &mut Block, index: usize)
        requires
            old(self).describes(*old(block)),
            index < LINE_COUNT,
        ensures
            *final(self) == *old(self),
            final(self).describes(*final(block)),
            final(block).spec_ptr() == old(block).spec_ptr(),
            final(block)@ == old(block)@.update(LINE_MARK_START + index, 1u8),
            line_marks(*final(block)) == line_marks(*old(block)).update(index as int, 1u8),
    {
        block.write(LINE_MARK_START + index, 1);
        assert(line_marks(*block) =~= line_marks(*old(block)).update(index as int, 1u8));
    }

    /// Marks the block as a whole: the last line mark stands for it.
    pub fn mark_block(&mut self, block: &mut Block)
        requires
            old(self).describes(*old(block)),
        ensures
            *final(self) == *old(self),
            final(self).describes(*final(block)),
            final(block).spec_ptr() == old(block).spec_ptr(),
            final(block)@ == old(block)@.update(BLOCK_SIZE - 1, 1u8),
            line_marks(*final(block)) == line_marks(*old(block)).update(LINE_COUNT - 1, 1u8),
    {
        self.mark_line(block, LINE_COUNT - 1);
    }

    /// Clears every line mark.
    pub fn reset(&mut self, block: &mut Block)
        requires
            old(self).describes(*old(block)),
        ensures
            *final(self) == *old(self),
            final(self).describes(*final(block)),
            final(block).spec_ptr() == old(block).spec_ptr(),
            line_marks(*final(block)) == Seq::new(LINE_COUNT as nat, |i: int| 0u8),
            final(block)@.subrange(0, LINE_MARK_START as int) == old(block)@.subrange(
                0,
                LINE_MARK_START as int,
            ),
    {
        let mut i: usize = 0;
        while i < LINE_COUNT
            invariant
                i <= LINE_COUNT,
                self.describes(*block),
                *self == *old(self),
                block.spec_ptr() == old(block).spec_ptr(),
                block@.subrange(0, LINE_MARK_START as int) == old(block)@.subrange(
                    0,
                    LINE_MARK_START as int,
                ),
                forall|k: int| LINE_MARK_START <= k < LINE_MARK_START + i ==> block@[k] == 0u8,
            decreases LINE_COUNT - i,
        {
            let ghost before = block@;
            block.write(LINE_MARK_START + i, 0);
            assert(block@.subrange(0, LINE_MARK_START as int) =~= before.subrange(
                0,
                LINE_MARK_START as int,
            ));
            i = i + 1;
        }
        assert(line_marks(*block) =~= Seq::new(LINE_COUNT as nat, |i: int| 0u8));
    }

    /// Whether line `index` is marked.
    pub fn is_line_marked(&self, block: &Block, index: usize) -> (marked: bool)
        requires
            self.describes(*block),
            index < LINE_COUNT,
        ensures
            marked == (line_marks(*block)[index as int] != 0),
    {
        block.read(LINE_MARK_START + index) != 0
    }

    /// Searches downward from byte offset `starting_at` for the next hole
    /// with room for `alloc_size` bytes, and returns the offsets of its high
    /// and its low edge.
    pub fn find_next_available_hole(&self, block: &Block, starting_at: usize, alloc_size: usize) -> (hole:
        Option<(usize, usize)>)
        requires
            self.describes(*block),
            starting_at / LINE_SIZE <= LINE_COUNT,
        ensures
            match hole {
                Some((cursor, limit)) => next_available_hole(
                    line_marks(*block),
                    starting_at as int,
                    alloc_size as int,
                ) == Some((cursor as int, limit as int)),
                None => next_available_hole(
                    line_marks(*block),
                    starting_at as int,
                    alloc_size as int,
                ) is None,
            },
    {
        let ghost marks = line_marks(*block);
        let starting_line: usize = starting_at / LINE_SIZE;
        let required: usize = if alloc_size % LINE_SIZE == 0 {
            alloc_size / LINE_SIZE
        } else {
            alloc_size / LINE_SIZE + 1
        };
        assert(required == lines_required(alloc_size as int));
        let mut count: usize = 0;
        let mut end: usize = starting_line;
        let mut index: usize = starting_line;
        while index > 0
            invariant
                self.describes(*block),
                marks == line_marks(*block),
                index <= end <= starting_line <= LINE_COUNT,
                count == end - index,
                forall|k: int| index <= k < end ==> marks[k] == 0u8,
                hole_below(marks, starting_line as int, required as int) == hole_below(
                    marks,
                    end as int,
                    required as int,
                ),
                index == 0 ==> end == 0 || end < required,
                starting_line == starting_at / LINE_SIZE,
                required == lines_required(alloc_size as int),
            decreases index,
        {
            index = index - 1;
            proof {
                lemma_marked_below_skips(marks, index as int + 1, end as int);
            }
            if !self.is_line_marked(block, index) {
                count = count + 1;
                assert(marked_below(marks, 0) == -1);
                assert(marked_below(marks, index + 1) == marked_below(marks, index as int));
                if index == 0 && count >= required {
                    assert(marked_below(marks, end as int) == -1);
                    return Some((end * LINE_SIZE, 0));
                }
                assert(index == 0 ==> marked_below(marks, end as int) == -1);
            } else {
                assert(marked_below(marks, end as int) == index);
                if count > required {
                    return Some((end * LINE_SIZE, (index + 2) * LINE_SIZE));
                }
                count = 0;
                end = index;
            }
        }
        assert(hole_below(marks, end as int, required as int) is None) by {
            lemma_marked_below_skips(marks, 0, end as int);
        }
        None
    }
}

/// The marked line below `end`, if there is one, is marked and is the
/// highest such line.
pub proof fn lemma_marked_below_bound(marks: Seq<u8>, end: int)
    ensures
        -1 <= marked_below(marks, end),
        marked_below(marks, end) < end || end <= 0,
        marked_below(marks, end) >= 0 ==> marks[marked_below(marks, end)] != 0,
        forall|k: int| marked_below(marks, end) < k < end ==> marks[k] == 0u8,
    decreases end,
{
    if end > 0 && marks[end - 1] == 0 {
        lemma_marked_below_bound(marks, end - 1);
    }
}

/// Unmarked lines do not change which marked line is the next one below.
pub proof fn lemma_marked_below_skips(marks: Seq<u8>, low: int, high: int)
    requires
        0 <= low <= high,
        forall|k: int| low <= k < high ==> marks[k] == 0u8,
    ensures
        marked_below(marks, high) == marked_below(marks, low),
    decreases high - low,
{
    if low < high {
        lemma_marked_below_skips(marks, low, high - 1);
    }
}

/// A hole that the search returns lies at or below the line the search began
/// at, begins and ends on line boundaries, has room for the lines asked for,
/// and holds no marked line.
pub proof fn lemma_hole_is_unmarked(marks: Seq<u8>, end: int, required: int)
    requires
        0 <= required,
    ensures
        match hole_below(marks, end, required) {
            Some((cursor, limit)) => {
                &&& 0 <= limit <= cursor <= end * LINE_SIZE
                &&& cursor % (LINE_SIZE as int) == 0
                &&& limit % (LINE_SIZE as int) == 0
                &&& cursor - limit >= required * LINE_SIZE
                &&& forall|line: int|
                    limit <= line * LINE_SIZE < cursor ==> marks[line] == 0u8
            },
            None => true,
        },
    decreases end,
{
    if end > 0 {
        lemma_marked_below_bound(marks, end);
        let marked = marked_below(marks, end);
        if marked >= 0 && !(end - marked - 1 > required) {
            lemma_hole_is_unmarked(marks, marked, required);
        }
    }
}

/// Where no line below `end` is marked, the lines below `end` are one hole
/// that reaches down to the base of the block, as long as it has room for
/// what is asked for.
pub proof fn lemma_unmarked_lines_are_one_hole(marks: Seq<u8>, end: int, required: int)
    requires
        0 < end,
        required <= end,
        forall|line: int| 0 <= line < end ==> marks[line] == 0u8,
    ensures
        hole_below(marks, end, required) == Some((end * LINE_SIZE, 0int)),
{
    lemma_marked_below_skips(marks, 0, end);
    assert(marked_below(marks, 0) == -1);
}

/// In a block without marked lines, a search from the top of the object area
/// for anything that a block can hold returns the whole object area.
pub proof fn lemma_unmarked_block_is_one_hole(marks: Seq<u8>, alloc_size: int)
    requires
        forall|line: int| 0 <= line < LINE_COUNT ==> marks[line] == 0u8,
        alloc_size <= BLOCK_CAPACITY,
    ensures
        next_available_hole(marks, BLOCK_CAPACITY as int, alloc_size) == Some(
            (BLOCK_CAPACITY as int, 0int),
        ),
{
    lemma_unmarked_lines_are_one_hole(
        marks,
        BLOCK_CAPACITY as int / LINE_SIZE as int,
        lines_required(alloc_size),
    );
}

/// Where line 0 is marked and no two neighbouring lines below `end` are both
/// unmarked, there is no hole for a request of at least one line: every
/// unmarked line sits just above a marked one and so counts as marked.
pub proof fn lemma_no_hole_between_marks(marks: Seq<u8>, end: int, required: int)
    requires
        1 <= required,
        marks[0] != 0,
        forall|line: int| 0 < line < end ==> marks[line - 1] != 0 || #[trigger] marks[line] != 0,
    ensures
        hole_below(marks, end, required) is None,
    decreases end,
{
    if end > 0 {
        lemma_marked_below_bound(marks, end);
        let marked = marked_below(marks, end);
        if marked < 0 {
            assert(marks[0] == 0u8);
        } else {
            if end - marked - 1 > 1 {
                assert(marks[end - 2] == 0u8);
                assert(marks[end - 1] == 0u8);
            }
            lemma_no_hole_between_marks(marks, marked, required);
        }
    }
}

/// In a block where every other line is marked, beginning with line 0, no
/// search for one byte or more finds a hole.
pub proof fn lemma_alternate_marks_leave_no_hole(marks: Seq<u8>, starting_at: int, alloc_size: int)
    requires
        forall|line: int| 0 <= line < LINE_COUNT && line % 2 == 0 ==> marks[line] != 0,
        0 <= starting_at <= BLOCK_SIZE,
        1 <= alloc_size,
    ensures
        next_available_hole(marks, starting_at, alloc_size) is None,
{
    let end = starting_at / (LINE_SIZE as int);
    assert forall|line: int| 0 < line < end implies marks[line - 1] != 0 || #[trigger] marks[line]
        != 0 by {
        if line % 2 == 0 {
            assert(marks[line] != 0);
        } else {
            assert((line - 1) % 2 == 0);
            assert(marks[line - 1] != 0);
        }
    }
    lemma_no_hole_between_marks(marks, end, lines_required(alloc_size));
}

} // verus!
