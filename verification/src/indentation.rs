//! Indentation tracking for the layout-sensitive surface syntax.
//!
//! A stack of column levels records the currently open indentation blocks.
//! Feeding the column of a fresh line to [`IndentationLevel::update`] reports
//! whether the line opens a block, closes one or more blocks, or stays at the
//! same depth.

use vstd::prelude::*;

verus! {

/// How a new line's indentation relates to the previously seen levels.
#[derive(Debug, Clone, PartialEq, Eq, Structural)]
pub enum Indentation {
    /// The line is deeper than the current level and opens a new block.
    Indent,
    /// The line closes this many blocks.
    Dedent(usize),
    /// The line stays at the current level.
    Ondent,
}

/// The stack of indentation levels of the currently open blocks.
#[derive(Debug, Clone)]
pub struct IndentationLevel {
    pub stack: Vec<usize>,
}

impl Default for IndentationLevel {
    /// No open blocks: level 0.
    fn default() -> (r: IndentationLevel)
        ensures
            r.stack@ == Seq::<usize>::empty(),
            r.wf(),
    {
        IndentationLevel::new()
    }
}

/// Number of entries of `s` that are at most `level`; for a strictly
/// increasing stack these form exactly the prefix that a dedent to `level`
/// keeps.
pub open spec fn entries_le(s: Seq<usize>, level: usize) -> int
    decreases s.len(),
{
    if s.len() == 0 {
        0
    } else if s.last() <= level {
        s.len() as int
    } else {
        entries_le(s.drop_last(), level)
    }
}

impl IndentationLevel {
    /// The stack never repeats a level: each open block is strictly deeper
    /// than the one around it, and level 0 is represented by the empty stack.
    pub open spec fn wf(self) -> bool {
        &&& forall|i: int, j: int|
            0 <= i < j < self.stack@.len() ==> self.stack@[i] < self.stack@[j]
        &&& forall|i: int| 0 <= i < self.stack@.len() ==> self.stack@[i] > 0
    }

    /// The current indentation level: the innermost open block, or 0.
    pub open spec fn spec_level(self) -> usize {
        if self.stack@.len() == 0 {
            0
        } else {
            self.stack@.last()
        }
    }

    pub fn new() -> (r: IndentationLevel)
        ensures
            r.stack@ == Seq::<usize>::empty(),
            r.wf(),
    {
        IndentationLevel { stack: Vec::new() }
    }

    pub fn level(&self) -> (r: usize)
        ensures
            r == self.spec_level(),
    {
        if self.stack.len() == 0 {
            0
        } else {
            self.stack[self.stack.len() - 1]
        }
    }

    /// Record the indentation column of a fresh line.
    ///
    /// A deeper column opens a block; the same column keeps the current
    /// block; a shallower column closes every block deeper than it, but only
    /// when it lands exactly on a previously opened level (or on column 0).
    pub fn update(&mut self, level: usize) -> (r: Result<Indentation, &'static str>)
        requires
            old(self).wf(),
        ensures
            final(self).wf(),
            level > old(self).spec_level() ==> {
                &&& r == Ok::<_, &'static str>(Indentation::Indent)
                &&& final(self).stack@ == old(self).stack@.push(level)
            },
            level == old(self).spec_level() ==> {
                &&& r == Ok::<_, &'static str>(Indentation::Ondent)
                &&& final(self).stack@ == old(self).stack@
            },
            level < old(self).spec_level() && (level == 0 || old(self).stack@.contains(level))
                ==> {
                &&& final(self).stack@ == old(self).stack@.subrange(
                    0,
                    entries_le(old(self).stack@, level),
                )
                &&& r == Ok::<_, &'static str>(
                    Indentation::Dedent(
                        (old(self).stack@.len() - entries_le(old(self).stack@, level)) as usize,
                    ),
                )
            },
            level < old(self).spec_level() && !(level == 0 || old(self).stack@.contains(level))
                ==> {
                &&& final(self).stack@ == old(self).stack@
                &&& r matches Err(m) && m@ == (
                "indentation level while dedenting does not match any previously indented level."
                )@
            },
    {
        let current = self.level();
        if level > current {
            self.stack.push(level);
            Ok(Indentation::Indent)
        } else if level < current {
            let mut matches_stack = false;
            for i in 0..self.stack.len()
                invariant
                    matches_stack == exists|k: int| 0 <= k < i && self.stack@[k] == level,
            {
                if self.stack[i] == level {
                    matches_stack = true;
                }
            }
            if level == 0 || matches_stack {
                let ghost before = self.stack@;
                let stack_level = self.stack.len();
                loop
                    invariant
                        self.stack@.len() <= before.len(),
                        self.stack@ == before.subrange(0, self.stack@.len() as int),
                        forall|i: int, j: int|
                            0 <= i < j < before.len() ==> before[i] < before[j],
                        self.stack@.len() < before.len() ==> before[self.stack@.len() as int]
                            > level,
                    ensures
                        self.stack@ == before.subrange(0, entries_le(before, level)),
                    decreases self.stack@.len(),
                {
                    proof {
                        lemma_entries_le_prefix(before, self.stack@, level);
                    }
                    let cur = self.level();
                    if cur > level {
                        self.stack.pop();
                    } else {
                        break ;
                    }
                }
                proof {
                    lemma_entries_le_shape(before, level);
                }
                Ok(Indentation::Dedent(stack_level - self.stack.len()))
            } else {
                Err(
                    "indentation level while dedenting does not match any previously indented level.",
                )
            }
        } else {
            Ok(Indentation::Ondent)
        }
    }
}

/// For a strictly increasing sequence, the entries at most `level` of a
/// prefix agree with those of the whole sequence, as long as the prefix
/// already cut away only entries above `level`.
proof fn lemma_entries_le_prefix(whole: Seq<usize>, prefix: Seq<usize>, level: usize)
    requires
        prefix.len() <= whole.len(),
        prefix == whole.subrange(0, prefix.len() as int),
        forall|i: int, j: int| 0 <= i < j < whole.len() ==> whole[i] < whole[j],
        prefix.len() < whole.len() ==> whole[prefix.len() as int] > level,
    ensures
        entries_le(whole, level) == entries_le(prefix, level),
        entries_le(prefix, level) == if prefix.len() == 0 || prefix.last() <= level {
            prefix.len() as int
        } else {
            entries_le(prefix.drop_last(), level)
        },
        0 <= entries_le(whole, level) <= prefix.len(),
    decreases whole.len() - prefix.len(),
{
    if prefix.len() < whole.len() {
        let longer = whole.subrange(0, prefix.len() as int + 1);
        assert(longer.drop_last() =~= prefix);
        lemma_entries_le_prefix(whole, longer, level);
        lemma_entries_le_shape(prefix, level);
    } else {
        assert(prefix =~= whole);
        lemma_entries_le_shape(prefix, level);
    }
}

/// Unfold one step of `entries_le` and bound it by the length.
proof fn lemma_entries_le_shape(s: Seq<usize>, level: usize)
    ensures
        entries_le(s, level) == if s.len() == 0 || s.last() <= level {
            s.len() as int
        } else {
            entries_le(s.drop_last(), level)
        },
        0 <= entries_le(s, level) <= s.len(),
    decreases s.len(),
{
    if s.len() > 0 && s.last() > level {
        lemma_entries_le_shape(s.drop_last(), level);
    }
}

} // verus!
