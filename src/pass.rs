//! One mirror pass as a state machine. The caller performs each requested
//! action (a copy, a look at the target, a question to the user) and hands
//! back what came of it; the pass decides what comes next and keeps the
//! outcome of every pair.
use vstd::prelude::*;
use crate::gate::{accepts_overwrite, is_yes, needs_confirmation, needs_confirmation_spec, trimmed};
use crate::paths::MirrorPair;

verus! {

/// Backup copies from the source tree to the backup tree; restore copies
/// back, asking before it overwrites.
#[derive(Clone, Copy, Debug, PartialEq, Eq, Structural)]
pub enum Direction {
    Forward,
    Reverse,
}

/// Where the pass stands with its current pair.
#[derive(Clone, Copy, Debug, PartialEq, Eq, Structural)]
pub enum Stage {
    Ready,
    AwaitTarget,
    AwaitAnswer,
    AwaitCopy,
}

/// What the caller is asked to do next, for the pair at the given index.
#[derive(Clone, Copy, Debug, PartialEq, Eq, Structural)]
pub enum PassAction {
    /// Tell whether the pair's destination exists.
    CheckTarget(usize),
    /// Ask the user whether the pair's destination may be overwritten.
    Confirm(usize),
    /// Copy the pair's source database onto its destination.
    Copy(usize),
    Finished,
}

/// The outcome of one attempted copy: no error means success.
#[derive(Clone, Debug)]
pub struct CopyOutcome {
    pub pair: MirrorPair,
    pub error: Option<String>,
}

impl CopyOutcome {
    /// Whether the copy succeeded.
    pub fn succeeded(&self) -> (r: bool)
        ensures
            r == (self.error is None),
    {
        self.error.is_none()
    }
}

/// A pass over a list of pairs.
pub struct MirrorPass {
    pub pairs: Vec<MirrorPair>,
    pub direction: Direction,
    pub force: bool,
    pub next: usize,
    pub stage: Stage,
    pub outcomes: Vec<CopyOutcome>,
    pub skipped: Vec<MirrorPair>,
}

pub open spec fn error_view(e: Option<String>) -> Option<Seq<char>> {
    match e {
        Some(s) => Some(s@),
        None => None,
    }
}

/// How many of the outcomes are failures.
pub open spec fn failure_count(outcomes: Seq<CopyOutcome>) -> nat
    decreases outcomes.len(),
{
    if outcomes.len() == 0 {
        0
    } else {
        failure_count(outcomes.drop_last()) + if outcomes.last().error is Some {
            1nat
        } else {
            0nat
        }
    }
}

pub open spec fn result_error(r: Result<(), String>) -> Option<Seq<char>> {
    match r {
        Ok(_) => None,
        Err(s) => Some(s@),
    }
}

impl MirrorPass {
    /// Whether the run asks before overwriting.
    pub open spec fn confirms(&self) -> bool {
        self.direction == Direction::Reverse && !self.force
    }

    pub open spec fn wf(&self) -> bool {
        &&& self.next <= self.pairs.len()
        &&& self.next == self.pairs.len() ==> self.stage == Stage::Ready
        &&& self.stage != Stage::Ready ==> self.confirms()
        &&& self.outcomes.len() + self.skipped.len() == self.next
        &&& self.direction == Direction::Forward ==> self.skipped.len() == 0
        &&& self.direction == Direction::Forward ==> forall|i: int|
            0 <= i < self.outcomes.len() ==> (#[trigger] self.outcomes[i]).pair@
                == self.pairs[i]@
    }

    pub open spec fn finished(&self) -> bool {
        self.next == self.pairs.len()
    }

    /// The action that the pass asks for in its present state.
    pub open spec fn action_spec(&self) -> PassAction {
        if self.finished() {
            PassAction::Finished
        } else {
            match self.stage {
                Stage::Ready => if self.confirms() {
                    PassAction::CheckTarget(self.next)
                } else {
                    PassAction::Copy(self.next)
                },
                Stage::AwaitTarget => PassAction::CheckTarget(self.next),
                Stage::AwaitAnswer => PassAction::Confirm(self.next),
                Stage::AwaitCopy => PassAction::Copy(self.next),
            }
        }
    }

    /// A pass that has done nothing yet.
    pub fn new(pairs: Vec<MirrorPair>, direction: Direction, force: bool) -> (r: MirrorPass)
        ensures
            r.wf(),
            r.pairs@ == pairs@,
            r.direction == direction,
            r.force == force,
            r.next == 0,
            r.stage == Stage::Ready,
            r.outcomes@.len() == 0,
            r.skipped@.len() == 0,
    {
        MirrorPass {
            pairs,
            direction,
            force,
            next: 0,
            stage: Stage::Ready,
            outcomes: Vec::new(),
            skipped: Vec::new(),
        }
    }

    /// The action that the caller must perform next.
    pub fn action(&self) -> (r: PassAction)
        requires
            self.wf(),
        ensures
            r == self.action_spec(),
    {
        if self.next == self.pairs.len() {
            PassAction::Finished
        } else {
            match self.stage {
                Stage::Ready => if self.direction == Direction::Reverse && !self.force {
                    PassAction::CheckTarget(self.next)
                } else {
                    PassAction::Copy(self.next)
                },
                Stage::AwaitTarget => PassAction::CheckTarget(self.next),
                Stage::AwaitAnswer => PassAction::Confirm(self.next),
                Stage::AwaitCopy => PassAction::Copy(self.next),
            }
        }
    }

    /// Whether the current pair's destination exists. When it does, the user
    /// is asked next; when it does not, the copy comes next.
    pub fn target_checked(&mut self, exists: bool)
        requires
            old(self).wf(),
            old(self).action_spec() == PassAction::CheckTarget(old(self).next),
        ensures
            final(self).wf(),
            final(self).stage == (if needs_confirmation_spec(old(self).force, exists) {
                Stage::AwaitAnswer
            } else {
                Stage::AwaitCopy
            }),
            final(self).pairs == old(self).pairs,
            final(self).direction == old(self).direction,
            final(self).force == old(self).force,
            final(self).next == old(self).next,
            final(self).outcomes == old(self).outcomes,
            final(self).skipped == old(self).skipped,
    {
        if needs_confirmation(self.force, exists) {
            self.stage = Stage::AwaitAnswer;
        } else {
            self.stage = Stage::AwaitCopy;
        }
    }

    /// The line the user typed when asked. An accepting answer leads to the
    /// copy; any other skips the pair, which is then never copied.
    pub fn answered(&mut self, input: &str)
        requires
            old(self).wf(),
            old(self).action_spec() == PassAction::Confirm(old(self).next),
        ensures
            final(self).wf(),
            final(self).pairs == old(self).pairs,
            final(self).direction == old(self).direction,
            final(self).force == old(self).force,
            final(self).outcomes == old(self).outcomes,
            is_yes(trimmed(input@)) ==> final(self).next == old(self).next && final(self).stage
                == Stage::AwaitCopy && final(self).skipped == old(self).skipped,
            !is_yes(trimmed(input@)) ==> {
                &&& final(self).next == old(self).next + 1
                &&& final(self).stage == Stage::Ready
                &&& final(self).skipped@.len() == old(self).skipped@.len() + 1
                &&& final(self).skipped@.drop_last() == old(self).skipped@
                &&& final(self).skipped@.last()@ == old(self).pairs@[old(self).next as int]@
            },
    {
        if accepts_overwrite(input) {
            self.stage = Stage::AwaitCopy;
        } else {
            let p = self.pairs[self.next].duplicate();
            self.skipped.push(p);
            proof {
                assert(self.skipped@.drop_last() =~= old(self).skipped@);
            }
            self.next = self.next + 1;
            self.stage = Stage::Ready;
        }
    }

    /// How many copies of the pass have failed so far.
    pub fn failures(&self) -> (r: usize)
        ensures
            r == failure_count(self.outcomes@),
    {
        let mut n: usize = 0;
        let mut i: usize = 0;
        while i < self.outcomes.len()
            invariant
                i <= self.outcomes.len(),
                n == failure_count(self.outcomes@.subrange(0, i as int)),
                n <= i,
            decreases self.outcomes.len() - i,
        {
            assert(self.outcomes@.subrange(0, i + 1).drop_last() =~= self.outcomes@.subrange(
                0,
                i as int,
            ));
            if self.outcomes[i].error.is_some() {
                n = n + 1;
            }
            i = i + 1;
        }
        assert(self.outcomes@.subrange(0, self.outcomes.len() as int) =~= self.outcomes@);
        n
    }

    /// What came of copying the current pair. Success or failure, the
    /// outcome is kept and the pass moves on to the next pair.
    pub fn copied(&mut self, result: Result<(), String>)
        requires
            old(self).wf(),
            old(self).action_spec() == PassAction::Copy(old(self).next),
        ensures
            final(self).wf(),
            final(self).pairs == old(self).pairs,
            final(self).direction == old(self).direction,
            final(self).force == old(self).force,
            final(self).skipped == old(self).skipped,
            final(self).next == old(self).next + 1,
            final(self).stage == Stage::Ready,
            final(self).outcomes@.len() == old(self).outcomes@.len() + 1,
            final(self).outcomes@.drop_last() == old(self).outcomes@,
            final(self).outcomes@.last().pair@ == old(self).pairs@[old(self).next as int]@,
            error_view(final(self).outcomes@.last().error) == result_error(result),
    {
        let p = self.pairs[self.next].duplicate();
        let error = match result {
            Ok(_) => None,
            Err(e) => Some(e),
        };
        self.outcomes.push(CopyOutcome { pair: p, error });
        proof {
            assert(self.outcomes@.drop_last() =~= old(self).outcomes@);
            assert forall|i: int| 0 <= i < self.outcomes.len() && self.direction == Direction::Forward
                implies (#[trigger] self.outcomes[i]).pair@ == self.pairs[i]@ by {
                if i < old(self).outcomes.len() {
                    assert(self.outcomes[i] == old(self).outcomes[i]);
                }
            }
        }
        self.next = self.next + 1;
        self.stage = Stage::Ready;
    }
}

/// Partial-failure isolation: a finished backup pass holds one outcome for
/// every pair, in order, whatever the copies before it reported.
pub proof fn lemma_forward_pass_complete(p: MirrorPass)
    requires
        p.wf(),
        p.direction == Direction::Forward,
        p.finished(),
    ensures
        p.outcomes@.len() == p.pairs@.len(),
        p.skipped@.len() == 0,
        forall|i: int| 0 <= i < p.pairs@.len() ==> (#[trigger] p.outcomes@[i]).pair@ == p.pairs@[i]@,
{
}

/// A forced pass never looks at a target and never asks: its next action is
/// always the copy of the current pair.
pub proof fn lemma_forced_pass_always_copies(p: MirrorPass)
    requires
        p.wf(),
        p.force,
        !p.finished(),
    ensures
        p.action_spec() == PassAction::Copy(p.next),
{
}

} // verus!
