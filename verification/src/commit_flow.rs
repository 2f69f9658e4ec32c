//! Applying a commit: what is checked, in which order it is written, and who is told.
use crate::errors::AtomicError;
use vstd::prelude::*;

verus! {

/// What is to be done next to apply a commit.
#[derive(Clone, Copy, Debug, PartialEq, Eq, Structural)]
pub enum CommitStep {
    /// Check the commit and work out what it does.
    Validate,
    /// See whether the extender with this place is for the new resource, before the commit.
    BeforeCheck(usize),
    /// Call it.
    BeforeCall(usize),
    /// Collect the changes that store the commit itself.
    SaveCommit,
    /// Remove the resource that the commit destroys.
    RemoveOld,
    /// Collect the changes that store the new resource.
    SaveEffect,
    /// Write the changes to the database.
    Apply,
    /// Tell the listeners.
    Notify,
    /// See whether the extender with this place is for the new resource, after the commit.
    AfterCheck(usize),
    /// Call it.
    AfterCall(usize),
    /// Nothing: the commit is applied.
    Done,
    /// Nothing: the last action failed.
    Failed,
    /// Nothing: the commit neither had a resource nor made one.
    FailedNothing,
}

/// How an action turned out.
#[derive(Clone, Copy, Debug, PartialEq, Eq, Structural)]
pub enum CommitEvent {
    /// Whether an extender is for the resource.
    Matches(bool),
    /// Whether any other action worked, or that the test of an extender did not.
    Worked(bool),
}

/// Whether an extender looks at commits before and after they are applied.
#[derive(Clone, Copy, Debug, PartialEq, Eq, Structural)]
pub struct Handlers {
    pub before: bool,
    pub after: bool,
}

/// What applying a commit depends on.
pub struct CommitRules {
    pub extenders: Vec<Handlers>,
    /// Whether there was a resource before the commit.
    pub old: bool,
    /// Whether there is one after it.
    pub new: bool,
}

impl CommitRules {
    /// What is to be done from the extender with place `i` on, before the commit.
    pub open spec fn before_from(self, i: int) -> CommitStep {
        if self.new && i < self.extenders@.len() {
            CommitStep::BeforeCheck(i as usize)
        } else {
            CommitStep::SaveCommit
        }
    }

    /// What is to be done from the extender with place `i` on, after the commit.
    pub open spec fn after_from(self, i: int) -> CommitStep {
        if self.new && i < self.extenders@.len() {
            CommitStep::AfterCheck(i as usize)
        } else {
            CommitStep::Done
        }
    }

    /// What is to be done after an action. An event that does not belong to the action changes
    /// nothing.
    pub open spec fn next(self, step: CommitStep, event: CommitEvent) -> CommitStep {
        match (step, event) {
            (CommitStep::Validate, CommitEvent::Worked(true)) => self.before_from(0),
            (CommitStep::BeforeCheck(i), CommitEvent::Matches(matches)) => if matches
                && i < self.extenders@.len() && self.extenders@[i as int].before {
                CommitStep::BeforeCall(i)
            } else {
                self.before_from(i + 1)
            },
            (CommitStep::BeforeCall(i), CommitEvent::Worked(true)) => self.before_from(i + 1),
            (CommitStep::SaveCommit, CommitEvent::Worked(true)) => if self.new {
                CommitStep::SaveEffect
            } else if self.old {
                CommitStep::RemoveOld
            } else {
                CommitStep::FailedNothing
            },
            (CommitStep::RemoveOld, CommitEvent::Worked(true)) => CommitStep::SaveEffect,
            (CommitStep::SaveEffect, CommitEvent::Worked(true)) => CommitStep::Apply,
            (CommitStep::Apply, CommitEvent::Worked(true)) => CommitStep::Notify,
            (CommitStep::Notify, CommitEvent::Worked(_)) => self.after_from(0),
            (CommitStep::AfterCheck(i), CommitEvent::Matches(matches)) => if matches
                && i < self.extenders@.len() && self.extenders@[i as int].after {
                CommitStep::AfterCall(i)
            } else {
                self.after_from(i + 1)
            },
            (CommitStep::AfterCall(i), CommitEvent::Worked(true)) => self.after_from(i + 1),
            (CommitStep::Done, _) => step,
            (CommitStep::FailedNothing, _) => step,
            (_, CommitEvent::Worked(false)) => CommitStep::Failed,
            _ => step,
        }
    }

    /// The extender of a step is one of them.
    pub open spec fn fits(self, step: CommitStep) -> bool {
        match step {
            CommitStep::BeforeCheck(i) => i < self.extenders@.len(),
            CommitStep::BeforeCall(i) => i < self.extenders@.len(),
            CommitStep::AfterCheck(i) => i < self.extenders@.len(),
            CommitStep::AfterCall(i) => i < self.extenders@.len(),
            _ => true,
        }
    }

    fn go_before(&self, i: usize) -> (r: CommitStep)
        ensures
            r == self.before_from(i as int),
            self.fits(r),
    {
        if self.new && i < self.extenders.len() {
            CommitStep::BeforeCheck(i)
        } else {
            CommitStep::SaveCommit
        }
    }

    fn go_after(&self, i: usize) -> (r: CommitStep)
        ensures
            r == self.after_from(i as int),
            self.fits(r),
    {
        if self.new && i < self.extenders.len() {
            CommitStep::AfterCheck(i)
        } else {
            CommitStep::Done
        }
    }

    /// What is to be done after an action to apply a commit.
    pub fn apply_commit(&self, step: CommitStep, event: CommitEvent) -> (r: CommitStep)
        requires
            self.fits(step),
        ensures
            r == self.next(step, event),
            self.fits(r),
    {
        let n: usize = self.extenders.len();
        assert(n == self.extenders@.len());
        match (step, event) {
            (CommitStep::Validate, CommitEvent::Worked(true)) => self.go_before(0),
            (CommitStep::BeforeCheck(i), CommitEvent::Matches(matches)) => if matches
                && self.extenders[i].before {
                CommitStep::BeforeCall(i)
            } else {
                self.go_before(i + 1)
            },
            (CommitStep::BeforeCall(i), CommitEvent::Worked(true)) => self.go_before(i + 1),
            (CommitStep::SaveCommit, CommitEvent::Worked(true)) => if self.new {
                CommitStep::SaveEffect
            } else if self.old {
                CommitStep::RemoveOld
            } else {
                CommitStep::FailedNothing
            },
            (CommitStep::RemoveOld, CommitEvent::Worked(true)) => CommitStep::SaveEffect,
            (CommitStep::SaveEffect, CommitEvent::Worked(true)) => CommitStep::Apply,
            (CommitStep::Apply, CommitEvent::Worked(true)) => CommitStep::Notify,
            (CommitStep::Notify, CommitEvent::Worked(_)) => self.go_after(0),
            (CommitStep::AfterCheck(i), CommitEvent::Matches(matches)) => if matches
                && self.extenders[i].after {
                CommitStep::AfterCall(i)
            } else {
                self.go_after(i + 1)
            },
            (CommitStep::AfterCall(i), CommitEvent::Worked(true)) => self.go_after(i + 1),
            (CommitStep::Done, _) => step,
            (CommitStep::FailedNothing, _) => step,
            (_, CommitEvent::Worked(false)) => CommitStep::Failed,
            _ => step,
        }
    }

    /// What is to be done after a number of actions.
    pub open spec fn after(self, events: Seq<CommitEvent>) -> CommitStep
        decreases events.len(),
    {
        if events.len() == 0 {
            CommitStep::Validate
        } else {
            self.next(self.after(events.drop_last()), events.last())
        }
    }

    /// Whether the commit has been written.
    pub open spec fn written(self, step: CommitStep) -> bool {
        match step {
            CommitStep::Notify => true,
            CommitStep::AfterCheck(_) => true,
            CommitStep::AfterCall(_) => true,
            CommitStep::Done => true,
            _ => false,
        }
    }

    /// Whether all extenders have been asked that look at commits before they are applied.
    pub open spec fn past_before(self, step: CommitStep) -> bool {
        match step {
            CommitStep::SaveCommit => true,
            CommitStep::RemoveOld => true,
            CommitStep::SaveEffect => true,
            CommitStep::Apply => true,
            _ => self.written(step),
        }
    }

    /// Where an action fails, nothing is done any more.
    pub proof fn failed_commits_stay_failed(
        self,
        events: Seq<CommitEvent>,
        more: Seq<CommitEvent>,
    )
        requires
            self.after(events) is Failed,
        ensures
            self.after(events + more) is Failed,
        decreases more.len(),
    {
        if more.len() == 0 {
            assert(events + more =~= events);
        } else {
            self.failed_commits_stay_failed(events, more.drop_last());
            assert((events + more).drop_last() =~= events + more.drop_last());
        }
    }

    proof fn lemma_past_stays(self, events: Seq<CommitEvent>, j: int)
        requires
            0 <= j <= events.len(),
            self.past_before(self.after(events.take(j))),
        ensures
            match self.after(events) {
                CommitStep::Failed => true,
                CommitStep::FailedNothing => true,
                step => self.past_before(step),
            },
        decreases events.len(),
    {
        if j == events.len() {
            assert(events.take(j) =~= events);
        } else {
            assert(events.drop_last().take(j) =~= events.take(j));
            self.lemma_past_stays(events.drop_last(), j);
        }
    }

    /// Where an extender refuses a commit, nothing of it is written: not before the extender was
    /// asked, and not after.
    pub proof fn refused_commits_are_not_written(self, events: Seq<CommitEvent>, k: int, j: int)
        requires
            0 <= k < events.len(),
            self.after(events.take(k)) is BeforeCall,
            events[k] == CommitEvent::Worked(false),
            0 <= j <= events.len(),
        ensures
            !self.past_before(self.after(events.take(j))),
            self.after(events) is Failed,
    {
        let asked = events.take(k);
        let refused = events.take(k + 1);
        assert(refused.drop_last() =~= asked);
        assert(self.after(refused) is Failed);
        self.failed_commits_stay_failed(refused, events.skip(k + 1));
        assert(refused + events.skip(k + 1) =~= events);
        if j <= k {
            if self.past_before(self.after(events.take(j))) {
                assert(asked.take(j) =~= events.take(j));
                self.lemma_past_stays(asked, j);
            }
        } else {
            self.failed_commits_stay_failed(refused, events.subrange(k + 1, j));
            assert(refused + events.subrange(k + 1, j) =~= events.take(j));
        }
    }

    /// Whether the action with place `k` worked: the test of an extender gave an answer, or
    /// another action did what it was to do.
    pub open spec fn worked_at(self, events: Seq<CommitEvent>, k: int) -> bool {
        match self.after(events.take(k)) {
            CommitStep::BeforeCheck(_) => events[k] is Matches,
            CommitStep::AfterCheck(_) => events[k] is Matches,
            _ => events[k] == CommitEvent::Worked(true),
        }
    }

    /// How many actions there are still to come at most, where all of them work.
    spec fn left(self, step: CommitStep) -> int {
        let n = self.extenders@.len() as int;
        match step {
            CommitStep::Validate => 4 * n + 6,
            CommitStep::BeforeCheck(i) => 4 * n + 5 - 2 * i,
            CommitStep::BeforeCall(i) => 4 * n + 4 - 2 * i,
            CommitStep::SaveCommit => 2 * n + 5,
            CommitStep::RemoveOld => 2 * n + 4,
            CommitStep::SaveEffect => 2 * n + 3,
            CommitStep::Apply => 2 * n + 2,
            CommitStep::Notify => 2 * n + 1,
            CommitStep::AfterCheck(i) => 2 * n - 2 * i,
            CommitStep::AfterCall(i) => 2 * n - 2 * i - 1,
            _ => 0,
        }
    }

    proof fn lemma_left(self, events: Seq<CommitEvent>)
        requires
            self.extenders@.len() <= usize::MAX,
            forall|k: int| 0 <= k < events.len() ==> #[trigger] self.worked_at(events, k),
        ensures
            self.fits(self.after(events)),
            !(self.after(events) is Failed),
            self.after(events) is FailedNothing ==> !self.new && !self.old,
            self.after(events) is Done || self.after(events) is FailedNothing || events.len()
                + self.left(self.after(events)) <= 4 * self.extenders@.len() + 6,
            match self.after(events) {
                CommitStep::Done => self.new || self.old,
                CommitStep::RemoveOld => !self.new && self.old,
                CommitStep::SaveEffect => self.new || self.old,
                CommitStep::Apply => self.new || self.old,
                CommitStep::Notify => self.new || self.old,
                CommitStep::AfterCheck(_) => self.new,
                CommitStep::AfterCall(_) => self.new,
                _ => true,
            },
        decreases events.len(),
    {
        if events.len() > 0 {
            let before = events.drop_last();
            let last = events.len() - 1;
            assert forall|k: int| 0 <= k < before.len() implies #[trigger] self.worked_at(
                before,
                k,
            ) by {
                assert(before.take(k) =~= events.take(k));
                assert(self.worked_at(events, k));
            }
            self.lemma_left(before);
            assert(events.take(last) =~= before);
            assert(self.worked_at(events, last));
        }
    }

    /// A commit whose actions all work is done in the end, where it has a resource or makes one. One
    /// that neither has a resource nor makes one fails for that, and no other does.
    pub proof fn commits_that_work_are_done(self, events: Seq<CommitEvent>)
        requires
            self.extenders@.len() <= usize::MAX,
            forall|k: int| 0 <= k < events.len() ==> #[trigger] self.worked_at(events, k),
            events.len() > 4 * self.extenders@.len() + 6,
        ensures
            self.new || self.old ==> self.after(events) is Done,
            !self.new && !self.old ==> self.after(events) is FailedNothing,
    {
        self.lemma_left(events);
    }

    /// Only a commit that neither has a resource nor makes one fails for having none.
    pub proof fn only_empty_commits_fail_for_nothing(self, events: Seq<CommitEvent>)
        requires
            self.after(events) is FailedNothing,
        ensures
            !self.new,
            !self.old,
        decreases events.len(),
    {
        if events.len() > 0 {
            let before = events.drop_last();
            if self.after(before) is FailedNothing {
                self.only_empty_commits_fail_for_nothing(before);
            }
        }
    }

    /// Where an action fails, the commit fails, unless it is done; but that the listeners could not
    /// be told does no harm. And it fails for nothing else.
    pub proof fn failures_stop_a_commit(self, events: Seq<CommitEvent>, event: CommitEvent)
        ensures
            !(self.after(events) is Done) && !(self.after(events) is FailedNothing) && !(
            self.after(events) is Notify) ==> self.after(
                events.push(CommitEvent::Worked(false)),
            ) is Failed,
            self.after(events) is Notify ==> !(self.after(
                events.push(CommitEvent::Worked(false)),
            ) is Failed),
            self.after(events.push(event)) is Failed ==> self.after(events) is Failed || event
                == CommitEvent::Worked(false),
    {
        assert(events.push(event).drop_last() =~= events);
        assert(events.push(CommitEvent::Worked(false)).drop_last() =~= events);
    }

    /// Whether this action has been done and worked.
    pub open spec fn did(self, events: Seq<CommitEvent>, step: CommitStep) -> bool {
        exists|k: int|
            0 <= k < events.len() && #[trigger] self.after(events.take(k)) == step && events[k]
                == CommitEvent::Worked(true)
    }

    proof fn lemma_did_stays(self, events: Seq<CommitEvent>, step: CommitStep)
        requires
            events.len() > 0,
            self.did(events.drop_last(), step),
        ensures
            self.did(events, step),
    {
        let before = events.drop_last();
        let k = choose|k: int|
            0 <= k < before.len() && #[trigger] self.after(before.take(k)) == step && before[k]
                == CommitEvent::Worked(true);
        assert(before.take(k) =~= events.take(k));
        assert(self.after(events.take(k)) == step);
        assert(events[k] == before[k]);
    }

    proof fn lemma_did_last(self, events: Seq<CommitEvent>)
        requires
            events.len() > 0,
            events.last() == CommitEvent::Worked(true),
        ensures
            self.did(events, self.after(events.drop_last())),
    {
        let last = events.len() - 1;
        assert(events.take(last) =~= events.drop_last());
        assert(self.after(events.take(last)) == self.after(events.drop_last()));
        assert(events[last] == events.last());
    }

    /// What has been done when a commit is at a step: it has been checked; it has been stored; the
    /// resource that it destroys has been removed; the new one has been stored; all of that has been
    /// written.
    pub open spec fn done_before(self, events: Seq<CommitEvent>, step: CommitStep) -> bool {
        let checked = self.did(events, CommitStep::Validate);
        let stored = checked && self.did(events, CommitStep::SaveCommit);
        let removed = stored && (!self.new ==> self.old && self.did(events, CommitStep::RemoveOld));
        let saved = removed && self.did(events, CommitStep::SaveEffect);
        match step {
            CommitStep::Validate => true,
            CommitStep::BeforeCheck(_) => checked && self.new,
            CommitStep::BeforeCall(_) => checked && self.new,
            CommitStep::SaveCommit => checked,
            CommitStep::RemoveOld => stored && !self.new && self.old,
            CommitStep::SaveEffect => removed,
            CommitStep::Apply => saved,
            CommitStep::Notify => saved && self.did(events, CommitStep::Apply),
            CommitStep::AfterCheck(_) => saved && self.did(events, CommitStep::Apply) && self.new,
            CommitStep::AfterCall(_) => saved && self.did(events, CommitStep::Apply) && self.new,
            CommitStep::Done => saved && self.did(events, CommitStep::Apply),
            _ => true,
        }
    }

    /// A commit is checked, stored, applied to its resource and written, in this order; and it is
    /// done only when all of that has worked. A resource that it destroys has been removed then.
    pub proof fn commits_are_applied_in_order(self, events: Seq<CommitEvent>)
        ensures
            self.done_before(events, self.after(events)),
        decreases events.len(),
    {
        if events.len() > 0 {
            let before = events.drop_last();
            self.commits_are_applied_in_order(before);
            if events.last() == CommitEvent::Worked(true) {
                self.lemma_did_last(events);
            }
            if self.did(before, CommitStep::Validate) {
                self.lemma_did_stays(events, CommitStep::Validate);
            }
            if self.did(before, CommitStep::SaveCommit) {
                self.lemma_did_stays(events, CommitStep::SaveCommit);
            }
            if self.did(before, CommitStep::RemoveOld) {
                self.lemma_did_stays(events, CommitStep::RemoveOld);
            }
            if self.did(before, CommitStep::SaveEffect) {
                self.lemma_did_stays(events, CommitStep::SaveEffect);
            }
            if self.did(before, CommitStep::Apply) {
                self.lemma_did_stays(events, CommitStep::Apply);
            }
        }
    }

    /// Whether the listeners are told by the action with place `k`.
    pub open spec fn told_at(self, events: Seq<CommitEvent>, k: int) -> bool {
        &&& 0 <= k < events.len()
        &&& self.after(events.take(k)) is Notify
        &&& events[k] is Worked
    }

    /// Whether it is the turn of the extenders that look at commits after they are applied, or
    /// theirs is over.
    pub open spec fn past_notify(self, step: CommitStep) -> bool {
        match step {
            CommitStep::AfterCheck(_) => true,
            CommitStep::AfterCall(_) => true,
            CommitStep::Done => true,
            _ => false,
        }
    }

    proof fn lemma_past_notify_stays(self, events: Seq<CommitEvent>, j: int)
        requires
            0 <= j <= events.len(),
            self.past_notify(self.after(events.take(j))),
        ensures
            self.after(events) is Failed || self.past_notify(self.after(events)),
        decreases events.len(),
    {
        if j == events.len() {
            assert(events.take(j) =~= events);
        } else {
            assert(events.drop_last().take(j) =~= events.take(j));
            self.lemma_past_notify_stays(events.drop_last(), j);
        }
    }

    /// The listeners are not told of a commit twice.
    pub proof fn listeners_are_not_told_twice(self, events: Seq<CommitEvent>, k: int, m: int)
        requires
            self.told_at(events, k),
            self.told_at(events, m),
        ensures
            k == m,
    {
        let first = if k < m {
            k
        } else {
            m
        };
        let second = if k < m {
            m
        } else {
            k
        };
        if first < second {
            let told = events.take(first + 1);
            assert(told.drop_last() =~= events.take(first));
            assert(told.last() == events[first]);
            assert(self.past_notify(self.after(told)));
            assert(events.take(second).take(first + 1) =~= told);
            self.lemma_past_notify_stays(events.take(second), first + 1);
        }
    }

    /// The listeners are told of a commit before the first extender is asked that looks at commits
    /// after they are applied, and before the commit is done.
    pub proof fn listeners_are_told_first(self, events: Seq<CommitEvent>)
        requires
            self.past_notify(self.after(events)),
        ensures
            exists|k: int| #[trigger] self.told_at(events, k),
        decreases events.len(),
    {
        if events.len() > 0 {
            let before = events.drop_last();
            let last = events.len() - 1;
            assert(events.take(last) =~= before);
            if self.past_notify(self.after(before)) {
                self.listeners_are_told_first(before);
                let k = choose|k: int| #[trigger] self.told_at(before, k);
                assert(before.take(k) =~= events.take(k));
                assert(before[k] == events[k]);
                assert(self.told_at(events, k));
            } else {
                assert(self.told_at(events, last));
            }
        }
    }

    /// Whether the extender with place `i` has been asked before the commit and did not refuse it.
    pub open spec fn passed(self, events: Seq<CommitEvent>, i: int) -> bool {
        exists|k: int|
            0 <= k < events.len() && (({
                &&& #[trigger] self.after(events.take(k)) == CommitStep::BeforeCheck(i as usize)
                &&& events[k] matches CommitEvent::Matches(m) && !(m && self.extenders@[i].before)
            }) || (self.after(events.take(k)) == CommitStep::BeforeCall(i as usize) && events[k]
                == CommitEvent::Worked(true)))
    }

    proof fn lemma_passed_stays(self, events: Seq<CommitEvent>, i: int)
        requires
            events.len() > 0,
            self.passed(events.drop_last(), i),
        ensures
            self.passed(events, i),
    {
        let before = events.drop_last();
        let k = choose|k: int|
            0 <= k < before.len() && (({
                &&& #[trigger] self.after(before.take(k)) == CommitStep::BeforeCheck(i as usize)
                &&& before[k] matches CommitEvent::Matches(m) && !(m && self.extenders@[i].before)
            }) || (self.after(before.take(k)) == CommitStep::BeforeCall(i as usize) && before[k]
                == CommitEvent::Worked(true)));
        assert(before.take(k) =~= events.take(k));
        assert(before[k] == events[k]);
        assert(self.after(events.take(k)) == self.after(before.take(k)));
    }

    proof fn lemma_passed(self, events: Seq<CommitEvent>, i: int)
        requires
            self.new,
            self.extenders@.len() <= usize::MAX,
            0 <= i < self.extenders@.len(),
            match self.after(events) {
                CommitStep::BeforeCheck(k) => i < k,
                CommitStep::BeforeCall(k) => i < k,
                step => self.past_before(step),
            },
        ensures
            self.passed(events, i),
        decreases events.len(),
    {
        if events.len() > 0 {
            let before = events.drop_last();
            let last = events.len() - 1;
            assert(events.take(last) =~= before);
            assert(events[last] == events.last());
            let earlier = self.after(before);
            let already = match earlier {
                CommitStep::BeforeCheck(k) => i < k,
                CommitStep::BeforeCall(k) => i < k,
                step => self.past_before(step),
            };
            self.lemma_fits(before);
            if already {
                self.lemma_passed(before, i);
                self.lemma_passed_stays(events, i);
            } else {
                assert(self.after(events.take(last)) == earlier);
                assert(earlier == CommitStep::BeforeCheck(i as usize) || earlier
                    == CommitStep::BeforeCall(i as usize));
            }
        }
    }

    proof fn lemma_fits(self, events: Seq<CommitEvent>)
        requires
            self.extenders@.len() <= usize::MAX,
        ensures
            self.fits(self.after(events)),
        decreases events.len(),
    {
        if events.len() > 0 {
            self.lemma_fits(events.drop_last());
        }
    }

    /// A commit that makes or changes a resource is written only after every extender that is for
    /// the resource has been asked and did not refuse it.
    pub proof fn every_extender_is_asked_first(self, events: Seq<CommitEvent>, i: int)
        requires
            self.new,
            self.extenders@.len() <= usize::MAX,
            0 <= i < self.extenders@.len(),
            self.past_before(self.after(events)),
        ensures
            self.passed(events, i),
    {
        self.lemma_passed(events, i);
    }

    /// Whether the extender with place `i` has been told of the commit, or is not for it.
    pub open spec fn heard(self, events: Seq<CommitEvent>, i: int) -> bool {
        exists|k: int|
            0 <= k < events.len() && (({
                &&& #[trigger] self.after(events.take(k)) == CommitStep::AfterCheck(i as usize)
                &&& events[k] matches CommitEvent::Matches(m) && !(m && self.extenders@[i].after)
            }) || (self.after(events.take(k)) == CommitStep::AfterCall(i as usize) && events[k]
                == CommitEvent::Worked(true)))
    }

    proof fn lemma_heard(self, events: Seq<CommitEvent>, i: int)
        requires
            self.new,
            self.extenders@.len() <= usize::MAX,
            0 <= i < self.extenders@.len(),
            match self.after(events) {
                CommitStep::AfterCheck(k) => i < k,
                CommitStep::AfterCall(k) => i < k,
                step => step is Done,
            },
        ensures
            self.heard(events, i),
        decreases events.len(),
    {
        if events.len() > 0 {
            let before = events.drop_last();
            let last = events.len() - 1;
            assert(events.take(last) =~= before);
            assert(events[last] == events.last());
            let earlier = self.after(before);
            let already = match earlier {
                CommitStep::AfterCheck(k) => i < k,
                CommitStep::AfterCall(k) => i < k,
                step => step is Done,
            };
            self.lemma_fits(before);
            if already {
                self.lemma_heard(before, i);
                let k = choose|k: int|
                    0 <= k < before.len() && (({
                        &&& #[trigger] self.after(before.take(k)) == CommitStep::AfterCheck(
                            i as usize,
                        )
                        &&& before[k] matches CommitEvent::Matches(m) && !(m
                            && self.extenders@[i].after)
                    }) || (self.after(before.take(k)) == CommitStep::AfterCall(i as usize)
                        && before[k] == CommitEvent::Worked(true)));
                assert(before.take(k) =~= events.take(k));
                assert(before[k] == events[k]);
                assert(self.after(events.take(k)) == self.after(before.take(k)));
            } else {
                assert(self.after(events.take(last)) == earlier);
                assert(earlier == CommitStep::AfterCheck(i as usize) || earlier
                    == CommitStep::AfterCall(i as usize));
            }
        }
    }

    /// A commit that makes or changes a resource is done only after every extender that is for the
    /// resource, and looks at commits after they are applied, has been told of it.
    pub proof fn every_extender_is_told(self, events: Seq<CommitEvent>, i: int)
        requires
            self.new,
            self.extenders@.len() <= usize::MAX,
            0 <= i < self.extenders@.len(),
            self.after(events) is Done,
        ensures
            self.heard(events, i),
    {
        self.lemma_heard(events, i);
    }

    /// An extender is called only where it has been found to be for the resource, and where it looks
    /// at commits at that time.
    pub proof fn only_fitting_extenders_are_called(self, events: Seq<CommitEvent>)
        ensures
            self.after(events) matches CommitStep::BeforeCall(i) ==> i < self.extenders@.len()
                && self.extenders@[i as int].before && exists|k: int|
                0 <= k < events.len() && #[trigger] self.after(events.take(k))
                    == CommitStep::BeforeCheck(i) && events[k] == CommitEvent::Matches(true),
            self.after(events) matches CommitStep::AfterCall(i) ==> i < self.extenders@.len()
                && self.extenders@[i as int].after && exists|k: int|
                0 <= k < events.len() && #[trigger] self.after(events.take(k))
                    == CommitStep::AfterCheck(i) && events[k] == CommitEvent::Matches(true),
        decreases events.len(),
    {
        if events.len() > 0 {
            let before = events.drop_last();
            let last = events.len() - 1;
            self.only_fitting_extenders_are_called(before);
            assert(events.take(last) =~= before);
            assert(events[last] == events.last());
            let earlier = self.after(before);
            assert(self.after(events.take(last)) == earlier);
            if let CommitStep::BeforeCall(i) = earlier {
                let k = choose|k: int|
                    0 <= k < before.len() && #[trigger] self.after(before.take(k))
                        == CommitStep::BeforeCheck(i) && before[k] == CommitEvent::Matches(true);
                assert(before.take(k) =~= events.take(k));
                assert(events[k] == before[k]);
            }
            if let CommitStep::AfterCall(i) = earlier {
                let k = choose|k: int|
                    0 <= k < before.len() && #[trigger] self.after(before.take(k))
                        == CommitStep::AfterCheck(i) && before[k] == CommitEvent::Matches(true);
                assert(before.take(k) =~= events.take(k));
                assert(events[k] == before[k]);
            }
        }
    }

    /// An extender that fails after a commit does not undo it: the extenders that look at commits
    /// after they are applied are called only when the changes have been written.
    pub proof fn later_failures_do_not_undo(self, events: Seq<CommitEvent>)
        requires
            self.written(self.after(events)),
        ensures
            exists|k: int|
                0 <= k < events.len() && #[trigger] self.after(events.take(k)) is Apply && events[k]
                    == CommitEvent::Worked(true),
        decreases events.len(),
    {
        let before = events.drop_last();
        let last = events.len() - 1;
        assert(events.take(last) =~= before);
        if self.written(self.after(before)) {
            self.later_failures_do_not_undo(before);
            let k = choose|k: int|
                0 <= k < before.len() && #[trigger] self.after(before.take(k)) is Apply && before[k]
                    == CommitEvent::Worked(true);
            assert(before.take(k) =~= events.take(k));
            assert(self.after(events.take(k)) is Apply);
        } else {
            assert(self.after(events.take(last)) is Apply);
        }
    }
}

/// What is said about a commit that neither had a resource nor made one.
pub fn explain_nothing() -> (r: AtomicError)
    ensures
        r@ == crate::errors::other(
            "Neither an old nor a new resource is returned from the commit - something went wrong."@,
        ),
{
    AtomicError::other_error(
        "Neither an old nor a new resource is returned from the commit - something went wrong.".to_owned(),
    )
}

} // verus!
