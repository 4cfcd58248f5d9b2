use vstd::prelude::*;

use crate::desktop::{serialize, DesktopEntry, EntryView};
use crate::slug::{filename_of, join_path};

verus! {

/// One piece of outside work that a workflow asks for.
pub enum Step {
    /// Write `contents` to the file at `path`, replacing what is there.
    WriteFile { path: String, contents: String },
    /// Register the entry stored at `path` with the host launcher.
    Register { path: String },
    /// Remove the entry stored as `filename` from the host launcher.
    Deregister { filename: String },
    /// Delete the file at `path`.
    RemoveFile { path: String },
}

pub enum StepView {
    WriteFile { path: Seq<char>, contents: Seq<char> },
    Register { path: Seq<char> },
    Deregister { filename: Seq<char> },
    RemoveFile { path: Seq<char> },
}

impl View for Step {
    type V = StepView;

    open spec fn view(&self) -> StepView {
        match self {
            Step::WriteFile { path, contents } => StepView::WriteFile {
                path: path@,
                contents: contents@,
            },
            Step::Register { path } => StepView::Register { path: path@ },
            Step::Deregister { filename } => StepView::Deregister { filename: filename@ },
            Step::RemoveFile { path } => StepView::RemoveFile { path: path@ },
        }
    }
}

/// Why a workflow failed.
pub enum LifecycleError {
    /// The entry has no name.
    Validation,
    /// Writing or deleting a file failed.
    Storage { cause: String },
    /// Registering or deregistering with the host launcher failed.
    Registration { cause: String },
    /// The new entry is in place, but removing the one it replaces failed, so
    /// a stale duplicate may remain.
    Cleanup { cause: String },
}

pub enum ErrorView {
    Validation,
    Storage(Seq<char>),
    Registration(Seq<char>),
    Cleanup(Seq<char>),
}

impl View for LifecycleError {
    type V = ErrorView;

    open spec fn view(&self) -> ErrorView {
        match self {
            LifecycleError::Validation => ErrorView::Validation,
            LifecycleError::Storage { cause } => ErrorView::Storage(cause@),
            LifecycleError::Registration { cause } => ErrorView::Registration(cause@),
            LifecycleError::Cleanup { cause } => ErrorView::Cleanup(cause@),
        }
    }
}

/// The error that a failure of `step` reports: a failure while cleaning up
/// after a rename is a partial one.
pub open spec fn failure_of(step: StepView, cleanup: bool, cause: Seq<char>) -> ErrorView {
    if cleanup {
        ErrorView::Cleanup(cause)
    } else {
        match step {
            StepView::WriteFile { .. } => ErrorView::Storage(cause),
            StepView::RemoveFile { .. } => ErrorView::Storage(cause),
            StepView::Register { .. } => ErrorView::Registration(cause),
            StepView::Deregister { .. } => ErrorView::Registration(cause),
        }
    }
}

/// Deregistering the entry, then deleting its file.
pub open spec fn delete_steps(dir: Seq<char>, e: EntryView) -> Seq<StepView> {
    seq![
        StepView::Deregister { filename: filename_of(e.name) },
        StepView::RemoveFile { path: join_path(dir, filename_of(e.name)) },
    ]
}

/// Writing the new entry's file and registering it; then, when the entry it
/// replaces was stored under another filename, deleting that one.
pub open spec fn create_steps(dir: Seq<char>, e: EntryView, previous: Option<EntryView>) -> Seq<
    StepView,
> {
    let path = join_path(dir, filename_of(e.name));
    let main = seq![
        StepView::WriteFile { path: path, contents: serialize(e) },
        StepView::Register { path: path },
    ];
    match previous {
        Some(p) => if filename_of(p.name) != filename_of(e.name) {
            main + delete_steps(dir, p)
        } else {
            main
        },
        None => main,
    }
}

pub struct WorkflowView {
    pub steps: Seq<StepView>,
    pub next: nat,
    pub cleanup_from: nat,
}

/// A create-or-update or a delete, as the steps that it takes in order. The
/// caller performs each step that `next_step` gives and reports how it went
/// with `advance`; the workflow stops at the first failure.
pub struct Workflow {
    steps: Vec<Step>,
    next: usize,
    cleanup_from: usize,
}

impl View for Workflow {
    type V = WorkflowView;

    closed spec fn view(&self) -> WorkflowView {
        WorkflowView {
            steps: self.steps@.map_values(|s: Step| s@),
            next: self.next as nat,
            cleanup_from: self.cleanup_from as nat,
        }
    }
}

fn delete_step_list(dir: &str, e: &DesktopEntry) -> (r: Vec<Step>)
    ensures
        r@.map_values(|s: Step| s@) == delete_steps(dir@, e@),
{
    let mut r: Vec<Step> = Vec::new();
    r.push(Step::Deregister { filename: e.filename() });
    r.push(Step::RemoveFile { path: e.filepath(dir) });
    assert(r@.map_values(|s: Step| s@) =~= delete_steps(dir@, e@));
    r
}

impl Workflow {
    /// The workflow that stores `entry`, replacing `previous` when given. It
    /// fails at once when the entry has no name.
    pub fn create_or_update(dir: &str, entry: &DesktopEntry, previous: &Option<DesktopEntry>) -> (r:
        Result<Workflow, LifecycleError>)
        ensures
            match r {
                Ok(w) => entry@.name.len() > 0 && w@ == (WorkflowView {
                    steps: create_steps(
                        dir@,
                        entry@,
                        match previous {
                            Some(p) => Some(p@),
                            None => None,
                        },
                    ),
                    next: 0,
                    cleanup_from: 2,
                }),
                Err(e) => entry@.name.len() == 0 && e@ == ErrorView::Validation,
            },
    {
        if entry.get_name().unicode_len() == 0 {
            return Err(LifecycleError::Validation);
        }
        let path = entry.filepath(dir);
        let mut steps: Vec<Step> = Vec::new();
        steps.push(Step::WriteFile { path: path.clone(), contents: entry.write() });
        steps.push(Step::Register { path });
        let ghost main = steps@.map_values(|s: Step| s@);
        match previous {
            Some(p) => {
                let old_name = p.filename();
                let new_name = entry.filename();
                if old_name != new_name {
                    let mut rest = delete_step_list(dir, p);
                    let ghost head = steps@;
                    let ghost tail = rest@;
                    steps.append(&mut rest);
                    assert(steps@ == head + tail);
                    assert(steps@.map_values(|s: Step| s@) =~= main + delete_steps(dir@, p@)) by {
                        assert forall|i: int| 0 <= i < steps@.len() implies #[trigger] steps@[i]
                            == if i < 2 {
                            head[i]
                        } else {
                            tail[i - 2]
                        } by {}
                        assert(tail.map_values(|s: Step| s@) == delete_steps(dir@, p@));
                        assert(tail.map_values(|s: Step| s@)[0] == tail[0]@);
                        assert(tail.map_values(|s: Step| s@)[1] == tail[1]@);
                    }
                }
            },
            None => {},
        }
        let r = Workflow { steps, next: 0, cleanup_from: 2 };
        assert(r@.steps =~= create_steps(
            dir@,
            entry@,
            match previous {
                Some(p) => Some(p@),
                None => None,
            },
        ));
        Ok(r)
    }

    /// The workflow that deregisters `entry` and then deletes its file.
    pub fn delete(dir: &str, entry: &DesktopEntry) -> (r: Workflow)
        ensures
            r@ == (WorkflowView { steps: delete_steps(dir@, entry@), next: 0, cleanup_from: 2 }),
    {
        Workflow { steps: delete_step_list(dir, entry), next: 0, cleanup_from: 2 }
    }

    /// The step to perform now, or `None` when the workflow has ended.
    pub fn next_step(&self) -> (r: Option<&Step>)
        ensures
            match r {
                Some(s) => self@.next < self@.steps.len() && s@ == self@.steps[self@.next as int],
                None => self@.next >= self@.steps.len(),
            },
    {
        if self.next < self.steps.len() {
            Some(&self.steps[self.next])
        } else {
            None
        }
    }

    /// Records how the current step went. On success the workflow moves to
    /// the next step, and ends with `Ok` after the last one; on failure it
    /// ends at once with the error for that step.
    pub fn advance(&mut self, outcome: Result<(), String>) -> (r: Option<Result<(), LifecycleError>>)
        requires
            old(self)@.next < old(self)@.steps.len(),
        ensures
            final(self)@.steps == old(self)@.steps,
            final(self)@.cleanup_from == old(self)@.cleanup_from,
            match outcome {
                Ok(()) => final(self)@.next == old(self)@.next + 1 && r == (if final(self)@.next
                    == final(self)@.steps.len() {
                    Some(Ok::<(), LifecycleError>(()))
                } else {
                    None
                }),
                Err(cause) => final(self)@.next == final(self)@.steps.len() && r is Some
                    && r->Some_0 is Err && r->Some_0->Err_0@ == failure_of(
                    old(self)@.steps[old(self)@.next as int],
                    old(self)@.next >= old(self)@.cleanup_from,
                    cause@,
                ),
            },
    {
        assert(self.next < self.steps.len());
        match outcome {
            Ok(()) => {
                self.next = self.next + 1;
                if self.next == self.steps.len() {
                    Some(Ok(()))
                } else {
                    None
                }
            },
            Err(cause) => {
                let at = self.next;
                let cleanup = at >= self.cleanup_from;
                self.next = self.steps.len();
                let err = if cleanup {
                    LifecycleError::Cleanup { cause }
                } else {
                    match &self.steps[at] {
                        Step::WriteFile { .. } => LifecycleError::Storage { cause },
                        Step::RemoveFile { .. } => LifecycleError::Storage { cause },
                        Step::Register { .. } => LifecycleError::Registration { cause },
                        Step::Deregister { .. } => LifecycleError::Registration { cause },
                    }
                };
                Some(Err(err))
            },
        }
    }
}

} // verus!
