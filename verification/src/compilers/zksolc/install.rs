//! The steps of installing a compiler.
use crate::error::{SolcError, SolcErrorView};
use vstd::prelude::*;
use vstd::string::*;

verus! {

/// What is to be done next to install a compiler.
#[derive(Debug)]
pub enum InstallStep {
    /// Request the compiler
    Request,
    /// Read what is sent
    Download,
    /// Open the lock file
    OpenLock,
    /// Lock it, so that the installation of the same compiler waits until this one is through
    TakeLock,
    /// See whether the compiler is there by now
    Check,
    /// Create the compiler's file
    Create,
    /// Write what was sent into it
    Write,
    /// Make it executable
    SetPermissions,
    /// Nothing: the compiler is installed
    Finished,
    /// Nothing: the installation failed
    Failed(SolcError),
}

/// What an [`InstallStep`] holds.
#[verifier::ext_equal]
pub enum InstallStepView {
    Request,
    Download,
    OpenLock,
    TakeLock,
    Check,
    Create,
    Write,
    SetPermissions,
    Finished,
    Failed(SolcErrorView),
}

impl View for InstallStep {
    type V = InstallStepView;

    open spec fn view(&self) -> InstallStepView {
        match self {
            InstallStep::Request => InstallStepView::Request,
            InstallStep::Download => InstallStepView::Download,
            InstallStep::OpenLock => InstallStepView::OpenLock,
            InstallStep::TakeLock => InstallStepView::TakeLock,
            InstallStep::Check => InstallStepView::Check,
            InstallStep::Create => InstallStepView::Create,
            InstallStep::Write => InstallStepView::Write,
            InstallStep::SetPermissions => InstallStepView::SetPermissions,
            InstallStep::Finished => InstallStepView::Finished,
            InstallStep::Failed(error) => InstallStepView::Failed(error@),
        }
    }
}

/// What came of a step.
#[derive(Debug)]
pub enum InstallEvent {
    /// The request was answered
    Answered { success: bool, status: String },
    /// The compiler's file is there, or not
    Found(bool),
    /// The step was done
    Done,
    /// The step failed for this reason
    Error(String),
}

/// What an [`InstallEvent`] holds.
#[verifier::ext_equal]
pub enum InstallEventView {
    Answered { success: bool, status: Seq<char> },
    Found(bool),
    Done,
    Error(Seq<char>),
}

impl View for InstallEvent {
    type V = InstallEventView;

    open spec fn view(&self) -> InstallEventView {
        match self {
            InstallEvent::Answered { success, status } => InstallEventView::Answered {
                success: *success,
                status: status@,
            },
            InstallEvent::Found(there) => InstallEventView::Found(*there),
            InstallEvent::Done => InstallEventView::Done,
            InstallEvent::Error(reason) => InstallEventView::Error(reason@),
        }
    }
}

impl InstallStepView {
    /// Whether something can come of this step.
    pub open spec fn allows(self, event: InstallEventView) -> bool {
        match self {
            InstallStepView::Request => event is Answered || event is Error,
            InstallStepView::Check => event is Found,
            InstallStepView::Finished => false,
            InstallStepView::Failed(_) => false,
            _ => event is Done || event is Error,
        }
    }

    /// What is said where this step fails.
    pub open spec fn failure(self, label: Seq<char>, reason: Seq<char>) -> Seq<char> {
        match self {
            InstallStepView::Request => "Failed to download "@ + label + " file: "@ + reason,
            InstallStepView::Download => "failed to download "@ + label + " file: "@ + reason,
            InstallStepView::OpenLock => "Error creating lock file"@,
            InstallStepView::TakeLock => "Error taking the lock"@,
            InstallStepView::Create => "Failed to create output "@ + label + " file: "@ + reason,
            InstallStepView::Write => "Failed to write the downloaded "@ + label + " file: "@
                + reason,
            InstallStepView::SetPermissions => "Failed to set "@ + label + " permissions: "@
                + reason,
            _ => Seq::empty(),
        }
    }

    /// The step that follows on this one when it is done.
    pub open spec fn following(self) -> InstallStepView {
        match self {
            InstallStepView::Request => InstallStepView::Download,
            InstallStepView::Download => InstallStepView::OpenLock,
            InstallStepView::OpenLock => InstallStepView::TakeLock,
            InstallStepView::TakeLock => InstallStepView::Check,
            InstallStepView::Check => InstallStepView::Create,
            InstallStepView::Create => InstallStepView::Write,
            InstallStepView::Write => InstallStepView::SetPermissions,
            _ => InstallStepView::Finished,
        }
    }

    /// The step after this one, given what came of it.
    pub open spec fn after(self, event: InstallEventView, label: Seq<char>) -> InstallStepView {
        match event {
            InstallEventView::Answered { success, status } => if success {
                self.following()
            } else {
                InstallStepView::Failed(
                    SolcErrorView::Message(
                        "Failed to download "@ + label + " file: status code "@ + status,
                    ),
                )
            },
            InstallEventView::Found(there) => if there {
                InstallStepView::Finished
            } else {
                self.following()
            },
            InstallEventView::Done => self.following(),
            InstallEventView::Error(reason) => InstallStepView::Failed(
                SolcErrorView::Message(self.failure(label, reason)),
            ),
        }
    }
}

/// A message about a labelled file.
fn message(front: &str, label: &str, middle: &str, reason: &str) -> (res: String)
    ensures
        res@ == front@ + label@ + middle@ + reason@,
{
    let mut res: String = front.to_string();
    res.append(label);
    res.append(middle);
    res.append(reason);
    res
}

impl InstallStep {
    fn failure(&self, label: &str, reason: &str) -> (res: String)
        ensures
            res@ == self@.failure(label@, reason@),
    {
        match self {
            InstallStep::Request => message("Failed to download ", label, " file: ", reason),
            InstallStep::Download => message("failed to download ", label, " file: ", reason),
            InstallStep::OpenLock => "Error creating lock file".to_string(),
            InstallStep::TakeLock => "Error taking the lock".to_string(),
            InstallStep::Create => message("Failed to create output ", label, " file: ", reason),
            InstallStep::Write => message(
                "Failed to write the downloaded ",
                label,
                " file: ",
                reason,
            ),
            InstallStep::SetPermissions => message(
                "Failed to set ",
                label,
                " permissions: ",
                reason,
            ),
            _ => String::new(),
        }
    }

    fn following(&self) -> (res: InstallStep)
        ensures
            res@ == self@.following(),
    {
        match self {
            InstallStep::Request => InstallStep::Download,
            InstallStep::Download => InstallStep::OpenLock,
            InstallStep::OpenLock => InstallStep::TakeLock,
            InstallStep::TakeLock => InstallStep::Check,
            InstallStep::Check => InstallStep::Create,
            InstallStep::Create => InstallStep::Write,
            InstallStep::Write => InstallStep::SetPermissions,
            _ => InstallStep::Finished,
        }
    }

    /// The step after this one, given what came of it
    pub fn next(self, event: InstallEvent, label: &str) -> (res: InstallStep)
        requires
            self@.allows(event@),
        ensures
            res@ == self@.after(event@, label@),
    {
        match event {
            InstallEvent::Answered { success, status } => if success {
                self.following()
            } else {
                InstallStep::Failed(
                    SolcError::Message(
                        message(
                            "Failed to download ",
                            label,
                            " file: status code ",
                            status.as_str(),
                        ),
                    ),
                )
            },
            InstallEvent::Found(there) => if there {
                InstallStep::Finished
            } else {
                self.following()
            },
            InstallEvent::Done => self.following(),
            InstallEvent::Error(reason) => InstallStep::Failed(
                SolcError::Message(self.failure(label, reason.as_str())),
            ),
        }
    }
}

/// The step that is next after all these events, if each of them was possible.
pub open spec fn step_after(events: Seq<InstallEventView>, label: Seq<char>) -> Option<
    InstallStepView,
>
    decreases events.len(),
{
    if events.len() == 0 {
        Some(InstallStepView::Request)
    } else {
        match step_after(events.drop_last(), label) {
            Some(step) => if step.allows(events.last()) {
                Some(step.after(events.last(), label))
            } else {
                None
            },
            None => None,
        }
    }
}

/// The events that lead up to a step without a failure.
pub open spec fn leads_to(step: InstallStepView, events: Seq<InstallEventView>) -> bool {
    let count = events.len();
    let sent = count > 0 && (events[0] matches InstallEventView::Answered { success, .. }
        && success);
    let locked = sent && count >= 4 && events[1] is Done && events[2] is Done && events[3] is Done;
    let missing = locked && count >= 5 && events[4] == InstallEventView::Found(false);
    match step {
        InstallStepView::Request => count == 0,
        InstallStepView::Download => count == 1 && sent,
        InstallStepView::OpenLock => count == 2 && sent && events[1] is Done,
        InstallStepView::TakeLock => count == 3 && sent && events[1] is Done && events[2] is Done,
        InstallStepView::Check => count == 4 && locked,
        InstallStepView::Create => count == 5 && missing,
        InstallStepView::Write => count == 6 && missing && events[5] is Done,
        InstallStepView::SetPermissions => count == 7 && missing && events[5] is Done && events[6] is Done,
        InstallStepView::Finished => {
            ||| count == 5 && locked && events[4] == InstallEventView::Found(true)
            ||| count == 8 && missing && events[5] is Done && events[6] is Done && events[7] is Done
        },
        InstallStepView::Failed(_) => true,
    }
}

/// Each step of an installation is reached in one way only. Where a compiler is installed, it
/// was sent, the lock was taken, and then it either was there already or was created, written
/// and made executable, in this order.
pub proof fn law_install_order(events: Seq<InstallEventView>, label: Seq<char>)
    ensures
        step_after(events, label) matches Some(step) ==> leads_to(step, events),
    decreases events.len(),
{
    if events.len() > 0 {
        let rest = events.drop_last();
        law_install_order(rest, label);
        if let Some(step) = step_after(rest, label) {
            assert(forall|i: int| 0 <= i < rest.len() ==> rest[i] == events[i]);
            assert(events[events.len() - 1] == events.last());
        }
    }
}

/// Where a compiler is sent, the lock is taken, and then the compiler either is there already
/// or is created, written and made executable, it is installed.
pub proof fn law_install_completes(events: Seq<InstallEventView>, label: Seq<char>)
    requires
        leads_to(InstallStepView::Finished, events),
    ensures
        step_after(events, label) == Some(InstallStepView::Finished),
{
    lemma_step_by_step(events, label, 4);
    assert(step_after(events.take(4), label) == Some(InstallStepView::Check));
    assert(events.take(5).drop_last() =~= events.take(4));
    if events.len() == 5 {
        assert(events.take(5) =~= events);
    } else {
        assert(step_after(events.take(5), label) == Some(InstallStepView::Create));
        assert(events.take(6).drop_last() =~= events.take(5));
        assert(step_after(events.take(6), label) == Some(InstallStepView::Write));
        assert(events.take(7).drop_last() =~= events.take(6));
        assert(step_after(events.take(7), label) == Some(InstallStepView::SetPermissions));
        assert(events.drop_last() =~= events.take(7));
    }
}

proof fn lemma_step_by_step(events: Seq<InstallEventView>, label: Seq<char>, count: int)
    requires
        leads_to(InstallStepView::Finished, events),
        0 <= count <= 4,
    ensures
        step_after(events.take(count), label) == Some(
            if count == 0 {
                InstallStepView::Request
            } else if count == 1 {
                InstallStepView::Download
            } else if count == 2 {
                InstallStepView::OpenLock
            } else if count == 3 {
                InstallStepView::TakeLock
            } else {
                InstallStepView::Check
            },
        ),
    decreases count,
{
    if count > 0 {
        lemma_step_by_step(events, label, count - 1);
        assert(events.take(count).drop_last() =~= events.take(count - 1));
        assert(events.take(count).last() == events[count - 1]);
    }
}

/// No step follows on the end of an installation.
pub proof fn law_install_ends(
    events: Seq<InstallEventView>,
    label: Seq<char>,
    event: InstallEventView,
)
    requires
        step_after(events, label) matches Some(step) && (step is Finished || step is Failed),
    ensures
        step_after(events.push(event), label) is None,
{
    assert(events.push(event).drop_last() =~= events);
}

/// A step that fails ends the installation, and it is told which one it was: of which file, and
/// why, but for the lock.
pub proof fn law_failures_are_told(
    step: InstallStepView,
    reason: Seq<char>,
    status: Seq<char>,
    label: Seq<char>,
)
    requires
        step.allows(InstallEventView::Error(reason)),
    ensures
        step.after(InstallEventView::Error(reason), label) == InstallStepView::Failed(
            SolcErrorView::Message(
                match step {
                    InstallStepView::Request => "Failed to download "@ + label + " file: "@
                        + reason,
                    InstallStepView::Download => "failed to download "@ + label + " file: "@
                        + reason,
                    InstallStepView::OpenLock => "Error creating lock file"@,
                    InstallStepView::TakeLock => "Error taking the lock"@,
                    InstallStepView::Create => "Failed to create output "@ + label + " file: "@
                        + reason,
                    InstallStepView::Write => "Failed to write the downloaded "@ + label
                        + " file: "@ + reason,
                    _ => "Failed to set "@ + label + " permissions: "@ + reason,
                },
            ),
        ),
        InstallStepView::Request.after(
            InstallEventView::Answered { success: false, status },
            label,
        ) == InstallStepView::Failed(
            SolcErrorView::Message(
                "Failed to download "@ + label + " file: status code "@ + status,
            ),
        ),
{
}

/// Just these things can come of a step: the request is answered or fails, the check finds the
/// compiler or does not, and every other step is done or fails.
pub proof fn law_events_of_steps(step: InstallStepView, event: InstallEventView)
    ensures
        step.allows(event) <==> {
            ||| step is Request && (event is Answered || event is Error)
            ||| step is Check && event is Found
            ||| (step is Download || step is OpenLock || step is TakeLock || step is Create
                || step is Write || step is SetPermissions) && (event is Done || event is Error)
        },
{
}

/// Steps and events that hold the same are the same, but for the texts' representation.
pub proof fn law_views_tell_steps_apart(
    a: InstallStep,
    b: InstallStep,
    x: InstallEvent,
    y: InstallEvent,
)
    ensures
        a@ == b@ ==> {
            &&& (a is Request <==> b is Request) && (a is Download <==> b is Download)
            &&& (a is OpenLock <==> b is OpenLock) && (a is TakeLock <==> b is TakeLock)
            &&& (a is Check <==> b is Check) && (a is Create <==> b is Create)
            &&& (a is Write <==> b is Write) && (a is SetPermissions <==> b is SetPermissions)
            &&& (a is Finished <==> b is Finished) && (a is Failed <==> b is Failed)
            &&& a is Failed ==> a->Failed_0@ == b->Failed_0@
        },
        x@ == y@ ==> {
            &&& (x is Answered <==> y is Answered) && (x is Found <==> y is Found)
            &&& (x is Done <==> y is Done) && (x is Error <==> y is Error)
            &&& x is Answered ==> x->success == y->success && x->status@ == y->status@
            &&& x is Found ==> x->Found_0 == y->Found_0
            &&& x is Error ==> x->Error_0@ == y->Error_0@
        },
{
}

} // verus!
