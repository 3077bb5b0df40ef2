//! The steps of installing a compiler.
use crate::error::{SolcError, SolcErrorView};
use vstd::prelude::*;
use vstd::string::*;

verus! {

/// What is to be done next to install a compiler.
#[derive(Debug)]
pub enum InstallStep {
    /// Request the compiler
    Request,
    /// See whether the directory of the compilers is there
    CheckDir,
    /// Create that directory
    CreateDir,
    /// Create the compiler's file
    Create,
    /// Read what is sent
    Download,
    /// Write what was sent into the file
    Write,
    /// Make it executable
    SetPermissions,
    /// Nothing: the compiler is installed
    Finished,
    /// Nothing: the installation failed
    Failed(SolcError),
}

/// What an [`InstallStep`] holds.
#[verifier::ext_equal]
pub enum InstallStepView {
    Request,
    CheckDir,
    CreateDir,
    Create,
    Download,
    Write,
    SetPermissions,
    Finished,
    Failed(SolcErrorView),
}

impl View for InstallStep {
    type V = InstallStepView;

    open spec fn view(&self) -> InstallStepView {
        match self {
            InstallStep::Request => InstallStepView::Request,
            InstallStep::CheckDir => InstallStepView::CheckDir,
            InstallStep::CreateDir => InstallStepView::CreateDir,
            InstallStep::Create => InstallStepView::Create,
            InstallStep::Download => InstallStepView::Download,
            InstallStep::Write => InstallStepView::Write,
            InstallStep::SetPermissions => InstallStepView::SetPermissions,
            InstallStep::Finished => InstallStepView::Finished,
            InstallStep::Failed(error) => InstallStepView::Failed(error@),
        }
    }
}

/// What came of a step.
#[derive(Debug)]
pub enum InstallEvent {
    /// The request was answered
    Answered { success: bool, status: String },
    /// The directory of the compilers is there, or not
    Found(bool),
    /// The step was done
    Done,
    /// The step failed for this reason
    Error(String),
}

/// What an [`InstallEvent`] holds.
#[verifier::ext_equal]
pub enum InstallEventView {
    Answered { success: bool, status: Seq<char> },
    Found(bool),
    Done,
    Error(Seq<char>),
}

impl View for InstallEvent {
    type V = InstallEventView;

    open spec fn view(&self) -> InstallEventView {
        match self {
            InstallEvent::Answered { success, status } => InstallEventView::Answered {
                success: *success,
                status: status@,
            },
            InstallEvent::Found(there) => InstallEventView::Found(*there),
            InstallEvent::Done => InstallEventView::Done,
            InstallEvent::Error(reason) => InstallEventView::Error(reason@),
        }
    }
}

impl InstallStepView {
    /// Whether something can come of this step.
    pub open spec fn allows(self, event: InstallEventView) -> bool {
        match self {
            InstallStepView::Request => event is Answered || event is Error,
            InstallStepView::CheckDir => event is Found,
            InstallStepView::Finished => false,
            InstallStepView::Failed(_) => false,
            _ => event is Done || event is Error,
        }
    }

    /// What is said where this step fails.
    pub open spec fn failure(self, reason: Seq<char>) -> Seq<char> {
        (match self {
            InstallStepView::Request => "Failed to download file: "@,
            InstallStepView::CreateDir => "Could not create compilers path: "@,
            InstallStepView::Create => "Failed to create output file: "@,
            InstallStepView::Download => "failed to download file: "@,
            InstallStepView::Write => "Failed to write the downloaded file: "@,
            InstallStepView::SetPermissions => "Failed to set zksync compiler permissions: "@,
            _ => Seq::empty(),
        }) + reason
    }

    /// The step that follows on this one when it is done.
    pub open spec fn following(self) -> InstallStepView {
        match self {
            InstallStepView::Request => InstallStepView::CheckDir,
            InstallStepView::CheckDir => InstallStepView::Create,
            InstallStepView::CreateDir => InstallStepView::Create,
            InstallStepView::Create => InstallStepView::Download,
            InstallStepView::Download => InstallStepView::Write,
            InstallStepView::Write => InstallStepView::SetPermissions,
            _ => InstallStepView::Finished,
        }
    }

    /// The step after this one, given what came of it.
    pub open spec fn after(self, event: InstallEventView) -> InstallStepView {
        match event {
            InstallEventView::Answered { success, status } => if success {
                self.following()
            } else {
                InstallStepView::Failed(
                    SolcErrorView::Message("Failed to download file: status code "@ + status),
                )
            },
            InstallEventView::Found(there) => if there {
                self.following()
            } else {
                InstallStepView::CreateDir
            },
            InstallEventView::Done => self.following(),
            InstallEventView::Error(reason) => InstallStepView::Failed(
                SolcErrorView::Message(self.failure(reason)),
            ),
        }
    }
}

impl InstallStep {
    fn failure(&self, reason: &str) -> (res: String)
        ensures
            res@ == self@.failure(reason@),
    {
        let mut res: String = match self {
            InstallStep::Request => "Failed to download file: ".to_string(),
            InstallStep::CreateDir => "Could not create compilers path: ".to_string(),
            InstallStep::Create => "Failed to create output file: ".to_string(),
            InstallStep::Download => "failed to download file: ".to_string(),
            InstallStep::Write => "Failed to write the downloaded file: ".to_string(),
            InstallStep::SetPermissions => {
                "Failed to set zksync compiler permissions: ".to_string()
            },
            _ => String::new(),
        };
        res.append(reason);
        res
    }

    fn following(&self) -> (res: InstallStep)
        ensures
            res@ == self@.following(),
    {
        match self {
            InstallStep::Request => InstallStep::CheckDir,
            InstallStep::CheckDir => InstallStep::Create,
            InstallStep::CreateDir => InstallStep::Create,
            InstallStep::Create => InstallStep::Download,
            InstallStep::Download => InstallStep::Write,
            InstallStep::Write => InstallStep::SetPermissions,
            _ => InstallStep::Finished,
        }
    }

    /// The step after this one, given what came of it
    pub fn next(self, event: InstallEvent) -> (res: InstallStep)
        requires
            self@.allows(event@),
        ensures
            res@ == self@.after(event@),
    {
        match event {
            InstallEvent::Answered { success, status } => if success {
                self.following()
            } else {
                let mut message: String = "Failed to download file: status code ".to_string();
                message.append(status.as_str());
                InstallStep::Failed(SolcError::Message(message))
            },
            InstallEvent::Found(there) => if there {
                self.following()
            } else {
                InstallStep::CreateDir
            },
            InstallEvent::Done => self.following(),
            InstallEvent::Error(reason) => InstallStep::Failed(
                SolcError::Message(self.failure(reason.as_str())),
            ),
        }
    }
}

/// The step that is next after all these events, if each of them was possible.
pub open spec fn step_after(events: Seq<InstallEventView>) -> Option<InstallStepView>
    decreases events.len(),
{
    if events.len() == 0 {
        Some(InstallStepView::Request)
    } else {
        match step_after(events.drop_last()) {
            Some(step) => if step.allows(events.last()) {
                Some(step.after(events.last()))
            } else {
                None
            },
            None => None,
        }
    }
}

/// The events that lead up to a step without a failure.
pub open spec fn leads_to(step: InstallStepView, events: Seq<InstallEventView>) -> bool {
    let count = events.len();
    let sent = count > 0 && (events[0] matches InstallEventView::Answered { success, .. }
        && success);
    let there = sent && count >= 2 && events[1] == InstallEventView::Found(true);
    let made = sent && count >= 3 && events[1] == InstallEventView::Found(false)
        && events[2] is Done;
    // how many events it takes until there is a directory
    let dir: int = if there {
        2
    } else {
        3
    };
    let ready = there || made;
    match step {
        InstallStepView::Request => count == 0,
        InstallStepView::CheckDir => count == 1 && sent,
        InstallStepView::CreateDir => count == 2 && sent && events[1] == InstallEventView::Found(
            false,
        ),
        InstallStepView::Create => ready && count == dir,
        InstallStepView::Download => ready && count == dir + 1 && events[dir] is Done,
        InstallStepView::Write => ready && count == dir + 2 && events[dir] is Done && events[dir
            + 1] is Done,
        InstallStepView::SetPermissions => ready && count == dir + 3 && events[dir] is Done
            && events[dir + 1] is Done && events[dir + 2] is Done,
        InstallStepView::Finished => ready && count == dir + 4 && events[dir] is Done && events[dir
            + 1] is Done && events[dir + 2] is Done && events[dir + 3] is Done,
        InstallStepView::Failed(_) => true,
    }
}

/// Each step of an installation is reached in one way only. Where a compiler is installed, the
/// request succeeded, the directory of the compilers was there or was created, and then the
/// file was created, what was sent was read, written, and made executable, in this order.
pub proof fn law_install_order(events: Seq<InstallEventView>)
    ensures
        step_after(events) matches Some(step) ==> leads_to(step, events),
    decreases events.len(),
{
    if events.len() > 0 {
        let rest = events.drop_last();
        law_install_order(rest);
        if let Some(step) = step_after(rest) {
            assert(forall|i: int| 0 <= i < rest.len() ==> rest[i] == events[i]);
            assert(events[events.len() - 1] == events.last());
        }
    }
}

/// Where the request succeeds, the directory of the compilers is there or is created, and then
/// the file is created, what is sent is read, written, and made executable, the compiler is
/// installed.
pub proof fn law_install_completes(events: Seq<InstallEventView>)
    requires
        leads_to(InstallStepView::Finished, events),
    ensures
        step_after(events) == Some(InstallStepView::Finished),
{
    let dir: int = if events[1] == InstallEventView::Found(true) {
        2
    } else {
        3
    };
    assert(step_after(events.take(0)) == Some(InstallStepView::Request));
    assert(events.take(1).drop_last() =~= events.take(0));
    assert(step_after(events.take(1)) == Some(InstallStepView::CheckDir));
    assert(events.take(2).drop_last() =~= events.take(1));
    if dir == 3 {
        assert(step_after(events.take(2)) == Some(InstallStepView::CreateDir));
        assert(events.take(3).drop_last() =~= events.take(2));
    }
    assert(step_after(events.take(dir)) == Some(InstallStepView::Create));
    assert(events.take(dir + 1).drop_last() =~= events.take(dir));
    assert(step_after(events.take(dir + 1)) == Some(InstallStepView::Download));
    assert(events.take(dir + 2).drop_last() =~= events.take(dir + 1));
    assert(step_after(events.take(dir + 2)) == Some(InstallStepView::Write));
    assert(events.take(dir + 3).drop_last() =~= events.take(dir + 2));
    assert(step_after(events.take(dir + 3)) == Some(InstallStepView::SetPermissions));
    assert(events.drop_last() =~= events.take(dir + 3));
}

/// No step follows on the end of an installation.
pub proof fn law_install_ends(events: Seq<InstallEventView>, event: InstallEventView)
    requires
        step_after(events) matches Some(step) && (step is Finished || step is Failed),
    ensures
        step_after(events.push(event)) is None,
{
    assert(events.push(event).drop_last() =~= events);
}

/// A step that fails ends the installation, and it is told which one it was, and why.
pub proof fn law_failures_are_told(step: InstallStepView, reason: Seq<char>, status: Seq<char>)
    requires
        step.allows(InstallEventView::Error(reason)),
    ensures
        step.after(InstallEventView::Error(reason)) == InstallStepView::Failed(
            SolcErrorView::Message(
                match step {
                    InstallStepView::Request => "Failed to download file: "@ + reason,
                    InstallStepView::CreateDir => "Could not create compilers path: "@ + reason,
                    InstallStepView::Create => "Failed to create output file: "@ + reason,
                    InstallStepView::Download => "failed to download file: "@ + reason,
                    InstallStepView::Write => "Failed to write the downloaded file: "@ + reason,
                    _ => "Failed to set zksync compiler permissions: "@ + reason,
                },
            ),
        ),
        InstallStepView::Request.after(InstallEventView::Answered { success: false, status })
            == InstallStepView::Failed(
            SolcErrorView::Message("Failed to download file: status code "@ + status),
        ),
{
}

/// Just these things can come of a step: the request is answered or fails, the check finds the
/// directory or does not, and every other step is done or fails.
pub proof fn law_events_of_steps(step: InstallStepView, event: InstallEventView)
    ensures
        step.allows(event) <==> {
            ||| step is Request && (event is Answered || event is Error)
            ||| step is CheckDir && event is Found
            ||| (step is CreateDir || step is Create || step is Download || step is Write
                || step is SetPermissions) && (event is Done || event is Error)
        },
{
}

/// Steps and events that hold the same are the same, but for the texts' representation.
pub proof fn law_views_tell_steps_apart(
    a: InstallStep,
    b: InstallStep,
    x: InstallEvent,
    y: InstallEvent,
)
    ensures
        a@ == b@ ==> {
            &&& (a is Request <==> b is Request) && (a is CheckDir <==> b is CheckDir)
            &&& (a is CreateDir <==> b is CreateDir) && (a is Create <==> b is Create)
            &&& (a is Download <==> b is Download) && (a is Write <==> b is Write)
            &&& (a is SetPermissions <==> b is SetPermissions)
            &&& (a is Finished <==> b is Finished) && (a is Failed <==> b is Failed)
            &&& a is Failed ==> a->Failed_0@ == b->Failed_0@
        },
        x@ == y@ ==> {
            &&& (x is Answered <==> y is Answered) && (x is Found <==> y is Found)
            &&& (x is Done <==> y is Done) && (x is Error <==> y is Error)
            &&& x is Answered ==> x->success == y->success && x->status@ == y->status@
            &&& x is Found ==> x->Found_0 == y->Found_0
            &&& x is Error ==> x->Error_0@ == y->Error_0@
        },
{
}

} // verus!
