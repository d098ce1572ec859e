//! Handing over to the agent: what to do, step by step, to resume a session.

use vstd::prelude::*;

use crate::text::{concat, texts};

verus! {

/// What happened last while a session is being resumed.
#[derive(Debug, Clone, Copy, PartialEq, Eq, Structural)]
pub enum ResumeEvent {
    Started,
    DirectoryChanged,
    DirectoryFailed,
    ExecFailed,
}

/// What to do next: change to a directory, hand over to a command, which does not come
/// back unless it fails, or give up with a message.
#[derive(Debug)]
pub enum ResumeAction {
    ChangeDirectory(String),
    Execute(Vec<String>),
    Fail(String),
}

#[verifier::ext_equal]
pub enum ActionView {
    ChangeDirectory(Seq<char>),
    Execute(Seq<Seq<char>>),
    Fail(Seq<char>),
}

impl View for ResumeAction {
    type V = ActionView;

    open spec fn view(&self) -> ActionView {
        match self {
            ResumeAction::ChangeDirectory(directory) => ActionView::ChangeDirectory(directory@),
            ResumeAction::Execute(command) => ActionView::Execute(texts(command@)),
            ResumeAction::Fail(message) => ActionView::Fail(message@),
        }
    }
}

/// What to do next to resume a session.
pub open spec fn resume_action(
    command: Seq<Seq<char>>,
    directory: Seq<char>,
    event: ResumeEvent,
) -> ActionView {
    if command.len() == 0 {
        ActionView::Fail("selected session has no resume command"@)
    } else {
        match event {
            ResumeEvent::Started => if directory.len() > 0 {
                ActionView::ChangeDirectory(directory)
            } else {
                ActionView::Execute(command)
            },
            ResumeEvent::DirectoryChanged => ActionView::Execute(command),
            ResumeEvent::DirectoryFailed => ActionView::Fail(
                "failed to change directory to "@ + directory,
            ),
            ResumeEvent::ExecFailed => ActionView::Fail("failed to exec "@ + command[0]),
        }
    }
}

fn copy_command(command: &Vec<String>) -> (copy: Vec<String>)
    ensures
        texts(copy@) == texts(command@),
{
    let mut copy: Vec<String> = Vec::new();
    let mut i: usize = 0;
    while i < command.len()
        invariant
            i <= command@.len(),
            copy@.len() == i,
            forall|j: int| 0 <= j < i ==> (#[trigger] copy@[j])@ == command@[j]@,
        decreases command@.len() - i,
    {
        copy.push(command[i].clone());
        i += 1;
    }
    assert(texts(copy@) =~= texts(command@));
    copy
}

/// What to do next to resume a session with `command` in `directory`.
pub fn exec_resume_with(command: &Vec<String>, directory: &str, event: ResumeEvent) -> (action:
    ResumeAction)
    ensures
        action@ == resume_action(texts(command@), directory@, event),
{
    if command.len() == 0 {
        return ResumeAction::Fail("selected session has no resume command".to_owned());
    }
    match event {
        ResumeEvent::Started => if !directory.is_empty() {
            ResumeAction::ChangeDirectory(directory.to_owned())
        } else {
            ResumeAction::Execute(copy_command(command))
        },
        ResumeEvent::DirectoryChanged => ResumeAction::Execute(copy_command(command)),
        ResumeEvent::DirectoryFailed => ResumeAction::Fail(
            concat("failed to change directory to ", directory),
        ),
        ResumeEvent::ExecFailed => ResumeAction::Fail(
            concat("failed to exec ", command[0].as_str()),
        ),
    }
}

/// What happens after an action, given whether directories can be changed to. A
/// command that comes back has failed, and after giving up nothing happens.
pub open spec fn next_event(action: ActionView, directories_work: bool) -> Option<ResumeEvent> {
    match action {
        ActionView::ChangeDirectory(_) => if directories_work {
            Some(ResumeEvent::DirectoryChanged)
        } else {
            Some(ResumeEvent::DirectoryFailed)
        },
        ActionView::Execute(_) => Some(ResumeEvent::ExecFailed),
        ActionView::Fail(_) => None,
    }
}

/// All that is done from an event on, as long as the command does not take over; at
/// most `steps` actions.
pub open spec fn resume_run(
    command: Seq<Seq<char>>,
    directory: Seq<char>,
    directories_work: bool,
    event: ResumeEvent,
    steps: nat,
) -> Seq<ActionView>
    decreases steps,
{
    if steps == 0 {
        seq![]
    } else {
        let action = resume_action(command, directory, event);
        match next_event(action, directories_work) {
            Some(next) => seq![action] + resume_run(
                command,
                directory,
                directories_work,
                next,
                (steps - 1) as nat,
            ),
            None => seq![action],
        }
    }
}

/// A command is run at most once, after the change of directory if one is wanted, in
/// no directory but the session's, and everything ends with a message. Without a
/// command nothing is done at all.
pub proof fn law_resume_runs(
    command: Seq<Seq<char>>,
    directory: Seq<char>,
    directories_work: bool,
    steps: nat,
)
    requires
        steps >= 3,
    ensures
        ({
            let run = resume_run(
                command,
                directory,
                directories_work,
                ResumeEvent::Started,
                steps,
            );
            if command.len() == 0 {
                run == seq![ActionView::Fail("selected session has no resume command"@)]
            } else if directory.len() == 0 {
                run == seq![
                    ActionView::Execute(command),
                    ActionView::Fail("failed to exec "@ + command[0]),
                ]
            } else if directories_work {
                run == seq![
                    ActionView::ChangeDirectory(directory),
                    ActionView::Execute(command),
                    ActionView::Fail("failed to exec "@ + command[0]),
                ]
            } else {
                run == seq![
                    ActionView::ChangeDirectory(directory),
                    ActionView::Fail("failed to change directory to "@ + directory),
                ]
            }
        }),
{
    reveal_with_fuel(resume_run, 4);
    let run = resume_run(command, directory, directories_work, ResumeEvent::Started, steps);
    if command.len() == 0 {
        assert(run =~= seq![ActionView::Fail("selected session has no resume command"@)]);
    } else if directory.len() == 0 {
        assert(run =~= seq![
            ActionView::Execute(command),
            ActionView::Fail("failed to exec "@ + command[0]),
        ]);
    } else if directories_work {
        assert(run =~= seq![
            ActionView::ChangeDirectory(directory),
            ActionView::Execute(command),
            ActionView::Fail("failed to exec "@ + command[0]),
        ]);
    } else {
        assert(run =~= seq![
            ActionView::ChangeDirectory(directory),
            ActionView::Fail("failed to change directory to "@ + directory),
        ]);
    }
}

/// Whatever happened, nothing but the command of the session is run, and no directory but
/// its own is changed to; a failure is told with what failed.
pub proof fn law_each_step_of_resuming(
    command: Seq<Seq<char>>,
    directory: Seq<char>,
    event: ResumeEvent,
)
    ensures
        resume_action(command, directory, event) matches ActionView::Execute(run) ==> run == command
            && command.len() > 0 && (event == ResumeEvent::DirectoryChanged || (event
            == ResumeEvent::Started && directory.len() == 0)),
        resume_action(command, directory, event) matches ActionView::ChangeDirectory(to) ==> to
            == directory && directory.len() > 0 && command.len() > 0 && event
            == ResumeEvent::Started,
        command.len() > 0 && event == ResumeEvent::DirectoryFailed ==> resume_action(
            command,
            directory,
            event,
        ) == ActionView::Fail("failed to change directory to "@ + directory),
        command.len() > 0 && event == ResumeEvent::ExecFailed ==> resume_action(
            command,
            directory,
            event,
        ) == ActionView::Fail("failed to exec "@ + command[0]),
        command.len() == 0 ==> resume_action(command, directory, event) is Fail,
        resume_action(command, directory, event) is Fail ==> command.len() == 0 || event
            == ResumeEvent::DirectoryFailed || event == ResumeEvent::ExecFailed,
{
}

} // verus!
