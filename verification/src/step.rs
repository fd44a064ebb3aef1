//! What is to be done outside the editor after a key was processed.
use vstd::prelude::*;

use crate::state::{prompt_view, PromptMode, PromptView};
use crate::text::views;

verus! {

/// What a key asks for.
pub enum Step {
    /// The program should exit.
    Quit,
    /// Nothing more, and the prompt mode to switch to, if any.
    Prompt(Option<PromptMode>),
    /// Save to the file with this name, and show whether that succeeded.
    Save(String),
    /// Save to the file with this name, show whether that succeeded, and keep the name.
    SaveAs(String),
    /// Load the remote document with this name, now that the user is known.
    ResumeLoading(String),
    /// Save the remote document with this name, now that the user is known.
    ResumeSaving(String),
    /// Run this program with these arguments.
    Execute(String, Vec<String>),
    /// Integrate the changes of the remote replica.
    RefreshReplica,
}

pub enum StepView {
    Quit,
    Prompt(Option<PromptView>),
    Save(Seq<char>),
    SaveAs(Seq<char>),
    ResumeLoading(Seq<char>),
    ResumeSaving(Seq<char>),
    Execute(Seq<char>, Seq<Seq<char>>),
    RefreshReplica,
}

impl View for Step {
    type V = StepView;

    open spec fn view(&self) -> StepView {
        match self {
            Step::Quit => StepView::Quit,
            Step::Prompt(mode) => StepView::Prompt(prompt_view(*mode)),
            Step::Save(name) => StepView::Save(name@),
            Step::SaveAs(name) => StepView::SaveAs(name@),
            Step::ResumeLoading(name) => StepView::ResumeLoading(name@),
            Step::ResumeSaving(name) => StepView::ResumeSaving(name@),
            Step::Execute(program, args) => StepView::Execute(program@, views(args@)),
            Step::RefreshReplica => StepView::RefreshReplica,
        }
    }
}

} // verus!
