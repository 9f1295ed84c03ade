//! Provider-neutral extraction instructions.

use vstd::prelude::*;

use crate::text::{is_blank, str_is_blank};

verus! {

/// Instruction text that is empty or whitespace only.
#[derive(Debug, Clone, Copy, PartialEq, Eq, Structural)]
pub struct InstructionsError;

impl InstructionsError {
    /// The error's display text.
    pub fn message(&self) -> (s: &'static str)
        ensures
            s@ == "instruction text must not be empty"@,
    {
        "instruction text must not be empty"
    }
}

pub open spec fn strings_view(v: Seq<String>) -> Seq<Seq<char>> {
    v.map_values(|s: String| s@)
}

/// The task, context lines and output requirements of an extraction; no text
/// is blank. No model or vendor names belong here.
#[derive(Debug, Clone, PartialEq, Eq)]
pub struct ProviderNeutralInstructions {
    task: String,
    context: Vec<String>,
    output_requirements: Vec<String>,
}

impl ProviderNeutralInstructions {
    pub closed spec fn task_spec(&self) -> Seq<char> {
        self.task@
    }

    pub closed spec fn context_spec(&self) -> Seq<Seq<char>> {
        strings_view(self.context@)
    }

    pub closed spec fn requirements_spec(&self) -> Seq<Seq<char>> {
        strings_view(self.output_requirements@)
    }

    /// Instructions for `task`, which must not be blank.
    pub fn new(task: String) -> (r: Result<ProviderNeutralInstructions, InstructionsError>)
        ensures
            match r {
                Ok(i) => !is_blank(task@) && i.task_spec() == task@ && i.context_spec().len() == 0
                    && i.requirements_spec().len() == 0,
                Err(_) => is_blank(task@),
            },
    {
        if str_is_blank(task.as_str()) {
            return Err(InstructionsError);
        }
        let r = ProviderNeutralInstructions { task, context: Vec::new(), output_requirements: Vec::new() };
        proof {
            assert(r.context_spec() =~= Seq::<Seq<char>>::empty());
            assert(r.requirements_spec() =~= Seq::<Seq<char>>::empty());
        }
        Ok(r)
    }

    /// These instructions with one more context line, which must not be blank.
    pub fn with_context(self, context: String) -> (r: Result<ProviderNeutralInstructions, InstructionsError>)
        ensures
            match r {
                Ok(i) => !is_blank(context@) && i.task_spec() == self.task_spec() && i.context_spec()
                    == self.context_spec().push(context@) && i.requirements_spec()
                    == self.requirements_spec(),
                Err(_) => is_blank(context@),
            },
    {
        if str_is_blank(context.as_str()) {
            return Err(InstructionsError);
        }
        let ghost before = self.context_spec();
        let mut s = self;
        s.context.push(context);
        proof {
            assert(s.context_spec() =~= before.push(context@));
        }
        Ok(s)
    }

    /// These instructions with one more output requirement, which must not be
    /// blank.
    pub fn with_output_requirement(self, requirement: String) -> (r: Result<
        ProviderNeutralInstructions,
        InstructionsError,
    >)
        ensures
            match r {
                Ok(i) => !is_blank(requirement@) && i.task_spec() == self.task_spec()
                    && i.context_spec() == self.context_spec() && i.requirements_spec()
                    == self.requirements_spec().push(requirement@),
                Err(_) => is_blank(requirement@),
            },
    {
        if str_is_blank(requirement.as_str()) {
            return Err(InstructionsError);
        }
        let ghost before = self.requirements_spec();
        let mut s = self;
        s.output_requirements.push(requirement);
        proof {
            assert(s.requirements_spec() =~= before.push(requirement@));
        }
        Ok(s)
    }

    pub fn task(&self) -> (s: &str)
        ensures
            s@ == self.task_spec(),
    {
        self.task.as_str()
    }

    pub fn context(&self) -> (s: &[String])
        ensures
            strings_view(s@) == self.context_spec(),
    {
        self.context.as_slice()
    }

    pub fn output_requirements(&self) -> (s: &[String])
        ensures
            strings_view(s@) == self.requirements_spec(),
    {
        self.output_requirements.as_slice()
    }
}

} // verus!
