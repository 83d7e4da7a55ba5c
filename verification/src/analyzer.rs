//! Questions about a parsed program.

use vstd::prelude::*;
use crate::ast::{HuleFuncCall, HuleProgramAst, HuleStatement, StatementView};

verus! {

/// What the analysis of a program can find wrong.
#[derive(Debug, PartialEq)]
pub enum AnalyzerError {
    EntryPointMissing,
    FunctionRedefined(String),
}

/// The first call of a function named `name` among `list`.
pub open spec fn first_call_named(list: Seq<StatementView>, name: Seq<char>) -> Option<
    StatementView,
>
    decreases list.len(),
{
    if list.len() == 0 {
        None
    } else if list[0] is FunctionCall && list[0]->FunctionCall_name == name {
        Some(list[0])
    } else {
        first_call_named(list.drop_first(), name)
    }
}

/// The model of an optional call.
pub open spec fn optional_call_view(call: Option<HuleFuncCall>) -> Option<StatementView> {
    match call {
        Some(found) => Some(found@),
        None => None,
    }
}

/// A program under analysis.
pub struct Analyzer {
    program: HuleProgramAst,
}

impl Analyzer {
    /// The top-level statements of the program.
    pub closed spec fn statements(&self) -> Seq<StatementView> {
        self.program@
    }

    /// An analyzer of `program`.
    pub fn new(program: HuleProgramAst) -> (analyzer: Analyzer)
        ensures
            analyzer.statements() == program@,
    {
        Analyzer { program }
    }

    /// A copy of the first top-level call of the function named `name`.
    pub fn get_function_by_name(&self, name: &str) -> (call: Option<HuleFuncCall>)
        ensures
            optional_call_view(call) == first_call_named(self.statements(), name@),
    {
        let wanted = name.to_string();
        let items = &self.program.body.items;
        let ghost all = self.statements();
        let mut i: usize = 0;
        assert(all.skip(0) =~= all);
        while i < items.len()
            invariant
                i <= items.len(),
                items == &self.program.body.items,
                all == self.statements(),
                wanted@ == name@,
                first_call_named(all, name@) == first_call_named(all.skip(i as int), name@),
            decreases items.len() - i,
        {
            let ghost rest = all.skip(i as int);
            assert(rest[0] == items@[i as int]@);
            assert(rest.drop_first() =~= all.skip(i + 1));
            if let HuleStatement::FunctionCall(found) = &items[i] {
                if found.name == wanted {
                    return Some(found.clone());
                }
            }
            i += 1;
        }
        None
    }

    /// Whether the program calls the function named `name` at the top level.
    pub fn contains_function(&self, name: &str) -> (found: bool)
        ensures
            found == first_call_named(self.statements(), name@).is_some(),
    {
        self.get_function_by_name(name).is_some()
    }

    /// Analyzes the program, which it leaves as it is.
    pub fn analyze(&mut self)
        ensures
            final(self).statements() == old(self).statements(),
    {
    }
}

} // verus!
