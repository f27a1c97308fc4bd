//! Modules out of tokens: each module is announced by its keyword and
//! named by the token behind it.

use crate::compiler::tokenization::{Token, TokenType};
use crate::modules::types::Module;
use vstd::prelude::*;

verus! {

/// Whether tokens are a list of modules: the keyword of a module and a
/// name, any number of times.
pub open spec fn module_list(tokens: Seq<Token>) -> bool {
    &&& tokens.len() % 2 == 0
    &&& forall|i: int|
        0 <= i < tokens.len() ==> (#[trigger] tokens[i]).token_type == if i % 2 == 0 {
            TokenType::ModuleKeyword
        } else {
            TokenType::Name
        }
}

/// Whether a module has the given name, and neither functions nor data
/// types.
pub open spec fn bare_module(module: Module, name: Seq<char>) -> bool {
    &&& module.name@ == name
    &&& module.functions@.len() == 0
    &&& module.data_types@.len() == 0
}

/// The modules that a list of tokens announces, in their order: each has
/// the name that stands behind its keyword, and is empty.
pub fn build_expressions(tokens: &Vec<Token>) -> (modules: Vec<Module>)
    requires
        module_list(tokens@),
    ensures
        modules@.len() * 2 == tokens@.len(),
        forall|i: int|
            0 <= i < modules@.len() ==> bare_module(
                #[trigger] modules@[i],
                tokens@[2 * i + 1].contents@,
            ),
{
    let mut modules: Vec<Module> = Vec::new();
    let mut position: usize = 0;
    while position < tokens.len()
        invariant
            module_list(tokens@),
            position <= tokens@.len(),
            position == modules@.len() * 2,
            forall|i: int|
                0 <= i < modules@.len() ==> bare_module(
                    #[trigger] modules@[i],
                    tokens@[2 * i + 1].contents@,
                ),
        decreases tokens@.len() - position,
    {
        let name = &tokens[position + 1];
        modules.push(Module::new(name.contents.as_str()));
        position += 2;
    }
    modules
}

} // verus!
