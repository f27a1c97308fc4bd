//! Finding a name in a list of names.

use crate::compiler::nodes::ArgumentNode;
use crate::text::same_text;
use vstd::prelude::*;

verus! {

/// The position of the first occurrence of a name in a list of names.
pub open spec fn name_position(names: Seq<Seq<char>>, name: Seq<char>) -> Option<int>
    decreases names.len(),
{
    if names.len() == 0 {
        None
    } else {
        match name_position(names.drop_last(), name) {
            Some(i) => Some(i),
            None => if names.last() == name {
                Some(names.len() - 1)
            } else {
                None
            },
        }
    }
}

/// A position found is that of the first occurrence; where none is found,
/// the name does not occur.
pub proof fn lemma_name_position(names: Seq<Seq<char>>, name: Seq<char>)
    ensures
        match name_position(names, name) {
            Some(i) => {
                &&& 0 <= i < names.len()
                &&& names[i] == name
                &&& forall|j: int| 0 <= j < i ==> #[trigger] names[j] != name
            },
            None => forall|j: int| 0 <= j < names.len() ==> #[trigger] names[j] != name,
        },
    decreases names.len(),
{
    if names.len() > 0 {
        lemma_name_position(names.drop_last(), name);
        assert forall|j: int| 0 <= j < names.len() - 1 implies names[j] == names.drop_last()[j] by {}
    }
}

/// The first occurrence of a name is found wherever the list goes on.
pub proof fn lemma_name_position_at(names: Seq<Seq<char>>, name: Seq<char>, i: int)
    requires
        0 <= i < names.len(),
        names[i] == name,
        forall|j: int| 0 <= j < i ==> #[trigger] names[j] != name,
    ensures
        name_position(names, name) == Some(i),
    decreases names.len(),
{
    lemma_name_position(names.drop_last(), name);
    if i < names.len() - 1 {
        assert forall|j: int| 0 <= j < i implies #[trigger] names.drop_last()[j] != name by {
            assert(names[j] != name);
        }
        lemma_name_position_at(names.drop_last(), name, i);
    } else {
        match name_position(names.drop_last(), name) {
            Some(k) => {
                assert(names[k] == names.drop_last()[k]);
            },
            None => {},
        }
    }
}

/// The names of a list of arguments.
pub open spec fn argument_names(args: Seq<ArgumentNode>) -> Seq<Seq<char>> {
    Seq::new(args.len(), |i: int| args[i].name@)
}

/// The position of the first argument of the given name.
pub fn find_argument(args: &Vec<ArgumentNode>, name: &str) -> (r: Option<usize>)
    ensures
        match r {
            Some(i) => name_position(argument_names(args@), name@) == Some(i as int) && i
                < args@.len(),
            None => name_position(argument_names(args@), name@) is None,
        },
{
    let ghost names = argument_names(args@);
    let mut i: usize = 0;
    while i < args.len()
        invariant
            i <= args@.len(),
            names == argument_names(args@),
            forall|j: int| 0 <= j < i ==> #[trigger] names[j] != name@,
        decreases args@.len() - i,
    {
        if same_text(args[i].name.as_str(), name) {
            proof {
                lemma_name_position_at(names, name@, i as int);
            }
            return Some(i);
        }
        i += 1;
    }
    proof {
        lemma_name_position(names, name@);
    }
    None
}

} // verus!
