//! Variables of the environment.

use vstd::prelude::*;
use vstd::string::*;

use crate::text::text_of;

verus! {

/// What the names of the daemon's own variables begin with.
pub const PREFIX: &'static str = "MAPECD_";

/// The value of a variable, if there is one of that name.
pub open spec fn variable(vars: Seq<(String, String)>, name: Seq<char>) -> Option<Seq<char>>
    decreases vars.len(),
{
    if vars.len() == 0 {
        None
    } else if vars[0].0@ == name {
        Some(vars[0].1@)
    } else {
        variable(vars.drop_first(), name)
    }
}

/// The value of a variable, or that of another in its place.
pub open spec fn either(vars: Seq<(String, String)>, name: Seq<char>, other: Seq<char>) -> Option<
    Seq<char>,
> {
    match variable(vars, name) {
        Some(text) => Some(text),
        None => variable(vars, other),
    }
}

/// Looks up a variable.
pub fn find_variable(vars: &Vec<(String, String)>, name: &str) -> (r: Option<String>)
    ensures
        text_of(r) == variable(vars@, name@),
{
    let wanted = String::from_str(name);
    let mut i: usize = 0;
    proof {
        assert(vars@.skip(0) =~= vars@);
    }
    while i < vars.len()
        invariant
            i <= vars.len(),
            wanted@ == name@,
            variable(vars@.skip(i as int), name@) == variable(vars@, name@),
        decreases vars.len() - i,
    {
        proof {
            assert(vars@.skip(i as int).drop_first() =~= vars@.skip(i + 1));
        }
        if vars[i].0 == wanted {
            return Some(vars[i].1.clone());
        }
        i = i + 1;
    }
    None
}

/// Looks up a variable, or another in its place.
pub fn find_either(vars: &Vec<(String, String)>, name: &str, other: &str) -> (r: Option<String>)
    ensures
        text_of(r) == either(vars@, name@, other@),
{
    match find_variable(vars, name) {
        Some(text) => Some(text),
        None => find_variable(vars, other),
    }
}

/// Whether a name is one of the daemon's own.
pub open spec fn is_own(name: Seq<char>) -> bool {
    name.len() >= PREFIX@.len() && name.take(PREFIX@.len() as int) == PREFIX@
}

/// Variables of others do not make one of the daemon's own.
pub proof fn lemma_others_are_no_own(vars: Seq<(String, String)>, name: Seq<char>)
    requires
        is_own(name),
        forall|i: int| 0 <= i < vars.len() ==> !is_own((#[trigger] vars[i]).0@),
    ensures
        variable(vars, name) is None,
    decreases vars.len(),
{
    if vars.len() > 0 {
        assert(!is_own(vars[0].0@));
        let rest = vars.drop_first();
        assert forall|i: int| 0 <= i < rest.len() implies !is_own((#[trigger] rest[i]).0@) by {
            assert(rest[i] == vars[i + 1]);
        }
        lemma_others_are_no_own(rest, name);
    }
}

/// The value of a variable is that of the first entry of its name; without an entry there is none.
pub proof fn lemma_variable_is_first(vars: Seq<(String, String)>, name: Seq<char>, i: int)
    requires
        0 <= i <= vars.len(),
        forall|j: int| 0 <= j < i ==> (#[trigger] vars[j]).0@ != name,
    ensures
        i < vars.len() && vars[i].0@ == name ==> variable(vars, name) == Some(vars[i].1@),
        i == vars.len() ==> variable(vars, name) is None,
    decreases i,
{
    if i > 0 {
        let rest = vars.drop_first();
        assert(vars[0].0@ != name);
        assert forall|j: int| 0 <= j < i - 1 implies (#[trigger] rest[j]).0@ != name by {
            assert(rest[j] == vars[j + 1]);
        }
        lemma_variable_is_first(rest, name, i - 1);
    }
}

/// A name stands before another that may be in its place.
pub proof fn lemma_name_before_other(
    vars: Seq<(String, String)>,
    name: Seq<char>,
    other: Seq<char>,
    i: int,
)
    requires
        0 <= i < vars.len(),
        vars[i].0@ == name,
        forall|j: int| 0 <= j < i ==> (#[trigger] vars[j]).0@ != name,
    ensures
        either(vars, name, other) == Some(vars[i].1@),
{
    lemma_variable_is_first(vars, name, i);
}

} // verus!
