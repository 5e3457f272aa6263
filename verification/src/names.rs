//! Looking a column up by its name.
use crate::key::str_same;
use crate::text::{concat5, join, joined, texts};
use crate::words::{debug_of, debug_text};
use vstd::prelude::*;

verus! {

/// The first place of a name, from `from` on.
pub open spec fn name_place(names: Seq<String>, name: Seq<char>, from: int) -> Option<int>
    decreases names.len() - from,
{
    if from < 0 || from >= names.len() {
        None
    } else if names[from]@ == name {
        Some(from)
    } else {
        name_place(names, name, from + 1)
    }
}

/// The first place of a name.
pub fn index_of(names: &Vec<String>, name: &str) -> (r: Option<usize>)
    ensures
        match r {
            Some(i) => name_place(names@, name@, 0) == Some(i as int) && i < names@.len()
                && names@[i as int]@ == name@,
            None => name_place(names@, name@, 0) is None,
        },
{
    let mut i: usize = 0;
    while i < names.len()
        invariant
            i <= names@.len(),
            name_place(names@, name@, 0) == name_place(names@, name@, i as int),
        decreases names@.len() - i,
    {
        if str_same(names[i].as_str(), name) {
            return Some(i);
        }
        i = i + 1;
    }
    None
}

/// Names as a developer is shown them.
pub open spec fn shown_names(names: Seq<String>) -> Seq<Seq<char>> {
    Seq::new(names.len(), |i: int| debug_text(names[i]@))
}

/// That there is no column of this name.
pub open spec fn no_field(name: Seq<char>, names: Seq<String>) -> Seq<char> {
    "Schema error: Unable to get field named \""@ + name + "\". Valid fields: ["@ + joined(
        shown_names(names),
        ", "@,
    ) + "]"@
}

/// That there is no column of this name.
pub fn missing_field(name: &str, names: &Vec<String>) -> (r: String)
    ensures
        r@ == no_field(name@, names@),
{
    let mut shown: Vec<String> = Vec::new();
    let mut i: usize = 0;
    while i < names.len()
        invariant
            i <= names@.len(),
            shown@.len() == i,
            forall|j: int| 0 <= j < i ==> #[trigger] shown@[j]@ == debug_text(names@[j]@),
        decreases names@.len() - i,
    {
        shown.push(debug_of(names[i].as_str()));
        i = i + 1;
    }
    assert(texts(shown@) =~= shown_names(names@));
    concat5(
        "Schema error: Unable to get field named \"",
        name,
        "\". Valid fields: [",
        join(&shown, ", ").as_str(),
        "]",
    )
}

} // verus!
