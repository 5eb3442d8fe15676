//! Names used when debugging a pipeline: the files its graphs are written to, and the
//! names of elements together with the bins they sit in.

use vstd::prelude::*;
use vstd::string::StringExecFns;

use crate::text::{decimal, push_unsigned};

verus! {

/// The name of a graph file without its extension: the base name, preceded by the running
/// number of the graph and a dash when graphs are numbered.
pub open spec fn dot_file_name_spec(index: Option<usize>, base: Seq<char>) -> Seq<char> {
    match index {
        Some(n) => decimal(n as int) + seq!['-'] + base,
        None => base,
    }
}

/// The names of an element and of the bins it sits in, outermost first, joined by dots.
pub open spec fn qualified_name_spec(names: Seq<Seq<char>>) -> Seq<char>
    decreases names.len(),
{
    if names.len() <= 1 {
        if names.len() == 1 { names[0] } else { Seq::empty() }
    } else {
        qualified_name_spec(names.drop_last()) + seq!['.'] + names.last()
    }
}

/// The name of a graph file without its extension (see [`dot_file_name_spec`]).
pub fn dot_file_name(index: Option<usize>, base: &str) -> (s: String)
    ensures
        s@ == dot_file_name_spec(index, base@),
{
    match index {
        Some(n) => {
            proof {
                reveal_strlit("-");
            }
            let mut s = String::new();
            push_unsigned(&mut s, n as u64);
            s.append("-");
            s.append(base);
            assert(s@ =~= decimal(n as int) + seq!['-'] + base@);
            s
        },
        None => String::from_str(base),
    }
}

/// The names of an element and of the bins it sits in, outermost first, joined by dots
/// (see [`qualified_name_spec`]).
pub fn qualified_name(names: &[String]) -> (s: String)
    ensures
        s@ == qualified_name_spec(names@.map_values(|n: String| n@)),
{
    let ghost views = names@.map_values(|n: String| n@);
    let mut s = String::new();
    let mut i: usize = 0;
    while i < names.len()
        invariant
            i <= names@.len(),
            views == names@.map_values(|n: String| n@),
            s@ == qualified_name_spec(views.take(i as int)),
        decreases names@.len() - i,
    {
        let ghost before = s@;
        proof {
            reveal_strlit(".");
        }
        if i > 0 {
            s.append(".");
        }
        s.append(names[i].as_str());
        proof {
            let next = views.take(i + 1);
            assert(next.drop_last() =~= views.take(i as int));
            assert(next.last() == names@[i as int]@);
            if i == 0 {
                assert(before =~= Seq::<char>::empty());
                assert(s@ =~= next[0]);
            } else {
                assert(s@ =~= before + seq!['.'] + next.last());
            }
        }
        i = i + 1;
    }
    assert(views.take(i as int) =~= views);
    s
}

} // verus!
