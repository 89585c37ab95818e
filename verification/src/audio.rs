//! Decisions the host makes around the platform audio backend.
//!
//! Enumerating mixer sessions and getting or setting volumes is the
//! platform's business and stays outside this library. The pure decisions
//! inside that workflow — which enumerated sessions to keep, which
//! session a name resolves to — live here, together with the
//! initialization mode the host asks the backend for.

use vstd::prelude::*;

verus! {

/// How the host initializes the platform audio backend, chosen once at
/// startup.
#[derive(Clone, Copy, Debug, PartialEq, Eq)]
pub enum CoInitMode {
    MultiThreaded,
    ApartmentThreaded,
}

/// Whether enumerated session `i` is kept: its name is non-empty and no
/// earlier session reported the same process ID.
pub open spec fn spec_keep(infos: Seq<(u32, String)>, i: int) -> bool {
    &&& infos[i].1@.len() > 0
    &&& forall|j: int| 0 <= j < i ==> (#[trigger] infos[j]).0 != infos[i].0
}

/// Selects, from enumerated audio sessions given as (process ID, name)
/// pairs, the indices of the sessions the host keeps: the first session
/// of each process, and only named ones. Indices come back in increasing
/// order, each exactly once.
pub fn select_sessions(infos: &Vec<(u32, String)>) -> (keep: Vec<usize>)
    ensures
        forall|a: int, b: int| 0 <= a < b < keep@.len() ==> keep@[a] < keep@[b],
        forall|a: int|
            0 <= a < keep@.len() ==> (#[trigger] keep@[a]) < infos@.len() && spec_keep(
                infos@,
                keep@[a] as int,
            ),
        forall|i: int| 0 <= i < infos@.len() && spec_keep(infos@, i) ==> keep@.contains(i as usize),
{
    let mut keep: Vec<usize> = Vec::new();
    let mut i: usize = 0;
    while i < infos.len()
        invariant
            0 <= i <= infos@.len(),
            forall|a: int, b: int| 0 <= a < b < keep@.len() ==> keep@[a] < keep@[b],
            forall|a: int|
                0 <= a < keep@.len() ==> (#[trigger] keep@[a]) < i && spec_keep(
                    infos@,
                    keep@[a] as int,
                ),
            forall|x: int| 0 <= x < i && spec_keep(infos@, x) ==> keep@.contains(x as usize),
        decreases infos@.len() - i,
    {
        let mut dup = false;
        let mut j: usize = 0;
        while j < i
            invariant
                0 <= j <= i < infos@.len(),
                dup <==> exists|x: int|
                    0 <= x < j && (#[trigger] infos@[x]).0 == infos@[i as int].0,
            decreases i - j,
        {
            if infos[j].0 == infos[i].0 {
                dup = true;
            }
            j = j + 1;
        }
        if !dup && !infos[i].1.as_str().is_empty() {
            let ghost old_keep = keep@;
            keep.push(i);
            proof {
                assert forall|x: int|
                    0 <= x < i + 1 && spec_keep(infos@, x) implies keep@.contains(x as usize) by {
                    if x < i {
                        let w = choose|w: int| 0 <= w < old_keep.len() && old_keep[w] == (
                        x as usize);
                        assert(keep@[w] == x as usize);
                    } else {
                        assert(keep@[old_keep.len() as int] == i as usize);
                    }
                }
            }
        }
        i = i + 1;
    }
    keep
}

/// The first enumerated session whose name equals `name`, if any. The
/// host uses this to resolve a named target into a session before binding
/// the corresponding action.
pub fn find_session(names: &Vec<String>, name: &String) -> (r: Option<usize>)
    ensures
        match r {
            Some(i) => (i as int) < names@.len() && names@[i as int]@ == name@ && forall|j: int|
                0 <= j < i ==> (#[trigger] names@[j])@ != name@,
            None => forall|j: int| 0 <= j < names@.len() ==> (#[trigger] names@[j])@ != name@,
        },
{
    let mut i: usize = 0;
    while i < names.len()
        invariant
            0 <= i <= names@.len(),
            forall|j: int| 0 <= j < i ==> (#[trigger] names@[j])@ != name@,
        decreases names@.len() - i,
    {
        if names[i].eq(name) {
            return Some(i);
        }
        i = i + 1;
    }
    None
}

} // verus!
