//! The outside world as a value.
//!
//! A function of this library that makes calls takes the outside world as a value
//! of a type that it knows nothing of. Each call takes that value and gives it back,
//! and so does the function itself. The value can neither be copied nor made up, so
//! whatever is called lies on one path from the world at the start to the world at
//! the end. A contract that says which calls make up that path says how often and in
//! which order each of them is made, and that nothing else is called.

use vstd::prelude::*;

verus! {

/// Whether `worlds` are the worlds before, between and after `n` calls that lead
/// from one world to another.
pub open spec fn is_path<W>(worlds: Seq<W>, n: nat, from: W, to: W) -> bool {
    &&& worlds.len() == n + 1
    &&& worlds[0] == from
    &&& worlds[n as int] == to
}

} // verus!
