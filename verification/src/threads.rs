use vstd::prelude::*;

verus! {

/// Number of roles: every tracked value keeps one replica per role.
pub const THREADS: usize = 3;

/// The role whose replica is the exclusive mutation slot: `Tl::to_mut`
/// always writes this replica, whichever role performs the call.
pub const MUTATE_THREAD_INDEX: usize = 2;

/// Role derived from a thread's name: a name beginning with the digit
/// `'1'` or `'2'` selects that role; every other name selects the
/// default role 0 (the UI role).
pub open spec fn role_of_name(name: Seq<char>) -> usize {
    if name.len() == 0 {
        0
    } else if name[0] == '1' {
        1
    } else if name[0] == '2' {
        2
    } else {
        0
    }
}

/// Maps a thread's name to its role index. Threads that take part in the
/// protocol must be named at creation; the compute thread's name begins
/// with the digit of its role. Callers that find an unnamed thread must
/// not reach this function (unnamed threads do not participate).
pub fn thread_index(name: &str) -> (i: usize)
    requires
        name@.len() > 0,
    ensures
        i == role_of_name(name@),
        i < THREADS,
{
    let c = name.get_char(0);
    if c == '1' {
        1
    } else if c == '2' {
        2
    } else {
        0
    }
}

} // verus!
