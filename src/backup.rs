//! Choosing a free backup name for a destination that is about to be replaced,
//! and moving the destination there.

use vstd::prelude::*;

use crate::paths::{backup_name, make_backup_name, MAX_BACKUP_INDEX};

verus! {

/// Relies on std::io::Error::new: makes an error of kind `Other` that carries
/// `message`.
#[verifier::external_body]
fn other_io_error(message: &str) -> std::io::Error {
    std::io::Error::new(std::io::ErrorKind::Other, message)
}

/// True when some call of `is_taken` on a path spelled `name` may answer `answer`.
pub open spec fn answered<F: Fn(&String) -> bool>(is_taken: F, name: Seq<char>, answer: bool) -> bool {
    exists|p: String| p@ == name && #[trigger] is_taken.ensures((&p,), answer)
}

/// What a search for a backup name of `target` may return: a name that was
/// reported free after every lower index was reported taken, or none when
/// all of them were reported taken.
pub open spec fn backup_search_result<F: Fn(&String) -> bool>(
    is_taken: F,
    target: Seq<char>,
    r: Option<String>,
) -> bool {
    match r {
        Some(name) => is_backup_candidate(is_taken, target, name),
        None => all_backup_names_taken(is_taken, target),
    }
}

/// Every backup name of `target` was reported taken.
pub open spec fn all_backup_names_taken<F: Fn(&String) -> bool>(is_taken: F, target: Seq<char>) -> bool {
    forall|j: int|
        1 <= j <= MAX_BACKUP_INDEX ==> answered(is_taken, #[trigger] backup_name(target, j as nat), true)
}

/// What a backup of `target` may return: an error when every backup name was
/// reported taken, with nothing renamed; otherwise exactly what `rename`
/// returned when asked to move `target` to the first name reported free.
pub open spec fn backup_outcome<
    F: Fn(&String) -> bool,
    R: Fn(&String, &String) -> Result<(), std::io::Error>,
>(is_taken: F, rename: R, target: String, r: Result<(), std::io::Error>) -> bool {
    ||| (r is Err && all_backup_names_taken(is_taken, target@))
    ||| exists|name: String|
        #[trigger] is_backup_candidate(is_taken, target@, name) && rename.ensures((&target, &name), r)
}

/// `is_taken` answers exactly whether a path is among `taken`.
pub open spec fn reports_membership<F: Fn(&String) -> bool>(is_taken: F, taken: Set<Seq<char>>) -> bool {
    forall|p: String, b: bool| #[trigger] is_taken.ensures((&p,), b) ==> b == taken.contains(p@)
}

/// The lowest index from `i` on whose backup name is not among `taken`.
pub open spec fn first_free_from(target: Seq<char>, taken: Set<Seq<char>>, i: int) -> Option<int>
    decreases MAX_BACKUP_INDEX + 1 - i,
{
    if i < 1 || i > MAX_BACKUP_INDEX {
        None
    } else if !taken.contains(backup_name(target, i as nat)) {
        Some(i)
    } else {
        first_free_from(target, taken, i + 1)
    }
}

proof fn lemma_first_free_from(target: Seq<char>, taken: Set<Seq<char>>, k: int, i: int)
    requires
        1 <= k <= i <= MAX_BACKUP_INDEX + 1,
        forall|j: int| k <= j < i ==> taken.contains(#[trigger] backup_name(target, j as nat)),
    ensures
        first_free_from(target, taken, k) == first_free_from(target, taken, i),
    decreases i - k,
{
    if k < i {
        lemma_first_free_from(target, taken, k + 1, i);
    }
}

/// With a file system that answers by membership in `taken`, the backup name
/// chosen is that of the lowest free index, and there is none exactly when
/// every index up to the highest is taken.
pub proof fn lemma_backup_picks_first_free<F: Fn(&String) -> bool>(
    is_taken: F,
    taken: Set<Seq<char>>,
    target: Seq<char>,
    r: Option<String>,
)
    requires
        backup_search_result(is_taken, target, r),
        reports_membership(is_taken, taken),
    ensures
        match first_free_from(target, taken, 1) {
            Some(i) => r matches Some(name) && name@ == backup_name(target, i as nat),
            None => r is None,
        },
{
    match r {
        Some(name) => {
            let i = choose|i: int|
                1 <= i <= MAX_BACKUP_INDEX && name@ == #[trigger] backup_name(target, i as nat)
                    && is_taken.ensures((&name,), false) && forall|j: int|
                    1 <= j < i ==> answered(is_taken, #[trigger] backup_name(target, j as nat), true);
            assert forall|j: int| 1 <= j < i implies taken.contains(#[trigger] backup_name(target, j as nat)) by {
                assert(answered(is_taken, backup_name(target, j as nat), true));
            }
            lemma_first_free_from(target, taken, 1, i);
            assert(!taken.contains(name@));
        },
        None => {
            assert forall|j: int| 1 <= j < MAX_BACKUP_INDEX + 1 implies taken.contains(
                #[trigger] backup_name(target, j as nat),
            ) by {
                assert(answered(is_taken, backup_name(target, j as nat), true));
            }
            lemma_first_free_from(target, taken, 1, MAX_BACKUP_INDEX + 1);
        },
    }
}

/// Looks for the first of `<target>.bak.1` to `<target>.bak.99` that
/// `is_taken` reports free.
pub fn find_free_backup_target_name<F: Fn(&String) -> bool>(target: &String, is_taken: &F) -> (r:
    Option<String>)
    requires
        forall|p: &String| is_taken.requires((p,)),
    ensures
        backup_search_result(*is_taken, target@, r),
{
    let mut i: u32 = 1;
    while i <= MAX_BACKUP_INDEX
        invariant
            1 <= i <= MAX_BACKUP_INDEX + 1,
            forall|p: &String| is_taken.requires((p,)),
            forall|j: int| 1 <= j < i ==> answered(*is_taken, #[trigger] backup_name(target@, j as nat), true),
        decreases MAX_BACKUP_INDEX + 1 - i,
    {
        let name = make_backup_name(target, i);
        let taken = is_taken(&name);
        if !taken {
            let ghost k: int = i as int;
            assert(name@ == backup_name(target@, k as nat));
            return Some(name);
        }
        assert(answered(*is_taken, backup_name(target@, i as nat), true));
        i = i + 1;
    }
    None
}

/// Moves `target` to the first free backup name; fails without renaming
/// anything when none of them is free, and otherwise returns what the rename
/// returned.
pub fn backup_target<
    F: Fn(&String) -> bool,
    R: Fn(&String, &String) -> Result<(), std::io::Error>,
>(target: &String, is_taken: &F, rename: &R) -> (r: Result<(), std::io::Error>)
    requires
        forall|p: &String| is_taken.requires((p,)),
        forall|a: &String, b: &String| rename.requires((a, b)),
    ensures
        backup_outcome(*is_taken, *rename, *target, r),
{
    match find_free_backup_target_name(target, is_taken) {
        None => Err(other_io_error("Cannot find suitable backup name")),
        Some(name) => {
            let r = rename(target, &name);
            assert(is_backup_candidate(*is_taken, target@, name));
            assert(rename.ensures((target, &name), r));
            r
        },
    }
}

/// `name` is a backup name of `target` that was reported free, after every
/// lower index was reported taken.
pub open spec fn is_backup_candidate<F: Fn(&String) -> bool>(
    is_taken: F,
    target: Seq<char>,
    name: String,
) -> bool {
    exists|i: int|
        1 <= i <= MAX_BACKUP_INDEX && name@ == #[trigger] backup_name(target, i as nat)
            && is_taken.ensures((&name,), false) && forall|j: int|
            1 <= j < i ==> answered(is_taken, #[trigger] backup_name(target, j as nat), true)
}

/// Some call of `op` on `(a, b)` may report success.
pub open spec fn may_succeed<F: Fn(&String, &String) -> Result<(), std::io::Error>>(
    op: F,
    a: String,
    b: String,
) -> bool {
    exists|o: Result<(), std::io::Error>| o is Ok && #[trigger] op.ensures((&a, &b), o)
}

} // verus!
