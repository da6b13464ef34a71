//! Picking the presumed primary author from per-line authorship
//! attributions: tally how often each contributor name occurs and take a
//! name with the highest count. The attributions themselves come from the
//! version-control collaborator outside this library; this is the pure
//! tally over whatever names it yields.

use vstd::prelude::*;

use crate::errors::err_view;
use crate::errors::HeaderErr;
use crate::errors::HeaderError;
use crate::text::bytes_eq;
use crate::text::subvec;
use crate::text::views_of;

verus! {

/// How many of `names[i..]` equal `x`.
pub open spec fn count_from(names: Seq<Seq<u8>>, x: Seq<u8>, i: int) -> nat
    decreases names.len() - i,
{
    if i < 0 || i >= names.len() {
        0
    } else {
        (if names[i] == x {
            1nat
        } else {
            0nat
        }) + count_from(names, x, i + 1)
    }
}

/// How many of the attributed lines name `x`.
pub open spec fn count_of(names: Seq<Seq<u8>>, x: Seq<u8>) -> nat {
    count_from(names, x, 0)
}

/// Count how many entries equal `x`.
fn count_occurrences(names: &Vec<Vec<u8>>, x: &Vec<u8>) -> (c: usize)
    ensures
        c == count_of(views_of(names@), x@),
{
    let ghost nv = views_of(names@);
    let mut c: usize = 0;
    let mut i: usize = 0;
    while i < names.len()
        invariant
            i <= names.len(),
            c <= i,
            nv == views_of(names@),
            count_of(nv, x@) == c + count_from(nv, x@, i as int),
        decreases names.len() - i,
    {
        proof {
            assert(nv[i as int] == names@[i as int]@);
        }
        if bytes_eq(&names[i], x) {
            c += 1;
        }
        i += 1;
    }
    c
}

/// The presumed primary author: a name with the highest attribution count.
/// Fails with `NoAuthorInfo` exactly when no lines are attributed at all.
/// When several names are tied for the highest count, any of them may be
/// returned.
pub fn first_author(names: &Vec<Vec<u8>>) -> (r: Result<Vec<u8>, HeaderError>)
    ensures
        views_of(names@).len() == 0 ==> r is Err && err_view(r->Err_0) == HeaderErr::NoAuthorInfo,
        views_of(names@).len() > 0 ==> r is Ok && (exists|i: int|
            0 <= i < views_of(names@).len() && views_of(names@)[i] == r->Ok_0@) && (forall|j: int|
            0 <= j < views_of(names@).len() ==> count_of(views_of(names@), views_of(names@)[j])
                <= count_of(views_of(names@), r->Ok_0@)),
{
    let ghost nv = views_of(names@);
    if names.len() == 0 {
        return Err(HeaderError::NoAuthorInfo);
    }
    let mut best_idx: usize = 0;
    let mut best_count: usize = count_occurrences(names, &names[0]);
    proof {
        assert(nv[0] == names@[0]@);
    }
    let mut i: usize = 1;
    while i < names.len()
        invariant
            1 <= i <= names.len(),
            best_idx < i,
            nv == views_of(names@),
            nv.len() == names@.len(),
            best_count == count_of(nv, nv[best_idx as int]),
            forall|j: int| 0 <= j < i ==> count_of(nv, nv[j]) <= best_count,
        decreases names.len() - i,
    {
        proof {
            assert(nv[i as int] == names@[i as int]@);
        }
        let c = count_occurrences(names, &names[i]);
        if c > best_count {
            best_idx = i;
            best_count = c;
        }
        i += 1;
    }
    let winner = subvec(&names[best_idx], 0, names[best_idx].len());
    proof {
        assert(winner@ =~= names@[best_idx as int]@);
        assert(nv[best_idx as int] == names@[best_idx as int]@);
    }
    Ok(winner)
}

} // verus!
