//! Ratings and the check that their indices fit the buffers they address.

use vstd::prelude::*;

verus! {

/// One observation: `user` gave `object` the score `weight`.
///
/// Objects and users are dense indices. The score is carried as the
/// IEEE 754 binary64 encoding of the number; nothing here interprets it.
#[derive(Clone, Copy, Debug, PartialEq, Eq, Structural)]
pub struct Rating {
    pub object: usize,
    pub user: usize,
    pub weight: u64,
}

/// Why a rating set does not fit the buffers it is to be used with.
#[derive(Clone, Copy, Debug, PartialEq, Eq, Structural)]
pub enum IndexError {
    /// The rating at `position` names an object that has no slot.
    ObjectOutOfRange { position: usize },
    /// The rating at `position` names a user that has no slot.
    UserOutOfRange { position: usize },
}

/// `rating` names an object below `objects` and a user below `users`.
pub open spec fn rating_in_range(rating: Rating, objects: nat, users: nat) -> bool {
    rating.object < objects && rating.user < users
}

/// Every rating names an object below `objects` and a user below `users`.
pub open spec fn indices_in_range(ratings: Seq<Rating>, objects: nat, users: nat) -> bool {
    forall|i: int| 0 <= i < ratings.len() ==> rating_in_range(#[trigger] ratings[i], objects, users)
}

/// Every rating names a user below `users`.
pub open spec fn users_in_range(ratings: Seq<Rating>, users: nat) -> bool {
    forall|i: int| 0 <= i < ratings.len() ==> (#[trigger] ratings[i]).user < users
}

/// What is wrong with the rating found at `position`, if anything. The object
/// is looked at before the user.
pub open spec fn fault_of(rating: Rating, position: usize, objects: nat, users: nat) -> Option<
    IndexError,
> {
    if rating.object >= objects {
        Some(IndexError::ObjectOutOfRange { position })
    } else if rating.user >= users {
        Some(IndexError::UserOutOfRange { position })
    } else {
        None
    }
}

/// `error` describes the earliest rating that is out of range.
pub open spec fn is_first_fault(
    ratings: Seq<Rating>,
    objects: nat,
    users: nat,
    error: IndexError,
) -> bool {
    let position = error.position();
    &&& position < ratings.len()
    &&& indices_in_range(ratings.take(position as int), objects, users)
    &&& fault_of(ratings[position as int], position, objects, users) == Some(error)
}

impl Rating {
    /// The rating by which `user` gave `object` the score encoded in `weight`.
    pub fn new(object: usize, user: usize, weight: u64) -> (rating: Rating)
        ensures
            rating == (Rating { object, user, weight }),
    {
        Rating { object, user, weight }
    }
}

impl IndexError {
    /// Where in the rating sequence the offending rating stands.
    pub open spec fn position(self) -> usize {
        match self {
            IndexError::ObjectOutOfRange { position } => position,
            IndexError::UserOutOfRange { position } => position,
        }
    }

    /// Where in the rating sequence the offending rating stands.
    pub fn offending_position(&self) -> (position: usize)
        ensures
            position == self.position(),
    {
        match self {
            IndexError::ObjectOutOfRange { position } => *position,
            IndexError::UserOutOfRange { position } => *position,
        }
    }
}

/// Checks a rating set against the number of object and user slots.
///
/// Succeeds exactly when every index is in range; otherwise names the
/// earliest rating that is not, and which of its two indices is at fault.
pub fn check_indices(ratings: &Vec<Rating>, objects: usize, users: usize) -> (checked: Result<
    (),
    IndexError,
>)
    ensures
        checked is Ok <==> indices_in_range(ratings@, objects as nat, users as nat),
        checked matches Err(error) ==> is_first_fault(
            ratings@,
            objects as nat,
            users as nat,
            error,
        ),
{
    let mut i: usize = 0;
    while i < ratings.len()
        invariant
            i <= ratings.len(),
            indices_in_range(ratings@.take(i as int), objects as nat, users as nat),
        decreases ratings.len() - i,
    {
        let rating = ratings[i];
        if rating.object >= objects {
            return Err(IndexError::ObjectOutOfRange { position: i });
        }
        if rating.user >= users {
            return Err(IndexError::UserOutOfRange { position: i });
        }
        proof {
            let longer = ratings@.take(i + 1);
            assert forall|j: int| 0 <= j < longer.len() implies rating_in_range(
                #[trigger] longer[j],
                objects as nat,
                users as nat,
            ) by {
                if j < i {
                    assert(longer[j] == ratings@.take(i as int)[j]);
                }
            }
        }
        i += 1;
    }
    proof {
        assert(ratings@.take(ratings.len() as int) =~= ratings@);
    }
    Ok(())
}

/// A rating set has at most one first fault: the error of `check_indices`
/// on a set that does not fit is determined by the set and the two sizes.
pub proof fn lemma_first_fault_is_unique(
    ratings: Seq<Rating>,
    objects: nat,
    users: nat,
    first: IndexError,
    second: IndexError,
)
    requires
        is_first_fault(ratings, objects, users, first),
        is_first_fault(ratings, objects, users, second),
    ensures
        first == second,
{
    let p = first.position() as int;
    let q = second.position() as int;
    if p < q {
        assert(ratings.take(q)[p] == ratings[p]);
    }
    if q < p {
        assert(ratings.take(p)[q] == ratings[q]);
    }
}

} // verus!
