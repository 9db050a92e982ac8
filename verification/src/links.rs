//! Link counts: how many ratings each user authored.

use crate::rating::{users_in_range, Rating};
use vstd::prelude::*;

verus! {

/// How many of `ratings` were authored by `user`.
pub open spec fn link_count(ratings: Seq<Rating>, user: int) -> nat
    decreases ratings.len(),
{
    if ratings.len() == 0 {
        0
    } else {
        let earlier = link_count(ratings.drop_last(), user);
        if ratings.last().user == user {
            earlier + 1
        } else {
            earlier
        }
    }
}

/// The link counts of the first `users` users, added up.
pub open spec fn total_links(ratings: Seq<Rating>, users: nat) -> nat
    decreases users,
{
    if users == 0 {
        0
    } else {
        total_links(ratings, (users - 1) as nat) + link_count(ratings, users - 1)
    }
}

/// The positions in `ratings` whose rating was authored by `user`.
pub open spec fn authored_positions(ratings: Seq<Rating>, user: int) -> Set<int> {
    Set::new(|i: int| 0 <= i < ratings.len() && ratings[i].user == user)
}

/// Counts, for each user, the ratings that user authored.
///
/// The result has one slot per user; slot `u` holds the number of positions
/// in `ratings` whose rating names `u`. Repeated ratings of one object by one
/// user count once each.
pub fn calculate_user_links(users: usize, ratings: &Vec<Rating>) -> (user_links: Vec<usize>)
    requires
        users_in_range(ratings@, users as nat),
    ensures
        user_links.len() == users,
        forall|u: int| 0 <= u < users ==> user_links[u] == link_count(ratings@, u),
{
    let mut user_links: Vec<usize> = vec![0; users];
    let mut i: usize = 0;
    while i < ratings.len()
        invariant
            i <= ratings.len(),
            user_links.len() == users,
            users_in_range(ratings@, users as nat),
            forall|u: int|
                0 <= u < users ==> user_links[u] == link_count(ratings@.take(i as int), u),
        decreases ratings.len() - i,
    {
        let user: usize = ratings[i].user;
        let seen: usize = user_links[user];
        proof {
            lemma_link_count_bounded(ratings@.take(i as int), user as int);
            assert(ratings@.take(i + 1).drop_last() =~= ratings@.take(i as int));
        }
        user_links.set(user, seen + 1);
        i += 1;
    }
    proof {
        assert(ratings@.take(ratings.len() as int) =~= ratings@);
    }
    user_links
}

/// Counts the ratings of each user after checking that the rating set fits:
/// `None` exactly when some rating names a user that has no slot, and
/// otherwise the table that `calculate_user_links` gives.
pub fn checked_user_links(users: usize, ratings: &Vec<Rating>) -> (checked: Option<Vec<usize>>)
    ensures
        checked is Some <==> users_in_range(ratings@, users as nat),
        checked matches Some(user_links) ==> user_links.len() == users && forall|u: int|
            0 <= u < users ==> user_links[u] == link_count(ratings@, u),
{
    let mut i: usize = 0;
    while i < ratings.len()
        invariant
            i <= ratings.len(),
            forall|j: int| 0 <= j < i ==> (#[trigger] ratings@[j]).user < users,
        decreases ratings.len() - i,
    {
        if ratings[i].user >= users {
            return None;
        }
        i += 1;
    }
    Some(calculate_user_links(users, ratings))
}

/// The number of ratings over which a user's squared divergence is averaged:
/// the user's link count, or `None` for a user without ratings, whose
/// reputation is zero by definition and takes no average.
pub fn rated_links(user_links: &Vec<usize>, user: usize) -> (links: Option<usize>)
    requires
        user < user_links.len(),
    ensures
        links == if user_links[user as int] > 0 {
            Some(user_links[user as int])
        } else {
            None
        },
{
    let links: usize = user_links[user];
    if links > 0 {
        Some(links)
    } else {
        None
    }
}

/// A user cannot have authored more ratings than there are.
pub proof fn lemma_link_count_bounded(ratings: Seq<Rating>, user: int)
    ensures
        link_count(ratings, user) <= ratings.len(),
    decreases ratings.len(),
{
    if ratings.len() > 0 {
        lemma_link_count_bounded(ratings.drop_last(), user);
    }
}

/// A link count is the number of positions at which the user's ratings stand.
pub proof fn lemma_link_count_is_cardinality(ratings: Seq<Rating>, user: int)
    ensures
        authored_positions(ratings, user).finite(),
        link_count(ratings, user) == authored_positions(ratings, user).len(),
    decreases ratings.len(),
{
    let positions = authored_positions(ratings, user);
    if ratings.len() == 0 {
        assert(positions =~= Set::empty());
    } else {
        let earlier = authored_positions(ratings.drop_last(), user);
        let last = ratings.len() - 1;
        lemma_link_count_is_cardinality(ratings.drop_last(), user);
        if ratings.last().user == user {
            assert(positions =~= earlier.insert(last));
        } else {
            assert(positions =~= earlier);
        }
    }
}

/// A user has no links exactly when no rating names that user.
pub proof fn lemma_unrated_iff_no_links(ratings: Seq<Rating>, user: int)
    ensures
        link_count(ratings, user) == 0 <==> forall|i: int|
            0 <= i < ratings.len() ==> (#[trigger] ratings[i]).user != user,
    decreases ratings.len(),
{
    if ratings.len() > 0 {
        let earlier = ratings.drop_last();
        lemma_unrated_iff_no_links(earlier, user);
        if link_count(ratings, user) == 0 {
            assert forall|i: int| 0 <= i < ratings.len() implies (#[trigger] ratings[i]).user
                != user by {
                if i < earlier.len() {
                    assert(earlier[i] == ratings[i]);
                }
            }
        } else if ratings.last().user != user {
            let i = choose|i: int| 0 <= i < earlier.len() && (#[trigger] earlier[i]).user == user;
            assert(ratings[i].user == user);
        }
    }
}

/// A user who authored every rating has as many links as there are ratings.
pub proof fn lemma_sole_rater_links(ratings: Seq<Rating>, user: int)
    requires
        forall|i: int| 0 <= i < ratings.len() ==> (#[trigger] ratings[i]).user == user,
    ensures
        link_count(ratings, user) == ratings.len(),
    decreases ratings.len(),
{
    if ratings.len() > 0 {
        let earlier = ratings.drop_last();
        assert forall|i: int| 0 <= i < earlier.len() implies (#[trigger] earlier[i]).user
            == user by {
            assert(earlier[i] == ratings[i]);
        }
        lemma_sole_rater_links(earlier, user);
    }
}

/// Appending one rating raises the total over the first `users` users by one
/// if its author is among them, and leaves it unchanged otherwise.
proof fn lemma_total_links_grows(ratings: Seq<Rating>, users: nat)
    requires
        ratings.len() > 0,
    ensures
        total_links(ratings, users) == total_links(ratings.drop_last(), users) + if ratings.last().user
            < users {
            1nat
        } else {
            0nat
        },
    decreases users,
{
    if users > 0 {
        lemma_total_links_grows(ratings, (users - 1) as nat);
    }
}

/// Over an empty rating set every total is zero.
proof fn lemma_total_links_empty(ratings: Seq<Rating>, users: nat)
    requires
        ratings.len() == 0,
    ensures
        total_links(ratings, users) == 0,
    decreases users,
{
    if users > 0 {
        lemma_total_links_empty(ratings, (users - 1) as nat);
    }
}

/// Every rating is counted for exactly one user: the link counts of all
/// users add up to the number of ratings.
pub proof fn lemma_links_cover_ratings(ratings: Seq<Rating>, users: nat)
    requires
        users_in_range(ratings, users),
    ensures
        total_links(ratings, users) == ratings.len(),
    decreases ratings.len(),
{
    if ratings.len() == 0 {
        lemma_total_links_empty(ratings, users);
    } else {
        let earlier = ratings.drop_last();
        assert forall|i: int| 0 <= i < earlier.len() implies (#[trigger] earlier[i]).user
            < users by {
            assert(earlier[i] == ratings[i]);
        }
        lemma_links_cover_ratings(earlier, users);
        lemma_total_links_grows(ratings, users);
        assert(ratings.last() == ratings[ratings.len() - 1]);
    }
}

/// The link table of a rating set is unique: two tables that both hold every
/// user's link count are the same table.
pub proof fn lemma_user_links_unique(
    ratings: Seq<Rating>,
    users: nat,
    first: Seq<usize>,
    second: Seq<usize>,
)
    requires
        first.len() == users,
        second.len() == users,
        forall|u: int| 0 <= u < users ==> first[u] == link_count(ratings, u),
        forall|u: int| 0 <= u < users ==> second[u] == link_count(ratings, u),
    ensures
        first == second,
{
    assert(first =~= second);
}

} // verus!
