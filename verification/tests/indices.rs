use yzlm::rating::{check_indices, IndexError, Rating};

fn rating(object: usize, user: usize) -> Rating {
    Rating::new(object, user, 0x3FF0_0000_0000_0000)
}

#[test]
fn new_rating_keeps_its_fields() {
    let r = Rating::new(3, 4, 0x4014_0000_0000_0000);
    assert_eq!(r.object, 3);
    assert_eq!(r.user, 4);
    assert_eq!(r.weight, 0x4014_0000_0000_0000);
    assert_eq!(r, Rating { object: 3, user: 4, weight: 0x4014_0000_0000_0000 });
}

#[test]
fn an_empty_rating_set_fits_any_buffers() {
    let ratings: Vec<Rating> = Vec::new();
    assert_eq!(check_indices(&ratings, 0, 0), Ok(()));
    assert_eq!(check_indices(&ratings, 5, 2), Ok(()));
}

#[test]
fn indices_below_the_sizes_are_accepted() {
    let ratings = vec![rating(0, 0), rating(1, 1), rating(1, 0), rating(0, 1)];
    assert_eq!(check_indices(&ratings, 2, 2), Ok(()));
    assert_eq!(check_indices(&ratings, 10, 10), Ok(()));
}

#[test]
fn an_object_without_a_slot_is_found() {
    let ratings = vec![rating(0, 0), rating(2, 1), rating(1, 0)];
    assert_eq!(
        check_indices(&ratings, 2, 2),
        Err(IndexError::ObjectOutOfRange { position: 1 })
    );
}

#[test]
fn a_user_without_a_slot_is_found() {
    let ratings = vec![rating(0, 0), rating(1, 1), rating(1, 2)];
    assert_eq!(check_indices(&ratings, 2, 2), Err(IndexError::UserOutOfRange { position: 2 }));
}

#[test]
fn the_earliest_fault_is_the_one_found() {
    let ratings = vec![rating(0, 0), rating(0, 9), rating(9, 0)];
    assert_eq!(check_indices(&ratings, 2, 2), Err(IndexError::UserOutOfRange { position: 1 }));
}

#[test]
fn the_object_is_looked_at_before_the_user() {
    let ratings = vec![rating(2, 2)];
    assert_eq!(
        check_indices(&ratings, 2, 2),
        Err(IndexError::ObjectOutOfRange { position: 0 })
    );
}

#[test]
fn an_index_equal_to_the_size_is_out_of_range() {
    assert_eq!(
        check_indices(&vec![rating(3, 0)], 3, 1),
        Err(IndexError::ObjectOutOfRange { position: 0 })
    );
    assert_eq!(
        check_indices(&vec![rating(2, 1)], 3, 1),
        Err(IndexError::UserOutOfRange { position: 0 })
    );
    assert_eq!(check_indices(&vec![rating(2, 0)], 3, 1), Ok(()));
}

#[test]
fn an_error_knows_its_position() {
    assert_eq!(IndexError::ObjectOutOfRange { position: 7 }.offending_position(), 7);
    assert_eq!(IndexError::UserOutOfRange { position: 11 }.offending_position(), 11);
}
