use poker_hands::utils::statistics::{
    generate_random_numbers, pick_without_replacement, random_choices,
};

#[test]
fn picking_takes_the_chosen_item_and_moves_the_last_into_its_place() {
    let pool = vec![10usize, 11, 12, 13, 14];
    assert_eq!(pick_without_replacement(pool.clone(), &vec![1, 1, 0]), vec![11, 14, 10]);
    assert_eq!(
        pick_without_replacement(pool.clone(), &vec![4, 3, 2, 1, 0]),
        vec![14, 13, 12, 11, 10]
    );
    assert_eq!(
        pick_without_replacement(pool.clone(), &vec![0, 0, 0, 0, 0]),
        vec![10, 14, 13, 12, 11]
    );
    assert_eq!(pick_without_replacement(pool, &Vec::new()), Vec::<usize>::new());
}

#[test]
fn picking_works_on_any_copyable_items() {
    let pool = vec!['a', 'b', 'c'];
    assert_eq!(pick_without_replacement(pool, &vec![2, 0]), vec!['c', 'a']);
}

#[test]
fn random_choices_stay_among_what_is_left() {
    for _ in 0..200 {
        let choices = random_choices(6, 6);
        assert_eq!(choices.len(), 6);
        for (j, c) in choices.iter().enumerate() {
            assert!(*c < 6 - j);
        }
        assert_eq!(choices[5], 0);
    }
    assert_eq!(random_choices(6, 0), Vec::<usize>::new());
    assert_eq!(random_choices(0, 0), Vec::<usize>::new());
    assert_eq!(random_choices(3, 2).len(), 2);
}

#[test]
fn random_choices_vary() {
    let mut seen = [false; 4];
    for _ in 0..400 {
        let choices = random_choices(4, 1);
        seen[choices[0]] = true;
    }
    assert_eq!(seen, [true; 4]);
}

#[test]
fn random_numbers_are_different_and_in_range() {
    for _ in 0..100 {
        let numbers = generate_random_numbers(5, 9, 3);
        assert_eq!(numbers.len(), 3);
        for (a, x) in numbers.iter().enumerate() {
            assert!(5 <= *x && *x <= 9);
            for y in numbers.iter().skip(a + 1) {
                assert_ne!(x, y);
            }
        }
    }
}

#[test]
fn as_many_random_numbers_as_the_range_holds_are_the_whole_range() {
    let mut numbers = generate_random_numbers(0, 9, 10);
    numbers.sort();
    assert_eq!(numbers, vec![0, 1, 2, 3, 4, 5, 6, 7, 8, 9]);
    let mut numbers = generate_random_numbers(250, 255, 6);
    numbers.sort();
    assert_eq!(numbers, vec![250, 251, 252, 253, 254, 255]);
    assert_eq!(generate_random_numbers(7, 7, 1), vec![7]);
}

#[test]
fn no_random_numbers_when_none_are_asked_for() {
    assert_eq!(generate_random_numbers(3, 200, 0), Vec::<usize>::new());
}

#[test]
fn the_widest_range_can_be_drawn_in_full() {
    let mut numbers = generate_random_numbers(0, 255, 255);
    assert_eq!(numbers.len(), 255);
    numbers.sort();
    numbers.dedup();
    assert_eq!(numbers.len(), 255);
    assert!(numbers.iter().all(|x| *x <= 255));
}
