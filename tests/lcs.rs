use subset_front::lcs::{initializeStrings, lcs_length, longestCommonSubsequence, update};

#[test]
fn lcs_of_generated_strings() {
    assert_eq!(longestCommonSubsequence(), 8);
}

#[test]
fn generated_strings_start() {
    let mut s1 = [0i32; 30];
    let mut s2 = [0i32; 25];
    initializeStrings(&mut s1, &mut s2, 17, 23);
    assert_eq!(&s1[..5], &[20, 7, 4, 15, 18]);
    assert_eq!(&s2[..5], &[8, 10, 10, 17, 16]);
    assert!(s1.iter().chain(s2.iter()).all(|&c| (0..26).contains(&c)));
}

#[test]
fn seed_update_steps() {
    let mut seed: i32 = 17;
    update(&mut seed);
    assert_eq!(seed, 23472);
    let mut neg: i32 = -100;
    update(&mut neg);
    assert_eq!(neg, 105579);
}

#[test]
fn lcs_small_inputs() {
    assert_eq!(lcs_length(&[1, 2, 3, 4], &[2, 4, 3]), 2);
    assert_eq!(lcs_length(&[], &[1, 2]), 0);
    assert_eq!(lcs_length(&[5, 5, 5], &[5, 5]), 2);
    assert_eq!(lcs_length(&[1, 2, 3], &[4, 5, 6]), 0);
    assert_eq!(lcs_length(&[1, 2, 3], &[1, 2, 3]), 3);
}
