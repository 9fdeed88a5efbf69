use einkrad::matrix::{identity, transpose};

#[test]
fn identity_has_ones_on_the_diagonal() {
    let mut m = [7.5f32; 16];
    identity(&mut m, 0.0, 1.0);
    assert_eq!(
        m,
        [1.0, 0.0, 0.0, 0.0, 0.0, 1.0, 0.0, 0.0, 0.0, 0.0, 1.0, 0.0, 0.0, 0.0, 0.0, 1.0]
    );
}

#[test]
fn identity_over_other_entries() {
    let mut m = ['x'; 16];
    identity(&mut m, '.', '#');
    let text: String = m.iter().collect();
    assert_eq!(text, "#....#....#....#");
}

#[test]
fn transpose_swaps_rows_and_columns() {
    let mut m: [u8; 16] = [0, 1, 2, 3, 4, 5, 6, 7, 8, 9, 10, 11, 12, 13, 14, 15];
    transpose(&mut m);
    assert_eq!(m, [0, 4, 8, 12, 1, 5, 9, 13, 2, 6, 10, 14, 3, 7, 11, 15]);
}

#[test]
fn transpose_twice_gives_the_matrix_back() {
    let start: [f32; 16] = [
        1.0, 2.0, 3.0, 4.0, 5.0, 6.0, 7.0, 8.0, 9.0, 10.0, 11.0, 12.0, 13.0, 14.0, 15.0, 16.0,
    ];
    let mut m = start;
    transpose(&mut m);
    assert_ne!(m, start);
    assert_eq!(m[12], 4.0);
    assert_eq!(m[3], 13.0);
    transpose(&mut m);
    assert_eq!(m, start);
}

#[test]
fn identity_is_its_own_transpose() {
    let mut m = [0i32; 16];
    identity(&mut m, 0, 1);
    let before = m;
    transpose(&mut m);
    assert_eq!(m, before);
}
