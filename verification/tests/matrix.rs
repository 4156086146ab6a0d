use oxide_kernels::matrix::transpose;

#[test]
fn transpose_of_a_rectangle() {
    assert_eq!(transpose(&[1, 2, 3, 4, 5, 6], 2, 3), vec![1, 4, 2, 5, 3, 6]);
    assert_eq!(transpose(&[1, 4, 2, 5, 3, 6], 3, 2), vec![1, 2, 3, 4, 5, 6]);
}

#[test]
fn transpose_without_rows_or_columns() {
    assert_eq!(transpose::<u8>(&[], 0, 5), Vec::<u8>::new());
    assert_eq!(transpose::<u8>(&[], 5, 0), Vec::<u8>::new());
}

#[test]
fn transpose_keeps_the_entries_and_ignores_a_tail() {
    let v: Vec<u32> = (0..35).map(|i| i * i % 11).collect();
    let t = transpose(&v, 4, 8);
    assert_eq!(t, transpose(&v[..32], 4, 8));
    let (mut x, mut y) = (t, v[..32].to_vec());
    x.sort();
    y.sort();
    assert_eq!(x, y);
}
