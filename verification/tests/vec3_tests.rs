use perceptron::Vec3;

#[test]
fn dot_sums_elementwise_products() {
    assert_eq!(Vec3(1, 2, 3).dot(&Vec3(4, 5, 6)), 4 + 10 + 18);
    assert_eq!(Vec3(0, 0, 0).dot(&Vec3(7, -8, 9)), 0);
    assert_eq!(Vec3(1, -2, 3).dot(&Vec3(-4, 5, -6)), -4 - 10 - 18);
}

#[test]
fn dot_is_exact_on_large_components() {
    let big = Vec3(i64::MAX, i64::MIN, i64::MAX);
    let unit = Vec3(1, 1, 1);
    let expected = (i64::MAX as i128) + (i64::MIN as i128) + (i64::MAX as i128);
    assert_eq!(big.dot(&unit), expected);
}

#[test]
fn add_scaled_moves_by_a_multiple() {
    assert_eq!(Vec3(1, 2, 3).add_scaled(2, &Vec3(10, -10, 5)), Vec3(21, -18, 13));
    assert_eq!(Vec3(1, 2, 3).add_scaled(-1, &Vec3(1, 3, 1)), Vec3(0, -1, 2));
    assert_eq!(Vec3(1, 2, 3).add_scaled(0, &Vec3(9, 9, 9)), Vec3(1, 2, 3));
}
