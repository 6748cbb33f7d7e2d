use pos_inventory::{lowest_price, rounded_quotient, CoreError, Field};

#[test]
fn lowest_price_of_a_third() {
    // 100.00 over three units is 33.33 per unit.
    assert_eq!(lowest_price(10000, 3), Ok(3333));
}

#[test]
fn lowest_price_exact_division() {
    assert_eq!(lowest_price(12000, 4), Ok(3000));
}

#[test]
fn lowest_price_half_goes_to_even() {
    // 0.01 / 2 = 0.005 rounds to 0.00; 0.03 / 2 = 0.015 rounds to 0.02.
    assert_eq!(lowest_price(1, 2), Ok(0));
    assert_eq!(lowest_price(3, 2), Ok(2));
    assert_eq!(lowest_price(5, 2), Ok(2));
    assert_eq!(lowest_price(7, 2), Ok(4));
    // 100.50 / 100 = 1.005 rounds to 1.00; 101.50 / 100 = 1.015 rounds to 1.02.
    assert_eq!(lowest_price(10050, 100), Ok(100));
    assert_eq!(lowest_price(10150, 100), Ok(102));
}

#[test]
fn lowest_price_off_the_boundary() {
    assert_eq!(lowest_price(10051, 100), Ok(101));
    assert_eq!(lowest_price(2, 3), Ok(1));
    assert_eq!(lowest_price(1, 3), Ok(0));
}

#[test]
fn lowest_price_negative_raw_price_is_symmetric() {
    assert_eq!(lowest_price(-3, 2), Ok(-2));
    assert_eq!(lowest_price(-10000, 3), Ok(-3333));
}

#[test]
fn lowest_price_refuses_non_positive_smallest_unit() {
    assert_eq!(lowest_price(100, 0), Err(CoreError::ValidationFailed(Field::SmallestUnit)));
    assert_eq!(lowest_price(100, -5), Err(CoreError::ValidationFailed(Field::SmallestUnit)));
}

#[test]
fn lowest_price_of_the_largest_values() {
    assert_eq!(lowest_price(i32::MAX, 1), Ok(i32::MAX as i64));
    assert_eq!(lowest_price(i32::MAX, i32::MAX), Ok(1));
}

#[test]
fn rounded_quotient_of_a_movement() {
    assert_eq!(rounded_quotient(1000, 3), 333);
    assert_eq!(rounded_quotient(2500, 2), 1250);
    assert_eq!(rounded_quotient(1001, 2), 500);
    assert_eq!(rounded_quotient(1003, 2), 502);
    assert_eq!(rounded_quotient(-1003, 2), -502);
    assert_eq!(rounded_quotient(i32::MIN, 1), i32::MIN as i64);
}

#[test]
fn lowest_price_at_the_three_midpoints() {
    // In hundredths, 1/2, 3/2 and 5/2 are the currency midpoints 0.005, 0.015 and 0.025;
    // they round half to even to 0.00, 0.02 and 0.02.
    assert_eq!(lowest_price(1, 2), Ok(0));
    assert_eq!(lowest_price(3, 2), Ok(2));
    assert_eq!(lowest_price(5, 2), Ok(2));
}
