use coverage_distance::message::dimensions_message;

#[test]
fn message_of_small_dimensions() {
    assert_eq!(
        dimensions_message(3, 4),
        "Dimensions: 3 samples by approx 4 nodes"
    );
    assert_eq!(
        dimensions_message(0, 0),
        "Dimensions: 0 samples by approx 0 nodes"
    );
    assert_eq!(
        dimensions_message(999, 100),
        "Dimensions: 999 samples by approx 100 nodes"
    );
}

#[test]
fn message_groups_digits_by_three() {
    assert_eq!(
        dimensions_message(1000, 1234567),
        "Dimensions: 1,000 samples by approx 1,234,567 nodes"
    );
    assert_eq!(
        dimensions_message(10001, 100000),
        "Dimensions: 10,001 samples by approx 100,000 nodes"
    );
    assert_eq!(
        dimensions_message(1002003, 20),
        "Dimensions: 1,002,003 samples by approx 20 nodes"
    );
}
