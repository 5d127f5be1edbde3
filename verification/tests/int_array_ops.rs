use igraph::{GraphError, IntArray};

#[test]
fn test_round_trip() {
    let values: Vec<i64> = vec![5, -3, 0, 42, i64::MAX, i64::MIN, 7];
    let arr = IntArray::from_slice(&values);
    assert_eq!(arr.size(), values.len());
    let out = arr.into_owned_sequence();
    assert_eq!(out, values);
}

#[test]
fn test_round_trip_empty() {
    let values: Vec<i64> = vec![];
    let arr = IntArray::from_slice(&values);
    assert_eq!(arr.size(), 0);
    let out = arr.into_owned_sequence();
    assert_eq!(out, values);
}

#[test]
fn test_with_capacity_zeroed() {
    let arr = IntArray::with_capacity(7);
    assert_eq!(arr.size(), 7);
    for i in 0..7 {
        assert_eq!(arr.get(i).unwrap(), 0);
    }
}

#[test]
fn test_set_get() {
    let mut arr = IntArray::with_capacity(3);
    assert!(arr.set(0, 10).is_ok());
    assert!(arr.set(1, -20).is_ok());
    assert!(arr.set(2, 30).is_ok());
    assert_eq!(arr.get(0).unwrap(), 10);
    assert_eq!(arr.get(1).unwrap(), -20);
    assert_eq!(arr.get(2).unwrap(), 30);
}

#[test]
fn test_out_of_range_checked() {
    let mut arr = IntArray::with_capacity(2);
    arr.set(0, 1).unwrap();
    arr.set(1, 2).unwrap();
    assert_eq!(arr.set(2, 9), Err(GraphError::IndexOutOfRange));
    assert_eq!(arr.get(2), Err(GraphError::IndexOutOfRange));
    // a rejected write leaves the array unchanged
    assert_eq!(arr.get(0).unwrap(), 1);
    assert_eq!(arr.get(1).unwrap(), 2);
    assert_eq!(arr.size(), 2);
}

#[test]
fn test_max_and_which_max() {
    let arr = IntArray::from_slice(&[3, 9, -1, 9, 2]);
    assert_eq!(arr.max(), Some(9));
    // the first position of the maximum is reported
    assert_eq!(arr.which_max(), Some(1));

    let empty = IntArray::with_capacity(0);
    assert_eq!(empty.max(), None);
    assert_eq!(empty.which_max(), None);
}
