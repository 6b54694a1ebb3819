use columnar::fixed::{ColumnError, Fixed};

/// A column named "test col" holding the given values, with the validity
/// bits cleared where `valid` is false.
fn column(values: &[i32], valid: &[bool]) -> Fixed<i32> {
    assert_eq!(values.len(), valid.len());
    let mut col: Fixed<i32> = Fixed::new("test col".to_string());
    for &v in values {
        col.add_record(v);
    }
    for (i, &ok) in valid.iter().enumerate() {
        if !ok {
            col.update_record(i, None).unwrap();
        }
    }
    col
}

/// Everything the column's viewer yields, front to back.
fn records(col: &Fixed<i32>) -> Vec<Option<i32>> {
    let mut viewer = col.get_records();
    let mut got: Vec<Option<i32>> = Vec::new();
    while let Some(r) = viewer.next() {
        got.push(r);
    }
    got
}

#[test]
fn add_record() {
    let mut col: Fixed<i32> = Fixed::default();
    col.add_record(5);
    col.add_record(10);
    col.add_record(40);
    col.add_record(80);

    assert_eq!(records(&col), vec![Some(5), Some(10), Some(40), Some(80)]);
}

#[test]
fn delete_record() {
    let mut col = column(
        &[1, 2, 3, 0, 0, 0, 4, 5, 0, 6],
        &[true, true, true, false, false, false, true, true, false, true],
    );

    col.delete_record(3).unwrap();

    assert_eq!(
        records(&col),
        vec![Some(1), Some(2), Some(3), Some(6), None, None, Some(4), Some(5), None]
    );
}

#[test]
fn update_record() {
    let mut col = column(
        &[1, 2, 3, 0, 0, 0, 4, 5, 0, 6],
        &[true, true, true, false, false, false, true, true, false, true],
    );

    col.update_record(3, Some(9)).unwrap();

    assert_eq!(
        records(&col),
        vec![Some(1), Some(2), Some(3), Some(9), None, None, Some(4), Some(5), None, Some(6)]
    );
}

#[test]
fn fixed_name_is_kept() {
    let col: Fixed<i32> = Fixed::new("age".to_string());
    assert_eq!(col.name(), "age");
}

#[test]
fn fixed_test_new_contents() {
    let col = Fixed::test_new();
    assert_eq!(col.name(), "test col");
    assert_eq!(
        records(&col),
        vec![Some(1), Some(2), Some(3), None, None, None, Some(4), Some(5), Some(0), Some(6)]
    );
}

#[test]
fn fixed_out_of_bounds_errors() {
    let mut col = column(&[1, 2], &[true, true]);
    assert_eq!(col.update_record(2, Some(7)), Err(ColumnError::IndexOutOfBounds));
    assert_eq!(col.delete_record(2), Err(ColumnError::IndexOutOfBounds));
    assert_eq!(records(&col), vec![Some(1), Some(2)]);

    let mut empty: Fixed<i32> = Fixed::default();
    assert_eq!(empty.delete_record(0), Err(ColumnError::IndexOutOfBounds));
}

#[test]
fn fixed_viewer_nth_resumes() {
    let col = column(
        &[1, 2, 3, 0, 0, 0, 4, 5, 0, 6],
        &[true, true, true, false, false, false, true, true, false, true],
    );
    let mut viewer = col.get_records();
    assert_eq!(viewer.nth(9), Some(Some(6)));
    assert_eq!(viewer.nth(3), Some(None));
    // after the jump, iteration resumes from there
    assert_eq!(viewer.next(), Some(None));
    assert_eq!(viewer.nth(10), None);
}

#[test]
fn fixed_delete_last_element() {
    let mut col = column(&[7, 8], &[true, false]);
    col.delete_record(1).unwrap();
    assert_eq!(records(&col), vec![Some(7)]);
    col.delete_record(0).unwrap();
    assert_eq!(records(&col), vec![]);
}
