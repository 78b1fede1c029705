use specter::cut::{Cut, Cut1D, Cut2D, CutSpec};
use specter::data_blob::DataBlob;
use specter::error::CutError;
use uuid::Uuid;

fn spec_x() -> CutSpec {
    CutSpec { id: Uuid::new_v4(), name: String::from("cut"), x_variable: String::from("x"), y_variable: None }
}

fn spec_xy() -> CutSpec {
    CutSpec {
        id: Uuid::new_v4(),
        name: String::from("cut"),
        x_variable: String::from("x"),
        y_variable: Some(String::from("y")),
    }
}

fn record(entries: &[(&str, i32)]) -> DataBlob {
    let mut blob = DataBlob::new();
    for (name, value) in entries {
        blob.insert(name, *value);
    }
    blob
}

fn unit_square() -> Cut2D {
    Cut2D::new(spec_xy(), vec![0, 0, 10, 10, 0], vec![0, 10, 10, 0, 0]).unwrap()
}

#[test]
fn record_keeps_the_last_value() {
    let mut blob = DataBlob::new();
    assert_eq!(blob.find("x"), None);
    blob.insert("x", 1);
    blob.insert("y", 2);
    assert_eq!(blob.find("x"), Some(1));
    assert_eq!(blob.find("y"), Some(2));
    blob.insert("x", 3);
    assert_eq!(blob.find("x"), Some(3));
    assert_eq!(blob.find("y"), Some(2));
    assert_eq!(blob.find("z"), None);
    assert_eq!(blob.find(""), None);
}

#[test]
fn range_cut_is_open_at_both_ends() {
    let mut cut = Cut1D::new(spec_x(), 0, 10).unwrap();
    assert!(!cut.is_valid());
    cut.is_inside(&record(&[("x", 5)]));
    assert!(cut.is_valid());
    cut.is_inside(&record(&[("x", 0)]));
    assert!(!cut.is_valid());
    cut.is_inside(&record(&[("x", 10)]));
    assert!(!cut.is_valid());
    cut.is_inside(&record(&[("x", 9)]));
    assert!(cut.is_valid());
    cut.is_inside(&record(&[("y", 5)]));
    assert!(!cut.is_valid());
    cut.is_inside(&record(&[("x", 1)]));
    assert!(cut.is_valid());
    cut.reset();
    assert!(!cut.is_valid());
    assert_eq!(cut.get_spec().name, "cut");
}

#[test]
fn range_cut_refuses_an_empty_interval() {
    assert!(matches!(Cut1D::new(spec_x(), 3, 3), Err(CutError::Invalid1D(3, 3))));
    assert!(matches!(Cut1D::new(spec_x(), 4, 3), Err(CutError::Invalid1D(4, 3))));
    assert!(Cut1D::new(spec_x(), 3, 4).is_ok());
}

#[test]
fn polygon_cut_on_a_square() {
    let mut cut = unit_square();
    assert!(!cut.is_valid());
    cut.is_inside(&record(&[("x", 5), ("y", 5)]));
    assert!(cut.is_valid());
    cut.is_inside(&record(&[("x", 15), ("y", 5)]));
    assert!(!cut.is_valid());
    cut.is_inside(&record(&[("x", 0), ("y", 0)]));
    assert!(cut.is_valid());
    cut.is_inside(&record(&[("x", -5), ("y", 5)]));
    assert!(!cut.is_valid());
    cut.is_inside(&record(&[("x", 1), ("y", 9)]));
    assert!(cut.is_valid());
    cut.is_inside(&record(&[("x", 15), ("y", 5)]));
    assert!(!cut.is_valid());
}

#[test]
fn polygon_cut_counts_a_point_on_an_edge_line_as_inside() {
    let mut cut = unit_square();
    cut.is_inside(&record(&[("x", 0), ("y", 5)]));
    assert!(cut.is_valid());
    cut.is_inside(&record(&[("x", 10), ("y", 10)]));
    assert!(cut.is_valid());
}

#[test]
fn polygon_cut_judges_by_the_side_of_each_edge_line() {
    let mut cut = unit_square();
    cut.is_inside(&record(&[("x", 20), ("y", 20)]));
    assert!(cut.is_valid());
    cut.is_inside(&record(&[("x", 20), ("y", 5)]));
    assert!(!cut.is_valid());
    let mut turned = Cut2D::new(spec_xy(), vec![0, 8, 0, 0], vec![0, 0, 8, 0]).unwrap();
    turned.is_inside(&record(&[("x", 2), ("y", 2)]));
    assert!(!turned.is_valid());
}

#[test]
fn polygon_cut_needs_both_variables() {
    let mut cut = unit_square();
    cut.is_inside(&record(&[("x", 5), ("y", 5)]));
    assert!(cut.is_valid());
    cut.is_inside(&record(&[("x", 5)]));
    assert!(!cut.is_valid());
    cut.is_inside(&record(&[("x", 5), ("y", 5)]));
    assert!(cut.is_valid());
    cut.is_inside(&record(&[("y", 5)]));
    assert!(!cut.is_valid());
    cut.is_inside(&record(&[("x", 5), ("y", 5)]));
    cut.reset();
    assert!(!cut.is_valid());
}

#[test]
fn polygon_cut_on_a_triangle() {
    let mut cut = Cut2D::new(spec_xy(), vec![0, 0, 8, 0], vec![0, 8, 0, 0]).unwrap();
    cut.is_inside(&record(&[("x", 2), ("y", 2)]));
    assert!(cut.is_valid());
    cut.is_inside(&record(&[("x", 7), ("y", 7)]));
    assert!(!cut.is_valid());
    cut.is_inside(&record(&[("x", 1), ("y", 6)]));
    assert!(cut.is_valid());
}

#[test]
fn polygon_cut_at_the_ends_of_the_value_range() {
    let lo = i32::MIN;
    let hi = i32::MAX;
    let mut cut = Cut2D::new(spec_xy(), vec![lo, lo, hi, hi, lo], vec![lo, hi, hi, lo, lo]).unwrap();
    cut.is_inside(&record(&[("x", 1), ("y", -1)]));
    assert!(cut.is_valid());
    cut.is_inside(&record(&[("x", hi), ("y", hi)]));
    assert!(cut.is_valid());
}

#[test]
fn polygon_cut_refuses_bad_vertices() {
    assert!(matches!(
        Cut2D::new(spec_xy(), vec![0, 0], vec![0, 0]),
        Err(CutError::Invalid2D)
    ));
    assert!(matches!(
        Cut2D::new(spec_xy(), vec![0, 1, 2, 0], vec![0, 1, 0]),
        Err(CutError::Invalid2D)
    ));
    assert!(matches!(
        Cut2D::new(spec_x(), vec![0, 0, 10, 10, 0], vec![0, 10, 10, 0, 0]),
        Err(CutError::Invalid2D)
    ));
    assert!(matches!(
        Cut2D::new(spec_xy(), vec![0, 0, 10, 10, 1], vec![0, 10, 10, 0, 0]),
        Err(CutError::Unclosed2D)
    ));
    assert!(matches!(
        Cut2D::new(spec_xy(), vec![0, 0, 10, 10, 0], vec![0, 10, 10, 0, 1]),
        Err(CutError::Unclosed2D)
    ));
    assert!(matches!(
        Cut2D::new(spec_x(), vec![0, 0, 10, 10, 1], vec![0, 10, 10, 0, 0]),
        Err(CutError::Invalid2D)
    ));
    assert!(Cut2D::new(spec_xy(), vec![0, 1, 0], vec![0, 1, 0]).is_ok());
}

#[test]
fn judging_twice_changes_nothing() {
    let blob = record(&[("x", 5), ("y", 5)]);
    let mut range = Cut::Range(Cut1D::new(spec_x(), 0, 10).unwrap());
    let mut polygon = Cut::Polygon(unit_square());
    for _ in 0..3 {
        range.is_inside(&blob);
        polygon.is_inside(&blob);
        assert!(range.is_valid());
        assert!(polygon.is_valid());
    }
    let outside = record(&[("x", 50), ("y", 5)]);
    for _ in 0..3 {
        range.is_inside(&outside);
        polygon.is_inside(&outside);
        assert!(!range.is_valid());
        assert!(!polygon.is_valid());
    }
    range.is_inside(&blob);
    range.reset();
    assert!(!range.is_valid());
    assert_eq!(polygon.get_spec().x_variable, "x");
}
