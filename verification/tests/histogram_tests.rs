use specter::error::HistogramError;
use specter::histogram::{AxisSpec, HistSpec, Histogram};
use uuid::Uuid;

/// A measurement in thousandths of a unit.
fn fx(value: f32) -> i32 {
    (value * 1000.0).round() as i32
}

fn spec_1d() -> HistSpec {
    HistSpec {
        id: Uuid::new_v4(),
        name: String::from("test"),
        title: String::from("test"),
        x_axis: AxisSpec::new("var", "var", 600, fx(0.0), fx(600.0)).unwrap(),
        y_axis: None,
        cuts_to_draw: vec![],
        cuts_to_check: vec![],
    }
}

fn spec_2d() -> HistSpec {
    HistSpec {
        id: Uuid::new_v4(),
        name: String::from("test"),
        title: String::from("test"),
        x_axis: AxisSpec::new("var", "var", 600, fx(0.0), fx(600.0)).unwrap(),
        y_axis: Some(AxisSpec::new("var2", "var2", 600, fx(0.0), fx(600.0)).unwrap()),
        cuts_to_draw: vec![],
        cuts_to_check: vec![],
    }
}

#[test]
fn test_axis() {
    assert!(AxisSpec::new("var", "var", 600, fx(0.0), fx(3600.0)).is_ok());
    assert!(AxisSpec::new("var", "var", 0, fx(0.0), fx(3600.0)).is_err());
    assert!(AxisSpec::new("var", "var", 600, fx(36000.0), fx(3600.0)).is_err());
    let axis = AxisSpec::new("var", "var", 600, fx(0.0), fx(600.0)).unwrap();
    let bin = axis.get_bin(fx(0.5)).unwrap();
    let bin_width = axis.get_bin_width();
    assert_eq!(bin, 0);
    assert_eq!(bin_width, fx(1.0) as u64);
    assert!(axis.get_bin(fx(-1.0)).is_err());
    assert_eq!(axis.variable, "var");
    assert_eq!(axis.title, "var");
}

#[test]
fn test_hist1d() {
    let mut gram = Histogram::new(spec_1d());
    assert_eq!(gram.data.len(), 600);
    assert!(gram.fill(fx(0.5), None).is_ok());
    assert!(gram.fill(fx(-1.0), None).is_err());
    assert_eq!(gram.spec.name, "test");
    assert_eq!(gram.spec.title, "test");
    assert!(gram.spec.cuts_to_draw.is_empty());
    assert!(gram.spec.cuts_to_check.is_empty());
}

#[test]
fn test_hist2d() {
    let mut gram = Histogram::new(spec_2d());
    assert_eq!(gram.data.len(), 360_000);
    assert!(gram.fill(fx(0.5), Some(fx(0.5))).is_ok());
    assert!(gram.fill(fx(0.5), None).is_err());
    assert!(gram.fill(fx(-1.0), Some(fx(0.5))).is_err());
    assert!(gram.fill(fx(0.5), Some(fx(-1.0))).is_err());
    assert!(gram.fill(fx(-1.0), Some(fx(-1.0))).is_err());
    assert_eq!(gram.spec.name, "test");
    assert_eq!(gram.spec.title, "test");
    assert!(gram.spec.cuts_to_draw.is_empty());
    assert!(gram.spec.cuts_to_check.is_empty());
}

#[test]
fn axis_refuses_empty_range_and_no_bins() {
    assert_eq!(
        AxisSpec::new("v", "t", 4, 5, 5),
        Err(HistogramError::BadAxis(String::from("t"), 4, 5, 5))
    );
    assert_eq!(
        AxisSpec::new("v", "t", 4, 6, 5),
        Err(HistogramError::BadAxis(String::from("t"), 4, 6, 5))
    );
    assert_eq!(
        AxisSpec::new("v", "t", 0, 0, 5),
        Err(HistogramError::BadAxis(String::from("t"), 0, 0, 5))
    );
    let axis = AxisSpec::new("v", "t", 1, -1, 0).unwrap();
    assert_eq!(axis.bins, 1);
    assert_eq!(axis.minimum, -1);
    assert_eq!(axis.maximum, 0);
}

#[test]
fn axis_edges() {
    let axis = AxisSpec::new("v", "t", 600, fx(0.0), fx(600.0)).unwrap();
    assert_eq!(axis.get_bin(axis.minimum), Ok(0));
    assert_eq!(axis.get_bin(axis.maximum - 1), Ok(599));
    assert_eq!(
        axis.get_bin(axis.maximum),
        Err(HistogramError::OutOfBounds(0, 600_000, 600_000))
    );
    assert_eq!(
        axis.get_bin(axis.minimum - 1),
        Err(HistogramError::OutOfBounds(0, 600_000, -1))
    );
}

#[test]
fn bin_is_the_floor_of_the_scaled_offset() {
    let axis = AxisSpec::new("v", "t", 4, 0, 10).unwrap();
    assert_eq!(axis.get_bin(0), Ok(0));
    assert_eq!(axis.get_bin(2), Ok(0));
    assert_eq!(axis.get_bin(3), Ok(1));
    assert_eq!(axis.get_bin(5), Ok(2));
    assert_eq!(axis.get_bin(7), Ok(2));
    assert_eq!(axis.get_bin(8), Ok(3));
    assert_eq!(axis.get_bin(9), Ok(3));
    assert_eq!(axis.get_bin_width(), 2);
    let shifted = AxisSpec::new("v", "t", 3, -30, 30).unwrap();
    assert_eq!(shifted.get_bin(-30), Ok(0));
    assert_eq!(shifted.get_bin(-11), Ok(0));
    assert_eq!(shifted.get_bin(-10), Ok(1));
    assert_eq!(shifted.get_bin(29), Ok(2));
    assert_eq!(shifted.get_bin_width(), 20);
}

#[test]
fn bin_over_the_whole_range_of_values() {
    let axis = AxisSpec::new("v", "t", usize::MAX, i32::MIN, i32::MAX).unwrap();
    assert_eq!(axis.get_bin(i32::MIN), Ok(0));
    let top = axis.get_bin(i32::MAX - 1).unwrap();
    assert!(top < usize::MAX);
    assert!(axis.get_bin(i32::MAX).is_err());
    assert_eq!(axis.get_bin_width(), 0);
}

#[test]
fn fill_1d_counts_one_bin() {
    let mut gram = Histogram::new(spec_1d());
    assert_eq!(gram.fill(fx(0.5), None), Ok(0));
    assert_eq!(gram.fill(fx(0.5), None), Ok(0));
    assert_eq!(gram.fill(fx(599.999), None), Ok(599));
    assert_eq!(gram.data[0], 2);
    assert_eq!(gram.data[599], 1);
    assert_eq!(gram.data.iter().map(|c| *c as u64).sum::<u64>(), 3);
    assert_eq!(
        gram.fill(fx(-1.0), None),
        Err(HistogramError::OutOfBounds(0, 600_000, -1000))
    );
    assert_eq!(gram.fill(fx(1.0), Some(fx(1.0))), Err(HistogramError::WrongDimensions));
    assert_eq!(gram.data.iter().map(|c| *c as u64).sum::<u64>(), 3);
}

#[test]
fn fill_2d_index_is_the_product_of_the_bins() {
    let mut gram = Histogram::new(spec_2d());
    assert_eq!(gram.fill(fx(0.5), Some(fx(0.5))), Ok(0));
    assert_eq!(gram.fill(fx(3.5), Some(fx(7.5))), Ok(21));
    assert_eq!(gram.fill(fx(599.5), Some(fx(599.5))), Ok(599 * 599));
    assert_eq!(gram.data[0], 1);
    assert_eq!(gram.data[21], 1);
    assert_eq!(gram.data[599 * 599], 1);
    assert_eq!(gram.fill(fx(0.5), None), Err(HistogramError::WrongDimensions));
    assert_eq!(
        gram.fill(fx(600.0), Some(fx(0.5))),
        Err(HistogramError::OutOfBounds(0, 600_000, 600_000))
    );
    assert_eq!(
        gram.fill(fx(0.5), Some(fx(-1.0))),
        Err(HistogramError::OutOfBounds(0, 600_000, -1000))
    );
    assert_eq!(
        gram.fill(fx(-2.0), None),
        Err(HistogramError::OutOfBounds(0, 600_000, -2000))
    );
    assert_eq!(gram.data.iter().map(|c| *c as u64).sum::<u64>(), 3);
}

#[test]
fn full_counter_stays_full() {
    let mut spec = spec_1d();
    spec.x_axis = AxisSpec::new("var", "var", 2, 0, 2).unwrap();
    let mut gram = Histogram::new(spec);
    gram.data[1] = u16::MAX - 1;
    assert_eq!(gram.fill(1, None), Ok(1));
    assert_eq!(gram.data[1], u16::MAX);
    assert_eq!(gram.fill(1, None), Ok(1));
    assert_eq!(gram.data[1], u16::MAX);
    assert_eq!(gram.data[0], 0);
}
