use leptos_i18n_ranges::range::{Bound, Range};

#[test]
fn test_exact() {
    let range = Range::new("0").unwrap();

    assert_eq!(range, Range::Exact(0));
}

#[test]
fn test_fallback() {
    let range = Range::<i32>::new("_").unwrap();

    assert_eq!(range, Range::Fallback);
}

#[test]
fn test_range() {
    let range = Range::new("0..6").unwrap();

    assert_eq!(
        range,
        Range::Bounds {
            start: Some(0),
            end: Bound::Included(5)
        }
    );
}

#[test]
fn test_range_unbounded_end() {
    let range = Range::new("0..").unwrap();

    assert_eq!(
        range,
        Range::Bounds {
            start: Some(0),
            end: Bound::Unbounded
        }
    );
}

#[test]
fn test_range_included_end() {
    let range = Range::new("0..=6").unwrap();

    assert_eq!(
        range,
        Range::Bounds {
            start: Some(0),
            end: Bound::Included(6)
        }
    );
}

#[test]
fn test_range_unbounded_start() {
    let range = Range::new("..=6").unwrap();

    assert_eq!(
        range,
        Range::Bounds {
            start: None,
            end: Bound::Included(6)
        }
    );
}

#[test]
fn test_range_full() {
    let range = Range::<i32>::new("..").unwrap();

    assert_eq!(range, Range::Fallback);
}

#[test]
fn test_multiple() {
    let range = Range::<i32>::new("5 | 5..8 | 70..=80").unwrap();

    assert_eq!(
        range,
        Range::Multiple(vec![
            Range::Exact(5),
            Range::Bounds {
                start: Some(5),
                end: Bound::Included(7)
            },
            Range::Bounds {
                start: Some(70),
                end: Bound::Included(80)
            }
        ])
    );
}

#[test]
fn test_multiple_with_fallback() {
    let range = Range::<i32>::new("5 | 5..8 | 70..=80 | _").unwrap();

    assert_eq!(range, Range::Fallback);
}
