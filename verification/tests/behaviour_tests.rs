use leptos_i18n_ranges::de::{
    field_from_str, range_from_i64, range_from_sequence, range_from_u64, FieldError,
    RangeEntryFields, RangeField,
};
use leptos_i18n_ranges::condition::{arm_conditions, condition, Condition};
use leptos_i18n_ranges::pattern::PatternToken;
use leptos_i18n_ranges::ranges::{check_de_inner, check_ranges, try_for_each_pair_value_mut};
use leptos_i18n_ranges::{Bound, Error, Range, RangeNumber, RangeType, Ranges, TypeOrRange};

fn incl<T>(start: Option<T>, end: T) -> Range<T> {
    Range::Bounds {
        start,
        end: Bound::Included(end),
    }
}

#[test]
fn surrounding_whitespace_is_ignored() {
    assert_eq!(Range::<i32>::new("  7\t").unwrap(), Range::Exact(7));
    assert_eq!(Range::<i32>::new("\u{a0}1 .. = 3\u{3000}").unwrap(), incl(Some(1), 3));
    assert_eq!(Range::<i32>::new(" _ ").unwrap(), Range::Fallback);
    // the law on concrete values: trimmed and untrimmed texts read alike
    assert_eq!(
        Range::<u8>::new(" 2..4 ").unwrap(),
        Range::<u8>::new("2..4").unwrap()
    );
}

#[test]
fn exclusive_end_becomes_inclusive() {
    assert_eq!(Range::<i8>::new("-3..0").unwrap(), incl(Some(-3), -1));
    assert_eq!(Range::<u64>::new("..10").unwrap(), incl(None, 9));
}

#[test]
fn signs_follow_std_parse() {
    assert_eq!(Range::<i16>::new("+12").unwrap(), Range::Exact(12));
    assert_eq!(Range::<i16>::new("-12").unwrap(), Range::Exact(-12));
    assert!(matches!(
        Range::<u16>::new("-0"),
        Err(Error::RangeParse { ref range, range_type: RangeType::U16 }) if range == "-0"
    ));
    assert!(matches!(Range::<i32>::new("+"), Err(Error::RangeParse { .. })));
    assert_eq!(Range::<u8>::new("0007").unwrap(), Range::Exact(7));
}

#[test]
fn limits_of_each_type() {
    assert_eq!(Range::<i8>::new("-128").unwrap(), Range::Exact(-128));
    assert!(matches!(
        Range::<i8>::new("128"),
        Err(Error::RangeParse { ref range, range_type: RangeType::I8 }) if range == "128"
    ));
    assert_eq!(
        Range::<u64>::new("18446744073709551615").unwrap(),
        Range::Exact(u64::MAX)
    );
    assert!(matches!(
        Range::<u64>::new("18446744073709551616"),
        Err(Error::RangeParse { .. })
    ));
    assert_eq!(
        Range::<i64>::new("-9223372036854775808").unwrap(),
        Range::Exact(i64::MIN)
    );
}

#[test]
fn invalid_bound_end_error() {
    match Range::<i8>::new(" 0..-128 ") {
        Err(Error::InvalidBoundEnd { range, range_type }) => {
            assert_eq!(range, "0..-128");
            assert_eq!(range_type, RangeType::I8);
        }
        other => panic!("unexpected {:?}", other),
    }
}

#[test]
fn impossible_range_error() {
    match Range::<i32>::new("5..5") {
        Err(Error::ImpossibleRange(s)) => assert_eq!(s, "5..5"),
        other => panic!("unexpected {:?}", other),
    }
    match Range::<i32>::new("6..=5") {
        Err(Error::ImpossibleRange(s)) => assert_eq!(s, "6..=5"),
        other => panic!("unexpected {:?}", other),
    }
    assert_eq!(Range::<i32>::new("5..=5").unwrap(), incl(Some(5), 5));
}

#[test]
fn parse_error_names_the_part() {
    match Range::<i32>::new("1..x") {
        Err(Error::RangeParse { range, range_type }) => {
            assert_eq!(range, "x");
            assert_eq!(range_type, RangeType::I32);
        }
        other => panic!("unexpected {:?}", other),
    }
    match Range::<i32>::new("1..= y") {
        Err(Error::RangeParse { range, .. }) => assert_eq!(range, "y"),
        other => panic!("unexpected {:?}", other),
    }
    match Range::<i32>::new("1..2..3") {
        Err(Error::RangeParse { range, .. }) => assert_eq!(range, "2..3"),
        other => panic!("unexpected {:?}", other),
    }
}

#[test]
fn first_refused_alternative_decides_the_error() {
    match Range::<i32>::new("a | 3 | b") {
        Err(Error::RangeParse { range, .. }) => assert_eq!(range, "a"),
        other => panic!("unexpected {:?}", other),
    }
    // an error wins over a fallback among the alternatives
    assert!(Range::<i32>::new("_ | z").is_err());
}

#[test]
fn alternatives_read_one_by_one() {
    let whole = Range::<i32>::new("1 |2..4| ..=0").unwrap();
    let parts = vec![
        Range::<i32>::new("1 ").unwrap(),
        Range::<i32>::new("2..4").unwrap(),
        Range::<i32>::new(" ..=0").unwrap(),
    ];
    assert_eq!(whole, Range::Multiple(parts));
    assert_eq!(Range::<i32>::new(".. | 3").unwrap(), Range::Fallback);
}

#[test]
fn flatten_keeps_or_collapses() {
    let m = Range::Multiple(vec![Range::Exact(1), Range::<i32>::Fallback]);
    assert_eq!(m.flatten(), Range::Fallback);
    let m = Range::Multiple(vec![Range::Exact(1), Range::Exact(2)]);
    assert_eq!(
        m.flatten(),
        Range::Multiple(vec![Range::Exact(1), Range::Exact(2)])
    );
    assert_eq!(Range::Exact(3i32).flatten(), Range::Exact(3));
}

#[test]
fn clone_keeps_the_range() {
    let r = Range::<i32>::new("1 | 2..=3").unwrap();
    assert_eq!(r.clone(), r);
}

#[test]
fn range_type_names() {
    assert_eq!(RangeType::default(), RangeType::I32);
    assert_eq!(RangeType::U16.to_string(), "u16");
    assert_eq!(RangeType::F64.name(), "f64");
    assert!(RangeType::F32.should_have_fallback());
    assert!(!RangeType::I64.should_have_fallback());
}

#[test]
fn type_or_range_from_str() {
    assert!(matches!(
        TypeOrRange::<()>::from_str(" u32 "),
        Some(TypeOrRange::Type(RangeType::U32))
    ));
    assert!(matches!(
        TypeOrRange::<()>::from_str("f32"),
        Some(TypeOrRange::Type(RangeType::F32))
    ));
    assert!(TypeOrRange::<()>::from_str("i128").is_none());
    assert!(TypeOrRange::<()>::from_str("0..2").is_none());
}

#[test]
fn number_conversions() {
    assert_eq!(<u8 as RangeNumber>::from_i64(-1), None);
    assert_eq!(<u8 as RangeNumber>::from_i64(255), Some(255u8));
    assert_eq!(<i8 as RangeNumber>::from_u64(128), None);
    assert_eq!(<i8 as RangeNumber>::from_u64(127), Some(127i8));
    assert_eq!(5i32.range_end_bound(), Some(Bound::Included(4)));
    assert_eq!(i32::MIN.range_end_bound(), None);
    assert_eq!(<u32 as RangeNumber>::range_type(), RangeType::U32);
}

#[test]
fn numbers_become_exact_ranges() {
    assert_eq!(range_from_i64::<i8>(-5).unwrap(), Range::Exact(-5));
    match range_from_i64::<u8>(-5) {
        Err(Error::RangeNumberType { found, expected }) => {
            assert_eq!(found, RangeType::I64);
            assert_eq!(expected, RangeType::U8);
        }
        other => panic!("unexpected {:?}", other),
    }
    assert_eq!(range_from_u64::<u16>(65535).unwrap(), Range::Exact(65535));
    assert!(matches!(
        range_from_u64::<u16>(65536),
        Err(Error::RangeNumberType { found: RangeType::U64, expected: RangeType::U16 })
    ));
}

#[test]
fn sequences_of_ranges() {
    assert_eq!(range_from_sequence::<i32>(vec![]), Range::Fallback);
    assert_eq!(range_from_sequence(vec![Range::Exact(4)]), Range::Exact(4));
    assert_eq!(
        range_from_sequence(vec![Range::Exact(1), Range::Exact(2), Range::Exact(3)]),
        Range::Multiple(vec![Range::Exact(2), Range::Exact(3), Range::Exact(1)])
    );
}

#[test]
fn entry_fields() {
    assert_eq!(field_from_str("count"), Some(RangeField::Range));
    assert_eq!(field_from_str("value"), Some(RangeField::Value));
    assert_eq!(field_from_str("Count"), None);

    let mut f = RangeEntryFields::<i32, &str>::new();
    assert_eq!(f.accept_value("one"), Ok(()));
    assert_eq!(f.accept_range(Range::Exact(1)), Ok(()));
    assert_eq!(f.finish(), Ok((Range::Exact(1), "one")));

    let mut f = RangeEntryFields::<i32, &str>::new();
    assert_eq!(f.accept_value("x"), Ok(()));
    assert_eq!(f.finish(), Ok((Range::Fallback, "x")));

    let f = RangeEntryFields::<i32, &str>::new();
    assert_eq!(f.finish(), Err(FieldError::MissingField("value")));

    let mut f = RangeEntryFields::<i32, &str>::new();
    assert_eq!(f.accept_value("x"), Ok(()));
    assert_eq!(f.accept_value("y"), Err(FieldError::DuplicateField("count")));
    let mut f = RangeEntryFields::<i32, &str>::new();
    assert_eq!(f.accept_range(Range::Exact(1)), Ok(()));
    assert_eq!(
        f.accept_range(Range::Exact(2)),
        Err(FieldError::DuplicateField("count"))
    );
}

#[test]
fn pattern_tokens_of_ranges() {
    let dot_j = PatternToken::Punct { ch: '.', joint: true };
    let dot_a = PatternToken::Punct { ch: '.', joint: false };
    let eq_a = PatternToken::Punct { ch: '=', joint: false };
    let bar = PatternToken::Punct { ch: '|', joint: false };
    assert_eq!(Range::Exact(3i32).pattern_tokens(), vec![PatternToken::Number(3)]);
    assert_eq!(
        Range::<i32>::new("0..6").unwrap().pattern_tokens(),
        vec![PatternToken::Number(0), dot_j, dot_j, eq_a, PatternToken::Number(5)]
    );
    assert_eq!(
        Range::<i32>::new("..").unwrap().pattern_tokens(),
        vec![PatternToken::Underscore]
    );
    assert_eq!(
        Range::<i32>::new("4..").unwrap().pattern_tokens(),
        vec![PatternToken::Number(4), dot_j, dot_a]
    );
    assert_eq!(
        Range::<i32>::Bounds {
            start: None,
            end: Bound::Excluded(2)
        }
        .pattern_tokens(),
        vec![dot_j, dot_a, PatternToken::Number(2)]
    );
    assert_eq!(
        Range::<i32>::new("1 | 2").unwrap().pattern_tokens(),
        vec![PatternToken::Number(1), bar, PatternToken::Number(2)]
    );
    assert_eq!(Range::<i32>::Multiple(vec![]).pattern_tokens(), vec![]);
}

#[test]
fn checks_of_a_plural() {
    let ok = vec![
        (Range::<i32>::new("0").unwrap(), "zero"),
        (Range::<i32>::new("_").unwrap(), "many"),
    ];
    assert_eq!(check_de_inner(&ok), (false, 1, false));
    let early = vec![
        (Range::<i32>::new("_").unwrap(), "many"),
        (Range::<i32>::new("0").unwrap(), "zero"),
    ];
    assert_eq!(check_de_inner(&early), (true, 1, false));
    let hidden = vec![
        (Range::Multiple(vec![Range::Exact(1), Range::Fallback]), "a"),
        (Range::Exact(2), "b"),
    ];
    assert_eq!(check_de_inner(&hidden), (true, 0, false));
    let two = vec![(Range::<u8>::Fallback, 1), (Range::<u8>::Fallback, 2)];
    assert_eq!(check_de_inner(&two), (true, 2, false));

    let ranges = Ranges::I32(early);
    assert_eq!(ranges.check_deserialization(), (true, 1, false));
    assert_eq!(ranges.get_type(), RangeType::I32);
}

#[test]
fn ranges_from_type_and_first_element() {
    assert!(matches!(
        Ranges::<()>::from_type(RangeType::U8),
        Some(Ranges::U8(ref v)) if v.is_empty()
    ));
    assert!(Ranges::<()>::from_type(RangeType::F64).is_none());
    assert!(matches!(
        Ranges::<&str>::from_first(None),
        Err(Error::EmptyRange)
    ));
    assert!(matches!(
        Ranges::<&str>::from_first(Some(TypeOrRange::Type(RangeType::I16))),
        Ok(Some(Ranges::I16(_)))
    ));
    assert!(matches!(
        Ranges::<&str>::from_first(Some(TypeOrRange::Type(RangeType::F32))),
        Ok(None)
    ));
    match Ranges::from_first(Some(TypeOrRange::Range((Range::Exact(1), "one")))) {
        Ok(Some(Ranges::I32(v))) => assert_eq!(v, vec![(Range::Exact(1), "one")]),
        other => panic!("unexpected {:?}", other),
    }
}

#[test]
fn values_visited_in_order() {
    let ranges = Ranges::U8(vec![
        (Range::Exact(0), 10),
        (Range::Exact(1), 20),
        (Range::Fallback, 30),
    ]);
    assert_eq!(ranges.try_for_each_value(|_v: &i32| -> Result<(), i32> { Ok(()) }), Ok(()));
    assert_eq!(
        ranges.try_for_each_value(|v: &i32| if *v >= 20 { Err(*v) } else { Ok(()) }),
        Err(20)
    );
}

#[test]
fn values_changed_in_place() {
    let mut ranges = Ranges::I8(vec![(Range::Exact(1), 1), (Range::Fallback, 2)]);
    let before = ranges.clone();
    assert_eq!(
        ranges.try_for_each_value_mut(|v: &mut i32| -> Result<(), ()> {
            *v *= 10;
            Ok(())
        }),
        Ok(())
    );
    assert_eq!(ranges, Ranges::I8(vec![(Range::Exact(1), 10), (Range::Fallback, 20)]));
    assert_ne!(ranges, before);
    let stopped = ranges.try_for_each_value_mut(|v: &mut i32| {
        if *v > 10 {
            Err(*v)
        } else {
            *v += 1;
            Ok(())
        }
    });
    assert_eq!(stopped, Err(20));
    assert_eq!(ranges, Ranges::I8(vec![(Range::Exact(1), 11), (Range::Fallback, 20)]));
}

#[test]
fn values_folded_in_order() {
    let ranges = Ranges::U32(vec![
        (Range::Exact(0), "a"),
        (Range::Exact(1), "bc"),
        (Range::Fallback, "def"),
    ]);
    assert_eq!(
        ranges.try_fold_values(String::new(), |acc: String, v: &&str| -> Result<String, ()> {
            Ok(acc + v)
        }),
        Ok("abcdef".to_string())
    );
    assert_eq!(
        ranges.try_fold_values(0usize, |n: usize, v: &&str| if v.len() > 2 { Err(n) } else { Ok(n + v.len()) }),
        Err(3)
    );
    assert_eq!(Ranges::<&str>::I8(vec![]).try_fold_values(7, |n: i32, _v: &&str| -> Result<i32, ()> { Ok(n + 1) }), Ok(7));
}

#[test]
fn arms_of_a_plural() {
    let ranges = vec![
        (Range::<i32>::new("0").unwrap(), "zero"),
        (Range::<i32>::new("1..3 | 7").unwrap(), "few"),
        (Range::<i32>::new("_").unwrap(), "many"),
    ];
    let arms = leptos_i18n_ranges::pattern::match_arms(&ranges);
    assert_eq!(arms.len(), 3);
    assert_eq!(arms[0], vec![PatternToken::Number(0)]);
    assert_eq!(arms[1], ranges[1].0.pattern_tokens());
    assert_eq!(arms[2], vec![PatternToken::Underscore]);
}

#[test]
fn empty_ranges_of_every_integer_type() {
    for t in [
        RangeType::I8,
        RangeType::I16,
        RangeType::I32,
        RangeType::I64,
        RangeType::U8,
        RangeType::U16,
        RangeType::U32,
        RangeType::U64,
    ] {
        let r = Ranges::<()>::from_type(t).unwrap();
        assert_eq!(r.get_type(), t);
        assert_eq!(r.check_deserialization(), (false, 0, false));
    }
    assert_eq!(Ranges::<()>::from_type(RangeType::U8), Some(Ranges::U8(vec![])));
}

#[test]
fn check_of_float_plurals_by_shape() {
    let ranges: Vec<(Range<f64>, &str)> = vec![
        (Range::Exact(0.5), "half"),
        (Range::Bounds { start: Some(1.0), end: Bound::Excluded(2.0) }, "one"),
    ];
    assert_eq!(check_ranges(&ranges, RangeType::F64), (false, 0, true));
    let ranges: Vec<(Range<f32>, u8)> = vec![(Range::Fallback, 1), (Range::Exact(2.0), 2)];
    assert_eq!(check_ranges(&ranges, RangeType::F32), (true, 1, true));
}

#[test]
fn sequences_of_float_ranges() {
    assert_eq!(
        range_from_sequence(vec![Range::Exact(1.5f64), Range::Exact(2.5)]),
        Range::Multiple(vec![Range::Exact(2.5), Range::Exact(1.5)])
    );
    let mut f = RangeEntryFields::<f32, ()>::new();
    assert_eq!(f.accept_value(()), Ok(()));
    assert_eq!(f.finish(), Ok((Range::Fallback, ())));
}

#[test]
fn list_error_is_the_first_refused_alternative_alone() {
    let whole = Range::<i32>::new("5 | 3..1 | x");
    let first_refused = Range::<i32>::new(" 3..1 ");
    assert!(whole.is_err());
    assert_eq!(format!("{:?}", whole), format!("{:?}", first_refused));
}

#[test]
fn pair_values_changed_until_the_first_error() {
    let mut pairs = vec![
        (Range::Exact(1u8), 1),
        (Range::Exact(2u8), 50),
        (Range::Fallback, 3),
    ];
    let r = try_for_each_pair_value_mut(&mut pairs, |v: &mut i32| {
        if *v > 10 {
            *v = 0;
            Err(*v + 7)
        } else {
            *v += 100;
            Ok(())
        }
    });
    assert_eq!(r, Err(7));
    assert_eq!(
        pairs,
        vec![(Range::Exact(1u8), 101), (Range::Exact(2u8), 0), (Range::Fallback, 3)]
    );
    let r = try_for_each_pair_value_mut(&mut pairs, |v: &mut i32| -> Result<(), ()> {
        *v -= 1;
        Ok(())
    });
    assert_eq!(r, Ok(()));
    assert_eq!(
        pairs,
        vec![(Range::Exact(1u8), 100), (Range::Exact(2u8), -1), (Range::Fallback, 2)]
    );
}

#[test]
fn conditions_of_ranges() {
    assert_eq!(condition(&Range::Exact(2.5f64)), Some(Condition::Equals(2.5f64)));
    assert_eq!(
        condition(&Range::Bounds { start: Some(1.0f64), end: Bound::Excluded(3.0) }),
        Some(Condition::Within(Some(1.0f64), Bound::Excluded(3.0)))
    );
    assert_eq!(condition(&Range::<f64>::Fallback), None);
    // a fallback among alternatives adds no test of its own
    let alternatives = Range::Multiple(vec![
        Range::Exact(1i32),
        Range::Fallback,
        Range::Bounds { start: None, end: Bound::Included(-4) },
    ]);
    assert_eq!(
        condition(&alternatives),
        Some(Condition::AnyOf(vec![
            Condition::Equals(1i32),
            Condition::Within(None, Bound::Included(-4)),
        ]))
    );
}

#[test]
fn arm_conditions_follow_the_arms() {
    let arms = vec![
        (Range::Exact(0.5f32), "half"),
        (Range::Bounds { start: Some(1.0f32), end: Bound::Unbounded }, "many"),
        (Range::Fallback, "other"),
    ];
    assert_eq!(
        arm_conditions(&arms),
        vec![
            Some(Condition::Equals(0.5f32)),
            Some(Condition::Within(Some(1.0f32), Bound::Unbounded)),
            None,
        ]
    );
}
