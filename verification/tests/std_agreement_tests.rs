use leptos_i18n_ranges::{Range, RangeNumber, RangeType, TypeOrRange};
use std::fmt::Debug;
use std::str::FromStr;

const TEXTS: &[&str] = &[
    "0", "7", "+7", "-7", "-0", "+0", "+", "-", "", " ", "00012", "1_000", "1 2", "12a",
    "\u{a0}42\u{2003}", "\u{85}-3\u{3000}", "\t\n 9 \r", "\u{200b}5", "٣", "１",
    "127", "128", "-128", "-129", "255", "256", "32767", "32768", "-32768", "65535", "65536",
    "2147483647", "2147483648", "-2147483648", "-2147483649", "4294967295", "4294967296",
    "9223372036854775807", "9223372036854775808", "-9223372036854775808",
    "-9223372036854775809", "18446744073709551615", "18446744073709551616",
    "99999999999999999999999999999999999999999", "-99999999999999999999999999999999999999",
];

fn agree<T: RangeNumber + FromStr + PartialEq + Debug>() {
    for text in TEXTS {
        let ours = Range::<T>::new(text);
        match text.trim().parse::<T>() {
            Ok(v) => assert_eq!(ours.unwrap(), Range::Exact(v), "text {:?}", text),
            Err(_) => assert!(ours.is_err(), "text {:?}", text),
        }
    }
}

#[test]
fn exact_counts_parse_as_std_parses_them() {
    agree::<i8>();
    agree::<i16>();
    agree::<i32>();
    agree::<i64>();
    agree::<u8>();
    agree::<u16>();
    agree::<u32>();
    agree::<u64>();
}

#[test]
fn type_names_trim_as_std_trims() {
    for name in ["i8", "i16", "i32", "i64", "u8", "u16", "u32", "u64", "f32", "f64"] {
        for pad in ["", " ", "\u{a0}", "\u{2028}", "\t"] {
            let text = format!("{pad}{name}{pad}");
            match TypeOrRange::<()>::from_str(&text) {
                Some(TypeOrRange::Type(t)) => assert_eq!(t.name(), text.trim()),
                _ => panic!("{:?} was not read", text),
            }
        }
    }
    assert!(TypeOrRange::<()>::from_str("\u{200b}i8").is_none());
    assert_eq!(RangeType::I8.name(), "i8");
}
