//! Value encodings: numbers, vectors, colors and constants.
use kirie_scene::json::Json;
use kirie_scene::literal::{float_prefix, int_prefix, has_int, int_or_zero, is_infinity_token, leading_literal, strtoi};
use kirie_scene::number::{double_to_i64, single_to_i64, Scalar};
use kirie_scene::value::{
    coerce_bool, coerce_f64, coerce_i64, coerce_u32, parse_color, parse_vec, parse_vec2, parse_vec3,
    strtof, ColorError, DynamicValue, VecError,
};

/// The number that a scalar determines.
fn single(s: &Scalar) -> f32 {
    match s {
        Scalar::Single(bits) => f32::from_bits(*bits),
        Scalar::Double(bits) => f64::from_bits(*bits) as f32,
        Scalar::Text(t) => {
            if t.is_empty() {
                0.0
            } else {
                t.parse::<f32>().unwrap()
            }
        }
        Scalar::WideText(t) => {
            if t.is_empty() {
                0.0
            } else {
                t.parse::<f64>().unwrap() as f32
            }
        }
        Scalar::Whole(i) => *i as f32,
        Scalar::WideWhole(i) => *i as f64 as f32,
        Scalar::Channel(i) => *i as f32 / 255.0,
    }
}

fn singles(v: &[Scalar]) -> Vec<f32> {
    v.iter().map(single).collect()
}

fn json(text: &str) -> Json {
    Json::from_slice(text.as_bytes()).unwrap()
}

fn color(s: &str, force_float: bool) -> Vec<f32> {
    singles(&parse_color(s, Scalar::Whole(1), force_float).unwrap())
}

#[test]
fn vec_parsing_strict_count() {
    assert_eq!(singles(&parse_vec::<3>("1 2 3").unwrap()), [1.0, 2.0, 3.0]);
    assert_eq!(
        singles(&parse_vec::<2>("0.85968 0.84985").unwrap()),
        [0.85968, 0.84985]
    );
    assert!(parse_vec::<3>("1 2").is_err());
    assert!(parse_vec::<3>("1 2 3 4").is_err());
}

#[test]
fn color_float_vs_int_path() {
    assert_eq!(color("0.3 0.3 0.3", false), [0.3, 0.3, 0.3, 1.0]);
    assert_eq!(color("255 128 0", false), [1.0, 128.0 / 255.0, 0.0, 1.0]);
    assert_eq!(color("1 1 1", false)[0], 1.0 / 255.0);
    assert_eq!(color("1 1 1", true), [1.0, 1.0, 1.0, 1.0]);
    assert_eq!(color("0.1 0.2 0.3 0.4", false), [0.1, 0.2, 0.3, 0.4]);
}

#[test]
fn color_hex_forms() {
    assert_eq!(color("#fff", false), [1.0, 1.0, 1.0, 1.0]);
    assert_eq!(color("#ff0000", false), [1.0, 0.0, 0.0, 1.0]);
    assert!(parse_color("#zz", Scalar::Whole(1), false).is_err());
}

#[test]
fn dynamic_value_decode() {
    match DynamicValue::decode(&json("\"1.5\""), false) {
        DynamicValue::Float(f) => assert_eq!(single(&f), 1.5),
        other => panic!("{:?}", other),
    }
    match DynamicValue::decode(&json("\"hello\""), false) {
        DynamicValue::Str(s) => assert_eq!(s, "hello"),
        other => panic!("{:?}", other),
    }
    match DynamicValue::decode(&json("\"1 2 3\""), false) {
        DynamicValue::Vec(v) => assert_eq!(singles(&v), [1.0, 2.0, 3.0]),
        other => panic!("{:?}", other),
    }
    match DynamicValue::decode(&json("\"0.5 0.5 0.5\""), true) {
        DynamicValue::Color(c) => assert_eq!(singles(&c), [0.5, 0.5, 0.5, 1.0]),
        other => panic!("{:?}", other),
    }
    assert!(matches!(
        DynamicValue::decode(&json("true"), false),
        DynamicValue::Bool(true)
    ));
    assert!(matches!(
        DynamicValue::decode(&json("7"), false),
        DynamicValue::Int(7)
    ));
}

#[test]
fn wrong_counts_name_both_counts() {
    let e = parse_vec::<3>("1 2").unwrap_err();
    assert_eq!(
        e,
        VecError::ComponentCount {
            expected: 3,
            found: 2
        }
    );
    assert_eq!(e.message(), "vector has 2 components (expected 3)");
    assert!(parse_vec2("1 2").is_some());
    assert!(parse_vec2("1 2 3").is_none());
    assert_eq!(singles(&parse_vec3("4 5 6").unwrap()), [4.0, 5.0, 6.0]);
    assert!(parse_vec3("4 5").is_none());
}

#[test]
fn color_errors_carry_their_input() {
    let error = |s: &str| parse_color(s, Scalar::Whole(1), false).unwrap_err();
    assert_eq!(error("#zz"), ColorError::HexLength { len: 2 });
    assert_eq!(
        error("#ggg"),
        ColorError::HexDigits {
            digits: "ggg".to_owned()
        }
    );
    assert_eq!(error("1 2"), ColorError::ComponentCount { count: 2 });
}

#[test]
fn floats_are_read_up_to_what_follows() {
    assert_eq!(float_prefix("1.5px"), "1.5");
    assert_eq!(float_prefix("-2e3rest"), "-2e3");
    assert_eq!(float_prefix("2e+"), "2");
    assert_eq!(float_prefix("abc"), "");
    assert_eq!(leading_literal("  1.5px"), "1.5");
    assert_eq!(single(&strtof("  -0.25 tail")), -0.25);
    assert_eq!(single(&strtof("nothing")), 0.0);
    assert!(is_infinity_token("inf"));
    assert!(!is_infinity_token("1e99"));
}

#[test]
fn integers_are_read_up_to_what_follows() {
    assert_eq!(int_prefix("-12.7"), "-12");
    assert_eq!(strtoi("42abc"), 42);
    assert_eq!(strtoi("  -7"), -7);
    assert_eq!(strtoi("x"), 0);
}

#[test]
fn doubles_are_cut_towards_zero() {
    assert_eq!(double_to_i64((2.9f64).to_bits()), 2);
    assert_eq!(double_to_i64((-2.9f64).to_bits()), -2);
    assert_eq!(double_to_i64(f64::NAN.to_bits()), 0);
    assert_eq!(double_to_i64(f64::INFINITY.to_bits()), i64::MAX);
    assert_eq!(double_to_i64((-1e300f64).to_bits()), i64::MIN);
    assert_eq!(double_to_i64((9007199254740993.0f64).to_bits()), 9007199254740992);
    assert_eq!(single_to_i64((2.5f32).to_bits()), 2);
    assert_eq!(single_to_i64((-0.75f32).to_bits()), 0);
    assert_eq!(single_to_i64(f32::NEG_INFINITY.to_bits()), i64::MIN);
}

#[test]
fn json_scalars_are_coerced() {
    assert_eq!(coerce_bool(&json("true")), Some(true));
    assert_eq!(coerce_bool(&json("0")), Some(false));
    assert_eq!(coerce_bool(&json("[1]")), None);
    assert_eq!(coerce_i64(&json("2.9")), Some(2));
    assert_eq!(coerce_i64(&json("-3")), Some(-3));
    assert_eq!(coerce_i64(&json("null")), None);
    assert_eq!(coerce_u32(&json("12")), Some(12));
    assert_eq!(single(&coerce_f64(&json("0.5")).unwrap()), 0.5);
    assert!(coerce_f64(&json("{}")).is_none());
}

#[test]
fn constants_read_as_numbers_and_flags() {
    let five = DynamicValue::decode(&json("5"), false);
    assert_eq!(single(&five.as_f32()), 5.0);
    let yes = DynamicValue::decode(&json("true"), false);
    assert_eq!(single(&yes.as_f32()), 1.0);
    assert!(yes.as_bool(false));
    let vector = DynamicValue::decode(&json("\"3 4\""), false);
    assert_eq!(single(&vector.as_f32()), 3.0);
    assert_eq!(
        DynamicValue::decode(&json("\"word\""), false).as_string(&vec![]),
        "word"
    );
}

#[test]
fn integers_are_brought_into_range() {
    assert_eq!(strtoi("99999999999999999999"), i64::MAX);
    assert_eq!(strtoi(" -99999999999999999999x"), i64::MIN);
    assert_eq!(strtoi("9223372036854775807"), i64::MAX);
    assert_eq!(strtoi("9223372036854775808"), i64::MAX);
    assert_eq!(strtoi("-9223372036854775808"), i64::MIN);
    assert_eq!(strtoi("+12 "), 12);
    assert_eq!(strtoi("abc"), 0);
    assert_eq!(int_or_zero("99999999999999999999"), 0);
    assert_eq!(int_or_zero("-9223372036854775808"), i64::MIN);
    assert_eq!(coerce_i64(&json("\"99999999999999999999\"")), Some(0));
    let c = parse_color("99999999999999999999 0 0", Scalar::Whole(1), false).unwrap();
    assert!(matches!(c[0], Scalar::Channel(i64::MAX)));
    assert!(has_int(" -3 apples") && !has_int("- 3") && !has_int(""));
}

#[test]
fn a_hex_color_has_no_sign() {
    for text in ["+fffff", "+fffffff", "+ff", "-fffff"] {
        let error = parse_color(&format!("#{}", text), Scalar::Whole(1), false).unwrap_err();
        assert_eq!(
            error,
            ColorError::HexDigits {
                digits: text.to_owned()
            }
        );
    }
}

#[test]
fn the_text_of_a_vector_decodes_to_its_numbers() {
    for numbers in [vec![1.5f32, -2.0], vec![0.1, 1e-7, 3e10], vec![0.0, 1.0, 0.25, f32::MAX]] {
        let printed: Vec<String> = numbers.iter().map(|n| n.to_string()).collect();
        let vector = DynamicValue::Vec(printed.iter().map(|t| Scalar::Text(t.clone())).collect());
        let text = vector.as_string(&printed);
        match DynamicValue::decode(&Json::String(text), false) {
            DynamicValue::Vec(v) => assert_eq!(singles(&v), numbers),
            other => panic!("{:?}", other),
        }
    }
}
