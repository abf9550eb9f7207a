use veldspar::float_text::{is_float_text, is_unit_float_text};

fn chars(s: &str) -> Vec<char> {
    s.chars().collect()
}

fn std_accepts(s: &str) -> bool {
    s.parse::<f32>().is_ok()
}

fn std_in_unit(s: &str) -> bool {
    match s.parse::<f32>() {
        Ok(v) => (0.0..=1.0).contains(&v),
        Err(_) => false,
    }
}

const SAMPLES: &[&str] = &[
    "0", "1", "0.25", "2.0", "1.", ".5", "-.5", "+.5", ".", "+", "-", "", " 1", "1 ",
    "1e", "e5", "1e5", "1E+5", "1e-5", "1e+", "1.2.3", "1..2", "12a", "0x10", "inf", "-inf",
    "+Infinity", "INFINITY", "infinit", "NaN", "-nan", "nana", "1_000", "٣", "0.0", "-0",
    "-0.0", "-0e999999999999999999999999999999", "0e-99999999999999999999999999999",
    "1e-99999999999999999999999999999", "1e99999999999999999999999999999", "10e-1",
    "100000000000000000000000000000e-29", "0.999999999999999999999999999",
    "1.000000059604644775390625", "1.0000000596046447753906251",
    "1.00000005960464477539062499999", "1.0000001", "000001.00000000",
    "-7.00649232162408535461864791644958065640130970938257885878534141944895541342930300743319094181060791015625e-46",
    "-7.00649232162408535461864791644958065640130970938257885878534141944895541342930300743319094181060791015626e-46",
    "-7.006e-46", "-7.0065e-46", "-1e-46", "-1e-45", "-0.0000000000000000000000000000000000000000000001",
    "0.00000000000000000000000000000000000000000000000000000000000000000001", "1e0", "1.0e-0", "9e-1",
];

#[test]
fn the_float_texts_accepted_are_those_std_accepts() {
    for s in SAMPLES {
        assert_eq!(is_float_text(&chars(s)), std_accepts(s), "{s:?}");
    }
}

#[test]
fn the_unit_interval_is_decided_as_std_rounds() {
    for s in SAMPLES {
        assert_eq!(is_unit_float_text(&chars(s)), std_in_unit(s), "{s:?}");
    }
}

#[test]
fn the_rounding_edges_of_the_unit_interval() {
    assert!(is_unit_float_text(&chars("1.000000059604644775390625")));
    assert!(!is_unit_float_text(&chars("1.0000000596046447753906251")));
    assert!(is_unit_float_text(&chars(
        "-7.00649232162408535461864791644958065640130970938257885878534141944895541342930300743319094181060791015625e-46"
    )));
    assert!(!is_unit_float_text(&chars("-7.0065e-46")));
    assert!(is_unit_float_text(&chars("-0")));
    assert!(!is_unit_float_text(&chars("-1e-45")));
}
