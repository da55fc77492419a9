use mermaid_canvas::numeric::{float_literal_exec, float_at_most_2_5_exec, float_at_least_2_5_exec, parse_index_exec};

fn chars(s: &str) -> Vec<char> {
    s.chars().collect()
}

const SAMPLES: &[&str] = &[
    "0", "1", "2", "2.5", "2.50", "02.5", "2.4", "2.6", "3", "-1", "-2.5", "+2.5", ".5", "5.", ".", "",
    "+", "-", "e5", "1e", "1e+", "1e-1", "25e-1", "0.25e1", "2.5000000000000002", "2.5000000000000003",
    "2.4999999999999998", "2.4999999999999997", "2.5000000000000002220446049250313080847263336181640625",
    "2.5000000000000002220446049250313080847263336181640626", "2.4999999999999997779553950749686919152736663818359375",
    "2.4999999999999997779553950749686919152736663818359374", "inf", "-inf", "INF", "Infinity", "nan", "NaN",
    "-nan", "1e400", "-1e400", "1e-400", "0e999999999999999999999", "1E2", "1_0", " 1", "1 ", "0x10",
    "00000000002.5", "0.000025e5", "250000e-5", "2.5e0", "infinit", "infinityy", "+inf", "1.2.3",
];

#[test]
fn float_literals_match_std() {
    for s in SAMPLES {
        assert_eq!(float_literal_exec(&chars(s)), s.parse::<f64>().is_ok(), "literal {:?}", s);
    }
}

#[test]
fn float_thresholds_match_std() {
    for s in SAMPLES {
        if let Ok(v) = s.parse::<f64>() {
            assert_eq!(float_at_most_2_5_exec(&chars(s)), v <= 2.5, "at most {:?}", s);
            assert_eq!(float_at_least_2_5_exec(&chars(s)), v >= 2.5, "at least {:?}", s);
        } else {
            assert!(!float_at_most_2_5_exec(&chars(s)));
            assert!(!float_at_least_2_5_exec(&chars(s)));
        }
    }
}

#[test]
fn indices_match_std() {
    for s in ["0", "7", "+7", "-7", "", "+", "18446744073709551615", "18446744073709551616", "1a", " 1"] {
        assert_eq!(parse_index_exec(&chars(s)), s.parse::<usize>().ok(), "index {:?}", s);
    }
}
