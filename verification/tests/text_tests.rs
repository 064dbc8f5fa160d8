use lib::lox::parse_bytes_to_string;
use lib::number::is_float_text;
use lib::text::decimal_text;
use lib::utils::byte_conversion::bytes_to_string;

#[test]
fn decimal_numerals() {
    assert_eq!(decimal_text(0), "0");
    assert_eq!(decimal_text(7), "7");
    assert_eq!(decimal_text(10), "10");
    assert_eq!(decimal_text(1234509), "1234509");
    assert_eq!(decimal_text(usize::MAX), usize::MAX.to_string());
}

fn float_ok(s: &str) -> bool {
    let chars: Vec<char> = s.chars().collect();
    is_float_text(&chars)
}

#[test]
fn float_text_examples() {
    for s in ["1", "1.", ".5", "1.5", "+1", "-0.0", "1e5", "1E+5", "2.5e-3", "inf", "-Infinity", "NaN", "+nan", "007"] {
        assert!(float_ok(s), "{}", s);
    }
    for s in ["", ".", "+", "e5", "1e", "1e+", "1.2.3", "1_0", " 1", "1 ", "infin", "0x10", "--1", ".e1"] {
        assert!(!float_ok(s), "{}", s);
    }
}

#[test]
fn float_text_agrees_with_std() {
    let alphabet = ['0', '1', '.', 'e', 'E', '+', '-', 'i', 'n', 'f', 'a', 'x'];
    let mut cases: Vec<String> = vec![String::new()];
    for _ in 0..4 {
        let mut next = Vec::new();
        for c in &cases {
            for a in alphabet {
                let mut s = c.clone();
                s.push(a);
                next.push(s);
            }
        }
        cases.extend(next.clone());
        cases = cases.into_iter().filter(|s| s.len() <= 4).collect();
        cases.sort();
        cases.dedup();
    }
    for extra in ["infinity", "INFINITY", "-inf", "nan", "1e10", "12.34e-5"] {
        cases.push(extra.to_string());
    }
    for s in cases {
        assert_eq!(float_ok(&s), s.parse::<f64>().is_ok(), "{:?}", s);
    }
}

#[test]
fn bytes_to_text() {
    assert_eq!(bytes_to_string(b"hello"), "hello");
    assert_eq!(bytes_to_string(&[0x68, 0xff, 0x69]), "h\u{fffd}i");
    assert_eq!(parse_bytes_to_string("héllo".as_bytes()), "héllo");
    assert_eq!(parse_bytes_to_string(&[0xc3]), "\u{fffd}");
}
