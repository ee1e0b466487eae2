use wasm_core::strings::{is_true_text, parse_i32, str_equal, str_less};

#[test]
fn parses_like_std() {
    let inputs = [
        "0", "-0", "+0", "7", "-7", "+7", "2147483647", "-2147483648", "2147483648",
        "-2147483649", "", "-", "+", "12a", " 1", "1 ", "007", "-007", "99999999999999999999",
        "١", "+-1", "--1", "1_000",
    ];
    for s in inputs {
        assert_eq!(parse_i32(s), s.parse::<i32>().ok(), "input {:?}", s);
    }
}

#[test]
fn orders_like_std() {
    let words = ["", "a", "b", "ab", "abc", "B", "north", "south", "true", "false", "é", "z"];
    for a in words {
        for b in words {
            assert_eq!(str_less(a, b), a < b, "{:?} < {:?}", a, b);
        }
    }
}

#[test]
fn recognises_true() {
    assert!(is_true_text("true"));
    assert!(!is_true_text("True"));
    assert!(!is_true_text("true "));
    assert!(!is_true_text("false"));
    assert!(!is_true_text(""));
}

#[test]
fn compares_text() {
    assert!(str_equal("facing", "facing"));
    assert!(!str_equal("facing", "facin"));
    assert!(!str_equal("a", "b"));
}
