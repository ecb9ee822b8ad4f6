use prime_time::handle_request;
use prime_time::request::{decode_value, encode_response, respond, RequestNumber};
use prime_time::DecodeError;

fn response(prime: bool) -> String {
    let mut output = if prime {
        r#"{"method":"isPrime","prime":true}"#.to_string()
    } else {
        r#"{"method":"isPrime","prime":false}"#.to_string()
    };
    output.push('\n');
    output
}

#[test]
fn test_handle_request_composite() {
    let input = r#"{ "method": "isPrime", "number": 18 }"#.to_string();
    let mut output = r#"{"method":"isPrime","prime":false}"#.to_string();
    output.push('\n');

    assert_eq!(handle_request(input).unwrap(), output);
}

#[test]
fn test_handle_request_prime() {
    let input = r#"{ "method": "isPrime", "number": 178417 }"#.to_string();
    let mut output = r#"{"method":"isPrime","prime":true}"#.to_string();
    output.push('\n');

    assert_eq!(handle_request(input).unwrap(), output);
}

#[test]
fn test_handle_request_extra_fields() {
    let input = r#"{ "method": "isPrime", "number": 30, "yolo": "swag" }"#.to_string();
    let mut output = r#"{"method":"isPrime","prime":false}"#.to_string();
    output.push('\n');

    assert_eq!(handle_request(input).unwrap(), output);
}

#[test]
fn test_handle_request_bigint() {
    let input = r#"{ "method": "isPrime", "number": 529830422160613455916930483453466154480529308265681626708 }"#.to_string();
    let mut output = r#"{"method":"isPrime","prime":false}"#.to_string();
    output.push('\n');

    assert_eq!(handle_request(input).unwrap(), output);
}

#[test]
fn test_handle_request_float() {
    let input = r#"{ "method": "isPrime", "number": 1.234 }"#.to_string();
    let mut output = r#"{"method":"isPrime","prime":false}"#.to_string();
    output.push('\n');

    assert_eq!(handle_request(input).unwrap(), output);
}

#[test]
fn test_handle_request_string() {
    let input = r#"{ "method": "isPrime", "number": "6017832" }"#.to_string();

    assert!(handle_request(input).is_err());
}

#[test]
fn compact_scenarios() {
    let cases = [
        (r#"{"method":"isPrime","number":30,"yolo":"swag"}"#, false),
        (r#"{"method":"isPrime","number":178417}"#, true),
        (r#"{"method":"isPrime","number":1.234}"#, false),
        (
            r#"{"method":"isPrime","number":529830422160613455916930483453466154480529308265681626708}"#,
            false,
        ),
    ];
    for (input, prime) in cases {
        assert_eq!(handle_request(input.to_string()).unwrap(), response(prime));
    }
    assert_eq!(
        handle_request(r#"{"method":"isPrime","number":"6017832"}"#.to_string()),
        Err(DecodeError::BadNumber)
    );
}

#[test]
fn small_numbers() {
    let expected = [
        (0, false),
        (1, false),
        (2, true),
        (3, true),
        (4, false),
        (9, false),
        (25, false),
        (97, true),
        (7919, true),
        (7917, false),
    ];
    for (n, prime) in expected {
        let input = format!(r#"{{"method":"isPrime","number":{}}}"#, n);
        assert_eq!(handle_request(input).unwrap(), response(prime), "number {}", n);
    }
}

#[test]
fn near_u64_limit() {
    // 18446744073709551557 is the largest prime below 2^64
    let prime = r#"{"method":"isPrime","number":18446744073709551557}"#;
    assert_eq!(handle_request(prime.to_string()).unwrap(), response(true));
    let composite = r#"{"method":"isPrime","number":18446744073709551615}"#;
    assert_eq!(handle_request(composite.to_string()).unwrap(), response(false));
}

#[test]
fn huge_prime_is_found_prime() {
    // 2^89 - 1, a Mersenne prime
    let input = r#"{"method":"isPrime","number":618970019642690137449562111}"#;
    assert_eq!(handle_request(input.to_string()).unwrap(), response(true));
}

#[test]
fn huge_even_is_not_prime() {
    let input = r#"{"method":"isPrime","number":100000000000000000000000000000000000000000000}"#;
    assert_eq!(handle_request(input.to_string()).unwrap(), response(false));
}

#[test]
fn negative_numbers_are_not_prime() {
    for n in ["-1", "-2", "-7", "-178417", "-0"] {
        let input = format!(r#"{{"method":"isPrime","number":{}}}"#, n);
        assert_eq!(handle_request(input).unwrap(), response(false), "number {}", n);
    }
}

#[test]
fn integral_floats_are_not_prime() {
    for n in ["30.0", "7.0", "2.0", "1e5", "7E0", "-3.5"] {
        let input = format!(r#"{{"method":"isPrime","number":{}}}"#, n);
        assert_eq!(handle_request(input).unwrap(), response(false), "number {}", n);
    }
}

#[test]
fn float_out_of_range_is_rejected() {
    let input = r#"{"method":"isPrime","number":1e400}"#;
    assert_eq!(handle_request(input.to_string()), Err(DecodeError::BadNumber));
}

#[test]
fn number_of_wrong_type_is_rejected() {
    for n in [r#""7""#, "true", "false", "null", "[7]", "{}"] {
        let input = format!(r#"{{"method":"isPrime","number":{}}}"#, n);
        assert_eq!(handle_request(input), Err(DecodeError::BadNumber), "number {}", n);
    }
    let missing = r#"{"method":"isPrime"}"#;
    assert_eq!(handle_request(missing.to_string()), Err(DecodeError::BadNumber));
}

#[test]
fn method_must_be_a_string() {
    let missing = r#"{"number":7}"#;
    assert_eq!(handle_request(missing.to_string()), Err(DecodeError::BadMethod));
    let wrong = r#"{"method":7,"number":7}"#;
    assert_eq!(handle_request(wrong.to_string()), Err(DecodeError::BadMethod));
}

#[test]
fn malformed_lines_are_rejected() {
    for line in ["", "{", "not json", "[1,2]", "7", r#""isPrime""#, r#"{"method":"isPrime","number":7}}"#] {
        assert_eq!(handle_request(line.to_string()), Err(DecodeError::Malformed), "line {}", line);
    }
}

#[test]
fn method_is_echoed_verbatim() {
    let input = r#"{"method":"anything","number":5}"#;
    assert_eq!(
        handle_request(input.to_string()).unwrap(),
        "{\"method\":\"anything\",\"prime\":true}\n"
    );
}

#[test]
fn line_terminators_are_tolerated() {
    for line in [
        "{\"method\":\"isPrime\",\"number\":7}\n",
        "{\"method\":\"isPrime\",\"number\":7}\r\n",
        "  {\"method\":\"isPrime\",\"number\":7}  ",
    ] {
        assert_eq!(respond(line.as_bytes()).unwrap(), response(true));
    }
}

#[test]
fn same_line_twice_same_reply() {
    let line = br#"{"method":"isPrime","number":178417,"extra":[1,2]}"#;
    assert_eq!(respond(line), respond(line));
    let bad = br#"{"method":"isPrime"}"#;
    assert_eq!(respond(bad), respond(bad));
}

#[test]
fn encoding_escapes_method() {
    let out = encode_response("a\"b\\c\n", false);
    assert_eq!(out, "{\"method\":\"a\\\"b\\\\c\\n\",\"prime\":false}\n");
}

#[test]
fn encoding_round_trips() {
    for (method, prime) in [("isPrime", true), ("isPrime", false), ("we\"ird\u{e9}", true), ("", false)] {
        let line = encode_response(method, prime);
        assert!(line.ends_with('\n'));
        let value: serde_json::Value = serde_json::from_str(line.trim_end()).unwrap();
        assert_eq!(value.as_object().unwrap().len(), 2);
        assert_eq!(value.get("method").unwrap().as_str().unwrap(), method);
        assert_eq!(value.get("prime").unwrap().as_bool().unwrap(), prime);
    }
}

#[test]
fn decoding_keeps_the_literal() {
    let value: serde_json::Value =
        serde_json::from_str(r#"{"method":"m","number":12.50,"x":null}"#).unwrap();
    let request = decode_value(&value).unwrap();
    assert_eq!(request.method, "m");
    match request.number {
        RequestNumber::Float(text) => assert_eq!(text, "12.50"),
        RequestNumber::Integer(_) => panic!("a float literal read as an integer"),
    }
    let value: serde_json::Value = serde_json::from_str(r#"{"method":"m","number":-12}"#).unwrap();
    let request = decode_value(&value).unwrap();
    assert!(!request.is_prime());
    match request.number {
        RequestNumber::Integer(n) => assert_eq!(n.to_string(), "-12"),
        RequestNumber::Float(_) => panic!("an integer literal read as a float"),
    }
}

#[test]
fn later_duplicate_member_wins() {
    let input = r#"{"method":"isPrime","number":"x","number":7}"#;
    assert_eq!(handle_request(input.to_string()).unwrap(), response(true));
}

fn by_trial_division(n: u64) -> bool {
    if n < 2 {
        return false;
    }
    if n % 2 == 0 {
        return n == 2;
    }
    let mut d = 3;
    while d * d <= n {
        if n % d == 0 {
            return false;
        }
        d += 2;
    }
    true
}

#[test]
fn verdict_matches_trial_division() {
    for n in (0..3000u64).chain(1_000_000_000..1_000_000_200u64) {
        let input = format!(r#"{{"method":"isPrime","number":{}}}"#, n);
        assert_eq!(handle_request(input).unwrap(), response(by_trial_division(n)), "number {}", n);
    }
}

#[test]
fn control_characters_are_escaped() {
    let out = encode_response("a\u{1}b\u{8}\t\r\u{c}\u{1f}\u{7f}é", true);
    assert_eq!(out, "{\"method\":\"a\\u0001b\\b\\t\\r\\f\\u001f\u{7f}é\",\"prime\":true}\n");
}

#[test]
fn large_verdicts_repeat() {
    // 2^64 + 1 = 274177 * 67280421310721, and 2^89 - 1, a prime
    for (n, prime) in [("18446744073709551617", false), ("618970019642690137449562111", true)] {
        let input = format!(r#"{{"method":"isPrime","number":{}}}"#, n);
        for _ in 0..20 {
            assert_eq!(handle_request(input.clone()).unwrap(), response(prime), "number {}", n);
        }
    }
}
