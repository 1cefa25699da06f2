use prime_time::protocol::{continues, process_line, reply_text, session_replies, Reply};

#[test]
fn scenario_prime_request() {
    let r = process_line("{\"method\":\"isPrime\",\"number\":7}");
    assert_eq!(r, Reply::Conforming(true));
    assert_eq!(reply_text(&r), "{\"method\":\"isPrime\",\"prime\":true}\n");
    assert!(continues(&r));
}

#[test]
fn scenario_composite_request() {
    let r = process_line("{\"method\":\"isPrime\",\"number\":8}");
    assert_eq!(r, Reply::Conforming(false));
    assert_eq!(reply_text(&r), "{\"method\":\"isPrime\",\"prime\":false}\n");
    assert!(continues(&r));
}

#[test]
fn scenario_fractional_number_is_not_prime() {
    let r = process_line("{\"method\":\"isPrime\",\"number\":7.5}");
    assert_eq!(r, Reply::Conforming(false));
    assert!(continues(&r));
}

#[test]
fn fractional_numbers_of_any_magnitude_are_not_prime() {
    let huge = "{\"method\":\"isPrime\",\"number\":123456789123456789123456789123456789.5}";
    assert_eq!(process_line(huge), Reply::Conforming(false));
    let tiny = "{\"method\":\"isPrime\",\"number\":0.0000001}";
    assert_eq!(process_line(tiny), Reply::Conforming(false));
    let whole = "{\"method\":\"isPrime\",\"number\":7.0}";
    assert_eq!(process_line(whole), Reply::Conforming(false));
}

#[test]
fn exponent_numbers_are_valid_requests() {
    // 1e2 queries exactly 100; 2E1 queries 20; both composite.
    assert_eq!(process_line("{\"method\":\"isPrime\",\"number\":1e2}"), Reply::Conforming(false));
    assert_eq!(process_line("{\"method\":\"isPrime\",\"number\":2E1}"), Reply::Conforming(false));
    // 2e0 queries exactly 2, which is prime.
    assert_eq!(process_line("{\"method\":\"isPrime\",\"number\":2e0}"), Reply::Conforming(true));
    // 7e+0 queries exactly 7.
    assert_eq!(process_line("{\"method\":\"isPrime\",\"number\":7e+0}"), Reply::Conforming(true));
    // 2e10 is even.
    assert_eq!(process_line("{\"method\":\"isPrime\",\"number\":2e10}"), Reply::Conforming(false));
}

#[test]
fn negative_exponents_follow_the_lossy_policy() {
    // 110e-1 is the integer 11, which is prime.
    assert_eq!(process_line("{\"method\":\"isPrime\",\"number\":110e-1}"), Reply::Conforming(true));
    // 100e-2 is the integer 1, not prime.
    assert_eq!(process_line("{\"method\":\"isPrime\",\"number\":100e-2}"), Reply::Conforming(false));
    // 25e-1 is fractional, so it queries zero.
    assert_eq!(process_line("{\"method\":\"isPrime\",\"number\":25e-1}"), Reply::Conforming(false));
    // -110e-1 is the integer -11, not prime.
    assert_eq!(process_line("{\"method\":\"isPrime\",\"number\":-110e-1}"), Reply::Conforming(false));
    // -25e-1 is fractional.
    assert_eq!(process_line("{\"method\":\"isPrime\",\"number\":-25e-1}"), Reply::Conforming(false));
}

#[test]
fn fractional_exponent_numbers_count_as_zero() {
    assert_eq!(process_line("{\"method\":\"isPrime\",\"number\":1.5e3}"), Reply::Conforming(false));
    assert_eq!(process_line("{\"method\":\"isPrime\",\"number\":-7.5}"), Reply::Conforming(false));
}

#[test]
fn scenario_wrong_method_closes() {
    let r = process_line("{\"method\":\"wrong\",\"number\":7}");
    assert_eq!(r, Reply::Malformed);
    assert_eq!(reply_text(&r), "{}");
    assert!(!continues(&r));
}

#[test]
fn scenario_not_json_closes() {
    let r = process_line("not json at all");
    assert_eq!(r, Reply::Malformed);
    assert_eq!(reply_text(&r), "{}");
    assert!(!continues(&r));
}

#[test]
fn arbitrary_precision_integers_are_exact() {
    // 2^64, far beyond native range, is even and so composite.
    let line = "{\"method\":\"isPrime\",\"number\":18446744073709551616}";
    assert_eq!(process_line(line), Reply::Conforming(false));
}

#[test]
fn malformed_variants_close() {
    assert_eq!(process_line(""), Reply::Malformed);
    assert_eq!(process_line("[1,2,3]"), Reply::Malformed);
    assert_eq!(process_line("\"isPrime\""), Reply::Malformed);
    assert_eq!(process_line("7"), Reply::Malformed);
    assert_eq!(process_line("{}"), Reply::Malformed);
    assert_eq!(process_line("{\"method\":\"isPrime\"}"), Reply::Malformed);
    assert_eq!(process_line("{\"number\":7}"), Reply::Malformed);
    assert_eq!(process_line("{\"method\":7,\"number\":7}"), Reply::Malformed);
    assert_eq!(process_line("{\"method\":\"isPrime\",\"number\":\"7\"}"), Reply::Malformed);
    assert_eq!(process_line("{\"method\":\"isPrime\",\"number\":null}"), Reply::Malformed);
    assert_eq!(process_line("{\"method\":\"isPrime\",\"number\":true}"), Reply::Malformed);
}

#[test]
fn extra_fields_are_ignored() {
    let line = "{\"method\":\"isPrime\",\"number\":7,\"extra\":[1,2]}";
    assert_eq!(process_line(line), Reply::Conforming(true));
}

#[test]
fn trailing_newline_is_accepted() {
    let r = process_line("{\"method\":\"isPrime\",\"number\":13}\n");
    assert_eq!(r, Reply::Conforming(true));
}

#[test]
fn negative_and_small_numbers_are_not_prime() {
    assert_eq!(process_line("{\"method\":\"isPrime\",\"number\":-7}"), Reply::Conforming(false));
    assert_eq!(process_line("{\"method\":\"isPrime\",\"number\":0}"), Reply::Conforming(false));
    assert_eq!(process_line("{\"method\":\"isPrime\",\"number\":1}"), Reply::Conforming(false));
}

#[test]
fn pipelined_requests_are_answered_in_order() {
    let lines = vec![
        String::from("{\"method\":\"isPrime\",\"number\":7}"),
        String::from("{\"method\":\"isPrime\",\"number\":8}"),
    ];
    let replies = session_replies(&lines);
    assert_eq!(replies, vec![Reply::Conforming(true), Reply::Conforming(false)]);
}

#[test]
fn session_stops_at_first_violation() {
    let lines = vec![
        String::from("{\"method\":\"isPrime\",\"number\":2}"),
        String::from("nonsense"),
        String::from("{\"method\":\"isPrime\",\"number\":3}"),
    ];
    let replies = session_replies(&lines);
    assert_eq!(replies, vec![Reply::Conforming(true), Reply::Malformed]);
}
