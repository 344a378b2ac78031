use config_lint::valid::Valid;

#[test]
fn succeed_holds_the_value() {
    let v = Valid::succeed(7u32);
    assert!(v.is_succeed());
    assert!(!v.is_fail());
    assert_eq!(v.to_result(), Ok(7));
}

#[test]
fn fail_holds_the_diagnostic() {
    let v: Valid<u32> = Valid::fail("bad name".to_string());
    assert!(v.is_fail());
    assert!(!v.is_succeed());
    assert_eq!(v.to_result(), Err("bad name".to_string()));
}

#[test]
fn map_transforms_a_success() {
    let v = Valid::succeed(20u32).map(|x| x + 1);
    assert_eq!(v.to_result(), Ok(21));
}

#[test]
fn map_keeps_a_failure() {
    let v: Valid<u32> = Valid::fail("first".to_string());
    let mut called = false;
    let mapped = v.map(|x| {
        called = true;
        x + 1
    });
    assert_eq!(mapped.to_result(), Err("first".to_string()));
    assert!(!called);
}

#[test]
fn and_then_runs_the_second_validation() {
    let v = Valid::succeed(20u32).and_then(|x| Valid::succeed(x * 2));
    assert_eq!(v.to_result(), Ok(40));
}

#[test]
fn and_then_gives_the_failure_of_the_second() {
    let v: Valid<u32> = Valid::succeed(20u32).and_then(|_| Valid::fail("second".to_string()));
    assert_eq!(v.to_result(), Err("second".to_string()));
}

#[test]
fn and_then_stops_at_the_first_failure() {
    let first: Valid<u32> = Valid::fail("first".to_string());
    let mut called = false;
    let v: Valid<u32> = first.and_then(|x| {
        called = true;
        Valid::succeed(x)
    });
    assert_eq!(v.to_result(), Err("first".to_string()));
    assert!(!called);
}

#[test]
fn to_result_keeps_every_line_of_a_joined_diagnostic() {
    let v: Valid<u32> = Valid::fail("one\ntwo\nthree".to_string());
    assert_eq!(v.to_result(), Err("one\ntwo\nthree".to_string()));
}
