use flashield_lite::trace::{format_trace_line, parse_trace, parse_trace_line, Operation, TraceEvent};

#[test]
fn parses_valid_trace_line() {
    let event = parse_trace_line("42,set,synthetic:1,128").unwrap();

    assert_eq!(
        event,
        TraceEvent {
            timestamp: 42,
            op: Operation::Put,
            key: "synthetic:1".to_string(),
            size: 128,
        }
    );
}

#[test]
fn rejects_unknown_operation() {
    let err = parse_trace_line("1,merge,synthetic:1,128").unwrap_err();
    assert!(err.contains("unsupported operation"));
}

#[test]
fn unknown_operation_message_names_it() {
    let err = parse_trace_line("1, merge ,k,1").unwrap_err();
    assert_eq!(err, "unsupported operation: merge");
}

#[test]
fn fields_are_trimmed() {
    let event = parse_trace_line(" 7 ,\tget , key one ,0 ").unwrap();
    assert_eq!(event.timestamp, 7);
    assert_eq!(event.op, Operation::Get);
    assert_eq!(event.key, "key one");
    assert_eq!(event.size, 0);
}

#[test]
fn wrong_field_count_is_rejected() {
    assert_eq!(
        parse_trace_line("1,get,k").unwrap_err(),
        "expected four comma-separated fields"
    );
    assert_eq!(
        parse_trace_line("1,get,k,0,9").unwrap_err(),
        "expected four comma-separated fields"
    );
    assert_eq!(
        parse_trace_line("").unwrap_err(),
        "expected four comma-separated fields"
    );
}

#[test]
fn bad_numbers_are_rejected() {
    assert_eq!(
        parse_trace_line("-1,get,k,0").unwrap_err(),
        "timestamp must be an unsigned integer"
    );
    assert_eq!(
        parse_trace_line("18446744073709551616,get,k,0").unwrap_err(),
        "timestamp must be an unsigned integer"
    );
    assert_eq!(
        parse_trace_line("1,get,k,12x").unwrap_err(),
        "size must be an unsigned integer"
    );
    assert_eq!(
        parse_trace_line("1,get,k,+").unwrap_err(),
        "size must be an unsigned integer"
    );
}

#[test]
fn numbers_accept_a_plus_sign_and_the_maximum() {
    let event = parse_trace_line("+5,delete,k,18446744073709551615").unwrap();
    assert_eq!(event.timestamp, 5);
    assert_eq!(event.op, Operation::Delete);
    assert_eq!(event.size, u64::MAX);
}

#[test]
fn empty_key_is_rejected() {
    assert_eq!(
        parse_trace_line("1,update,  ,3").unwrap_err(),
        "key must not be empty"
    );
}

#[test]
fn operation_names_parse() {
    assert_eq!(Operation::parse("get"), Ok(Operation::Get));
    assert_eq!(Operation::parse("set"), Ok(Operation::Put));
    assert_eq!(Operation::parse("update"), Ok(Operation::Update));
    assert_eq!(Operation::parse("delete"), Ok(Operation::Delete));
    assert_eq!(
        Operation::parse("GET"),
        Err("unsupported operation: GET".to_string())
    );
}

fn lines(text: &[&str]) -> Vec<String> {
    text.iter().map(|l| l.to_string()).collect()
}

#[test]
fn whole_trace_parses_and_skips_blank_lines() {
    let events = parse_trace(&lines(&[
        " timestamp,op,key,size ",
        "1,set,a,10",
        "   ",
        "2,get,a,0",
    ]))
    .unwrap();
    assert_eq!(events.len(), 2);
    assert_eq!(events[1].op, Operation::Get);
}

#[test]
fn trace_errors_name_the_line() {
    assert_eq!(parse_trace(&lines(&[])).unwrap_err(), "trace is empty");
    assert_eq!(
        parse_trace(&lines(&["ts,op,key,size"])).unwrap_err(),
        "trace header must be exactly: timestamp,op,key,size"
    );
    assert_eq!(
        parse_trace(&lines(&[
            "timestamp,op,key,size",
            "1,set,a,10",
            "",
            "x,get,a,0",
        ]))
        .unwrap_err(),
        "line 4: timestamp must be an unsigned integer"
    );
}

#[test]
fn formatted_line_parses_back() {
    let event = TraceEvent {
        timestamp: 18446744073709551615,
        op: Operation::Update,
        key: "synthetic:42".to_string(),
        size: 4096,
    };
    let line = format_trace_line(&event);
    assert_eq!(line, "18446744073709551615,update,synthetic:42,4096");
    assert_eq!(parse_trace_line(&line).unwrap(), event);
}

#[test]
fn operation_names_are_the_trace_words() {
    assert_eq!(Operation::Get.name(), "get");
    assert_eq!(Operation::Put.name(), "set");
    assert_eq!(Operation::Update.name(), "update");
    assert_eq!(Operation::Delete.name(), "delete");
    for op in [Operation::Get, Operation::Put, Operation::Update, Operation::Delete] {
        assert_eq!(Operation::parse(op.name()), Ok(op));
    }
}
