use ty_resolver::termination::{exit_status, panic_message, stream_error, PanicPayload};

#[test]
fn platform_closed_pipe_errors_are_normal_termination() {
    for message in [
        "failed printing to stdout: Broken pipe (os error 32)",
        "failed printing to stdout: The pipe has been ended. (os error 109)",
        "failed printing to stdout: The pipe is being closed. (os error 232)",
    ] {
        let payload = message.to_owned();
        assert_eq!(
            stream_error(&PanicPayload::Formatted(&payload)),
            Some(true),
            "{message}"
        );
    }
}

#[test]
fn closed_stderr_pipe_errors_are_normal_termination() {
    let message = "failed printing to stderr: Broken pipe (os error 32)".to_owned();
    assert_eq!(
        stream_error(&PanicPayload::Formatted(&message)),
        Some(true)
    );
}

#[test]
fn other_stdout_errors_remain_operational_failures() {
    let message = "failed printing to stdout: No space left on device (os error 28)".to_owned();
    assert_eq!(
        stream_error(&PanicPayload::Formatted(&message)),
        Some(false)
    );
}

#[test]
fn literal_messages_count_like_formatted_ones() {
    let payload = PanicPayload::Literal("failed printing to stdout: Broken pipe (os error 32)");
    assert_eq!(stream_error(&payload), Some(true));
}

#[test]
fn other_panics_are_no_stream_errors() {
    assert_eq!(stream_error(&PanicPayload::Literal("index out of bounds")), None);
    assert_eq!(stream_error(&PanicPayload::Literal("Broken pipe")), None);
    assert_eq!(stream_error(&PanicPayload::Literal("")), None);
    assert_eq!(stream_error(&PanicPayload::Other), None);
}

#[test]
fn messages_are_taken_from_both_kinds_of_text() {
    let formatted = "two".to_owned();
    assert_eq!(panic_message(&PanicPayload::Literal("one")), Some("one"));
    assert_eq!(panic_message(&PanicPayload::Formatted(&formatted)), Some("two"));
    assert_eq!(panic_message(&PanicPayload::Other), None);
}

#[test]
fn print_failures_decide_the_exit_status() {
    let closed = PanicPayload::Literal("failed printing to stderr: x (os error 232)");
    let full = PanicPayload::Literal("failed printing to stderr: No space left on device");
    assert_eq!(exit_status(&closed), Some(0));
    assert_eq!(exit_status(&full), Some(2));
    assert_eq!(exit_status(&PanicPayload::Literal("boom")), None);
    assert_eq!(exit_status(&PanicPayload::Other), None);
}
