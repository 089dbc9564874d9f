use cao_lang::collections::key_map::Handle;
use cao_lang::procedures::ExecutionErrorPayload;

#[test]
fn invalid_argument_message() {
    let e = ExecutionErrorPayload::invalid_argument("pog".to_string());
    assert_eq!(e, ExecutionErrorPayload::InvalidArgument { context: Some("pog".to_string()) });
    assert_eq!(e.message(), format!("Got an invalid argument: {}", "pog"));
    let none = ExecutionErrorPayload::InvalidArgument { context: None };
    assert_eq!(none.message(), "Got an invalid argument: ");
}

#[test]
fn messages_hold_their_numbers() {
    assert_eq!(
        ExecutionErrorPayload::ExitCode(-42).message(),
        "Program exited with status code: -42"
    );
    assert_eq!(
        ExecutionErrorPayload::ExitCode(i32::MIN).message(),
        format!("Program exited with status code: {}", i32::MIN)
    );
    assert_eq!(
        ExecutionErrorPayload::InvalidInstruction(200).message(),
        "Got an invalid instruction code 200"
    );
    assert_eq!(
        ExecutionErrorPayload::ProcedureNotFound(Handle(12)).message(),
        "Procedure by the hash Handle(12) could not be found"
    );
}

#[test]
fn a_failed_subtask_tells_its_cause() {
    let e = ExecutionErrorPayload::TaskFailure {
        name: "job".to_string(),
        error: Box::new(ExecutionErrorPayload::VarNotFound("x".to_string())),
    };
    assert_eq!(e.message(), "Subtask [job] failed Variable x was not found!");
    assert_eq!(ExecutionErrorPayload::Timeout.message(), "Program timed out");
}
