use slug::error::{ExecutionError, ParseTextError, RuntimeError};
use std::io;

#[test]
fn runtime_errors_are_worded_for_a_reader() {
    assert_eq!(
        RuntimeError::UnderRead(3).to_string(),
        "Attempted to read from the stack when it is empty, occured at token 3"
    );
    assert_eq!(
        RuntimeError::BeforeProgramRead.to_string(),
        "Moved the execution pointer before the start of the program"
    );
    assert_eq!(
        RuntimeError::AfterProgramRead.to_string(),
        "Moved the execution pointer past the end of the program"
    );
    assert_eq!(
        RuntimeError::TokenLimitHit(1001).to_string(),
        "Exceeded the given token limit, occured at token 1001"
    );
    assert_eq!(
        RuntimeError::StackLimitHit(0).to_string(),
        "Exceeded the given stack size limit, occured at token 0"
    );
    assert_eq!(
        RuntimeError::NoOut.to_string(),
        "Exited without a value on the stack to return"
    );
    assert_eq!(RuntimeError::NoTokens.to_string(), "There are no tokens in the input");
    assert_eq!(
        RuntimeError::DivideByZero(12).to_string(),
        "Attempted to divide by zero, occured at token 12"
    );
}

#[test]
fn runtime_errors_word_any_position() {
    assert_eq!(
        RuntimeError::TokenLimitHit(-7).to_string(),
        "Exceeded the given token limit, occured at token -7"
    );
    assert_eq!(
        RuntimeError::StackLimitHit(i64::MIN).to_string(),
        "Exceeded the given stack size limit, occured at token -9223372036854775808"
    );
    assert_eq!(
        RuntimeError::UnderRead(i64::MAX).to_string(),
        "Attempted to read from the stack when it is empty, occured at token 9223372036854775807"
    );
}

#[test]
fn runtime_errors_compare_by_kind_and_position() {
    assert_eq!(RuntimeError::UnderRead(1), RuntimeError::UnderRead(1));
    assert_ne!(RuntimeError::UnderRead(1), RuntimeError::UnderRead(2));
    assert_ne!(RuntimeError::UnderRead(1), RuntimeError::DivideByZero(1));
    assert_ne!(RuntimeError::TokenLimitHit(1), RuntimeError::StackLimitHit(1));
    assert_ne!(RuntimeError::NoOut, RuntimeError::NoTokens);
    assert_ne!(RuntimeError::BeforeProgramRead, RuntimeError::AfterProgramRead);
}

#[test]
fn every_error_becomes_an_execution_error() {
    let e = ExecutionError::from(ParseTextError { idx: 4 });
    assert!(matches!(e, ExecutionError::ParseTextError(ParseTextError { idx: 4 })));

    let e = ExecutionError::from(RuntimeError::TokenLimitHit(9));
    assert!(matches!(e, ExecutionError::RuntimeError(RuntimeError::TokenLimitHit(9))));

    let e: ExecutionError = io::Error::new(io::ErrorKind::NotFound, "no such program").into();
    match e {
        ExecutionError::IoError(inner) => {
            assert_eq!(inner.kind(), io::ErrorKind::NotFound);
            assert_eq!(inner.to_string(), "no such program");
        }
        other => panic!("{other:?}"),
    }
}

#[test]
fn the_question_mark_converts_errors() {
    fn parse() -> Result<(), ExecutionError> {
        Err(ParseTextError { idx: 2 })?;
        Ok(())
    }
    fn execute() -> Result<(), ExecutionError> {
        Err(RuntimeError::NoOut)?;
        Ok(())
    }
    assert!(matches!(parse(), Err(ExecutionError::ParseTextError(ParseTextError { idx: 2 }))));
    assert!(matches!(execute(), Err(ExecutionError::RuntimeError(RuntimeError::NoOut))));
}
