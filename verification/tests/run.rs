use cflox::run::LoxInterpreter;

#[test]
fn errors_are_recorded_and_formatted() {
    let mut lox = LoxInterpreter::new();
    assert!(!lox.had_error);
    let line = lox.error(12, "oops");
    assert_eq!(line, "[line 12] Error : oops");
    assert!(lox.had_error);
    assert_eq!(lox.report(3, "at 'x'", "bad"), "[line 3] Error at 'x': bad");
}
