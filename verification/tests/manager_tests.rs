use term_mux::errors::TerminalError;
use term_mux::manager::pump_step;
use term_mux::manager::PumpStep;
use term_mux::manager::TerminalState;
use term_mux::pty::ReadOutcome;

#[test]
fn new_manager_lists_nothing() {
    let st = TerminalState::new();
    assert!(st.list_terminal_sessions().is_empty());
}

#[test]
fn default_manager_lists_nothing() {
    let st = TerminalState::default();
    assert!(st.list_terminal_sessions().is_empty());
}

#[test]
fn write_to_unknown_session_fails_without_effect() {
    let mut st = TerminalState::new();
    let r = st.write_to_terminal(&"no-such-id".to_string(), &"hello".to_string());
    assert!(matches!(r, Err(TerminalError::SessionNotFound)));
    assert!(st.list_terminal_sessions().is_empty());
}

#[test]
fn resize_of_unknown_session_fails() {
    let st = TerminalState::new();
    let r = st.resize_terminal(&"no-such-id".to_string(), 80, 24);
    assert!(matches!(r, Err(TerminalError::SessionNotFound)));
}

#[test]
fn close_of_absent_session_is_a_quiet_no_op() {
    let mut st = TerminalState::new();
    st.close_terminal_session(&"no-such-id".to_string());
    st.close_terminal_session(&"no-such-id".to_string());
    assert!(st.list_terminal_sessions().is_empty());
}

#[test]
fn pump_step_decodes_bytes_lossily() {
    let outcome = ReadOutcome::Data(vec![0xff, 104, 105]);
    let out = match pump_step(&"sid".to_string(), outcome) {
        PumpStep::Emit(out) => out,
        PumpStep::Stop => panic!("data must be emitted"),
    };
    assert_eq!(out.session_id, "sid");
    let expected = format!("{}hi", char::REPLACEMENT_CHARACTER);
    assert_eq!(out.data, expected);
}

#[test]
fn pump_step_stops_on_eof_and_failure() {
    assert!(matches!(pump_step(&"sid".to_string(), ReadOutcome::Eof), PumpStep::Stop));
    assert!(matches!(pump_step(&"sid".to_string(), ReadOutcome::Failed), PumpStep::Stop));
}
