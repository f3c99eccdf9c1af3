use term_mux::errors::TerminalError;
use term_mux::manager::pump_once;
use term_mux::manager::PumpStep;
use term_mux::manager::TerminalState;
use term_mux::pty::wait_for_exit;
use term_mux::shell_env::SessionConfig;

fn plain_config() -> SessionConfig {
    SessionConfig {
        shell_override: Some("/bin/sh".to_string()),
        path: Some("/usr/bin:/bin".to_string()),
        home: None,
        user: None,
        lang: None,
        homebrew_prefix_set: true,
        homebrew_root_exists: false,
    }
}

#[test]
fn create_write_echo_roundtrip() {
    let mut st = TerminalState::new();
    let created = st.create_terminal_session(&plain_config()).expect("session must spawn");
    let id = created.session.id.clone();
    assert_eq!(id.len(), 36);
    assert!(st.list_terminal_sessions().contains(&id));

    let mut reader = created.reader;
    st.write_to_terminal(&id, &"echo marco_polo\n".to_string()).expect("write must reach the shell");

    let mut seen = String::new();
    let mut found = false;
    for _ in 0..200 {
        match pump_once(&id, &mut reader) {
            PumpStep::Emit(out) => {
                assert_eq!(out.session_id, id);
                seen.push_str(&out.data);
                if seen.contains("marco_polo") {
                    found = true;
                    break;
                }
            }
            PumpStep::Stop => break,
        }
    }
    assert!(found, "echoed text must come back as output events");

    st.close_terminal_session(&id);
    assert!(!st.list_terminal_sessions().contains(&id));
    st.close_terminal_session(&id);
    assert!(!st.list_terminal_sessions().contains(&id));
}

#[test]
fn many_sessions_have_distinct_ids_and_close_independently() {
    let mut st = TerminalState::new();
    let mut ids: Vec<String> = Vec::new();
    for _ in 0..5 {
        ids.push(st.create_terminal_session(&plain_config()).expect("session must spawn").session.id);
    }
    for i in 0..ids.len() {
        for j in (i + 1)..ids.len() {
            assert_ne!(ids[i], ids[j]);
        }
    }
    let listed = st.list_terminal_sessions();
    for id in &ids {
        assert!(listed.contains(id));
    }

    st.resize_terminal(&ids[0], 123, 45).expect("resize of a live session must succeed");

    st.close_terminal_session(&ids[2]);
    let listed = st.list_terminal_sessions();
    assert!(!listed.contains(&ids[2]));
    assert!(listed.contains(&ids[0]));
    assert!(listed.contains(&ids[4]));

    for id in &ids {
        st.close_terminal_session(id);
    }
    assert!(st.list_terminal_sessions().is_empty());
}

#[test]
fn exited_shell_is_reaped_exactly_out_of_the_registry() {
    let mut st = TerminalState::new();
    let created = st.create_terminal_session(&plain_config()).expect("session must spawn");
    let id = created.session.id.clone();
    let mut child = created.child;

    st.write_to_terminal(&id, &"exit\n".to_string()).expect("write must reach the shell");
    wait_for_exit(&mut child);

    let ev = st.reap_session(&id);
    assert_eq!(ev.id, id);
    assert!(!st.list_terminal_sessions().contains(&id));

    // reaping after an earlier removal is idempotent
    let ev = st.reap_session(&id);
    assert_eq!(ev.id, id);

    let r = st.write_to_terminal(&id, &"echo too late\n".to_string());
    assert!(matches!(r, Err(TerminalError::SessionNotFound)));
}
