use term_mux::shell_env::build_env_pairs;
use term_mux::shell_env::enhanced_path;
use term_mux::shell_env::homebrew_vars;
use term_mux::shell_env::join_parts;
use term_mux::shell_env::lang_value;
use term_mux::shell_env::select_shell;
use term_mux::shell_env::split_colon;
use term_mux::shell_env::SessionConfig;

#[test]
fn select_shell_prefers_override() {
    assert_eq!(select_shell(&Some("/bin/zsh".to_string())), "/bin/zsh");
}

#[test]
fn select_shell_default_is_bash() {
    assert_eq!(select_shell(&None), "/bin/bash");
}

#[test]
fn lang_inherited_is_kept() {
    assert_eq!(lang_value(&Some("de_DE.UTF-8".to_string())), "de_DE.UTF-8");
}

#[test]
fn lang_defaults_to_utf8_locale() {
    assert_eq!(lang_value(&None), "en_US.UTF-8");
}

#[test]
fn split_keeps_empty_components() {
    let parts = split_colon("a:b::c");
    assert_eq!(parts, vec!["a", "b", "", "c"]);
}

#[test]
fn split_of_empty_is_one_empty_component() {
    assert_eq!(split_colon(""), vec![""]);
}

#[test]
fn join_undoes_split() {
    let path = "/usr/bin:/bin::/sbin:";
    assert_eq!(join_parts(&split_colon(path)), path);
}

#[test]
fn enhanced_path_of_empty_prepends_all_extras() {
    assert_eq!(
        enhanced_path(""),
        "/usr/local/sbin:/usr/local/bin:/opt/homebrew/sbin:/opt/homebrew/bin:"
    );
}

#[test]
fn enhanced_path_skips_components_already_present() {
    assert_eq!(
        enhanced_path("/opt/homebrew/bin:/usr/bin"),
        "/usr/local/sbin:/usr/local/bin:/opt/homebrew/sbin:/opt/homebrew/bin:/usr/bin"
    );
}

#[test]
fn homebrew_vars_absent_when_already_set() {
    assert!(homebrew_vars(true, true).is_empty());
    assert!(homebrew_vars(true, false).is_empty());
}

#[test]
fn homebrew_vars_prefer_existing_root() {
    let vars = homebrew_vars(false, true);
    assert_eq!(
        vars,
        vec![
            ("HOMEBREW_PREFIX".to_string(), "/opt/homebrew".to_string()),
            ("HOMEBREW_CELLAR".to_string(), "/opt/homebrew/Cellar".to_string()),
            ("HOMEBREW_REPOSITORY".to_string(), "/opt/homebrew".to_string()),
            ("INFOPATH".to_string(), "/opt/homebrew/share/info:".to_string()),
        ]
    );
}

#[test]
fn homebrew_vars_fall_back_to_usr_local() {
    let vars = homebrew_vars(false, false);
    assert_eq!(vars[0], ("HOMEBREW_PREFIX".to_string(), "/usr/local".to_string()));
    assert_eq!(vars[1], ("HOMEBREW_CELLAR".to_string(), "/usr/local/Cellar".to_string()));
    assert_eq!(vars[3], ("INFOPATH".to_string(), "/usr/local/share/info:".to_string()));
}

#[test]
fn env_pairs_follow_build_order() {
    let cfg = SessionConfig {
        shell_override: None,
        path: Some("/usr/bin".to_string()),
        home: Some("/home/someone".to_string()),
        user: None,
        lang: None,
        homebrew_prefix_set: false,
        homebrew_root_exists: false,
    };
    let pairs = build_env_pairs(&cfg);
    assert_eq!(
        pairs,
        vec![
            ("TERM".to_string(), "xterm-256color".to_string()),
            ("COLORTERM".to_string(), "truecolor".to_string()),
            ("PATH".to_string(), "/usr/bin".to_string()),
            ("HOME".to_string(), "/home/someone".to_string()),
            ("LANG".to_string(), "en_US.UTF-8".to_string()),
            (
                "PATH".to_string(),
                "/usr/local/sbin:/usr/local/bin:/opt/homebrew/sbin:/opt/homebrew/bin:/usr/bin"
                    .to_string()
            ),
            ("HOMEBREW_PREFIX".to_string(), "/usr/local".to_string()),
            ("HOMEBREW_CELLAR".to_string(), "/usr/local/Cellar".to_string()),
            ("HOMEBREW_REPOSITORY".to_string(), "/usr/local".to_string()),
            ("INFOPATH".to_string(), "/usr/local/share/info:".to_string()),
        ]
    );
}

#[test]
fn env_pairs_without_inherited_variables() {
    let cfg = SessionConfig {
        shell_override: Some("/bin/sh".to_string()),
        path: None,
        home: None,
        user: None,
        lang: Some("C".to_string()),
        homebrew_prefix_set: true,
        homebrew_root_exists: true,
    };
    let pairs = build_env_pairs(&cfg);
    assert_eq!(
        pairs,
        vec![
            ("TERM".to_string(), "xterm-256color".to_string()),
            ("COLORTERM".to_string(), "truecolor".to_string()),
            ("LANG".to_string(), "C".to_string()),
            (
                "PATH".to_string(),
                "/usr/local/sbin:/usr/local/bin:/opt/homebrew/sbin:/opt/homebrew/bin:".to_string()
            ),
        ]
    );
}
