use jybot_rs::service::{
    is_running, log_path, mode_of_flag, parse_pidfile, pid_path, pidfile_text, status_from, tail_lines,
    Status,
};

#[test]
fn service_files_in_data_dir() {
    assert_eq!(pid_path("/srv/jy"), "/srv/jy/jybot.pid");
    assert_eq!(log_path("/srv/jy"), "/srv/jy/logs/service.log");
    assert_eq!(pid_path("/srv/jy"), jybot_rs::paths::pid_file("/srv/jy"));
    assert_eq!(log_path("/srv/jy"), jybot_rs::paths::log_file("/srv/jy"));
}

#[test]
fn pidfile_parses_pid_and_mode() {
    assert_eq!(parse_pidfile("1234 live\n"), Some((1234, "live".to_string())));
    assert_eq!(parse_pidfile("  42\tsimulation  "), Some((42, "simulation".to_string())));
}

#[test]
fn pidfile_without_mode_defaults_to_simulation() {
    assert_eq!(parse_pidfile("77\n"), Some((77, "simulation".to_string())));
}

#[test]
fn pidfile_rejects_garbage() {
    assert_eq!(parse_pidfile(""), None);
    assert_eq!(parse_pidfile("abc live"), None);
    assert_eq!(parse_pidfile("-5 live"), None);
    assert_eq!(parse_pidfile("4294967296 live"), None);
}

#[test]
fn pidfile_accepts_plus_sign_and_max() {
    assert_eq!(parse_pidfile("+9 x"), Some((9, "x".to_string())));
    assert_eq!(parse_pidfile("4294967295"), Some((4294967295, "simulation".to_string())));
}

#[test]
fn pidfile_mode_keeps_inner_space() {
    assert_eq!(parse_pidfile("5  a b \n"), Some((5, "a b".to_string())));
}

#[test]
fn pidfile_text_format() {
    assert_eq!(pidfile_text(1234, "--live"), "1234 live\n");
    assert_eq!(pidfile_text(0, "----simulation"), "0 simulation\n");
}

#[test]
fn law_pidfile_round_trip() {
    for (pid, flag) in [(1u32, "--live"), (99999, "--simulation"), (4294967295, "x")] {
        let txt = pidfile_text(pid, flag);
        assert_eq!(parse_pidfile(&txt), Some((pid, mode_of_flag(flag))));
    }
}

#[test]
fn mode_strips_all_leading_dashes() {
    assert_eq!(mode_of_flag("--live"), "live");
    assert_eq!(mode_of_flag("-live"), "-live");
    assert_eq!(mode_of_flag("----x"), "x");
    assert_eq!(mode_of_flag("---x"), "-x");
}

#[test]
fn status_needs_live_process() {
    assert!(is_running(&status_from(Some((5, "live".to_string())), true)));
    assert!(!is_running(&status_from(Some((5, "live".to_string())), false)));
    assert!(!is_running(&status_from(None, true)));
    match status_from(Some((5, "live".to_string())), true) {
        Status::Running { pid, mode } => {
            assert_eq!(pid, 5);
            assert_eq!(mode, "live");
        }
        Status::Stopped => panic!("expected running"),
    }
}

#[test]
fn tail_takes_last_lines() {
    assert_eq!(tail_lines("a\nb\nc\n", 2), "b\nc");
    assert_eq!(tail_lines("a\r\nb", 5), "a\nb");
    assert_eq!(tail_lines("", 3), "");
    assert_eq!(tail_lines("a\nb", 0), "");
}
