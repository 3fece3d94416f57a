use jybot_rs::paths::{binary, env_file, home, join, log_file, paper_trades, pid_file, place_order_script};

#[test]
fn home_prefers_jybot_home() {
    let h = home(Some("/data/bot".to_string()), Some("/home/u".to_string()), None, "/w".to_string());
    assert_eq!(h, "/data/bot");
}

#[test]
fn home_ignores_blank_jybot_home() {
    let h = home(Some("   ".to_string()), Some("/home/u".to_string()), None, "/w".to_string());
    assert_eq!(h, "/home/u/.jybot");
}

#[test]
fn home_keeps_jybot_home_untrimmed() {
    let h = home(Some(" /x ".to_string()), None, None, "/w".to_string());
    assert_eq!(h, " /x ");
}

#[test]
fn home_falls_back_to_userprofile_then_dot() {
    assert_eq!(home(None, None, Some("C:/Users/a".to_string()), "/w".to_string()), "C:/Users/a/.jybot");
    assert_eq!(home(None, None, None, "/srv/run".to_string()), "/srv/run/.jybot");
}

#[test]
fn join_adds_separator_only_when_needed() {
    assert_eq!(join("/a", "b"), "/a/b");
    assert_eq!(join("/a/", "b"), "/a/b");
    assert_eq!(join("", "b"), "b");
}

#[test]
fn data_files_under_home() {
    let h = "/home/u/.jybot";
    assert_eq!(env_file(h), "/home/u/.jybot/.env");
    assert_eq!(pid_file(h), "/home/u/.jybot/jybot.pid");
    assert_eq!(log_file(h), "/home/u/.jybot/logs/service.log");
    assert_eq!(paper_trades(h), "/home/u/.jybot/paper_trades.json");
    assert_eq!(place_order_script(h), "/home/u/.jybot/scripts/place_order.py");
    assert_eq!(binary(h, false), "/home/u/.jybot/bin/jybot-rs");
    assert_eq!(binary(h, true), "/home/u/.jybot/bin/jybot-rs.exe");
}

#[test]
fn law_files_start_with_home() {
    for h in ["/srv/x", "rel/dir/", ""] {
        for p in [env_file(h), pid_file(h), log_file(h), paper_trades(h), place_order_script(h), binary(h, false)] {
            assert!(p.starts_with(h));
        }
    }
}

#[test]
fn law_home_is_absolute_with_nothing_set() {
    let h = home(None, None, None, "/var/lib/bot".to_string());
    assert!(std::path::Path::new(&h).is_absolute());
    assert!(std::path::Path::new(&home(Some("".to_string()), None, None, "/".to_string())).is_absolute());
}
