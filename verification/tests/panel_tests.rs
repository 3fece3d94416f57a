use jybot_rs::panel::{
    asset_name, backup_path, bool_word, dry_label, env_path, f, groups, is_cancel, is_risky,
    launch_flag, mask, menu_action, param_fields, pick, release_url, repo_slug, service_labels,
    slug_from_remote, strategy_label, toggled_dry_run, validate, Kind, MenuAction, Pick,
};
use jybot_rs::service::Status;
use jybot_rs::panel::{
    edit_confirmed, edit_first, start_confirmed, start_first, update_next, EditStep, StartStep,
    UpdateAction, UpdateStage,
};

#[test]
fn field_constructor() {
    let x = f("K", Kind::Bool, true, "d");
    assert_eq!(x.key, "K");
    assert!(x.secret);
    assert_eq!(x.desc, "d");
}

#[test]
fn param_fields_table() {
    let p = param_fields();
    assert_eq!(p.len(), 15);
    assert_eq!(p[0].key, "STRATEGY");
    match p[0].kind {
        Kind::Enum(c) => assert_eq!(c, &["momentum", "follow"]),
        _ => panic!("STRATEGY is a choice"),
    }
    assert_eq!(p[14].key, "STOP_LOSS_PCT");
}

#[test]
fn groups_table() {
    let g = groups();
    assert_eq!(g.len(), 8);
    assert_eq!(g[0].0, "市场周期");
    assert_eq!(g[4].1.len(), 15);
    let secrets: Vec<&str> = g.iter().flat_map(|(_, fs)| fs.iter()).filter(|x| x.secret).map(|x| x.key).collect();
    assert_eq!(
        secrets,
        vec!["POLYMARKET_PRIVATE_KEY", "POLYMARKET_API_KEY", "POLYMARKET_API_SECRET", "POLYMARKET_API_PASSPHRASE"]
    );
}

#[test]
fn mask_values() {
    assert_eq!(mask(false, "  "), "(未设置)");
    assert_eq!(mask(true, "0x..."), "(未设置)");
    assert_eq!(mask(false, "..."), "(未设置)");
    assert_eq!(mask(true, "12345678"), "****");
    assert_eq!(mask(true, "0xabcdef0123"), "0xab****0123");
    assert_eq!(mask(false, " plain "), "plain");
}

#[test]
fn mask_counts_bytes() {
    assert_eq!(mask(true, "ab黑风"), "****");
    assert_eq!(mask(true, "abcd黑风雷wxyz"), "abcd****wxyz");
}

#[test]
fn validate_bool() {
    assert_eq!(validate(&Kind::Bool, " YES "), Ok("true".to_string()));
    assert_eq!(validate(&Kind::Bool, "Off"), Ok("false".to_string()));
    assert_eq!(validate(&Kind::Bool, "maybe"), Err("请输入 true/false".to_string()));
}

#[test]
fn validate_int() {
    assert_eq!(validate(&Kind::Int, "+007"), Ok("7".to_string()));
    assert_eq!(validate(&Kind::Int, "-0"), Ok("0".to_string()));
    assert_eq!(validate(&Kind::Int, "-9223372036854775808"), Ok("-9223372036854775808".to_string()));
    assert_eq!(validate(&Kind::Int, "9223372036854775808"), Err("请输入整数".to_string()));
    assert_eq!(validate(&Kind::Int, "1.5"), Err("请输入整数".to_string()));
    assert_eq!(validate(&Kind::Int, ""), Err("请输入整数".to_string()));
}

#[test]
fn validate_enum_and_str() {
    let k = Kind::Enum(&["FOK", "FAK", "GTC"]);
    assert_eq!(validate(&k, " FAK "), Ok("FAK".to_string()));
    assert_eq!(validate(&k, "fok"), Err("只能是: FOK, FAK, GTC".to_string()));
    assert_eq!(validate(&Kind::Str, "  a b  "), Ok("a b".to_string()));
}

#[test]
fn bool_words() {
    assert_eq!(bool_word("on"), Some(true));
    assert_eq!(bool_word("n"), Some(false));
    assert_eq!(bool_word("On"), None);
}

#[test]
fn risky_changes() {
    assert!(is_risky("LIVE_TRADING", "true"));
    assert!(is_risky("DRY_RUN", "false"));
    assert!(!is_risky("DRY_RUN", "true"));
    assert!(!is_risky("LIVE_TRADING", "false"));
}

#[test]
fn cancel_answers() {
    assert!(is_cancel(""));
    assert!(is_cancel("0"));
    assert!(!is_cancel("00"));
}

#[test]
fn toggling_dry_run() {
    assert_eq!(toggled_dry_run("false"), "true");
    assert_eq!(toggled_dry_run("no"), "true");
    assert_eq!(toggled_dry_run("true"), "false");
    assert_eq!(toggled_dry_run(""), "false");
    assert_eq!(jybot_rs::panel::toggle_dry_run("FALSE"), "true");
}

#[test]
fn header_labels() {
    assert_eq!(dry_label("FALSE", "True"), "实盘");
    assert_eq!(dry_label("false", "no"), "模拟");
    assert_eq!(strategy_label("Follow"), "顺势(follow)");
    assert_eq!(strategy_label(""), "动量(momentum)");
    let (a, b) = service_labels(&Status::Running { pid: 12, mode: "live".to_string() });
    assert_eq!((a, b.as_str()), ("运行中", "PID 12 / live"));
    let (a, b) = service_labels(&Status::Stopped);
    assert_eq!((a, b.as_str()), ("已停止", ""));
}

#[test]
fn main_menu_answers() {
    assert!(matches!(menu_action("1"), Some(MenuAction::EditConfig)));
    assert!(matches!(menu_action("10"), Some(MenuAction::TuneStrategy)));
    assert!(matches!(menu_action("12"), Some(MenuAction::Update)));
    assert!(matches!(menu_action("q"), Some(MenuAction::Quit)));
    assert!(matches!(menu_action("0"), Some(MenuAction::Quit)));
    assert!(menu_action("13").is_none());
}

#[test]
fn list_picks() {
    assert!(matches!(pick("0", 3), Pick::Back));
    assert!(matches!(pick("", 3), Pick::Back));
    assert!(matches!(pick("3", 3), Pick::Entry(2)));
    assert!(matches!(pick("+1", 3), Pick::Entry(0)));
    assert!(matches!(pick("4", 3), Pick::Again));
    assert!(matches!(pick("x", 3), Pick::Again));
    assert!(matches!(pick("00", 3), Pick::Again));
}

#[test]
fn launch_flags() {
    assert_eq!(launch_flag(true), ("--live", true));
    assert_eq!(launch_flag(false), ("--simulation", false));
}

#[test]
fn backup_names() {
    assert_eq!(backup_path("/h/.env", 1700000000), "/h/.env.backup-1700000000");
}

#[test]
fn slugs() {
    assert_eq!(slug_from_remote("git@github.com:me/bot.git\n"), Some("me/bot".to_string()));
    assert_eq!(slug_from_remote("https://github.com/me/bot.git.git"), Some("me/bot".to_string()));
    assert_eq!(slug_from_remote("https://gitlab.com/me/bot"), None);
    assert_eq!(slug_from_remote("https://github.com/me"), None);
    assert_eq!(repo_slug(None), "leosysd/my-btc-bot-5min");
    assert_eq!(repo_slug(Some("nothing")), "leosysd/my-btc-bot-5min");
    assert_eq!(repo_slug(Some("https://github.com/a/b")), "a/b");
}

#[test]
fn release_assets() {
    assert_eq!(asset_name(false), "jybot-rs-x86_64-linux");
    assert_eq!(asset_name(true), "jybot-rs-x86_64-windows.exe");
    assert_eq!(
        release_url("a/b", asset_name(false)),
        "https://github.com/a/b/releases/latest/download/jybot-rs-x86_64-linux"
    );
}

#[test]
fn env_path_is_env_file() {
    assert_eq!(env_path("/h"), "/h/.env");
}

#[test]
fn safety_locks() {
    assert!(jybot_rs::panel::live_unlocked("false", "true"));
    assert!(jybot_rs::panel::live_unlocked("FALSE", "True"));
    assert!(!jybot_rs::panel::live_unlocked("", "true"));
    assert!(!jybot_rs::panel::live_unlocked("false", ""));
    assert!(!jybot_rs::panel::live_unlocked("0", "true"));
}

#[test]
fn law_validate_idempotent() {
    use_kinds_idempotent();
}

fn use_kinds_idempotent() {
    let kinds = [jybot_rs::panel::Kind::Bool, jybot_rs::panel::Kind::Int, jybot_rs::panel::Kind::Str, jybot_rs::panel::Kind::Enum(&["a", "b"])];
    for k in kinds.iter() {
        for raw in [" YES ", "off", "+0012", "-3", " a ", "b", "x y "] {
            if let Ok(v) = jybot_rs::panel::validate(k, raw) {
                assert_eq!(jybot_rs::panel::validate(k, &v), Ok(v.clone()));
            }
        }
    }
}

#[test]
fn law_mask_reveals_only_ends() {
    assert_eq!(mask(true, "abcdXXXXXwxyz"), mask(true, "abcdYYwxyz"));
    assert_eq!(mask(true, "short1"), mask(true, "other123"));
}

#[test]
fn edit_steps() {
    assert!(matches!(edit_first("K", "", Ok("x".to_string())), EditStep::Unchanged));
    assert!(matches!(edit_first("K", "0", Ok("0".to_string())), EditStep::Unchanged));
    assert!(matches!(edit_first("K", "q", Err("bad".to_string())), EditStep::Invalid(e) if e == "bad"));
    assert!(matches!(edit_first("K", "v", Ok("v".to_string())), EditStep::Save(v) if v == "v"));
    assert!(matches!(edit_first("DRY_RUN", "no", Ok("false".to_string())), EditStep::AskConfirm(v) if v == "false"));
    assert!(matches!(edit_confirmed("YES", "false".to_string()), EditStep::Save(v) if v == "false"));
    assert!(matches!(edit_confirmed("yes", "false".to_string()), EditStep::Declined));
}

#[test]
fn start_steps() {
    assert!(matches!(start_first(true, true), StartStep::AlreadyRunning));
    assert!(matches!(start_first(false, true), StartStep::AskConfirm));
    assert!(matches!(start_first(false, false), StartStep::Launch("--simulation", false)));
    assert!(matches!(start_confirmed("no", 0), StartStep::Declined));
    assert!(matches!(start_confirmed("YES", 2), StartStep::MissingCredentials));
    assert!(matches!(start_confirmed("YES", 0), StartStep::Launch("--live", true)));
}

#[test]
fn law_update_runs() {
    for was_running in [false, true] {
        for bits in 0..16u32 {
            let mut stage = UpdateStage::Download;
            let mut restarts = 0;
            let mut last_pull_ok = false;
            for step in 0..4 {
                let ok = bits & (1 << step) != 0;
                if stage == UpdateStage::Build {
                    assert!(last_pull_ok);
                }
                last_pull_ok = stage == UpdateStage::Pull && ok;
                match update_next(stage, ok, was_running) {
                    UpdateAction::Run(s) => stage = s,
                    UpdateAction::RestartService => {
                        restarts += 1;
                        break;
                    }
                    UpdateAction::Finish => break,
                }
            }
            assert_eq!(restarts, if was_running { 1 } else { 0 });
        }
    }
}

#[test]
fn missing_credentials_in_order() {
    let pairs: Vec<(String, String)> = vec![
        ("POLYMARKET_PRIVATE_KEY".to_string(), "0x...".to_string()),
        ("POLYMARKET_API_KEY".to_string(), "abc123".to_string()),
        ("POLYMARKET_API_SECRET".to_string(), "  ".to_string()),
        ("POLYMARKET_API_PASSPHRASE".to_string(), " pass ".to_string()),
        ("POLYMARKET_API_KEY".to_string(), "".to_string()),
    ];
    assert_eq!(
        jybot_rs::panel::missing_credentials(&pairs),
        vec!["POLYMARKET_PRIVATE_KEY", "POLYMARKET_API_SECRET", "PM_FUNDER_ADDRESS"]
    );
    assert!(jybot_rs::panel::missing_credentials(&Vec::new()).len() == 5);
}
