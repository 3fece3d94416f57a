use jybot_rs::envfile::{get_val, lookup, read_pairs, set_val_text};

fn pairs(text: &str) -> Vec<(String, String)> {
    read_pairs(text)
}

#[test]
fn reads_plain_pairs() {
    let p = pairs("A=1\nB = two \n");
    assert_eq!(p, vec![("A".to_string(), "1".to_string()), ("B".to_string(), "two".to_string())]);
}

#[test]
fn skips_comments_blank_and_no_equals() {
    let p = pairs("# c\n\n  \nNOEQ\nX=1\n");
    assert_eq!(p, vec![("X".to_string(), "1".to_string())]);
}

#[test]
fn strips_export_prefix() {
    assert_eq!(pairs("export K=v"), vec![("K".to_string(), "v".to_string())]);
}

#[test]
fn quoted_values_run_to_closing_quote() {
    assert_eq!(get_val("K=\"a # b\" rest", "K"), "a # b");
    assert_eq!(get_val("K='x'y'", "K"), "x");
    assert_eq!(get_val("K=\"open", "K"), "open");
}

#[test]
fn inline_comment_is_cut() {
    assert_eq!(get_val("K=val # note", "K"), "val");
    assert_eq!(get_val("K=val#not", "K"), "val#not");
}

#[test]
fn value_splits_at_first_equals() {
    assert_eq!(get_val("URL=a=b", "URL"), "a=b");
}

#[test]
fn first_occurrence_wins_and_missing_is_empty() {
    assert_eq!(get_val("K=1\nK=2\n", "K"), "1");
    assert_eq!(get_val("K=1\n", "Z"), "");
    let p = pairs("K=1\nK=2");
    assert_eq!(lookup(&p, "K"), "1");
}

#[test]
fn crlf_lines() {
    assert_eq!(get_val("A=1\r\nB=2\r\n", "B"), "2");
}

#[test]
fn set_replaces_first_setting_line() {
    let t = set_val_text("A=1\n# c\nB=2\nB=3\n", "B", "9");
    assert_eq!(t, "A=1\n# c\nB=9\nB=3\n");
}

#[test]
fn set_recognises_export_and_indent() {
    let t = set_val_text("  export B=2\n", "B", "x");
    assert_eq!(t, "B=x\n");
}

#[test]
fn set_appends_when_missing() {
    assert_eq!(set_val_text("A=1", "B", "2"), "A=1\nB=2\n");
    assert_eq!(set_val_text("", "B", "2"), "B=2\n");
}

#[test]
fn set_does_not_take_spaced_key() {
    let t = set_val_text("B = 1\n", "B", "2");
    assert_eq!(t, "B = 1\nB=2\n");
    assert_eq!(get_val(&t, "B"), "1");
}

#[test]
fn law_get_after_set() {
    for text in ["", "A=1\n", "DRY_RUN=true\nX=2\n", "# only comment", "export DRY_RUN=\"true\" # c\n"] {
        let t = set_val_text(text, "DRY_RUN", "false");
        assert_eq!(get_val(&t, "DRY_RUN"), "false");
    }
}

#[test]
fn law_set_keeps_other_keys() {
    let text = "A=1\nDRY_RUN=true\nB='q' \nexport C=3 # c\n";
    let t = set_val_text(text, "DRY_RUN", "false");
    for k in ["A", "B", "C", "D"] {
        assert_eq!(get_val(&t, k), get_val(text, k));
    }
}

#[test]
fn law_get_after_set_with_later_spaced_line() {
    let t = set_val_text("K=1\nK = 2\n", "K", "9");
    assert_eq!(get_val(&t, "K"), "9");
}
