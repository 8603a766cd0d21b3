use argflags::parse_flags;
use argflags::ExtractFromVecFlags;

fn args(words: &[&str]) -> Vec<String> {
    words.iter().map(|w| w.to_string()).collect()
}

#[test]
fn scenario_mixed_views() {
    let tokens = parse_flags(&args(&["-v", "--name", "Alice", "file.txt"]));

    assert_eq!(tokens.short_bool_flags(), vec!["-v".to_string()]);

    let long_valued = tokens.long_flags_with_args();
    assert_eq!(long_valued.len(), 1);
    assert_eq!(long_valued.get("--name").map(String::as_str), Some("Alice"));

    assert_eq!(tokens.flagless_args(), vec!["file.txt".to_string()]);
}

#[test]
fn scenario_all_bool_flags() {
    let tokens = parse_flags(&args(&["-a", "-b"]));
    assert_eq!(
        tokens.all_bool_flags(),
        vec!["-a".to_string(), "-b".to_string()]
    );
}

#[test]
fn scenario_flag_at_end_empty_mapping() {
    let tokens = parse_flags(&args(&["--out"]));
    assert!(tokens.long_flags_with_args().is_empty());
    assert_eq!(tokens.long_bool_flags(), vec!["--out".to_string()]);
}

#[test]
fn scenario_repeated_flag_last_wins() {
    let tokens = parse_flags(&args(&["--k", "1", "--k", "2"]));
    let valued = tokens.all_flags_with_args();
    assert_eq!(valued.len(), 1);
    assert_eq!(valued.get("--k").map(String::as_str), Some("2"));
}

#[test]
fn short_flags_with_args_selects_short_only() {
    let tokens = parse_flags(&args(&["-o", "out.txt", "--mode", "fast"]));
    let short_valued = tokens.short_flags_with_args();
    assert_eq!(short_valued.len(), 1);
    assert_eq!(short_valued.get("-o").map(String::as_str), Some("out.txt"));
    assert!(!short_valued.contains_key("--mode"));
}

#[test]
fn all_flags_with_args_selects_both_kinds() {
    let tokens = parse_flags(&args(&["-o", "out.txt", "--mode", "fast", "-q"]));
    let valued = tokens.all_flags_with_args();
    assert_eq!(valued.len(), 2);
    assert_eq!(valued.get("-o").map(String::as_str), Some("out.txt"));
    assert_eq!(valued.get("--mode").map(String::as_str), Some("fast"));
    assert!(!valued.contains_key("-q"));
}

#[test]
fn bool_flag_views_split_by_kind() {
    let tokens = parse_flags(&args(&["-a", "--b", "-c", "--d"]));
    assert_eq!(
        tokens.short_bool_flags(),
        vec!["-a".to_string(), "-c".to_string()]
    );
    assert_eq!(
        tokens.long_bool_flags(),
        vec!["--b".to_string(), "--d".to_string()]
    );
    assert_eq!(
        tokens.all_bool_flags(),
        vec![
            "-a".to_string(),
            "--b".to_string(),
            "-c".to_string(),
            "--d".to_string()
        ]
    );
}

#[test]
fn sequence_views_keep_duplicates_in_order() {
    let tokens = parse_flags(&args(&["-a", "-a", "-b"]));
    assert_eq!(
        tokens.all_bool_flags(),
        vec!["-a".to_string(), "-a".to_string(), "-b".to_string()]
    );

    let tokens = parse_flags(&args(&["one", "one"]));
    assert_eq!(
        tokens.flagless_args(),
        vec!["one".to_string(), "one".to_string()]
    );
}

#[test]
fn views_of_empty_token_sequence() {
    let tokens = parse_flags(&args(&[]));
    assert!(tokens.flagless_args().is_empty());
    assert!(tokens.all_bool_flags().is_empty());
    assert!(tokens.all_flags_with_args().is_empty());
}

#[test]
fn views_do_not_consume_tokens() {
    let tokens = parse_flags(&args(&["-v", "file.txt"]));
    let before = tokens.len();
    let _ = tokens.all_bool_flags();
    let _ = tokens.all_flags_with_args();
    let _ = tokens.flagless_args();
    assert_eq!(tokens.len(), before);
}
