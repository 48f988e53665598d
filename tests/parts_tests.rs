use statusline::cache::{cache_path_for_hash, get_cache_path, has_new_file_ops};
use statusline::differ::compute_diff;
use statusline::event::{decode_record, event_from_fields, MutationEvent};
use statusline::status::{
    detect_theme, get_git_branch, get_token_info, is_light_theme, palette, theme_is_light,
    ContextWindow, CurrentUsage, Input, Model, COLOR_RESET, COLOR_TOKENS_DARK, COLOR_TOKENS_LIGHT,
};
use statusline::text::normalize_newline;

#[test]
fn diff_counts_exact() {
    assert_eq!(compute_diff("", "a\nb\nc\n"), (3, 0));
    assert_eq!(compute_diff("a\nb\nc\n", ""), (0, 3));
    assert_eq!(compute_diff("a\nb\n", "a\nc\n"), (1, 1));
    assert_eq!(compute_diff("a\nb", "a\nb\n"), (0, 0));
    assert_eq!(compute_diff("x\r\ny\n", "x\r\ny\nz\n"), (1, 0));
    assert_eq!(compute_diff("", ""), (0, 0));
}

#[test]
fn normalization_adds_one_newline() {
    assert_eq!(normalize_newline("a"), "a\n");
    assert_eq!(normalize_newline("a\n"), "a\n");
    assert_eq!(normalize_newline(""), "");
}

#[test]
fn new_ops_marker() {
    assert!(has_new_file_ops("{\"toolUseResult\":{\"filePath\":\"/x\"}}"));
    assert!(!has_new_file_ops("{\"message\":\"filePath mentioned\"}"));
    assert!(!has_new_file_ops(""));
}

#[test]
fn cache_path_shape() {
    assert_eq!(cache_path_for_hash(255), "/tmp/statusline_cache_ff.json");
    assert_eq!(cache_path_for_hash(0), "/tmp/statusline_cache_0.json");
    let p = get_cache_path("/some/log.jsonl");
    assert!(p.starts_with("/tmp/statusline_cache_") && p.ends_with(".json"));
    assert_eq!(p, get_cache_path("/some/log.jsonl"));
}

#[test]
fn decode_write_and_edit() {
    let w = decode_record("{\"toolUseResult\":{\"filePath\":\"/p\",\"originalFile\":null,\"content\":\"c\"}}");
    match w {
        Some(MutationEvent::Write { file_path, original, content }) => {
            assert_eq!((file_path.as_str(), original.as_str(), content.as_str()), ("/p", "", "c"));
        }
        _ => panic!("expected a write"),
    }
    let e = decode_record("{\"toolUseResult\":{\"filePath\":\"/p\",\"oldString\":\"o\",\"newString\":\"n\"}}");
    match e {
        Some(MutationEvent::Edit { file_path, old_fragment, new_fragment }) => {
            assert_eq!((file_path.as_str(), old_fragment.as_str(), new_fragment.as_str()), ("/p", "o", "n"));
        }
        _ => panic!("expected an edit"),
    }
    assert!(decode_record("{\"toolUseResult\":null}").is_none());
    assert!(decode_record("{\"toolUseResult\":{\"content\":\"c\"}}").is_none());
    assert!(decode_record("[1,2").is_none());
    assert!(decode_record("{\"toolUseResult\":{\"filePath\":\"/p\",\"content\":\"c\",\"oldString\":3}}").is_none());
    match decode_record("{\"toolUseResult\":{\"filePath\":\"/p\",\"content\":\"c\",\"oldString\":\"o\",\"newString\":\"n\"}}") {
        Some(MutationEvent::Write { content, .. }) => assert_eq!(content, "c"),
        _ => panic!("content makes a write"),
    }
}

#[test]
fn fields_to_event() {
    let r = event_from_fields(Some("/p".to_string()), None, None, Some("a".to_string()), None);
    assert!(r.is_none());
    let r = event_from_fields(None, None, Some("c".to_string()), None, None);
    assert!(r.is_none());
}

#[test]
fn theme_choice() {
    assert!(is_light_theme("light-daltonized"));
    assert!(!is_light_theme("dark"));
    assert!(theme_is_light("{\"theme\":\"light\"}"));
    assert!(!theme_is_light("{\"theme\":\"dark\"}"));
    assert!(!theme_is_light("{\"theme\":1}"));
    assert!(!theme_is_light("nope"));
    assert_eq!(detect_theme(None).tokens, COLOR_TOKENS_DARK);
    let light = detect_theme(Some("{\"theme\":\"light-ansi\"}".to_string()));
    assert_eq!(
        (light.branch, light.added, light.removed, light.model, light.tokens),
        ("\x1b[38;5;32m", "\x1b[38;5;71m", "\x1b[38;5;131m", "\x1b[38;5;97m", COLOR_TOKENS_LIGHT)
    );
    let dark = detect_theme(Some("{\"theme\":\"dark\"}".to_string()));
    assert_eq!(
        (dark.branch, dark.added, dark.removed, dark.model, dark.tokens),
        ("\x1b[38;5;117m", "\x1b[38;5;114m", "\x1b[38;5;210m", "\x1b[38;5;183m", COLOR_TOKENS_DARK)
    );
    let none = detect_theme(Some("not json".to_string()));
    assert_eq!(none.added, "\x1b[38;5;114m");
    assert_eq!(palette(true).tokens, COLOR_TOKENS_LIGHT);
}

#[test]
fn branch_label() {
    assert_eq!(get_git_branch(Some("  main\n".to_string())), "main");
    assert_eq!(get_git_branch(Some(" \n".to_string())), "no-git");
    assert_eq!(get_git_branch(None), "no-git");
}

fn input(window: Option<ContextWindow>) -> Input {
    Input {
        cwd: "/tmp".to_string(),
        transcript_path: "/tmp/t.jsonl".to_string(),
        model: Model { display_name: "test".to_string() },
        context_window: window,
    }
}

#[test]
fn token_gauge() {
    let colors = palette(false);
    assert_eq!(get_token_info(&input(None), &colors), "");
    let zero = ContextWindow { current_usage: None, context_window_size: Some(0) };
    assert_eq!(get_token_info(&input(Some(zero)), &colors), "");
    let w = ContextWindow {
        current_usage: Some(CurrentUsage {
            input_tokens: Some(50_000),
            cache_creation_input_tokens: Some(20_000),
            cache_read_input_tokens: None,
        }),
        context_window_size: Some(200_000),
    };
    let expected = format!(
        "{}\u{25B0}\u{25B1}\u{25B1}\u{25B1}\u{25B1} 70k/200k tokens{}",
        COLOR_TOKENS_DARK, COLOR_RESET
    );
    assert_eq!(get_token_info(&input(Some(w)), &colors), expected);
}

#[test]
fn token_gauge_caps_past_the_window() {
    let colors = palette(false);
    let over = ContextWindow {
        current_usage: Some(CurrentUsage {
            input_tokens: Some(300_000),
            cache_creation_input_tokens: None,
            cache_read_input_tokens: None,
        }),
        context_window_size: Some(200_000),
    };
    let expected = format!(
        "{}\u{25B0}\u{25B0}\u{25B0}\u{25B0}\u{25B0} 300k/200k tokens{}",
        COLOR_TOKENS_DARK, COLOR_RESET
    );
    assert_eq!(get_token_info(&input(Some(over)), &colors), expected);
    let huge = ContextWindow {
        current_usage: Some(CurrentUsage {
            input_tokens: Some(u64::MAX),
            cache_creation_input_tokens: Some(u64::MAX),
            cache_read_input_tokens: Some(u64::MAX),
        }),
        context_window_size: Some(1),
    };
    let text = get_token_info(&input(Some(huge)), &colors);
    assert!(text.contains("55340232221128654k/0k tokens"));
}

#[test]
fn identical_texts_differ_in_nothing() {
    assert_eq!(compute_diff("a\nb\nc\n", "a\nb\nc\n"), (0, 0));
    assert_eq!(compute_diff("x\r\ny", "x\r\ny"), (0, 0));
}
