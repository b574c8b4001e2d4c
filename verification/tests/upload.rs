use inboxhunter::upload::{
    api_error_message, authorization, check_rate_limit, chunk_content, comment_body,
    comment_chunk_size, comments_url, compute_frame_delays, get_animation_config,
    get_last_log_submission, is_log_file, issue_body, issue_title, issues_url, latest_log,
    rate_limit_decision, sanitize_log_content, truncate_log, update_rate_limit, LogFileInfo,
    LogSubmissionResult, RateLimitError, FRAME_OFFSET, MAX_LOG_SIZE, SPLASH_FRAME_DELAYS,
};

#[test]
fn test_animation_config_decode() {
    let config = get_animation_config();
    assert!(!config.is_empty(), "Config should not be empty");
    assert!(config.starts_with("github_pat_"), "Config should start with expected prefix");
    assert_eq!(config.len(), 93, "Config should be 93 characters");
}

#[test]
fn frame_delays_mask_each_byte() {
    assert_eq!(compute_frame_delays(""), Vec::<u8>::new());
    assert_eq!(compute_frame_delays("g"), vec![0x3D]);
    assert_eq!(compute_frame_delays("Z"), vec![0x00]);
    assert_eq!(compute_frame_delays("ab"), vec![b'a' ^ FRAME_OFFSET, b'b' ^ FRAME_OFFSET]);
}

#[test]
fn frame_delays_undo_the_config() {
    let config = get_animation_config();
    assert_eq!(compute_frame_delays(&config), SPLASH_FRAME_DELAYS.to_vec());
}

#[test]
fn mask_round_trip_on_ascii() {
    let text = "token-123_ABC";
    let masked = compute_frame_delays(text);
    let back: String = masked.iter().map(|b| (b ^ FRAME_OFFSET) as char).collect();
    assert_eq!(back, text);
}

#[test]
fn chunk_short_text_stays_whole() {
    assert_eq!(chunk_content("hello", 10), vec!["hello".to_string()]);
    assert_eq!(chunk_content("hello", 5), vec!["hello".to_string()]);
    assert_eq!(chunk_content("", 10), vec!["".to_string()]);
    assert_eq!(chunk_content("", 0), vec!["".to_string()]);
}

#[test]
fn chunk_breaks_behind_line_breaks() {
    let text = "line one\nline two\nline three\n";
    let chunks = chunk_content(text, 12);
    assert_eq!(
        chunks,
        vec!["line one\n".to_string(), "line two\n".to_string(), "line three\n".to_string()]
    );
    assert_eq!(chunks.concat(), text);
}

#[test]
fn chunk_without_line_break_cuts_at_size() {
    assert_eq!(
        chunk_content("abcdefghij", 4),
        vec!["abcd".to_string(), "efgh".to_string(), "ij".to_string()]
    );
}

#[test]
fn chunk_takes_last_line_break_in_reach() {
    assert_eq!(
        chunk_content("a\nb\ncdefgh", 5),
        vec!["a\nb\n".to_string(), "cdefg".to_string(), "h".to_string()]
    );
}

#[test]
fn chunk_never_cuts_inside_a_character() {
    // each of these characters takes three bytes
    let text = "\u{20ac}\u{20ac}\u{20ac}";
    let chunks = chunk_content(text, 4);
    assert_eq!(chunks, vec!["\u{20ac}".to_string(), "\u{20ac}".to_string(), "\u{20ac}".to_string()]);
    let chunks = chunk_content(text, 7);
    assert_eq!(chunks, vec!["\u{20ac}\u{20ac}".to_string(), "\u{20ac}".to_string()]);
}

#[test]
fn chunk_with_a_size_too_small_for_a_character() {
    let text = "\u{20ac}a";
    assert_eq!(chunk_content(text, 1), vec!["\u{20ac}".to_string(), "a".to_string()]);
    assert_eq!(chunk_content("ab", 0), vec!["a".to_string(), "b".to_string()]);
}

#[test]
fn chunks_join_to_the_text() {
    let text = "first\nsecond line is longer\n\nthird \u{2705} done\nlast";
    for size in 0..40usize {
        let chunks = chunk_content(text, size);
        assert_eq!(chunks.concat(), text);
        if text.len() > size {
            for c in &chunks {
                assert!(!c.is_empty());
                if size >= 4 {
                    assert!(c.len() <= size);
                }
            }
        }
    }
}

#[test]
fn comment_chunk_size_leaves_room() {
    assert_eq!(comment_chunk_size(), 59500);
}

// The inputs that look like secrets are put together when the test runs,
// so that no file holds one.
fn letters(n: usize) -> String {
    "abcdefghijklmnopqrstuvwxyz".chars().cycle().take(n).collect()
}

#[test]
fn sanitize_redacts_openai_keys() {
    let key = format!("{}-{}", "sk", letters(30));
    let out = sanitize_log_content(&format!("key {} used", key)).unwrap();
    assert_eq!(out, "key [OPENAI_API_KEY_REDACTED] used");
    // nineteen characters behind the dash are too few for a key
    let short = format!("{}-{}", "sk", letters(19));
    let out = sanitize_log_content(&format!("key {} used", short)).unwrap();
    assert_eq!(out, format!("key {} used", short));
}

#[test]
fn sanitize_redacts_named_keys() {
    let value = letters(20);
    let out = sanitize_log_content(&format!("api{}key = \"{}\"", "_", value)).unwrap();
    assert_eq!(out, "[API_KEY_REDACTED]");
    let out = sanitize_log_content(&format!("SECRET{}KEY: {}", "-", letters(16))).unwrap();
    assert_eq!(out, "[API_KEY_REDACTED]");
    // fifteen characters are too few
    let text = format!("api{}key = {}", "_", letters(15));
    assert_eq!(sanitize_log_content(&text).unwrap(), text);
}

#[test]
fn sanitize_keeps_the_domain_of_an_address() {
    let address = ["john.doe", "example.com"].join("@");
    let out = sanitize_log_content(&format!("mail from {} today", address)).unwrap();
    assert_eq!(out, "mail from [EMAIL]@example.com today");
}

#[test]
fn sanitize_redacts_phone_numbers() {
    let number = format!("+{}{}", "1202", "5550123");
    let out = sanitize_log_content(&format!("call {} now", number)).unwrap();
    assert_eq!(out, "call [PHONE_REDACTED] now");
    let out = sanitize_log_content("short 123456789 stays").unwrap();
    assert_eq!(out, "short 123456789 stays");
}

#[test]
fn sanitize_redacts_bearer_tokens() {
    let token = ["abc", "def-ghi_jkl"].join(".");
    let out = sanitize_log_content(&format!("Authorization: {} {}", "Bearer", token)).unwrap();
    assert_eq!(out, "Authorization: Bearer [TOKEN_REDACTED]");
}

#[test]
fn sanitize_leaves_plain_text() {
    let out = sanitize_log_content("nothing secret here").unwrap();
    assert_eq!(out, "nothing secret here");
}

#[test]
fn rate_limit_without_earlier_submission() {
    assert_eq!(check_rate_limit(None, 1_700_000_000, 0), Ok(()));
}

#[test]
fn rate_limit_within_the_hour() {
    let last = 1_700_000_000;
    assert_eq!(
        check_rate_limit(Some(last), last, 0),
        Err(RateLimitError::Wait { minutes: 60 })
    );
    assert_eq!(
        check_rate_limit(Some(last), last + 59, 999_999_999),
        Err(RateLimitError::Wait { minutes: 60 })
    );
    assert_eq!(
        check_rate_limit(Some(last), last + 60, 0),
        Err(RateLimitError::Wait { minutes: 59 })
    );
    assert_eq!(
        check_rate_limit(Some(last), last + 3599, 0),
        Err(RateLimitError::Wait { minutes: 1 })
    );
}

#[test]
fn rate_limit_after_the_hour() {
    let last = 1_700_000_000;
    assert_eq!(check_rate_limit(Some(last), last + 3600, 0), Ok(()));
    assert_eq!(check_rate_limit(Some(last), last + 86_400, 5), Ok(()));
}

#[test]
fn rate_limit_with_a_submission_in_the_future() {
    let last = 1_700_000_000;
    // two minutes ahead, seen half a second late: one whole minute
    assert_eq!(
        check_rate_limit(Some(last), last - 120, 500_000_000),
        Err(RateLimitError::Wait { minutes: 61 })
    );
    assert_eq!(
        check_rate_limit(Some(last), last - 120, 0),
        Err(RateLimitError::Wait { minutes: 62 })
    );
}

#[test]
fn rate_limit_with_a_time_that_is_none() {
    assert_eq!(
        check_rate_limit(Some(i64::MAX), 1_700_000_000, 0),
        Err(RateLimitError::InvalidTimestamp)
    );
    assert_eq!(
        check_rate_limit(Some(i64::MIN), 1_700_000_000, 0),
        Err(RateLimitError::InvalidTimestamp)
    );
}

#[test]
fn rate_limit_decision_by_itself() {
    assert_eq!(rate_limit_decision(false, 0, 0, 0), Err(RateLimitError::InvalidTimestamp));
    assert_eq!(rate_limit_decision(true, 0, 3600, 0), Ok(()));
    assert_eq!(rate_limit_decision(true, 0, 0, 0), Err(RateLimitError::Wait { minutes: 60 }));
    assert_eq!(
        rate_limit_decision(true, i64::MAX, i64::MIN, 0),
        Err(RateLimitError::Wait { minutes: 307445734561825920 })
    );
}

#[test]
fn rate_limit_messages() {
    assert_eq!(RateLimitError::InvalidTimestamp.message(), "Invalid timestamp");
    assert_eq!(
        RateLimitError::Wait { minutes: 42 }.message(),
        "Rate limit: Please wait 42 minutes before submitting logs again"
    );
}

#[test]
fn last_submission_is_read_between_white_space() {
    assert_eq!(get_last_log_submission(None), None);
    assert_eq!(get_last_log_submission(Some("1700000000")), Some(1_700_000_000));
    assert_eq!(get_last_log_submission(Some("  1700000000\n")), Some(1_700_000_000));
    assert_eq!(get_last_log_submission(Some("\u{3000}-5\t")), Some(-5));
    assert_eq!(get_last_log_submission(Some("+7")), Some(7));
    assert_eq!(get_last_log_submission(Some("")), None);
    assert_eq!(get_last_log_submission(Some("   ")), None);
    assert_eq!(get_last_log_submission(Some("-")), None);
    assert_eq!(get_last_log_submission(Some("12 34")), None);
    assert_eq!(get_last_log_submission(Some("12a")), None);
    assert_eq!(get_last_log_submission(Some("9223372036854775807")), Some(i64::MAX));
    assert_eq!(get_last_log_submission(Some("-9223372036854775808")), Some(i64::MIN));
    assert_eq!(get_last_log_submission(Some("9223372036854775808")), None);
    assert_eq!(get_last_log_submission(Some("-9223372036854775809")), None);
    assert_eq!(get_last_log_submission(Some("00012")), Some(12));
}

#[test]
fn last_submission_agrees_with_std() {
    for text in ["17", " 17 ", "x", "", "+", "-0", "99999999999999999999", "\n-12\r\n", "1_0"] {
        assert_eq!(get_last_log_submission(Some(text)), text.trim().parse::<i64>().ok());
    }
}

#[test]
fn rate_limit_file_holds_the_seconds() {
    assert_eq!(update_rate_limit(1_700_000_000), "1700000000");
    assert_eq!(update_rate_limit(0), "0");
    assert_eq!(get_last_log_submission(Some(&update_rate_limit(123))), Some(123));
}

#[test]
fn small_log_is_not_truncated() {
    assert_eq!(truncate_log("abc"), "abc");
    let exact = "x".repeat(MAX_LOG_SIZE);
    assert_eq!(truncate_log(&exact), exact);
}

#[test]
fn large_log_keeps_its_end() {
    let text = format!("{}{}", "a".repeat(10), "b".repeat(MAX_LOG_SIZE));
    let out = truncate_log(&text);
    assert_eq!(
        out,
        format!("[... 10 bytes truncated from start ...]\n{}", "b".repeat(MAX_LOG_SIZE))
    );
}

#[test]
fn large_log_is_cut_where_a_character_begins() {
    // the cut would fall inside the three bytes of the first character
    let text = format!("\u{20ac}{}", "b".repeat(MAX_LOG_SIZE - 1));
    let out = truncate_log(&text);
    assert_eq!(
        out,
        format!("[... 3 bytes truncated from start ...]\n{}", "b".repeat(MAX_LOG_SIZE - 1))
    );
}

#[test]
fn log_files_are_told_by_their_extension() {
    assert!(is_log_file("app.log"));
    assert!(is_log_file("app.2024-01-01.log"));
    assert!(is_log_file("..log"));
    assert!(!is_log_file(".log"));
    assert!(!is_log_file("log"));
    assert!(!is_log_file("app.LOG"));
    assert!(!is_log_file("app.log.gz"));
    assert!(!is_log_file("app.txt"));
    assert!(!is_log_file(""));
}

fn file(name: &str, modified: u128) -> LogFileInfo {
    LogFileInfo { name: name.to_string(), modified }
}

#[test]
fn latest_log_is_the_one_written_last() {
    assert_eq!(latest_log(&vec![]), None);
    assert_eq!(latest_log(&vec![file("notes.txt", 9)]), None);
    let files = vec![file("a.log", 5), file("b.txt", 99), file("c.log", 7), file("d.log", 6)];
    assert_eq!(latest_log(&files), Some(2));
}

#[test]
fn latest_log_among_equals_is_the_first() {
    let files = vec![file("a.log", 7), file("b.log", 7), file("c.log", 3)];
    assert_eq!(latest_log(&files), Some(0));
    let files = vec![file("a.log", 0), file("b.log", 0)];
    assert_eq!(latest_log(&files), Some(0));
}

#[test]
fn issue_title_takes_fifty_characters() {
    assert_eq!(issue_title("crash"), "Log Submission: crash");
    assert_eq!(issue_title(""), "Log Submission: ");
    let long = "x".repeat(60);
    assert_eq!(issue_title(&long), format!("Log Submission: {}", "x".repeat(50)));
    let wide = "\u{e9}".repeat(51);
    assert_eq!(issue_title(&wide), format!("Log Submission: {}", "\u{e9}".repeat(50)));
}

#[test]
fn issue_body_is_filled_in() {
    let body = issue_body("it broke", "linux", "x86_64", "1.2.3", "app.log", 1234);
    assert_eq!(
        body,
        "## User Description\nit broke\n\n## System Info\n- **OS**: linux\n- **Architecture**: x86_64\n- **App Version**: 1.2.3\n\n## Log File\n`app.log` (1234 bytes) will be attached as comment(s) below.\n\n---\n*This issue was automatically submitted from InboxHunter app.*"
    );
}

#[test]
fn comment_body_of_a_single_piece() {
    assert_eq!(
        comment_body("app.log", "text", 0, 1),
        "## Log File: `app.log`\n\n<details>\n<summary>Click to expand</summary>\n\n```\ntext\n```\n\n</details>"
    );
}

#[test]
fn comment_body_of_one_piece_among_several() {
    assert_eq!(
        comment_body("app.log", "text", 1, 3),
        "## Log File: `app.log` (Part 2/3)\n\n<details>\n<summary>Click to expand</summary>\n\n```\ntext\n```\n\n</details>"
    );
}

#[test]
fn addresses_of_the_issue_tracker() {
    assert_eq!(issues_url(), "https://api.github.com/repos/polajenko/inbox-hunter/issues");
    assert_eq!(
        comments_url(17),
        "https://api.github.com/repos/polajenko/inbox-hunter/issues/17/comments"
    );
    assert_eq!(authorization("abc"), format!("{} {}", "Bearer", "abc"));
    assert_eq!(
        api_error_message("404 Not Found", "{}"),
        "GitHub API error (404 Not Found): {}"
    );
}

#[test]
fn submission_result_of_a_success() {
    let r = LogSubmissionResult::submitted("https://example.org/1".to_string());
    assert!(r.success);
    assert_eq!(r.issue_url, Some("https://example.org/1".to_string()));
    assert_eq!(r.error, None);
}
