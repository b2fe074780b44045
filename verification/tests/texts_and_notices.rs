use codex_agents::agent::AgentStatus;
use codex_agents::notices::{
    bordered_inner_width, extract_subagent_notification, find_case_insensitive,
    new_cyber_policy_error_event, new_deprecation_notice, new_error_event, new_info_event,
    new_safety_access_block_event, new_subagent_notification_event, new_warning_event,
    width_within, ExtractStep, UpdateAvailableHistoryCell,
};
use codex_agents::path_style::PathStyle;
use codex_agents::paths::PathText;
use codex_agents::sort::sort_stable;
use codex_agents::styled::{single_line, StyledLine, TextStyle};
use codex_agents::text::{
    blank, byte_offset, decimal_text, find_text, join_texts, normalize, same_opt_text, same_text,
    signed_decimal_text, split_once, split_words, starts_with, strip_prefix, text_less,
    to_ascii_lowered, trimmed, trimmed_end, whitespace,
};

const TEXTS: [&str; 12] = [
    "",
    " ",
    "a",
    " a b ",
    "\t\nx\u{a0}y\u{3000}",
    "\u{2028}é\u{1f600}\u{85}",
    "ab=cd=ef",
    "=",
    "ÀBC déf",
    "Zz[@`{",
    "\u{200b}a\u{200b}",
    "aaab",
];

fn plain(line: &StyledLine) -> String {
    line.iter().map(|part| part.text.as_str()).collect()
}

#[test]
fn white_space_is_what_the_standard_says() {
    for code in 0..=0x10ffff_u32 {
        if let Some(c) = char::from_u32(code) {
            assert_eq!(whitespace(c), c.is_whitespace(), "{code:x}");
        }
    }
}

#[test]
fn texts_behave_like_those_of_the_standard() {
    for a in TEXTS {
        assert_eq!(trimmed(a), a.trim(), "{a:?}");
        assert_eq!(blank(a), a.trim().is_empty(), "{a:?}");
        let words: Vec<&str> = a.split_whitespace().collect();
        assert_eq!(split_words(a), words, "{a:?}");
        assert_eq!(normalize(a), words.join(" "), "{a:?}");
        assert_eq!(to_ascii_lowered(a), a.to_ascii_lowercase(), "{a:?}");
        assert_eq!(split_once(a, '='), a.split_once('='), "{a:?}");
        for b in TEXTS {
            assert_eq!(starts_with(a, b), a.starts_with(b), "{a:?} {b:?}");
            assert_eq!(strip_prefix(a, b), a.strip_prefix(b), "{a:?} {b:?}");
            assert_eq!(text_less(a, b), a < b, "{a:?} {b:?}");
            assert_eq!(same_text(a, b), a == b, "{a:?} {b:?}");
            assert_eq!(
                find_text(a, b),
                a.find(b).map(|at| a[..at].chars().count()),
                "{a:?} {b:?}"
            );
        }
    }
    assert!(same_opt_text(None, None));
    assert!(!same_opt_text(Some("a"), None));
    assert!(same_opt_text(Some("a"), Some("a")));
}

#[test]
fn numbers_are_written_in_decimal() {
    for n in [0, 7, 10, 1234567890, u64::MAX] {
        assert_eq!(decimal_text(n), n.to_string());
    }
    for n in [0, -1, 10, i64::MIN, i64::MAX] {
        assert_eq!(signed_decimal_text(n), n.to_string());
    }
    let parts = vec!["a".to_string(), String::new(), "b".to_string()];
    assert_eq!(join_texts(&parts, ", "), parts.join(", "));
    assert_eq!(join_texts(&Vec::new(), ", "), "");
}

#[test]
fn sorting_is_stable_and_by_components() {
    let path = |text: &str| PathText { style: PathStyle::Slash, text: text.to_string() };
    let texts = ["/b", "/a/c", "/a b", "/a", "/a//c", "x"];
    let sorted = sort_stable(texts.iter().map(|text| path(text)).collect());
    let mut expected: Vec<std::path::PathBuf> =
        texts.iter().map(std::path::PathBuf::from).collect();
    expected.sort();
    let sorted: Vec<std::path::PathBuf> =
        sorted.iter().map(|path| std::path::PathBuf::from(&path.text)).collect();
    let spelled: Vec<&str> = sorted.iter().map(|path| path.to_str().expect("text")).collect();
    assert_eq!(sorted, expected);
    assert_eq!(spelled, vec!["/a", "/a/c", "/a//c", "/a b", "/b", "x"]);
}

#[test]
fn updates_are_announced() {
    let cell = UpdateAvailableHistoryCell::new("9.9.9".to_string(), Some("npm i".to_string()));
    assert_eq!(
        cell.raw_lines(),
        vec![
            "Update available!",
            "0.144.0 -> 9.9.9",
            "Run npm i to update.",
            "",
            "See full release notes:",
            "https://github.com/openai/codex/releases/latest",
        ]
    );
    let cell = UpdateAvailableHistoryCell::new("9.9.9".to_string(), None);
    assert_eq!(
        cell.raw_lines()[2],
        "See https://github.com/openai/codex for installation options."
    );
    let lines = cell.content_lines();
    assert_eq!(plain(&lines[0]), "✨\u{200A}Update available! 0.144.0 -> 9.9.9");
    assert_eq!(bordered_inner_width(10, 80), 10);
    assert_eq!(bordered_inner_width(100, 80), 76);
    assert_eq!(bordered_inner_width(0, 2), 1);
    assert_eq!(width_within(10, 4), 6);
    assert_eq!(width_within(3, 4), 1);
}

#[test]
fn notices_say_what_they_should() {
    let warning = new_warning_event("careful".to_string());
    assert_eq!(warning.first_prefix.text, "⚠ ");
    assert_eq!(warning.message.text, "careful");
    assert_eq!(plain(&new_info_event("hi".to_string(), None)), "• hi");
    assert_eq!(plain(&new_info_event("hi".to_string(), Some("more".to_string()))), "• hi more");
    assert_eq!(plain(&new_error_event("bad".to_string())), "■ bad");
    let notice = new_deprecation_notice("old".to_string(), Some("use new".to_string()));
    assert_eq!(plain(&notice.summary_line()), "⚠ old");
    let biology = new_safety_access_block_event();
    assert!(biology.body.contains("biological research"));
    assert_eq!(biology.raw_lines()[0], "This content can't be shown");
    assert!(new_cyber_policy_error_event().body.contains("cybersecurity"));
}

#[test]
fn notifications_are_found_in_messages() {
    assert_eq!(find_case_insensitive("éxA<TAG>", "<tag>"), Some(4));
    assert_eq!(find_case_insensitive("é<", "<"), Some(2));
    assert_eq!(find_case_insensitive("\u{20ac}\u{1f600}aB", "Ab"), Some(7));
    assert_eq!(find_case_insensitive("<TAG><tag>", "<tag>"), Some(0));
    assert_eq!(find_case_insensitive("abc", "<tag>"), None);
    for message in ["éxA<TAG>", "<tag>", "\u{1f600}<Tag> <tag>", ""] {
        assert_eq!(
            find_case_insensitive(message, "<tag>"),
            message.to_ascii_lowercase().find("<tag>")
        );
    }
    let found = |message: &str| match extract_subagent_notification(message, None) {
        ExtractStep::Done(body) => body,
        ExtractStep::Descend(_) => panic!("nothing to descend into"),
    };
    assert_eq!(
        found(" pre <Subagent_Notification> {\"a\":1} </SUBAGENT_notification> post"),
        Some("{\"a\":1}".to_string())
    );
    assert_eq!(found("<subagent_notification> open"), None);
    assert_eq!(found("</subagent_notification><subagent_notification>"), None);
    assert!(matches!(
        extract_subagent_notification("x", Some("inner".to_string())),
        ExtractStep::Descend(content) if content == "inner"
    ));
}

#[test]
fn subagent_notices_show_status_and_detail() {
    let cell = new_subagent_notification_event(
        "/root/a".to_string(),
        AgentStatus::Completed(Some("result".to_string())),
    );
    assert_eq!(plain(&cell.header_line()), "• Subagent completed: /root/a");
    let raw = vec!["one".to_string(), "two".to_string()];
    let lines = cell.detail_raw_lines(&raw);
    assert_eq!(plain(&lines[0]), "  └ one");
    assert_eq!(plain(&lines[1]), "    two");
    assert_eq!(lines.len(), 2);
    let lines = cell.display_lines(&vec![], &raw);
    assert_eq!(plain(&lines[0]), "• Subagent completed: /root/a");
    assert_eq!(plain(&lines[1]), "  └ one");
    assert_eq!(lines.len(), 3);
    let quiet = new_subagent_notification_event(
        "/root/a".to_string(),
        AgentStatus::Completed(Some("  ".to_string())),
    );
    assert_eq!(quiet.detail, None);
    assert_eq!(quiet.detail_raw_lines(&raw).len(), 0);
    assert_eq!(quiet.display_lines(&vec![], &raw).len(), 1);
    let errored = new_subagent_notification_event(
        "/root/a".to_string(),
        AgentStatus::Errored("boom".to_string()),
    );
    assert_eq!((errored.title, errored.detail.as_deref()), ("Subagent errored", Some("boom")));
}

#[test]
fn rendered_details_keep_their_styles() {
    let cell = new_subagent_notification_event(
        "/root/a".to_string(),
        AgentStatus::Completed(Some("**result**".to_string())),
    );
    let rendered = vec![
        single_line("result".to_string(), TextStyle::bold()),
        single_line("more".to_string(), TextStyle::plain()),
    ];
    let raw = vec!["**result**".to_string()];
    let lines = cell.detail_display_lines(&rendered, &raw);
    assert_eq!(plain(&lines[0]), "  └ result");
    assert_eq!(plain(&lines[1]), "    more");
    assert_eq!(lines[0][0].style, TextStyle::dim());
    assert_eq!(lines[0][1].style, TextStyle::bold());
    assert_eq!(lines.len(), 2);
    let lines = cell.detail_display_lines(&vec![], &raw);
    assert_eq!(plain(&lines[0]), "  └ **result**");
}

#[test]
fn byte_offsets_are_those_of_the_standard_library() {
    for text in TEXTS {
        let places: Vec<usize> = text.char_indices().map(|(at, _)| at).collect();
        for (chars, at) in places.iter().enumerate() {
            assert_eq!(byte_offset(text, chars), *at, "{text}");
        }
        assert_eq!(byte_offset(text, places.len()), text.len());
    }
}

#[test]
fn details_are_handed_on_trimmed() {
    let cell = new_subagent_notification_event(
        "/root/a".to_string(),
        AgentStatus::Errored(" boom\n more \n\n".to_string()),
    );
    assert_eq!(cell.detail_to_render().as_deref(), Some("boom\n more"));
    assert_eq!(cell.detail_to_split().as_deref(), Some(" boom\n more"));
    let running = new_subagent_notification_event("/root/a".to_string(), AgentStatus::Running);
    assert_eq!(running.detail_to_render(), None);
    assert_eq!(running.detail_to_split(), None);
    let raw = vec![" boom".to_string(), " more".to_string()];
    let lines = cell.raw_lines(&raw);
    assert_eq!(lines.len(), 3);
    assert_eq!(plain(&lines[0]), "• Subagent errored: /root/a");
    assert_eq!(lines[0].len(), 1);
    assert_eq!(lines[0][0].style, TextStyle::plain());
    assert_eq!(plain(&lines[1]), "  └  boom");
    assert_eq!(running.raw_lines(&raw).len(), 1);
    for text in TEXTS {
        assert_eq!(trimmed_end(text), text.trim_end());
    }
}

#[test]
fn deprecation_notices_show_their_details() {
    let notice = new_deprecation_notice("old".to_string(), Some("use new".to_string()));
    let lines = notice.content_lines();
    assert_eq!(lines.len(), 2);
    assert_eq!(plain(&lines[0]), "⚠ old");
    assert_eq!(plain(&lines[1]), "use new");
    assert_eq!(lines[1][0].style, TextStyle::dim());
    assert_eq!(new_deprecation_notice("old".to_string(), None).content_lines().len(), 1);
}
