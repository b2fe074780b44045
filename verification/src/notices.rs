//! Notices in the history of a conversation.

use vstd::prelude::*;
use crate::agent::AgentStatus;
use crate::styled::{
    bold_style, color_style, dim_style, line_view, lines_view, plain_style, push_line, push_text,
    single_line, StyledLine, StyledText, StyledView, TextColor, TextStyle,
};
use crate::text::{
    ascii_lowered, blank, byte_len, byte_offset, find_text, is_blank, occurs_at, opt_text, texts,
    to_ascii_lowered, trim, trim_end, trimmed, trimmed_end,
};
use crate::version::CODEX_CLI_VERSION;

verus! {

fn add_text(list: &mut Vec<String>, text: String)
    ensures
        texts(final(list)@) == texts(old(list)@).push(text@),
{
    list.push(text);
    assert(texts(list@) =~= texts(old(list)@).push(text@));
}

/// That a newer version is there.
#[derive(Debug)]
pub struct UpdateAvailableHistoryCell {
    pub latest_version: String,
    /// The command that updates, where one is known.
    pub update_command: Option<String>,
}

/// What to do about a newer version.
pub open spec fn update_instruction(command: Option<Seq<char>>) -> Seq<char> {
    match command {
        Some(command) => "Run "@ + command + " to update."@,
        None => "See https://github.com/openai/codex for installation options."@,
    }
}

impl UpdateAvailableHistoryCell {
    /// That a newer version is there.
    pub fn new(latest_version: String, update_command: Option<String>) -> (result:
        UpdateAvailableHistoryCell)
        ensures
            result == (UpdateAvailableHistoryCell { latest_version, update_command }),
    {
        UpdateAvailableHistoryCell { latest_version, update_command }
    }

    /// The lines of the notice as plain text.
    pub fn raw_lines(&self) -> (result: Vec<String>)
        ensures
            texts(result@) == seq![
                "Update available!"@,
                CODEX_CLI_VERSION@ + " -> "@ + self.latest_version@,
                update_instruction(opt_text(self.update_command)),
                ""@,
                "See full release notes:"@,
                "https://github.com/openai/codex/releases/latest"@,
            ],
    {
        let instruction = match &self.update_command {
            Some(command) => "Run ".to_owned().concat(command.as_str()).concat(" to update."),
            None => "See https://github.com/openai/codex for installation options.".to_owned(),
        };
        let mut lines: Vec<String> = Vec::new();
        add_text(&mut lines, "Update available!".to_owned());
        add_text(
            &mut lines,
            CODEX_CLI_VERSION.to_owned().concat(" -> ").concat(self.latest_version.as_str()),
        );
        add_text(&mut lines, instruction);
        add_text(&mut lines, "".to_owned());
        add_text(&mut lines, "See full release notes:".to_owned());
        add_text(&mut lines, "https://github.com/openai/codex/releases/latest".to_owned());
        assert(texts(lines@) =~= seq![
            "Update available!"@,
            CODEX_CLI_VERSION@ + " -> "@ + self.latest_version@,
            update_instruction(opt_text(self.update_command)),
            ""@,
            "See full release notes:"@,
            "https://github.com/openai/codex/releases/latest"@,
        ]);
        lines
    }

    /// The lines of the notice before they are broken to fit.
    pub fn content_lines(&self) -> (result: Vec<StyledLine>)
        ensures
            lines_view(result@) == update_content_view(
                self.latest_version@,
                opt_text(self.update_command),
            ),
    {
        let mut bold_cyan = TextStyle::color(TextColor::Cyan);
        bold_cyan.bold = true;
        let mut link = TextStyle::color(TextColor::Cyan);
        link.underlined = true;
        let mut title: StyledLine = Vec::new();
        push_text(&mut title, "✨\u{200A}".to_owned(), bold_cyan);
        push_text(&mut title, "Update available!".to_owned(), bold_cyan);
        push_text(&mut title, " ".to_owned(), TextStyle::plain());
        push_text(
            &mut title,
            CODEX_CLI_VERSION.to_owned().concat(" -> ").concat(self.latest_version.as_str()),
            TextStyle::bold(),
        );
        let mut instruction: StyledLine = Vec::new();
        match &self.update_command {
            Some(command) => {
                push_text(&mut instruction, "Run ".to_owned(), TextStyle::plain());
                push_text(&mut instruction, command.clone(), TextStyle::color(TextColor::Cyan));
                push_text(&mut instruction, " to update.".to_owned(), TextStyle::plain());
            },
            None => {
                push_text(&mut instruction, "See ".to_owned(), TextStyle::plain());
                push_text(&mut instruction, "https://github.com/openai/codex".to_owned(), link);
                push_text(
                    &mut instruction,
                    " for installation options.".to_owned(),
                    TextStyle::plain(),
                );
            },
        }
        let ghost goal = update_content_view(self.latest_version@, opt_text(self.update_command));
        assert(line_view(title) =~= goal[0]);
        assert(line_view(instruction) =~= goal[1]);
        let mut lines: Vec<StyledLine> = Vec::new();
        push_line(&mut lines, title);
        push_line(&mut lines, instruction);
        push_line(&mut lines, single_line("".to_owned(), TextStyle::plain()));
        push_line(
            &mut lines,
            single_line("See full release notes:".to_owned(), TextStyle::plain()),
        );
        push_line(
            &mut lines,
            single_line("https://github.com/openai/codex/releases/latest".to_owned(), link),
        );
        assert(lines_view(lines@) =~= goal);
        lines
    }
}

/// The style of a link.
pub open spec fn link_style() -> TextStyle {
    TextStyle { underlined: true, ..color_style(TextColor::Cyan) }
}

/// The lines of the notice that a newer version is there.
pub open spec fn update_content_view(
    latest_version: Seq<char>,
    command: Option<Seq<char>>,
) -> Seq<Seq<StyledView>> {
    let bold_cyan = TextStyle { bold: true, ..color_style(TextColor::Cyan) };
    seq![
        seq![
            ("✨\u{200A}"@, bold_cyan),
            ("Update available!"@, bold_cyan),
            (" "@, plain_style()),
            (CODEX_CLI_VERSION@ + " -> "@ + latest_version, bold_style()),
        ],
        match command {
            Some(command) => seq![
                ("Run "@, plain_style()),
                (command, color_style(TextColor::Cyan)),
                (" to update."@, plain_style()),
            ],
            None => seq![
                ("See "@, plain_style()),
                ("https://github.com/openai/codex"@, link_style()),
                (" for installation options."@, plain_style()),
            ],
        },
        seq![(""@, plain_style())],
        seq![("See full release notes:"@, plain_style())],
        seq![("https://github.com/openai/codex/releases/latest"@, link_style())],
    ]
}

/// The width inside a border: that of the content, as far as there is room,
/// and at least one.
pub fn bordered_inner_width(content_width: usize, width: u16) -> (result: usize)
    ensures
        ({
            let room: int = if width >= 4 {
                width - 4
            } else {
                0
            };
            let fit: int = if content_width <= room {
                content_width as int
            } else {
                room
            };
            result == (if fit < 1 {
                1
            } else {
                fit
            })
        }),
{
    let room: usize = width.saturating_sub(4) as usize;
    let fit: usize = if content_width <= room {
        content_width
    } else {
        room
    };
    if fit < 1 {
        1
    } else {
        fit
    }
}

/// The width that is left when a margin is taken off, at least one.
pub fn width_within(width: u16, margin: u16) -> (result: usize)
    ensures
        result == (if width as int - margin as int >= 1 {
            width as int - margin as int
        } else {
            1
        }),
{
    let rest: u16 = width.saturating_sub(margin);
    if rest < 1 {
        1
    } else {
        rest as usize
    }
}

/// A message with a prefix for its first line and one for the others.
#[derive(Debug)]
pub struct PrefixedNotice {
    pub message: StyledText,
    pub first_prefix: StyledText,
    pub other_prefix: StyledText,
}

/// A warning.
pub fn new_warning_event(message: String) -> (result: PrefixedNotice)
    ensures
        result.message@ == (message@, color_style(TextColor::Yellow)),
        result.first_prefix@ == ("⚠ "@, color_style(TextColor::Yellow)),
        result.other_prefix@ == ("  "@, plain_style()),
{
    PrefixedNotice {
        message: StyledText { text: message, style: TextStyle::color(TextColor::Yellow) },
        first_prefix: StyledText {
            text: "⚠ ".to_owned(),
            style: TextStyle::color(TextColor::Yellow),
        },
        other_prefix: StyledText { text: "  ".to_owned(), style: TextStyle::plain() },
    }
}

/// That something is not shown for safety's sake.
#[derive(Clone, Copy, Debug)]
pub struct SafetyAccessBlockCell {
    pub body: &'static str,
    pub trusted_access_url: &'static str,
}

/// The title of the notice that something is not shown.
pub const SAFETY_ACCESS_BLOCK_TITLE: &'static str = "This content can't be shown";

/// Where more is said of what is not shown.
pub const SAFETY_ACCESS_BLOCK_LEARN_MORE_URL: &'static str = "https://help.openai.com/en/articles/20001326";

/// That something on biology is not shown.
pub fn new_safety_access_block_event() -> (result: SafetyAccessBlockCell)
    ensures
        result.body@
            == "We take extra caution with requests involving biological research and applications that could pose safety risks. Eligible researchers can apply for Trusted Access."@,
        result.trusted_access_url@
            == "https://www.openai.com/form/trusted-access-for-biology-research/"@,
{
    SafetyAccessBlockCell {
        body:
            "We take extra caution with requests involving biological research and applications that could pose safety risks. Eligible researchers can apply for Trusted Access.",
        trusted_access_url: "https://www.openai.com/form/trusted-access-for-biology-research/",
    }
}

/// That something on security is not shown.
pub fn new_cyber_policy_error_event() -> (result: SafetyAccessBlockCell)
    ensures
        result.body@
            == "We take extra caution with cybersecurity requests. If you’re a security professional, you may be able to apply for Trusted Access."@,
        result.trusted_access_url@
            == "https://openai.com/form/enterprise-trusted-access-for-cyber/"@,
{
    SafetyAccessBlockCell {
        body:
            "We take extra caution with cybersecurity requests. If you’re a security professional, you may be able to apply for Trusted Access.",
        trusted_access_url: "https://openai.com/form/enterprise-trusted-access-for-cyber/",
    }
}

impl SafetyAccessBlockCell {
    /// The lines of the notice as plain text.
    pub fn raw_lines(&self) -> (result: Vec<String>)
        ensures
            texts(result@) == seq![
                "This content can't be shown"@,
                self.body@,
                "Trusted Access: "@ + self.trusted_access_url@,
                "Learn more: "@ + "https://help.openai.com/en/articles/20001326"@,
            ],
    {
        let mut lines: Vec<String> = Vec::new();
        add_text(&mut lines, "This content can't be shown".to_owned());
        add_text(&mut lines, self.body.to_owned());
        add_text(&mut lines, "Trusted Access: ".to_owned().concat(self.trusted_access_url));
        add_text(
            &mut lines,
            "Learn more: ".to_owned().concat("https://help.openai.com/en/articles/20001326"),
        );
        assert(texts(lines@) =~= seq![
            "This content can't be shown"@,
            self.body@,
            "Trusted Access: "@ + self.trusted_access_url@,
            "Learn more: "@ + "https://help.openai.com/en/articles/20001326"@,
        ]);
        lines
    }

    /// The lines of the notice before they are broken to fit: the title, the
    /// body and two links.
    pub fn content_lines(&self) -> (result: Vec<StyledLine>)
        ensures
            lines_view(result@) == seq![
                seq![
                    ("ⓘ "@, color_style(TextColor::Cyan)),
                    ("This content can't be shown"@, bold_style()),
                ],
                seq![("  "@, plain_style()), (self.body@, dim_style())],
                seq![
                    ("  Trusted Access: "@, dim_style()),
                    (self.trusted_access_url@, link_style()),
                ],
                seq![
                    ("  Learn more: "@, dim_style()),
                    ("https://help.openai.com/en/articles/20001326"@, link_style()),
                ],
            ],
    {
        let mut link = TextStyle::color(TextColor::Cyan);
        link.underlined = true;
        let mut title: StyledLine = Vec::new();
        push_text(&mut title, "ⓘ ".to_owned(), TextStyle::color(TextColor::Cyan));
        push_text(&mut title, "This content can't be shown".to_owned(), TextStyle::bold());
        assert(line_view(title) =~= seq![
            ("ⓘ "@, color_style(TextColor::Cyan)),
            ("This content can't be shown"@, bold_style()),
        ]);
        let mut body: StyledLine = Vec::new();
        push_text(&mut body, "  ".to_owned(), TextStyle::plain());
        push_text(&mut body, self.body.to_owned(), TextStyle::dim());
        assert(line_view(body) =~= seq![("  "@, plain_style()), (self.body@, dim_style())]);
        let mut access: StyledLine = Vec::new();
        push_text(&mut access, "  Trusted Access: ".to_owned(), TextStyle::dim());
        push_text(&mut access, self.trusted_access_url.to_owned(), link);
        assert(line_view(access) =~= seq![
            ("  Trusted Access: "@, dim_style()),
            (self.trusted_access_url@, link_style()),
        ]);
        let mut more: StyledLine = Vec::new();
        push_text(&mut more, "  Learn more: ".to_owned(), TextStyle::dim());
        push_text(
            &mut more,
            "https://help.openai.com/en/articles/20001326".to_owned(),
            link,
        );
        assert(line_view(more) =~= seq![
            ("  Learn more: "@, dim_style()),
            ("https://help.openai.com/en/articles/20001326"@, link_style()),
        ]);
        let mut lines: Vec<StyledLine> = Vec::new();
        push_line(&mut lines, title);
        push_line(&mut lines, body);
        push_line(&mut lines, access);
        push_line(&mut lines, more);
        assert(lines_view(lines@) =~= seq![
            seq![
                ("ⓘ "@, color_style(TextColor::Cyan)),
                ("This content can't be shown"@, bold_style()),
            ],
            seq![("  "@, plain_style()), (self.body@, dim_style())],
            seq![
                ("  Trusted Access: "@, dim_style()),
                (self.trusted_access_url@, link_style()),
            ],
            seq![
                ("  Learn more: "@, dim_style()),
                ("https://help.openai.com/en/articles/20001326"@, link_style()),
            ],
        ]);
        lines
    }
}

/// That something should not be used any more.
#[derive(Debug)]
pub struct DeprecationNoticeCell {
    pub summary: String,
    pub details: Option<String>,
}

/// That something should not be used any more.
pub fn new_deprecation_notice(summary: String, details: Option<String>) -> (result:
    DeprecationNoticeCell)
    ensures
        result == (DeprecationNoticeCell { summary, details }),
{
    DeprecationNoticeCell { summary, details }
}

impl DeprecationNoticeCell {
    /// The first line of the notice.
    pub fn summary_line(&self) -> (result: StyledLine)
        ensures
            line_view(result) == seq![
                ("⚠ "@, TextStyle { bold: true, ..color_style(TextColor::Red) }),
                (self.summary@, color_style(TextColor::Red)),
            ],
    {
        let mut mark = TextStyle::color(TextColor::Red);
        mark.bold = true;
        let mut line: StyledLine = Vec::new();
        push_text(&mut line, "⚠ ".to_owned(), mark);
        push_text(&mut line, self.summary.clone(), TextStyle::color(TextColor::Red));
        assert(line_view(line) =~= seq![
            ("⚠ "@, TextStyle { bold: true, ..color_style(TextColor::Red) }),
            (self.summary@, color_style(TextColor::Red)),
        ]);
        line
    }

    /// The lines of the notice before they are broken to fit: the summary, and
    /// the details below it where there are any.
    pub fn content_lines(&self) -> (result: Vec<StyledLine>)
        ensures
            lines_view(result@) == seq![
                seq![
                    ("⚠ "@, TextStyle { bold: true, ..color_style(TextColor::Red) }),
                    (self.summary@, color_style(TextColor::Red)),
                ],
            ] + (match opt_text(self.details) {
                Some(details) => seq![seq![(details, dim_style())]],
                None => Seq::empty(),
            }),
    {
        let mut lines: Vec<StyledLine> = Vec::new();
        push_line(&mut lines, self.summary_line());
        let ghost head = lines_view(lines@);
        assert(head =~= seq![head[0]]);
        if let Some(details) = &self.details {
            push_line(&mut lines, single_line(details.clone(), TextStyle::dim()));
            assert(lines_view(lines@) =~= head + seq![seq![(details@, dim_style())]]);
        } else {
            assert(lines_view(lines@) =~= head + Seq::<Seq<StyledView>>::empty());
        }
        lines
    }

    /// The lines of the notice as plain text, given the lines of its details.
    pub fn raw_lines(&self, detail_lines: Vec<String>) -> (result: Vec<String>)
        ensures
            texts(result@) == (if self.details is Some {
                seq![self.summary@] + texts(detail_lines@)
            } else {
                seq![self.summary@]
            }),
    {
        let mut lines: Vec<String> = Vec::new();
        add_text(&mut lines, self.summary.clone());
        assert(texts(lines@) =~= seq![self.summary@]);
        if self.details.is_some() {
            let mut detail_lines = detail_lines;
            let ghost added = detail_lines@;
            lines.append(&mut detail_lines);
            assert(texts(lines@) =~= seq![self.summary@] + texts(added));
        }
        lines
    }
}

/// A piece of information, with a hint behind it.
pub fn new_info_event(message: String, hint: Option<String>) -> (result: StyledLine)
    ensures
        line_view(result) == (match hint {
            Some(hint) => seq![
                ("• "@, dim_style()),
                (message@, plain_style()),
                (" "@, plain_style()),
                (hint@, color_style(TextColor::DarkGray)),
            ],
            None => seq![("• "@, dim_style()), (message@, plain_style())],
        }),
{
    let ghost said = message@;
    let ghost hinted = opt_text(hint);
    let mut line: StyledLine = Vec::new();
    push_text(&mut line, "• ".to_owned(), TextStyle::dim());
    push_text(&mut line, message, TextStyle::plain());
    if let Some(hint) = hint {
        push_text(&mut line, " ".to_owned(), TextStyle::plain());
        push_text(&mut line, hint, TextStyle::color(TextColor::DarkGray));
    }
    assert(line_view(line) =~= match hinted {
        Some(hint) => seq![
            ("• "@, dim_style()),
            (said, plain_style()),
            (" "@, plain_style()),
            (hint, color_style(TextColor::DarkGray)),
        ],
        None => seq![("• "@, dim_style()), (said, plain_style())],
    });
    line
}

/// An error.
pub fn new_error_event(message: String) -> (result: StyledLine)
    ensures
        line_view(result) == seq![("■ "@ + message@, color_style(TextColor::Red))],
{
    single_line(
        "■ ".to_owned().concat(message.as_str()),
        TextStyle::color(TextColor::Red),
    )
}

/// The tag before the notification of a sub-agent.
pub const SUBAGENT_NOTIFICATION_OPEN_TAG: &'static str = "<subagent_notification>";

/// The tag behind the notification of a sub-agent.
pub const SUBAGENT_NOTIFICATION_CLOSE_TAG: &'static str = "</subagent_notification>";

/// The first place at which one text stands in another, whatever the case of
/// ASCII letters.
pub open spec fn is_first_place(haystack: Seq<char>, needle: Seq<char>, at: int) -> bool {
    occurs_at(ascii_lowered(haystack), ascii_lowered(needle), at) && forall|j: int|
        0 <= j < at ==> !(#[trigger] occurs_at(
            ascii_lowered(haystack),
            ascii_lowered(needle),
            j,
        ))
}

/// One text stands nowhere in another, whatever the case of ASCII letters.
pub open spec fn is_nowhere(haystack: Seq<char>, needle: Seq<char>) -> bool {
    forall|j: int| !(#[trigger] occurs_at(ascii_lowered(haystack), ascii_lowered(needle), j))
}

/// How many characters stand before the first place at which one text stands
/// in another, whatever the case of ASCII letters.
fn find_place(haystack: &str, needle: &str) -> (result: Option<usize>)
    ensures
        match result {
            Some(at) => is_first_place(haystack@, needle@, at as int) && at + needle@.len()
                <= haystack@.len(),
            None => is_nowhere(haystack@, needle@),
        },
{
    let text = to_ascii_lowered(haystack);
    let part = to_ascii_lowered(needle);
    find_text(text.as_str(), part.as_str())
}

/// How many bytes stand before the first place at which one text stands in
/// another, whatever the case of ASCII letters.
pub fn find_case_insensitive(haystack: &str, needle: &str) -> (result: Option<usize>)
    ensures
        match result {
            Some(offset) => exists|at: int|
                0 <= at <= haystack@.len() && #[trigger] is_first_place(haystack@, needle@, at)
                    && offset == byte_len(haystack@.take(at)),
            None => is_nowhere(haystack@, needle@),
        },
{
    match find_place(haystack, needle) {
        Some(at) => Some(byte_offset(haystack, at)),
        None => None,
    }
}

/// A text holds the given body between the tags of a notification: what
/// stands between the first opening tag and the first closing tag behind it,
/// trimmed.
pub open spec fn has_body(text: Seq<char>, body: Seq<char>) -> bool {
    exists|start: int, end: int|
        #![trigger is_body_range(text, start, end)]
        is_body_range(text, start, end) && body == trim(text.subrange(start, end))
}

/// The body of a notification stands at the given places of a text.
pub open spec fn is_body_range(text: Seq<char>, start: int, end: int) -> bool {
    let open = "<subagent_notification>"@;
    let close = "</subagent_notification>"@;
    &&& 0 <= start <= end <= text.len()
    &&& is_first_place(text, open, start - open.len())
    &&& is_first_place(text.skip(start), close, end - start)
}

/// A text holds no body of a notification.
pub open spec fn has_no_body(text: Seq<char>) -> bool {
    let open = "<subagent_notification>"@;
    let close = "</subagent_notification>"@;
    is_nowhere(text, open) || exists|at: int|
        #![trigger is_first_place(text, open, at)]
        is_first_place(text, open, at) && is_nowhere(text.skip(at + open.len()), close)
}

/// What is done to find a notification in a message.
#[derive(Debug)]
pub enum ExtractStep {
    /// The message is one between agents; look into its content.
    Descend(String),
    /// The body of the notification, if there is one.
    Done(Option<String>),
}

/// What is done to find a notification in a message, given the content of the
/// message between agents that it spells, if it spells one.
pub fn extract_subagent_notification(message: &str, communication: Option<String>) -> (result:
    ExtractStep)
    ensures
        match communication {
            Some(content) => result == ExtractStep::Descend(content),
            None => match result {
                ExtractStep::Done(Some(body)) => has_body(trim(message@), body@),
                ExtractStep::Done(None) => has_no_body(trim(message@)),
                ExtractStep::Descend(_) => false,
            },
        },
{
    if let Some(content) = communication {
        return ExtractStep::Descend(content);
    }
    let text = trimmed(message);
    let ghost all = text@;
    let open = "<subagent_notification>";
    let close = "</subagent_notification>";
    let at: usize = match find_place(text, open) {
        Some(at) => at,
        None => {
            return ExtractStep::Done(None);
        },
    };
    let len: usize = text.unicode_len();
    let start: usize = at + open.unicode_len();
    let rest = text.substring_char(start, len);
    assert(rest@ =~= all.skip(start as int));
    let offset: usize = match find_place(rest, close) {
        Some(offset) => offset,
        None => {
            assert(is_first_place(all, open@, at as int));
            return ExtractStep::Done(None);
        },
    };
    let end: usize = start + offset;
    let inner = text.substring_char(start, end);
    assert(is_body_range(all, start as int, end as int));
    ExtractStep::Done(Some(trimmed(inner).to_owned()))
}

/// That something changed about a sub-agent.
#[derive(Debug)]
pub struct SubagentNotificationHistoryCell {
    pub title: &'static str,
    pub agent_reference: String,
    pub detail: Option<String>,
}

/// What is said of a sub-agent with the given status.
pub open spec fn status_title(status: AgentStatus) -> Seq<char> {
    match status {
        AgentStatus::PendingInit => "Subagent pending init"@,
        AgentStatus::Running => "Subagent running"@,
        AgentStatus::Interrupted => "Subagent interrupted"@,
        AgentStatus::Completed(_) => "Subagent completed"@,
        AgentStatus::Errored(_) => "Subagent errored"@,
        AgentStatus::Shutdown => "Subagent shutdown"@,
        AgentStatus::NotFound => "Subagent not found"@,
    }
}

/// What a sub-agent with the given status says: its last message, unless that
/// is blank, or its error.
pub open spec fn status_detail(status: AgentStatus) -> Option<Seq<char>> {
    match status {
        AgentStatus::Completed(Some(message)) if !is_blank(message@) => Some(message@),
        AgentStatus::Errored(message) => Some(message@),
        _ => None,
    }
}

/// The notice of a sub-agent's notification, which says how the sub-agent is
/// referred to and what its status is.
pub fn new_subagent_notification_event(agent_reference: String, status: AgentStatus) -> (result:
    SubagentNotificationHistoryCell)
    ensures
        result.title@ == status_title(status),
        result.agent_reference == agent_reference,
        opt_text(result.detail) == status_detail(status),
{
    let title = match &status {
        AgentStatus::PendingInit => "Subagent pending init",
        AgentStatus::Running => "Subagent running",
        AgentStatus::Interrupted => "Subagent interrupted",
        AgentStatus::Completed(_) => "Subagent completed",
        AgentStatus::Errored(_) => "Subagent errored",
        AgentStatus::Shutdown => "Subagent shutdown",
        AgentStatus::NotFound => "Subagent not found",
    };
    let detail = match status {
        AgentStatus::Completed(Some(message)) => {
            if blank(message.as_str()) {
                None
            } else {
                Some(message)
            }
        },
        AgentStatus::Errored(message) => Some(message),
        _ => None,
    };
    SubagentNotificationHistoryCell { title, agent_reference, detail }
}

/// Lines with a prefix each, one for the first and one for the others.
pub open spec fn prefixed(
    lines: Seq<Seq<StyledView>>,
    first: StyledView,
    other: StyledView,
) -> Seq<Seq<StyledView>> {
    Seq::new(
        lines.len(),
        |i: int|
            seq![
                if i == 0 {
                    first
                } else {
                    other
                },
            ] + lines[i],
    )
}

/// Lines of plain text.
pub open spec fn plain_lines(lines: Seq<Seq<char>>) -> Seq<Seq<StyledView>> {
    Seq::new(lines.len(), |i: int| seq![(lines[i], plain_style())])
}

/// Lines set off below the line that they belong to.
pub open spec fn set_off(lines: Seq<Seq<StyledView>>) -> Seq<Seq<StyledView>> {
    prefixed(lines, ("  └ "@, dim_style()), ("    "@, plain_style()))
}

/// Lines of plain text.
fn to_plain_lines(lines: &Vec<String>) -> (result: Vec<StyledLine>)
    ensures
        lines_view(result@) == plain_lines(texts(lines@)),
{
    let ghost goal = plain_lines(texts(lines@));
    let mut result: Vec<StyledLine> = Vec::new();
    let mut i: usize = 0;
    assert(lines_view(result@) =~= goal.take(0));
    while i < lines.len()
        invariant
            i <= lines.len(),
            goal == plain_lines(texts(lines@)),
            lines_view(result@) == goal.take(i as int),
        decreases lines.len() - i,
    {
        push_line(&mut result, single_line(lines[i].clone(), TextStyle::plain()));
        assert(goal.take(i + 1) =~= goal.take(i as int).push(goal[i as int]));
        i += 1;
    }
    assert(goal.take(i as int) =~= goal);
    result
}

/// Sets lines off below the line that they belong to, each with its styles.
fn prefix_lines(lines: &Vec<StyledLine>) -> (result: Vec<StyledLine>)
    ensures
        lines_view(result@) == set_off(lines_view(lines@)),
{
    let ghost all = lines_view(lines@);
    let ghost goal = set_off(all);
    let mut result: Vec<StyledLine> = Vec::new();
    let mut i: usize = 0;
    assert(lines_view(result@) =~= goal.take(0));
    while i < lines.len()
        invariant
            i <= lines.len(),
            all == lines_view(lines@),
            goal == set_off(all),
            lines_view(result@) == goal.take(i as int),
        decreases lines.len() - i,
    {
        let mut line: StyledLine = Vec::new();
        if i == 0 {
            push_text(&mut line, "  └ ".to_owned(), TextStyle::dim());
        } else {
            push_text(&mut line, "    ".to_owned(), TextStyle::plain());
        }
        let source = &lines[i];
        let ghost head = line_view(line);
        let ghost pieces = line_view(*source);
        let mut j: usize = 0;
        assert(head + pieces.take(0) =~= head);
        while j < source.len()
            invariant
                j <= source.len(),
                pieces == line_view(*source),
                line_view(line) == head + pieces.take(j as int),
            decreases source.len() - j,
        {
            push_text(&mut line, source[j].text.clone(), source[j].style);
            assert(pieces[j as int] == source@[j as int]@);
            assert(head + pieces.take(j + 1) =~= (head + pieces.take(j as int)).push(
                pieces[j as int],
            ));
            j += 1;
        }
        assert(pieces.take(j as int) =~= pieces);
        assert(all[i as int] == pieces);
        assert(line_view(line) =~= goal[i as int]);
        push_line(&mut result, line);
        assert(goal.take(i + 1) =~= goal.take(i as int).push(goal[i as int]));
        i += 1;
    }
    assert(goal.take(i as int) =~= goal);
    result
}

impl SubagentNotificationHistoryCell {
    /// The first line of the notice.
    pub fn header_line(&self) -> (result: StyledLine)
        ensures
            line_view(result) == seq![
                ("• "@, dim_style()),
                (self.title@, bold_style()),
                (": "@, dim_style()),
                (self.agent_reference@, plain_style()),
            ],
    {
        let mut line: StyledLine = Vec::new();
        push_text(&mut line, "• ".to_owned(), TextStyle::dim());
        push_text(&mut line, self.title.to_owned(), TextStyle::bold());
        push_text(&mut line, ": ".to_owned(), TextStyle::dim());
        push_text(&mut line, self.agent_reference.clone(), TextStyle::plain());
        assert(line_view(line) =~= seq![
            ("• "@, dim_style()),
            (self.title@, bold_style()),
            (": "@, dim_style()),
            (self.agent_reference@, plain_style()),
        ]);
        line
    }

    /// The lines of the detail below the first line: as they are rendered, or
    /// the lines of its source where nothing was rendered that could be seen;
    /// nothing where there is no detail.
    pub fn detail_display_lines(&self, rendered: &Vec<StyledLine>, raw: &Vec<String>) -> (result: Vec<
        StyledLine,
    >)
        ensures
            lines_view(result@) == (if self.detail is None {
                Seq::empty()
            } else if rendered@.len() > 0 {
                set_off(lines_view(rendered@))
            } else {
                set_off(plain_lines(texts(raw@)))
            }),
    {
        if self.detail.is_none() {
            let none: Vec<StyledLine> = Vec::new();
            assert(lines_view(none@) =~= Seq::<Seq<StyledView>>::empty());
            return none;
        }
        if rendered.len() > 0 {
            prefix_lines(rendered)
        } else {
            prefix_lines(&to_plain_lines(raw))
        }
    }

    /// The lines of the detail's source below the first line; nothing where
    /// there is no detail.
    pub fn detail_raw_lines(&self, raw: &Vec<String>) -> (result: Vec<StyledLine>)
        ensures
            lines_view(result@) == (if self.detail is None {
                Seq::empty()
            } else {
                set_off(plain_lines(texts(raw@)))
            }),
    {
        let none: Vec<StyledLine> = Vec::new();
        self.detail_display_lines(&none, raw)
    }

    /// The whole notice: its first line and the lines of its detail.
    pub fn display_lines(&self, rendered: &Vec<StyledLine>, raw: &Vec<String>) -> (result: Vec<
        StyledLine,
    >)
        ensures
            lines_view(result@) == seq![
                seq![
                    ("• "@, dim_style()),
                    (self.title@, bold_style()),
                    (": "@, dim_style()),
                    (self.agent_reference@, plain_style()),
                ],
            ] + (if self.detail is None {
                Seq::empty()
            } else if rendered@.len() > 0 {
                set_off(lines_view(rendered@))
            } else {
                set_off(plain_lines(texts(raw@)))
            }),
    {
        let mut lines: Vec<StyledLine> = Vec::new();
        lines.push(self.header_line());
        let ghost head = lines@;
        let mut detail = self.detail_display_lines(rendered, raw);
        let ghost below = detail@;
        lines.append(&mut detail);
        assert(lines_view(lines@) =~= lines_view(head) + lines_view(below));
        lines
    }

    /// The detail as it is given to be rendered: without white space at either
    /// end.
    pub fn detail_to_render(&self) -> (result: Option<String>)
        ensures
            opt_text(result) == (match opt_text(self.detail) {
                Some(detail) => Some(trim(detail)),
                None => None,
            }),
    {
        match &self.detail {
            Some(detail) => Some(trimmed(detail.as_str()).to_owned()),
            None => None,
        }
    }

    /// The detail as it is given to be broken into lines: without white space
    /// at its end.
    pub fn detail_to_split(&self) -> (result: Option<String>)
        ensures
            opt_text(result) == (match opt_text(self.detail) {
                Some(detail) => Some(trim_end(detail)),
                None => None,
            }),
    {
        match &self.detail {
            Some(detail) => Some(trimmed_end(detail.as_str()).to_owned()),
            None => None,
        }
    }

    /// The whole notice without any rendering: its first line as plain text,
    /// and the lines of its detail.
    pub fn raw_lines(&self, raw: &Vec<String>) -> (result: Vec<StyledLine>)
        ensures
            lines_view(result@) == plain_lines(
                seq!["• "@ + self.title@ + ": "@ + self.agent_reference@],
            ) + (if self.detail is None {
                Seq::empty()
            } else {
                set_off(plain_lines(texts(raw@)))
            }),
    {
        let first = "• ".to_owned().concat(self.title).concat(": ").concat(
            self.agent_reference.as_str(),
        );
        let mut lines: Vec<StyledLine> = Vec::new();
        let ghost text = first@;
        push_line(&mut lines, single_line(first, TextStyle::plain()));
        assert(lines_view(lines@) =~= plain_lines(seq![text]));
        let ghost head = lines@;
        let mut detail = self.detail_raw_lines(raw);
        let ghost below = detail@;
        lines.append(&mut detail);
        assert(lines_view(lines@) =~= lines_view(head) + lines_view(below));
        lines
    }
}

/// What is rendered of a detail is shown with its styles as it is: behind the
/// prefix, every line is the rendered one.
pub proof fn lemma_rendered_detail_keeps_styles(rendered: Seq<Seq<StyledView>>, i: int)
    requires
        0 <= i < rendered.len(),
    ensures
        set_off(rendered).len() == rendered.len(),
        set_off(rendered)[i].skip(1) == rendered[i],
{
    assert(set_off(rendered)[i].skip(1) =~= rendered[i]);
}

/// A known command is what is said to be run; without one the place that tells
/// of the ways to install is named.
pub proof fn lemma_how_to_update(version: Seq<char>, command: Seq<char>)
    ensures
        update_instruction(Some(command)) == "Run "@ + command + " to update."@,
        update_instruction(None)
            == "See https://github.com/openai/codex for installation options."@,
        update_content_view(version, None).len() == 5,
        update_content_view(version, Some(command)).len() == 5,
        update_content_view(version, None)[0][3].0 == CODEX_CLI_VERSION@ + " -> "@ + version,
        update_content_view(version, Some(command))[0][3].0 == CODEX_CLI_VERSION@ + " -> "@
            + version,
        update_content_view(version, Some(command))[1][0].0 == "Run "@,
        update_content_view(version, Some(command))[1][1].0 == command,
        update_content_view(version, Some(command))[1][2].0 == " to update."@,
        update_content_view(version, None)[1][1] == (
            "https://github.com/openai/codex"@,
            link_style(),
        ),
        update_content_view(version, None)[4][0] == (
            "https://github.com/openai/codex/releases/latest"@,
            link_style(),
        ),
        link_style().underlined && link_style().color is Cyan && !link_style().bold,
        update_content_view(version, None)[0][1].0 == "Update available!"@,
        update_content_view(version, None)[0][1].1.bold && update_content_view(
            version,
            None,
        )[0][1].1.color is Cyan,
        update_content_view(version, None)[3][0].0 == "See full release notes:"@,
{
}

/// The title of a notice tells the sub-agent's status. What it says below is
/// the last message of a sub-agent that completed, unless that is blank, or the
/// error of one that failed; any other status says nothing more.
pub proof fn lemma_what_notices_say(message: String, status: AgentStatus)
    ensures
        status_title(AgentStatus::PendingInit) == "Subagent pending init"@,
        status_title(AgentStatus::Running) == "Subagent running"@,
        status_title(AgentStatus::Interrupted) == "Subagent interrupted"@,
        status_title(AgentStatus::Completed(Some(message))) == "Subagent completed"@,
        status_title(AgentStatus::Completed(None)) == "Subagent completed"@,
        status_title(AgentStatus::Errored(message)) == "Subagent errored"@,
        status_title(AgentStatus::Shutdown) == "Subagent shutdown"@,
        status_title(AgentStatus::NotFound) == "Subagent not found"@,
        !is_blank(message@) ==> status_detail(AgentStatus::Completed(Some(message))) == Some(
            message@,
        ),
        is_blank(message@) ==> status_detail(AgentStatus::Completed(Some(message))) is None,
        status_detail(AgentStatus::Completed(None)) is None,
        status_detail(AgentStatus::Errored(message)) == Some(message@),
        !(status is Completed) && !(status is Errored) ==> status_detail(status) is None,
{
}

/// Lines that are set off have a corner before the first and blanks before the
/// others; lines of plain text are as they are.
pub proof fn lemma_how_lines_are_set_off(
    lines: Seq<Seq<StyledView>>,
    texts: Seq<Seq<char>>,
    i: int,
    j: int,
)
    requires
        0 <= i < lines.len(),
        0 <= j < texts.len(),
    ensures
        set_off(lines)[i][0] == (if i == 0 {
            ("  └ "@, dim_style())
        } else {
            ("    "@, plain_style())
        }),
        plain_lines(texts).len() == texts.len(),
        plain_lines(texts)[j] == seq![(texts[j], plain_style())],
{
}

proof fn lemma_first_place_is_one(haystack: Seq<char>, needle: Seq<char>, a: int, b: int)
    requires
        is_first_place(haystack, needle, a),
        is_first_place(haystack, needle, b),
    ensures
        a == b,
{
    assert(occurs_at(ascii_lowered(haystack), ascii_lowered(needle), a));
    assert(occurs_at(ascii_lowered(haystack), ascii_lowered(needle), b));
}

/// The case of letters makes no difference to where a text is found, and it is
/// found at one place at most, the first.
pub proof fn lemma_found_whatever_the_case(
    haystack: Seq<char>,
    other: Seq<char>,
    needle: Seq<char>,
    at: int,
    also: int,
)
    requires
        is_first_place(haystack, needle, at),
        ascii_lowered(other) == ascii_lowered(haystack),
    ensures
        is_first_place(other, needle, at),
        is_first_place(haystack, needle, also) ==> also == at,
        !is_nowhere(haystack, needle),
        0 <= at,
        at + needle.len() <= haystack.len(),
        forall|i: int|
            0 <= i < needle.len() ==> ascii_lowered(haystack)[at + i] == #[trigger] ascii_lowered(
                needle,
            )[i],
{
    assert(occurs_at(ascii_lowered(haystack), ascii_lowered(needle), at));
    if is_first_place(haystack, needle, also) {
        lemma_first_place_is_one(haystack, needle, at, also);
    }
    assert forall|i: int| 0 <= i < needle.len() implies ascii_lowered(haystack)[at + i]
        == #[trigger] ascii_lowered(needle)[i] by {
        assert(ascii_lowered(haystack).subrange(at, at + needle.len())[i] == ascii_lowered(
            haystack,
        )[at + i]);
    }
}

/// A text has one body of a notification at most, and none where it is said to
/// have none. The body stands right behind an opening tag and right before the
/// closing tag that comes next.
pub proof fn lemma_one_body(text: Seq<char>, start: int, end: int, a: Seq<char>, b: Seq<char>)
    requires
        is_body_range(text, start, end),
    ensures
        has_body(text, trim(text.subrange(start, end))),
        has_body(text, a) && has_body(text, b) ==> a == b,
        !has_no_body(text),
        ({
            let open = "<subagent_notification>"@;
            let close = "</subagent_notification>"@;
            &&& start >= open.len()
            &&& end + close.len() <= text.len()
            &&& ascii_lowered(text.subrange(start - open.len(), start)) == ascii_lowered(open)
            &&& ascii_lowered(text.subrange(end, end + close.len())) == ascii_lowered(close)
            &&& forall|j: int|
                start <= j < end ==> !(#[trigger] occurs_at(
                    ascii_lowered(text.skip(start)),
                    ascii_lowered(close),
                    j - start,
                ))
        }),
{
    let open = "<subagent_notification>"@;
    let close = "</subagent_notification>"@;
    assert forall|s: int, e: int| #[trigger] is_body_range(text, s, e) implies s == start && e
        == end by {
        lemma_first_place_is_one(text, open, s - open.len(), start - open.len());
        lemma_first_place_is_one(text.skip(start), close, e - start, end - start);
    }
    if has_no_body(text) {
        assert(occurs_at(ascii_lowered(text), ascii_lowered(open), start - open.len()));
        let at = choose|at: int|
            #![trigger is_first_place(text, open, at)]
            is_first_place(text, open, at) && is_nowhere(text.skip(at + open.len()), close);
        lemma_first_place_is_one(text, open, at, start - open.len());
        assert(occurs_at(ascii_lowered(text.skip(start)), ascii_lowered(close), end - start));
    }
    let rest = text.skip(start);
    assert(ascii_lowered(text.subrange(start - open.len(), start)) =~= ascii_lowered(
        text,
    ).subrange(start - open.len(), start));
    assert(ascii_lowered(text.subrange(end, end + close.len())) =~= ascii_lowered(rest).subrange(
        end - start,
        end - start + close.len(),
    ));
}

} // verus!
