//! What the dashboard draws: how much room everything gets, and the lines.

use vstd::prelude::*;
use crate::clock::{format_timestamp, shows_time};
use crate::dashboard::model::{
    entry_title, DashboardAgentEntry, DashboardParentEntry, DashboardPreview, DashboardSnapshot, PreviewSource,
    PreviewView, ThreadStatus,
};
use crate::dashboard::picker::{dot, text_width};
use crate::styled::{
    bold_style, color_style, dim_style, line_view, lines_view, plain_style, push_line, push_text,
    single_line, StyledLine, StyledView, TextColor, TextStyle,
};
use crate::text::{decimal, decimal_text, opt_text, texts};
use crate::wrapping::{wrap_text, wrapped_lines};

verus! {

/// The name of a status as it is shown.
pub open spec fn status_name(status: ThreadStatus) -> Seq<char> {
    match status {
        ThreadStatus::Active => "active"@,
        ThreadStatus::Idle => "idle"@,
        ThreadStatus::SystemError => "error"@,
        ThreadStatus::NotLoaded => "notLoaded"@,
    }
}

/// The color of a status.
pub open spec fn status_color(status: ThreadStatus) -> TextColor {
    match status {
        ThreadStatus::Active => TextColor::LightGreen,
        ThreadStatus::Idle => TextColor::Cyan,
        ThreadStatus::SystemError => TextColor::LightRed,
        ThreadStatus::NotLoaded => TextColor::DarkGray,
    }
}

/// A status as it is shown.
pub fn status_pill(status: ThreadStatus) -> (result: (&'static str, TextColor))
    ensures
        result.0@ == status_name(status),
        result.1 == status_color(status),
{
    match status {
        ThreadStatus::Active => ("active", TextColor::LightGreen),
        ThreadStatus::Idle => ("idle", TextColor::Cyan),
        ThreadStatus::SystemError => ("error", TextColor::LightRed),
        ThreadStatus::NotLoaded => ("notLoaded", TextColor::DarkGray),
    }
}

/// Whether so many entries of the given height fit. A number of rows that
/// cannot be counted counts as the largest.
pub open spec fn entries_fit(height: usize, count: usize, entry_height: int) -> bool {
    let rows = count * entry_height;
    (if rows > usize::MAX {
        usize::MAX as int
    } else {
        rows
    }) <= height
}

/// How many lines of preview each agent gets: as many as fit for all, three
/// at most and one at least.
pub open spec fn preview_lines_for(height: usize, agent_count: usize) -> usize {
    if entries_fit(height, agent_count, 5) {
        3
    } else if entries_fit(height, agent_count, 4) {
        2
    } else {
        1
    }
}

fn fits(height: usize, count: usize, entry_height: usize) -> (result: bool)
    requires
        0 < entry_height <= 5,
    ensures
        result == entries_fit(height, count, entry_height as int),
{
    proof {
        assert(0 <= count * entry_height <= u64::MAX * 5) by (nonlinear_arith)
            requires
                0 <= count <= u64::MAX,
                0 < entry_height <= 5,
        ;
    }
    let rows: u128 = (count as u128) * (entry_height as u128);
    let most: u128 = usize::MAX as u128;
    if rows > most {
        most <= height as u128
    } else {
        rows <= height as u128
    }
}

/// How many lines of preview each agent gets.
pub fn preview_line_count(height: usize, agent_count: usize) -> (result: usize)
    ensures
        result == preview_lines_for(height, agent_count),
        1 <= result <= 3,
{
    if fits(height, agent_count, 5) {
        3
    } else if fits(height, agent_count, 4) {
        2
    } else {
        1
    }
}

/// How many lines of preview the parent gets in a body of so many rows.
pub open spec fn parent_lines_for(body_height: usize) -> usize {
    if body_height >= 12 {
        3
    } else if body_height >= 8 {
        2
    } else {
        1
    }
}

/// How many lines of preview the parent gets in a body of so many rows.
pub fn parent_preview_line_count(body_height: usize) -> (result: usize)
    ensures
        result == parent_lines_for(body_height),
{
    if body_height >= 12 {
        3
    } else if body_height >= 8 {
        2
    } else {
        1
    }
}

/// How many rows the parent's panel takes: its preview and two more.
pub fn parent_panel_height(body_height: usize) -> (result: usize)
    ensures
        result == parent_lines_for(body_height) + 2,
{
    parent_preview_line_count(body_height) + 2
}

/// How many rows the parent's panel and the agents get.
#[derive(Clone, Copy, Debug, PartialEq, Eq, Structural)]
pub struct BodySplit {
    pub parent: Option<u16>,
    pub agents: Option<u16>,
}

/// The rows that the parent's panel and the agents get: without a parent the
/// agents get all; where there is no room for both the parent gets all.
pub open spec fn body_split(body_height: u16, has_parent: bool) -> BodySplit {
    let panel = parent_lines_for(body_height as usize) + 2;
    if !has_parent {
        BodySplit { parent: None, agents: Some(body_height) }
    } else if body_height <= panel {
        BodySplit { parent: Some(body_height), agents: None }
    } else {
        BodySplit { parent: Some(panel as u16), agents: Some((body_height - panel) as u16) }
    }
}

/// How many rows the parent's panel and the agents get.
pub fn split_body(body_height: u16, has_parent: bool) -> (result: BodySplit)
    ensures
        result == body_split(body_height, has_parent),
{
    if !has_parent {
        return BodySplit { parent: None, agents: Some(body_height) };
    }
    let panel: u16 = parent_panel_height(body_height as usize) as u16;
    if body_height <= panel {
        return BodySplit { parent: Some(body_height), agents: None };
    }
    BodySplit { parent: Some(panel), agents: Some(body_height - panel) }
}

/// Nothing of the body is drawn twice or left out.
pub proof fn lemma_split_covers_body(body_height: u16, has_parent: bool)
    ensures
        (match body_split(body_height, has_parent).parent {
            Some(rows) => rows as int,
            None => 0,
        }) + (match body_split(body_height, has_parent).agents {
            Some(rows) => rows as int,
            None => 0,
        }) == body_height,
{
}

/// How the agents are laid out.
#[derive(Clone, Copy, Debug, PartialEq, Eq, Structural)]
pub struct AgentsLayout {
    pub preview_lines: usize,
    pub entry_height: u16,
    pub shown_agents: usize,
    pub hidden_agents: usize,
}

/// How many of so many agents are shown in so many rows.
pub open spec fn shown_count(height: u16, agent_count: usize) -> int {
    let lines = preview_lines_for(height as usize, agent_count);
    let room: int = if (height as int) < lines + 2 {
        1
    } else {
        height as int / (lines + 2)
    };
    if agent_count <= room {
        agent_count as int
    } else {
        room
    }
}

/// How so many agents are laid out in so many rows: each takes its preview
/// and two more rows, at least one is shown, and all agents are either shown
/// or counted as hidden.
pub fn layout_agents(height: u16, agent_count: usize) -> (result: AgentsLayout)
    ensures
        result.preview_lines == preview_lines_for(height as usize, agent_count),
        result.entry_height == preview_lines_for(height as usize, agent_count) + 2,
        result.shown_agents == shown_count(height, agent_count),
        result.shown_agents + result.hidden_agents == agent_count,
        agent_count > 0 ==> result.shown_agents > 0,
{
    let preview_lines: usize = preview_line_count(height as usize, agent_count);
    let entry_height: u16 = (preview_lines + 2) as u16;
    let rows: u16 = height / entry_height;
    let visible: usize = if rows == 0 {
        1
    } else {
        rows as usize
    };
    let shown_agents: usize = if agent_count <= visible {
        agent_count
    } else {
        visible
    };
    proof {
        let (h, e) = (height as int, entry_height as int);
        assert(rows as int == h / e);
        assert((h / e == 0) <==> (h < e)) by (nonlinear_arith)
            requires
                h >= 0,
                e > 0,
        ;
    }
    AgentsLayout {
        preview_lines,
        entry_height,
        shown_agents,
        hidden_agents: agent_count - shown_agents,
    }
}

/// Where every agent fits with three lines of preview, none is hidden.
pub proof fn lemma_roomy_layout_hides_none(height: u16, agent_count: usize)
    requires
        agent_count * 5 <= height,
        agent_count > 0,
    ensures
        preview_lines_for(height as usize, agent_count) == 3,
        shown_count(height, agent_count) == agent_count,
{
    let lines = preview_lines_for(height as usize, agent_count);
    assert(lines == 3);
    assert(height as int / (lines + 2) == height as int / 5);
}

/// The line at the top: the parent and how many agents there are.
pub open spec fn header_view(
    parent_label: Seq<char>,
    parent_thread_id: Seq<char>,
    agent_count: nat,
) -> Seq<StyledView> {
    seq![
        ("Agent dashboard"@, bold_style()),
        dot(),
        (parent_label, color_style(TextColor::Cyan)),
        dot(),
        ("parent "@ + parent_thread_id, dim_style()),
        dot(),
        (decimal(agent_count) + " open agents"@, color_style(TextColor::Green)),
    ]
}

/// The line at the top.
pub fn header(snapshot: &DashboardSnapshot) -> (result: StyledLine)
    ensures
        line_view(result) == header_view(
            snapshot.parent_label@,
            snapshot.parent_thread_id@,
            snapshot.agents@.len(),
        ),
{
    let mut line: StyledLine = Vec::new();
    push_text(&mut line, "Agent dashboard".to_owned(), TextStyle::bold());
    push_text(&mut line, " · ".to_owned(), TextStyle::dim());
    push_text(&mut line, snapshot.parent_label.clone(), TextStyle::color(TextColor::Cyan));
    push_text(&mut line, " · ".to_owned(), TextStyle::dim());
    push_text(
        &mut line,
        "parent ".to_owned().concat(snapshot.parent_thread_id.as_str()),
        TextStyle::dim(),
    );
    push_text(&mut line, " · ".to_owned(), TextStyle::dim());
    push_text(
        &mut line,
        decimal_text(snapshot.agents.len() as u64).concat(" open agents"),
        TextStyle::color(TextColor::Green),
    );
    assert(line_view(line) =~= seq![
        ("Agent dashboard"@, bold_style()),
        dot(),
        (snapshot.parent_label@, color_style(TextColor::Cyan)),
        dot(),
        ("parent "@ + snapshot.parent_thread_id@, dim_style()),
        dot(),
        (decimal(snapshot.agents@.len()) + " open agents"@, color_style(TextColor::Green)),
    ]);
    line
}

/// What is shown where there are no agents.
pub open spec fn empty_state_view(
    parent_label: Seq<char>,
    refresh_error: Option<Seq<char>>,
) -> Seq<Seq<StyledView>> {
    let lines = seq![
        seq![
            ("No open child-agent threads for "@, plain_style()),
            (parent_label, color_style(TextColor::Cyan)),
            ("."@, plain_style()),
        ],
        seq![(""@, plain_style())],
        seq![
            (
                "Leave this dashboard open while the parent session spawns new agents."@,
                dim_style(),
            ),
        ],
    ];
    match refresh_error {
        Some(error) => lines.push(seq![(""@, plain_style())]).push(
            seq![(error, color_style(TextColor::Red))],
        ),
        None => lines,
    }
}

/// What is shown where there are no agents: that there are none, and what
/// went wrong last.
pub fn empty_state(snapshot: &DashboardSnapshot) -> (result: Vec<StyledLine>)
    ensures
        lines_view(result@) == empty_state_view(
            snapshot.parent_label@,
            opt_text(snapshot.refresh_error),
        ),
{
    let mut first: StyledLine = Vec::new();
    push_text(&mut first, "No open child-agent threads for ".to_owned(), TextStyle::plain());
    push_text(&mut first, snapshot.parent_label.clone(), TextStyle::color(TextColor::Cyan));
    push_text(&mut first, ".".to_owned(), TextStyle::plain());
    assert(line_view(first) =~= seq![
        ("No open child-agent threads for "@, plain_style()),
        (snapshot.parent_label@, color_style(TextColor::Cyan)),
        ("."@, plain_style()),
    ]);
    let mut lines: Vec<StyledLine> = Vec::new();
    push_line(&mut lines, first);
    push_line(&mut lines, single_line("".to_owned(), TextStyle::plain()));
    push_line(
        &mut lines,
        single_line(
            "Leave this dashboard open while the parent session spawns new agents.".to_owned(),
            TextStyle::dim(),
        ),
    );
    assert(lines_view(lines@) =~= empty_state_view(snapshot.parent_label@, None));
    if let Some(error) = &snapshot.refresh_error {
        push_line(&mut lines, single_line("".to_owned(), TextStyle::plain()));
        push_line(&mut lines, single_line(error.clone(), TextStyle::color(TextColor::Red)));
    }
    lines
}

/// The line at the bottom: the keys, and how many agents do not show.
pub open spec fn footer_text(hidden_agents: nat) -> Seq<char> {
    if hidden_agents == 0 {
        "q quit · r refresh"@
    } else {
        "q quit · r refresh · "@ + decimal(hidden_agents)
            + " more agents hidden by terminal height"@
    }
}

/// The line at the bottom.
pub fn footer(hidden_agents: usize) -> (result: String)
    ensures
        result@ == footer_text(hidden_agents as nat),
{
    if hidden_agents == 0 {
        "q quit · r refresh".to_owned()
    } else {
        "q quit · r refresh · ".to_owned().concat(
            decimal_text(hidden_agents as u64).as_str(),
        ).concat(" more agents hidden by terminal height")
    }
}

/// The title of a panel: a name, a status and a time.
pub open spec fn panel_title_view(
    name: Seq<char>,
    status: ThreadStatus,
    time: Seq<char>,
) -> Seq<StyledView> {
    seq![
        (name, bold_style()),
        dot(),
        (status_name(status), color_style(status_color(status))),
        dot(),
        (time, dim_style()),
    ]
}

/// The title of a panel.
pub fn panel_title(name: String, status: ThreadStatus, time: String) -> (result: StyledLine)
    ensures
        line_view(result) == panel_title_view(name@, status, time@),
{
    let mut line: StyledLine = Vec::new();
    let ghost shown = name@;
    let ghost shown_time = time@;
    push_text(&mut line, name, TextStyle::bold());
    push_text(&mut line, " · ".to_owned(), TextStyle::dim());
    let (pill, color) = status_pill(status);
    push_text(&mut line, pill.to_owned(), TextStyle::color(color));
    push_text(&mut line, " · ".to_owned(), TextStyle::dim());
    push_text(&mut line, time, TextStyle::dim());
    assert(line_view(line) =~= panel_title_view(shown, status, shown_time));
    line
}

/// The name of a source of previews as it is shown.
pub open spec fn source_label(source: PreviewSource) -> Seq<char> {
    match source {
        PreviewSource::AgentMessage => "message"@,
        PreviewSource::Plan => "plan"@,
        PreviewSource::ReasoningSummary => "summary"@,
        PreviewSource::ReasoningText => "reasoning"@,
        PreviewSource::ThreadPreview => "preview"@,
    }
}

/// Lines of plain text.
pub open spec fn plain_lines(lines: Seq<Seq<char>>) -> Seq<Seq<StyledView>> {
    lines.map_values(|line: Seq<char>| seq![(line, plain_style())])
}

/// The lines of a panel: what the preview is made of, whether it is live, and
/// the first lines of its text.
pub open spec fn panel_lines_view(
    preview: PreviewView,
    wrapped: Seq<Seq<char>>,
    limit: int,
) -> Seq<Seq<StyledView>> {
    let head = seq![
        ("["@ + source_label(preview.source) + "]"@, dim_style()),
        (" "@, plain_style()),
        if preview.live {
            ("live"@, TextStyle { italic: true, ..color_style(TextColor::Cyan) })
        } else {
            ("committed"@, dim_style())
        },
    ];
    let shown = if wrapped.len() <= limit {
        wrapped
    } else {
        wrapped.take(limit)
    };
    seq![head] + if shown.len() == 0 {
        seq![seq![("No preview yet."@, dim_style())]]
    } else {
        plain_lines(shown)
    }
}

/// The lines of a panel, given the lines that the preview is broken into.
pub fn panel_lines(preview: &DashboardPreview, wrapped: &Vec<String>, limit: usize) -> (result: Vec<
    StyledLine,
>)
    ensures
        lines_view(result@) == panel_lines_view(preview@, texts(wrapped@), limit as int),
{
    let ghost all = texts(wrapped@);
    let mut head: StyledLine = Vec::new();
    push_text(
        &mut head,
        "[".to_owned().concat(preview.source.label()).concat("]"),
        TextStyle::dim(),
    );
    push_text(&mut head, " ".to_owned(), TextStyle::plain());
    if preview.live {
        let mut style = TextStyle::color(TextColor::Cyan);
        style.italic = true;
        push_text(&mut head, "live".to_owned(), style);
    } else {
        push_text(&mut head, "committed".to_owned(), TextStyle::dim());
    }
    let ghost head_view = line_view(head);
    assert(head_view =~= panel_lines_view(preview@, all, limit as int)[0]);
    let mut lines: Vec<StyledLine> = Vec::new();
    push_line(&mut lines, head);
    assert(lines_view(lines@) =~= seq![head_view]);
    let count: usize = if wrapped.len() <= limit {
        wrapped.len()
    } else {
        limit
    };
    if count == 0 {
        push_line(&mut lines, single_line("No preview yet.".to_owned(), TextStyle::dim()));
        assert(lines_view(lines@) =~= panel_lines_view(preview@, all, limit as int));
        return lines;
    }
    let mut i: usize = 0;
    assert(lines_view(lines@) =~= seq![head_view] + plain_lines(all.take(0)));
    while i < count
        invariant
            i <= count <= wrapped.len(),
            all == texts(wrapped@),
            lines_view(lines@) == seq![head_view] + plain_lines(all.take(i as int)),
        decreases count - i,
    {
        push_line(&mut lines, single_line(wrapped[i].clone(), TextStyle::plain()));
        i += 1;
        assert(all[i - 1] == wrapped@[i - 1]@);
        assert(lines_view(lines@) =~= seq![head_view] + plain_lines(all.take(i as int)));
    }
    assert(wrapped.len() <= limit ==> all.take(i as int) =~= all);
    lines
}

/// A panel: its title and its lines.
pub struct Panel {
    pub title: StyledLine,
    pub lines: Vec<StyledLine>,
}

/// The panel shows an agent.
pub open spec fn is_agent_panel(
    panel: Panel,
    agent: DashboardAgentEntry,
    width: u16,
    preview_lines: int,
) -> bool {
    &&& exists|time: Seq<char>|
        shows_time(time, agent.updated_at) && line_view(panel.title) == #[trigger] panel_title_view(
            entry_title(agent@),
            agent.status,
            time,
        )
    &&& lines_view(panel.lines@) == panel_lines_view(
        agent.preview@,
        wrapped_lines(agent.preview.text@, text_width(width)),
        preview_lines,
    )
}

/// The panel shows the parent.
pub open spec fn is_parent_panel(
    panel: Panel,
    parent: DashboardParentEntry,
    width: u16,
    height: u16,
) -> bool {
    &&& exists|time: Seq<char>|
        shows_time(time, parent.updated_at) && line_view(panel.title)
            == #[trigger] panel_title_view("Parent: "@ + parent.label@, parent.status, time)
    &&& lines_view(panel.lines@) == panel_lines_view(
        parent.preview@,
        wrapped_lines(parent.preview.text@, text_width(width)),
        parent_lines_for(height as usize) as int,
    )
}

/// The panel of an agent in a box of the given width.
pub fn render_agent(agent: &DashboardAgentEntry, width: u16, preview_lines: usize) -> (result:
    Panel)
    ensures
        is_agent_panel(result, *agent, width, preview_lines as int),
{
    let title = panel_title(agent.title(), agent.status, format_timestamp(agent.updated_at));
    let room: usize = width.saturating_sub(4) as usize;
    let wrapped = wrap_text(agent.preview.text.as_str(), room);
    assert(room == text_width(width));
    Panel { title, lines: panel_lines(&agent.preview, &wrapped, preview_lines) }
}

/// The panel of the parent in a box of the given width and height.
pub fn render_parent(parent: &DashboardParentEntry, width: u16, height: u16) -> (result: Panel)
    ensures
        is_parent_panel(result, *parent, width, height),
{
    let title = panel_title(
        "Parent: ".to_owned().concat(parent.label.as_str()),
        parent.status,
        format_timestamp(parent.updated_at),
    );
    let room: usize = width.saturating_sub(4) as usize;
    let wrapped = wrap_text(parent.preview.text.as_str(), room);
    assert(room == text_width(width));
    let limit: usize = parent_preview_line_count(height as usize);
    Panel { title, lines: panel_lines(&parent.preview, &wrapped, limit) }
}

/// What is drawn where the agents go.
pub enum AgentsArea {
    /// There is no room.
    Hidden,
    /// The notice that there are no agents, in so many rows.
    Empty { height: u16, lines: Vec<StyledLine> },
    /// The panels of the agents that are shown, each in so many rows.
    Panels { height: u16, entry_height: u16, panels: Vec<Panel> },
}

/// What is drawn: the line at the top, the parent's panel and its rows, the
/// agents, and the line at the bottom.
pub struct Screen {
    pub header: StyledLine,
    pub parent: Option<(u16, Panel)>,
    pub agents: AgentsArea,
    pub footer: String,
}

/// What is drawn of the agents, and how many of them are hidden.
pub open spec fn agents_area_ok(
    area: AgentsArea,
    footer: Seq<char>,
    snapshot: DashboardSnapshot,
    width: u16,
    rows: Option<u16>,
) -> bool {
    match rows {
        None => area is Hidden && footer == footer_text(snapshot.agents@.len()),
        Some(height) => if snapshot.agents@.len() == 0 {
            &&& area matches AgentsArea::Empty { height: kept, lines }
            &&& kept == height
            &&& lines_view(lines@) == empty_state_view(
                snapshot.parent_label@,
                opt_text(snapshot.refresh_error),
            )
            &&& footer == footer_text(0)
        } else {
            let count = snapshot.agents.len();
            let lines = preview_lines_for(height as usize, count);
            &&& area matches AgentsArea::Panels { height: kept, entry_height, panels }
            &&& kept == height
            &&& entry_height == lines + 2
            &&& panels@.len() == shown_count(height, count)
            &&& forall|i: int|
                0 <= i < panels@.len() ==> is_agent_panel(
                    #[trigger] panels@[i],
                    snapshot.agents@[i],
                    width,
                    lines as int,
                )
            &&& footer == footer_text((count - shown_count(height, count)) as nat)
        },
    }
}

/// What is drawn of the agents in the rows that they get, if they get any.
fn render_agents_area(snapshot: &DashboardSnapshot, width: u16, rows: Option<u16>) -> (result: (
    AgentsArea,
    String,
))
    ensures
        agents_area_ok(result.0, result.1@, *snapshot, width, rows),
{
    let count: usize = snapshot.agents.len();
    match rows {
        None => (AgentsArea::Hidden, footer(count)),
        Some(height) => {
            if count == 0 {
                return (AgentsArea::Empty { height, lines: empty_state(snapshot) }, footer(0));
            }
            let layout = layout_agents(height, count);
            let mut panels: Vec<Panel> = Vec::new();
            let mut i: usize = 0;
            while i < layout.shown_agents
                invariant
                    i <= layout.shown_agents <= snapshot.agents@.len(),
                    panels@.len() == i,
                    forall|k: int|
                        0 <= k < i ==> is_agent_panel(
                            #[trigger] panels@[k],
                            snapshot.agents@[k],
                            width,
                            layout.preview_lines as int,
                        ),
                decreases layout.shown_agents - i,
            {
                panels.push(render_agent(&snapshot.agents[i], width, layout.preview_lines));
                i += 1;
            }
            (
                AgentsArea::Panels { height, entry_height: layout.entry_height, panels },
                footer(layout.hidden_agents),
            )
        },
    }
}

/// What is drawn of a snapshot in so many columns, with so many rows between
/// the lines at the top and the bottom.
pub fn render(snapshot: &DashboardSnapshot, width: u16, body_height: u16) -> (result: Screen)
    ensures
        line_view(result.header) == header_view(
            snapshot.parent_label@,
            snapshot.parent_thread_id@,
            snapshot.agents@.len(),
        ),
        ({
            let split = body_split(body_height, snapshot.parent is Some);
            &&& match (snapshot.parent, split.parent) {
                (Some(parent), Some(height)) => {
                    &&& result.parent matches Some(drawn)
                    &&& drawn.0 == height
                    &&& is_parent_panel(drawn.1, parent, width, height)
                },
                _ => result.parent is None,
            }
            &&& agents_area_ok(result.agents, result.footer@, *snapshot, width, split.agents)
        }),
{
    let split = split_body(body_height, snapshot.parent.is_some());
    let parent = match (&snapshot.parent, split.parent) {
        (Some(parent), Some(height)) => Some((height, render_parent(parent, width, height))),
        _ => None,
    };
    let (agents, footer) = render_agents_area(snapshot, width, split.agents);
    Screen { header: header(snapshot), parent, agents, footer }
}

/// Each status has its own name and its own color.
pub proof fn lemma_how_statuses_look()
    ensures
        status_name(ThreadStatus::Active) == "active"@,
        status_name(ThreadStatus::Idle) == "idle"@,
        status_name(ThreadStatus::SystemError) == "error"@,
        status_name(ThreadStatus::NotLoaded) == "notLoaded"@,
        status_color(ThreadStatus::Active) == TextColor::LightGreen,
        status_color(ThreadStatus::Idle) == TextColor::Cyan,
        status_color(ThreadStatus::SystemError) == TextColor::LightRed,
        status_color(ThreadStatus::NotLoaded) == TextColor::DarkGray,
{
}

/// The agents get one to three lines of preview each: more than one only where
/// all of them fit, and one more would not fit where they get fewer than three.
pub proof fn lemma_most_preview_lines_that_fit(height: usize, agent_count: usize)
    ensures
        ({
            let lines = preview_lines_for(height, agent_count);
            &&& 1 <= lines <= 3
            &&& lines > 1 && agent_count * 5 <= usize::MAX ==> agent_count * (lines + 2) <= height
            &&& lines < 3 ==> agent_count * (lines + 3) > height
        }),
{
}

/// The parent gets three lines of preview in a body of twelve rows or more,
/// two in one of eight to eleven, and one in a smaller one.
pub proof fn lemma_parent_lines_by_room(body_height: usize)
    ensures
        body_height >= 12 ==> parent_lines_for(body_height) == 3,
        8 <= body_height < 12 ==> parent_lines_for(body_height) == 2,
        body_height < 8 ==> parent_lines_for(body_height) == 1,
{
}

/// Without a parent the agents get the whole body. A parent gets its preview
/// and two rows, or all there is where that is less; the agents get the rest,
/// and nothing where there is no rest.
pub proof fn lemma_who_gets_the_body(body_height: u16)
    ensures
        body_split(body_height, false).parent is None,
        body_split(body_height, false).agents == Some(body_height),
        ({
            let split = body_split(body_height, true);
            let panel = parent_lines_for(body_height as usize) + 2;
            &&& split.parent is Some
            &&& split.parent->0 <= panel
            &&& split.agents is Some <==> body_height > panel
            &&& split.agents is Some ==> split.parent->0 == panel && split.agents->0 == body_height
                - panel
            &&& split.agents is None ==> split.parent->0 == body_height
        }),
{
}

/// As many agents are shown as fit: where more than one is shown all of these
/// fit, and where one is hidden one more would not fit. One at least is shown.
pub proof fn lemma_as_many_agents_as_fit(height: u16, agent_count: usize)
    ensures
        ({
            let shown = shown_count(height, agent_count);
            let rows = preview_lines_for(height as usize, agent_count) + 2;
            &&& 0 <= shown <= agent_count
            &&& agent_count > 0 ==> shown > 0
            &&& shown > 1 ==> shown * rows <= height
            &&& shown < agent_count ==> (shown + 1) * rows > height
        }),
{
    let lines = preview_lines_for(height as usize, agent_count);
    assert(lines == 1 || lines == 2 || lines == 3);
}

/// The line at the top names the parent, its identity, and how many agents
/// there are.
pub proof fn lemma_line_at_the_top(label: Seq<char>, id: Seq<char>, count: nat)
    ensures
        header_view(label, id, count).len() == 7,
        header_view(label, id, count)[0].0 == "Agent dashboard"@,
        header_view(label, id, count)[2].0 == label,
        header_view(label, id, count)[4].0 == "parent "@ + id,
        header_view(label, id, count)[6].0 == decimal(count) + " open agents"@,
{
}

/// Where there are no agents it is said of which parent, and what went wrong
/// last stands below, if anything did.
pub proof fn lemma_notice_of_no_agents(label: Seq<char>, error: Option<Seq<char>>)
    ensures
        ({
            let lines = empty_state_view(label, error);
            &&& lines[0].len() == 3 && lines[0][0].0 == "No open child-agent threads for "@
                && lines[0][1].0 == label && lines[0][2].0 == "."@
            &&& lines[2][0].0
                == "Leave this dashboard open while the parent session spawns new agents."@
            &&& error is None ==> lines.len() == 3
            &&& error is Some ==> lines.len() == 5 && lines[4] == seq![
                (error->0, color_style(TextColor::Red)),
            ]
        }),
{
}

/// The line at the bottom tells how many agents do not show, where some do not.
pub proof fn lemma_line_at_the_bottom(hidden: nat)
    ensures
        hidden == 0 ==> footer_text(hidden) == "q quit · r refresh"@,
        hidden > 0 ==> footer_text(hidden) == "q quit · r refresh · "@ + decimal(hidden)
            + " more agents hidden by terminal height"@,
{
}

/// A panel is titled with its name, its status in the status' color, and its
/// time.
pub proof fn lemma_title_of_a_panel(name: Seq<char>, status: ThreadStatus, time: Seq<char>)
    ensures
        panel_title_view(name, status, time).len() == 5,
        panel_title_view(name, status, time)[0].0 == name,
        panel_title_view(name, status, time)[2] == (
            status_name(status),
            color_style(status_color(status)),
        ),
        panel_title_view(name, status, time)[4].0 == time,
{
}

/// A panel tells what its preview is made of and whether it is live, and shows
/// the first lines of the text, at most as many as it may; where there are none
/// it says so.
pub proof fn lemma_lines_of_a_panel(preview: PreviewView, wrapped: Seq<Seq<char>>, limit: int)
    requires
        0 <= limit,
    ensures
        ({
            let lines = panel_lines_view(preview, wrapped, limit);
            &&& lines[0].len() == 3
            &&& lines[0][2].0 == (if preview.live {
                "live"@
            } else {
                "committed"@
            })
            &&& preview.source is AgentMessage ==> lines[0][0].0 == "["@ + "message"@ + "]"@
            &&& preview.source is Plan ==> lines[0][0].0 == "["@ + "plan"@ + "]"@
            &&& preview.source is ReasoningSummary ==> lines[0][0].0 == "["@ + "summary"@ + "]"@
            &&& preview.source is ReasoningText ==> lines[0][0].0 == "["@ + "reasoning"@ + "]"@
            &&& preview.source is ThreadPreview ==> lines[0][0].0 == "["@ + "preview"@ + "]"@
            &&& limit == 0 || wrapped.len() == 0 ==> lines.len() == 2 && lines[1] == seq![
                ("No preview yet."@, dim_style()),
            ]
            &&& limit > 0 && wrapped.len() > 0 ==> lines.len() == 1 + (if wrapped.len() <= limit {
                wrapped.len() as int
            } else {
                limit
            })
            &&& forall|i: int|
                0 <= i < limit && i < wrapped.len() ==> #[trigger] lines[i + 1] == seq![
                    (wrapped[i], plain_style()),
                ]
        }),
{
}

/// The panel of an agent is titled with the agent's name, status and time, and
/// shows the agent's preview, at most as many lines of it as it may.
pub proof fn lemma_panel_of_an_agent(
    panel: Panel,
    agent: DashboardAgentEntry,
    width: u16,
    preview_lines: int,
)
    requires
        is_agent_panel(panel, agent, width, preview_lines),
    ensures
        line_view(panel.title)[0].0 == entry_title(agent@),
        line_view(panel.title)[2].0 == status_name(agent.status),
        shows_time(line_view(panel.title)[4].0, agent.updated_at),
        lines_view(panel.lines@) == panel_lines_view(
            agent.preview@,
            wrapped_lines(agent.preview.text@, text_width(width)),
            preview_lines,
        ),
{
}

/// The panel of the parent is titled with `Parent` and its label, its status
/// and its time, and shows its preview.
pub proof fn lemma_panel_of_the_parent(
    panel: Panel,
    parent: DashboardParentEntry,
    width: u16,
    height: u16,
)
    requires
        is_parent_panel(panel, parent, width, height),
    ensures
        line_view(panel.title)[0].0 == "Parent: "@ + parent.label@,
        line_view(panel.title)[2].0 == status_name(parent.status),
        shows_time(line_view(panel.title)[4].0, parent.updated_at),
        lines_view(panel.lines@) == panel_lines_view(
            parent.preview@,
            wrapped_lines(parent.preview.text@, text_width(width)),
            parent_lines_for(height as usize) as int,
        ),
{
}

/// The agents are shown from the first on and in their order, as many as fit,
/// and the line at the bottom counts all that are not shown. Where they get no
/// rows all of them are counted, and where there are none that is said.
pub proof fn lemma_agents_that_are_shown(
    area: AgentsArea,
    footer: Seq<char>,
    snapshot: DashboardSnapshot,
    width: u16,
    rows: Option<u16>,
)
    requires
        agents_area_ok(area, footer, snapshot, width, rows),
    ensures
        area is Hidden <==> rows is None,
        rows is None ==> footer == footer_text(snapshot.agents@.len()),
        area is Empty <==> rows is Some && snapshot.agents@.len() == 0,
        area is Empty ==> footer == footer_text(0) && area->Empty_height == rows->0,
        area is Panels ==> {
            let panels = area->panels@;
            &&& rows == Some(area->Panels_height)
            &&& 0 < panels.len() <= snapshot.agents@.len()
            &&& area->entry_height == preview_lines_for(rows->0 as usize, snapshot.agents.len())
                + 2
            &&& panels.len() > 1 ==> panels.len() * area->entry_height <= rows->0
            &&& footer == footer_text((snapshot.agents@.len() - panels.len()) as nat)
            &&& forall|i: int|
                0 <= i < panels.len() ==> is_agent_panel(
                    #[trigger] panels[i],
                    snapshot.agents@[i],
                    width,
                    area->entry_height - 2,
                )
        },
{
    if rows is Some && snapshot.agents@.len() > 0 {
        lemma_as_many_agents_as_fit(rows->0, snapshot.agents.len());
    }
}

} // verus!
