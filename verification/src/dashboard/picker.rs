//! Choosing the parent thread at the start.

use vstd::prelude::*;
use crate::clock::{format_timestamp, shows_time};
use crate::dashboard::model::{
    label, project_name, short_id, short_thread_id, thread_label, thread_project_name, Thread,
    ThreadStatus,
};
use crate::dashboard::preview::normalize_preview;
use crate::dashboard::render::{status_color, status_name, status_pill};
use crate::sort::{
    lemma_stable_sorted, lemma_stable_sorted_by, lemma_stable_sorted_view, sort_stable,
    stable_sorted, stable_sorted_by, Ordered,
};
use crate::styled::{
    bold_style, color_style, dim_style, line_view, lines_view, plain_style, push_line, push_text,
    StyledLine, StyledView, TextColor, TextStyle,
};
use crate::text::{
    decimal, decimal_text, lemma_text_lt_irreflexive, lemma_text_lt_transitive,
    lemma_text_not_lt_transitive, normalized, same_text, text_less, text_lt, texts,
};
use crate::wrapping::{wrap_text, wrapped_lines};

verus! {

/// A thread that can be chosen.
#[derive(Debug)]
pub struct ParentThreadChoice {
    pub thread_id: String,
    pub project_name: String,
    pub label: String,
    pub cwd: String,
    pub updated_at: i64,
    pub status: ThreadStatus,
    pub preview: String,
}

/// A thread that can be chosen, as a value.
#[verifier::ext_equal]
pub struct ChoiceView {
    pub thread_id: Seq<char>,
    pub project_name: Seq<char>,
    pub label: Seq<char>,
    pub cwd: Seq<char>,
    pub updated_at: i64,
    pub status: ThreadStatus,
    pub preview: Seq<char>,
}

impl View for ParentThreadChoice {
    type V = ChoiceView;

    open spec fn view(&self) -> ChoiceView {
        ChoiceView {
            thread_id: self.thread_id@,
            project_name: self.project_name@,
            label: self.label@,
            cwd: self.cwd@,
            updated_at: self.updated_at,
            status: self.status,
            preview: self.preview@,
        }
    }
}

/// A thread as it can be chosen.
pub open spec fn choice_view(thread: Thread) -> ChoiceView {
    ChoiceView {
        thread_id: thread.id@,
        project_name: match project_name(thread) {
            Some(name) => name,
            None => short_id(thread.id@),
        },
        label: label(thread),
        cwd: thread.cwd.text@,
        updated_at: thread.updated_at,
        status: thread.status,
        preview: normalized(thread.preview@),
    }
}

/// One choice comes before another: the newer one, then by identity.
pub open spec fn choice_before(a: ChoiceView, b: ChoiceView) -> bool {
    a.updated_at > b.updated_at || (a.updated_at == b.updated_at && text_lt(
        a.thread_id,
        b.thread_id,
    ))
}

impl Ordered for ParentThreadChoice {
    open spec fn precedes(self, other: Self) -> bool {
        choice_before(self@, other@)
    }

    fn comes_before(&self, other: &Self) -> (result: bool) {
        if self.updated_at != other.updated_at {
            return self.updated_at > other.updated_at;
        }
        text_less(self.thread_id.as_str(), other.thread_id.as_str())
    }
}

impl ParentThreadChoice {
    /// A thread as it can be chosen.
    pub fn from_thread(thread: &Thread) -> (result: ParentThreadChoice)
        ensures
            result@ == choice_view(*thread),
    {
        let project_name = match thread_project_name(thread) {
            Some(name) => name,
            None => short_thread_id(thread.id.as_str()),
        };
        ParentThreadChoice {
            thread_id: thread.id.clone(),
            project_name,
            label: thread_label(thread),
            cwd: thread.cwd.text.clone(),
            updated_at: thread.updated_at,
            status: thread.status,
            preview: normalize_preview(thread.preview.as_str()),
        }
    }
}

/// Choices as values.
pub open spec fn choice_views(choices: Seq<ParentThreadChoice>) -> Seq<ChoiceView> {
    choices.map_values(|choice: ParentThreadChoice| choice@)
}

/// The threads that no thread spawned, as they can be chosen.
pub open spec fn root_choices(threads: Seq<Thread>) -> Seq<ChoiceView> {
    threads.filter(|thread: Thread| thread.parent_thread_id is None).map_values(
        |thread: Thread| choice_view(thread),
    )
}

/// The choice of a parent thread.
#[derive(Debug)]
pub struct SessionPickerState {
    pub choices: Vec<ParentThreadChoice>,
    pub selected: usize,
}

fn gather_roots(threads: &Vec<Thread>) -> (result: Vec<ParentThreadChoice>)
    ensures
        choice_views(result@) == root_choices(threads@),
{
    let ghost keep = |thread: Thread| thread.parent_thread_id is None;
    let ghost show = |thread: Thread| choice_view(thread);
    let mut result: Vec<ParentThreadChoice> = Vec::new();
    let mut i: usize = 0;
    proof {
        reveal(Seq::filter);
        assert(choice_views(result@) =~= threads@.take(0).filter(keep).map_values(show));
    }
    while i < threads.len()
        invariant
            i <= threads.len(),
            keep == (|thread: Thread| thread.parent_thread_id is None),
            show == (|thread: Thread| choice_view(thread)),
            choice_views(result@) == threads@.take(i as int).filter(keep).map_values(show),
        decreases threads.len() - i,
    {
        let ghost item = threads@[i as int];
        let ghost kept = threads@.take(i as int).filter(keep);
        let ghost before = result@;
        proof {
            assert(threads@.take(i + 1) =~= threads@.take(i as int).push(item));
            threads@.take(i as int).lemma_filter_push(item, keep);
        }
        if threads[i].parent_thread_id.is_none() {
            let choice = ParentThreadChoice::from_thread(&threads[i]);
            result.push(choice);
            assert(choice_views(result@) =~= choice_views(before).push(choice@));
            assert(kept.push(item).map_values(show) =~= kept.map_values(show).push(show(item)));
        }
        i += 1;
    }
    assert(threads@.take(i as int) =~= threads@);
    result
}

/// A key that is pressed.
#[derive(Clone, Copy, Debug, PartialEq, Eq, Structural)]
pub enum Key {
    Up,
    Down,
    Enter,
    Esc,
    Char(char),
    Other,
}

/// What a key does to the choice.
#[derive(Debug)]
pub enum PickerOutcome {
    Continue,
    Selected(String),
    Aborted,
}

/// The choice that is selected after a key, of so many.
pub open spec fn selected_after(key: Key, selected: int, len: int) -> int {
    if (key is Up || key == Key::Char('k')) && selected > 0 {
        selected - 1
    } else if (key is Down || key == Key::Char('j')) && selected + 1 < len {
        selected + 1
    } else {
        selected
    }
}

/// A key takes the selected choice.
pub open spec fn takes(key: Key) -> bool {
    key is Enter
}

/// A key gives the choice up.
pub open spec fn gives_up(key: Key) -> bool {
    key is Esc || key == Key::Char('q')
}

/// The error of a choice that was given up.
pub const PICKER_ABORTED: &'static str = "session picker aborted";

/// Which of so many choices are shown in so many rows: a choice takes five
/// rows, at least one is shown, and the selected one is among them.
pub open spec fn shown_choices(selected: int, len: int, height: int) -> (int, int) {
    let visible: int = if height < 5 {
        1
    } else {
        height / 5
    };
    let wanted: int = if selected >= visible - 1 {
        selected - (visible - 1)
    } else {
        0
    };
    let last: int = if len >= visible {
        len - visible
    } else {
        0
    };
    let start: int = if wanted <= last {
        wanted
    } else {
        last
    };
    (
        start,
        if start + visible <= len {
            start + visible
        } else {
            len
        },
    )
}

impl SessionPickerState {
    /// There is something to choose, and one of the choices is selected.
    pub open spec fn well_formed(self) -> bool {
        self.selected < self.choices@.len()
    }

    /// The threads that no thread spawned, newest first; the first one is
    /// selected.
    pub fn from_threads(threads: &Vec<Thread>) -> (result: Result<SessionPickerState, String>)
        ensures
            result is Err <==> root_choices(threads@).len() == 0,
            match result {
                Ok(state) => {
                    &&& state.well_formed()
                    &&& state.selected == 0
                    &&& choice_views(state.choices@) == stable_sorted_by(
                        root_choices(threads@),
                        |a: ChoiceView, b: ChoiceView| choice_before(a, b),
                    )
                },
                Err(error) => error@
                    == "no loaded root thread found; start or resume a remote session first"@,
            },
    {
        let roots = gather_roots(threads);
        let ghost unsorted = roots@;
        let choices = sort_stable(roots);
        proof {
            let view = |choice: ParentThreadChoice| choice@;
            let before = |a: ChoiceView, b: ChoiceView| choice_before(a, b);
            let any = |choice: ParentThreadChoice| true;
            lemma_stable_sorted_view(unsorted, any, view, before);
            lemma_stable_sorted(unsorted);
            assert(choice_views(unsorted).len() == unsorted.len());
            assert(choice_views(choices@) =~= stable_sorted(unsorted).map_values(view));
        }
        if choices.len() == 0 {
            return Err(
                "no loaded root thread found; start or resume a remote session first".to_owned(),
            );
        }
        Ok(SessionPickerState { choices, selected: 0 })
    }

    /// How many threads can be chosen.
    pub fn len(&self) -> (result: usize)
        ensures
            result == self.choices@.len(),
    {
        self.choices.len()
    }

    /// The thread that is selected.
    pub fn selected_thread_id(&self) -> (result: &str)
        requires
            self.well_formed(),
        ensures
            result@ == self.choices@[self.selected as int].thread_id@,
    {
        self.choices[self.selected].thread_id.as_str()
    }

    /// Selects the choice above, if there is one.
    pub fn move_up(&mut self)
        requires
            old(self).well_formed(),
        ensures
            final(self).well_formed(),
            final(self).choices == old(self).choices,
            final(self).selected == (if old(self).selected > 0 {
                old(self).selected - 1
            } else {
                0
            }),
    {
        if self.selected > 0 {
            self.selected = self.selected - 1;
        }
    }

    /// Selects the choice below, if there is one.
    pub fn move_down(&mut self)
        requires
            old(self).well_formed(),
        ensures
            final(self).well_formed(),
            final(self).choices == old(self).choices,
            final(self).selected == (if old(self).selected + 1 < old(self).choices@.len() {
                old(self).selected + 1
            } else {
                old(self).selected as int
            }),
    {
        let len: usize = self.choices.len();
        if self.selected + 1 < len {
            self.selected = self.selected + 1;
        }
    }

    /// Which choices are shown in so many rows: from the first number up to
    /// the second.
    pub fn visible_choices(&self, height: usize) -> (result: (usize, usize))
        requires
            self.well_formed(),
        ensures
            (result.0 as int, result.1 as int) == shown_choices(
                self.selected as int,
                self.choices@.len() as int,
                height as int,
            ),
            result.0 <= self.selected < result.1 <= self.choices@.len(),
    {
        let rows: usize = height / 5;
        let visible: usize = if rows == 0 {
            1
        } else {
            rows
        };
        let len: usize = self.choices.len();
        let wanted: usize = self.selected.saturating_sub(visible - 1);
        let last: usize = len.saturating_sub(visible);
        let start: usize = if wanted <= last {
            wanted
        } else {
            last
        };
        let end: usize = if visible <= len - start {
            start + visible
        } else {
            len
        };
        (start, end)
    }

    /// Lets a pressed key act on the choice.
    pub fn press(&mut self, key: Key) -> (result: PickerOutcome)
        requires
            old(self).well_formed(),
        ensures
            final(self).well_formed(),
            final(self).choices == old(self).choices,
            final(self).selected == selected_after(
                key,
                old(self).selected as int,
                old(self).choices@.len() as int,
            ),
            match result {
                PickerOutcome::Selected(id) => takes(key) && id@ == old(self).choices@[old(
                    self,
                ).selected as int].thread_id@,
                PickerOutcome::Aborted => gives_up(key),
                PickerOutcome::Continue => !takes(key) && !gives_up(key),
            },
    {
        match key {
            Key::Up | Key::Char('k') => {
                self.move_up();
                PickerOutcome::Continue
            },
            Key::Down | Key::Char('j') => {
                self.move_down();
                PickerOutcome::Continue
            },
            Key::Enter => PickerOutcome::Selected(self.selected_thread_id().to_owned()),
            Key::Esc | Key::Char('q') => PickerOutcome::Aborted,
            _ => PickerOutcome::Continue,
        }
    }
}

/// The separator between the parts of a title.
pub open spec fn dot() -> StyledView {
    (" · "@, dim_style())
}

/// The line above the choices: how many there are.
pub open spec fn picker_header_view(count: nat) -> Seq<StyledView> {
    seq![
        ("Select parent session"@, bold_style()),
        dot(),
        (decimal(count) + " loaded roots"@, color_style(TextColor::Cyan)),
    ]
}

/// The line above the choices.
pub fn picker_header(count: usize) -> (result: StyledLine)
    ensures
        line_view(result) == picker_header_view(count as nat),
{
    let mut line: StyledLine = Vec::new();
    push_text(&mut line, "Select parent session".to_owned(), TextStyle::bold());
    push_text(&mut line, " · ".to_owned(), TextStyle::dim());
    push_text(
        &mut line,
        decimal_text(count as u64).concat(" loaded roots"),
        TextStyle::color(TextColor::Cyan),
    );
    assert(line_view(line) =~= picker_header_view(count as nat));
    line
}

/// The line below the choices: the keys, and how many choices do not show.
pub open spec fn picker_footer_text(hidden_above: nat, hidden_below: nat) -> Seq<char> {
    if hidden_above == 0 && hidden_below == 0 {
        "↑/↓ or j/k move · enter select · q quit"@
    } else {
        "↑/↓ or j/k move · enter select · q quit · hidden: "@ + decimal(hidden_above)
            + " above, "@ + decimal(hidden_below) + " below"@
    }
}

/// The line below the choices.
pub fn picker_footer(hidden_above: usize, hidden_below: usize) -> (result: String)
    ensures
        result@ == picker_footer_text(hidden_above as nat, hidden_below as nat),
{
    if hidden_above == 0 && hidden_below == 0 {
        "↑/↓ or j/k move · enter select · q quit".to_owned()
    } else {
        "↑/↓ or j/k move · enter select · q quit · hidden: ".to_owned().concat(
            decimal_text(hidden_above as u64).as_str(),
        ).concat(" above, ").concat(decimal_text(hidden_below as u64).as_str()).concat(" below")
    }
}

/// The first line of a choice: whether it is selected, its project, its label
/// where that differs, and its identity, status and time.
pub open spec fn choice_title_view(
    choice: ChoiceView,
    selected: bool,
    time: Seq<char>,
) -> Seq<StyledView> {
    let head = seq![
        if selected {
            ("› "@, TextStyle { bold: true, ..color_style(TextColor::Cyan) })
        } else {
            ("  "@, plain_style())
        },
        (choice.project_name, bold_style()),
    ];
    let named = if choice.label != choice.project_name {
        head.push(dot()).push((choice.label, plain_style()))
    } else {
        head
    };
    named.push(dot()).push((short_id(choice.thread_id), dim_style())).push(dot()).push(
        (status_name(choice.status), color_style(status_color(choice.status))),
    ).push(dot()).push((time, dim_style()))
}

/// The first line of a choice.
pub fn choice_title(choice: &ParentThreadChoice, selected: bool, time: &str) -> (result: StyledLine)
    ensures
        line_view(result) == choice_title_view(choice@, selected, time@),
{
    let mut line: StyledLine = Vec::new();
    if selected {
        let mut style = TextStyle::color(TextColor::Cyan);
        style.bold = true;
        push_text(&mut line, "› ".to_owned(), style);
    } else {
        push_text(&mut line, "  ".to_owned(), TextStyle::plain());
    }
    push_text(&mut line, choice.project_name.clone(), TextStyle::bold());
    assert(line_view(line) =~= seq![
        if selected {
            ("› "@, TextStyle { bold: true, ..color_style(TextColor::Cyan) })
        } else {
            ("  "@, plain_style())
        },
        (choice@.project_name, bold_style()),
    ]);
    if !same_text(choice.label.as_str(), choice.project_name.as_str()) {
        push_text(&mut line, " · ".to_owned(), TextStyle::dim());
        push_text(&mut line, choice.label.clone(), TextStyle::plain());
    }
    push_text(&mut line, " · ".to_owned(), TextStyle::dim());
    push_text(&mut line, short_thread_id(choice.thread_id.as_str()), TextStyle::dim());
    push_text(&mut line, " · ".to_owned(), TextStyle::dim());
    let (name, color) = status_pill(choice.status);
    push_text(&mut line, name.to_owned(), TextStyle::color(color));
    push_text(&mut line, " · ".to_owned(), TextStyle::dim());
    push_text(&mut line, time.to_owned(), TextStyle::dim());
    line
}

/// The text that stands for a choice's preview.
pub open spec fn preview_or_none(preview: Seq<char>) -> Seq<char> {
    if preview.len() == 0 {
        "No preview."@
    } else {
        preview
    }
}

/// The first line, nothing where there is none.
pub open spec fn first_line(lines: Seq<Seq<char>>) -> Seq<char> {
    if lines.len() > 0 {
        lines[0]
    } else {
        Seq::empty()
    }
}

/// The lines of a choice.
pub open spec fn choice_lines_view(
    choice: ChoiceView,
    selected: bool,
    time: Seq<char>,
    wrapped_preview: Seq<Seq<char>>,
) -> Seq<Seq<StyledView>> {
    seq![
        choice_title_view(choice, selected, time),
        seq![("  cwd: "@, dim_style()), (choice.cwd, plain_style())],
        seq![("  preview: "@, dim_style()), (first_line(wrapped_preview), plain_style())],
    ]
}

/// The lines of a choice, given its time and the lines that its preview is
/// broken into; of these the first one is shown.
pub fn choice_lines(
    choice: &ParentThreadChoice,
    selected: bool,
    time: &str,
    wrapped_preview: &Vec<String>,
) -> (result: Vec<StyledLine>)
    ensures
        lines_view(result@) == choice_lines_view(
            choice@,
            selected,
            time@,
            texts(wrapped_preview@),
        ),
{
    let mut lines: Vec<StyledLine> = Vec::new();
    push_line(&mut lines, choice_title(choice, selected, time));
    let mut cwd: StyledLine = Vec::new();
    push_text(&mut cwd, "  cwd: ".to_owned(), TextStyle::dim());
    push_text(&mut cwd, choice.cwd.clone(), TextStyle::plain());
    assert(line_view(cwd) =~= seq![("  cwd: "@, dim_style()), (choice@.cwd, plain_style())]);
    push_line(&mut lines, cwd);
    let first = if wrapped_preview.len() > 0 {
        wrapped_preview[0].clone()
    } else {
        String::new()
    };
    let ghost shown = first@;
    let mut preview: StyledLine = Vec::new();
    push_text(&mut preview, "  preview: ".to_owned(), TextStyle::dim());
    push_text(&mut preview, first, TextStyle::plain());
    assert(line_view(preview) =~= seq![
        ("  preview: "@, dim_style()),
        (shown, plain_style()),
    ]);
    push_line(&mut lines, preview);
    assert(shown == first_line(texts(wrapped_preview@))) by {
        if wrapped_preview@.len() > 0 {
            assert(texts(wrapped_preview@)[0] == wrapped_preview@[0]@);
        } else {
            assert(shown =~= Seq::<char>::empty());
        }
    }
    assert(lines_view(lines@) =~= choice_lines_view(
        choice@,
        selected,
        time@,
        texts(wrapped_preview@),
    ));
    lines
}

/// The room for text in a box with borders and a margin.
pub open spec fn text_width(width: u16) -> usize {
    if width >= 4 {
        (width - 4) as usize
    } else {
        0
    }
}

/// The lines of a choice in a box of the given width.
pub fn render_choice(choice: &ParentThreadChoice, selected: bool, width: u16) -> (result: Vec<
    StyledLine,
>)
    ensures
        exists|time: Seq<char>|
            shows_time(time, choice.updated_at) && lines_view(result@)
                == #[trigger] choice_lines_view(
                choice@,
                selected,
                time,
                wrapped_lines(preview_or_none(choice@.preview), text_width(width)),
            ),
{
    let time = format_timestamp(choice.updated_at);
    let preview = if choice.preview.as_str().unicode_len() == 0 {
        "No preview.".to_owned()
    } else {
        choice.preview.clone()
    };
    let room: usize = width.saturating_sub(4) as usize;
    let wrapped = wrap_text(preview.as_str(), room);
    proof {
        assert(preview@ =~= preview_or_none(choice@.preview));
        assert(room == text_width(width));
    }
    choice_lines(choice, selected, time.as_str(), &wrapped)
}

/// What is drawn of the choices: the line at the top, the lines of each choice
/// that is shown, and the line at the bottom.
pub struct PickerScreen {
    pub header: StyledLine,
    /// The shown choices, each with whether it is selected.
    pub choices: Vec<(bool, Vec<StyledLine>)>,
    pub footer: String,
}

/// What is drawn of a choice.
pub open spec fn is_drawn_choice(
    drawn: (bool, Vec<StyledLine>),
    choice: ParentThreadChoice,
    selected: bool,
    width: u16,
) -> bool {
    &&& drawn.0 == selected
    &&& exists|time: Seq<char>|
        shows_time(time, choice.updated_at) && lines_view(drawn.1@)
            == #[trigger] choice_lines_view(
            choice@,
            selected,
            time,
            wrapped_lines(preview_or_none(choice@.preview), text_width(width)),
        )
}

/// What is drawn of the choices in so many columns, with so many rows between
/// the lines at the top and the bottom.
pub fn render(state: &SessionPickerState, width: u16, body_height: u16) -> (result: PickerScreen)
    requires
        state.well_formed(),
    ensures
        line_view(result.header) == picker_header_view(state.choices@.len()),
        ({
            let shown = shown_choices(
                state.selected as int,
                state.choices@.len() as int,
                body_height as int,
            );
            &&& result.choices@.len() == shown.1 - shown.0
            &&& forall|i: int|
                0 <= i < result.choices@.len() ==> is_drawn_choice(
                    #[trigger] result.choices@[i],
                    state.choices@[shown.0 + i],
                    shown.0 + i == state.selected,
                    width,
                )
            &&& result.footer@ == picker_footer_text(
                shown.0 as nat,
                (state.choices@.len() - shown.1) as nat,
            )
        }),
{
    let (start, end) = state.visible_choices(body_height as usize);
    let mut choices: Vec<(bool, Vec<StyledLine>)> = Vec::new();
    let mut i: usize = start;
    while i < end
        invariant
            start <= i <= end <= state.choices@.len(),
            choices@.len() == i - start,
            forall|k: int|
                0 <= k < i - start ==> is_drawn_choice(
                    #[trigger] choices@[k],
                    state.choices@[start + k],
                    start + k == state.selected,
                    width,
                ),
        decreases end - i,
    {
        let selected = i == state.selected;
        choices.push((selected, render_choice(&state.choices[i], selected, width)));
        i += 1;
    }
    let count: usize = state.len();
    PickerScreen {
        header: picker_header(count),
        choices,
        footer: picker_footer(start, count - end),
    }
}

/// A choice shows its own thread: its identity, directory, status and time, its
/// preview in one line, and its project or, without one, the start of its
/// identity.
pub proof fn lemma_choices_show_their_thread(thread: Thread)
    ensures
        choice_view(thread).thread_id == thread.id@,
        choice_view(thread).label == label(thread),
        choice_view(thread).cwd == thread.cwd.text@,
        choice_view(thread).updated_at == thread.updated_at,
        choice_view(thread).status == thread.status,
        choice_view(thread).preview == normalized(thread.preview@),
        project_name(thread) is Some ==> choice_view(thread).project_name == project_name(
            thread,
        )->0,
        project_name(thread) is None ==> choice_view(thread).project_name.is_prefix_of(thread.id@)
            && (thread.id@.len() > 8 ==> choice_view(thread).project_name.len() == 8) && (
        thread.id@.len() <= 8 ==> choice_view(thread).project_name == thread.id@),
{
}

/// The threads that can be chosen are exactly those that no thread spawned; the
/// latest comes first, and of equally new ones the one with the smaller
/// identity.
pub proof fn lemma_choices_newest_first(threads: Seq<Thread>)
    ensures
        ({
            let choices = stable_sorted_by(
                root_choices(threads),
                |a: ChoiceView, b: ChoiceView| choice_before(a, b),
            );
            &&& choices.len() == threads.filter(
                |thread: Thread| thread.parent_thread_id is None,
            ).len()
            &&& forall|thread: Thread|
                #![trigger choice_view(thread)]
                threads.contains(thread) && thread.parent_thread_id is None ==> choices.contains(
                    choice_view(thread),
                )
            &&& forall|choice: ChoiceView| #[trigger]
                choices.contains(choice) ==> exists|thread: Thread|
                    threads.contains(thread) && thread.parent_thread_id is None && choice
                        == #[trigger] choice_view(thread)
            &&& forall|i: int, j: int|
                0 <= i < j < choices.len() ==> (#[trigger] choices[i]).updated_at >= (
                #[trigger] choices[j]).updated_at
            &&& forall|i: int, j: int|
                0 <= i < j < choices.len() && (#[trigger] choices[i]).updated_at == (
                #[trigger] choices[j]).updated_at ==> !text_lt(
                    choices[j].thread_id,
                    choices[i].thread_id,
                )
        }),
{
    let before = |a: ChoiceView, b: ChoiceView| choice_before(a, b);
    let keep = |thread: Thread| thread.parent_thread_id is None;
    let picked = threads.filter(keep);
    let roots = root_choices(threads);
    let choices = stable_sorted_by(roots, before);
    assert forall|a: ChoiceView, b: ChoiceView| #[trigger] before(a, b) implies !before(b, a) by {
        if a.updated_at == b.updated_at {
            lemma_text_lt_irreflexive(a.thread_id);
            if text_lt(b.thread_id, a.thread_id) {
                lemma_text_lt_transitive(a.thread_id, b.thread_id, a.thread_id);
            }
        }
    }
    assert forall|a: ChoiceView, b: ChoiceView, c: ChoiceView|
        !(#[trigger] before(a, b)) && !(#[trigger] before(b, c)) implies !before(a, c) by {
        if a.updated_at == b.updated_at && b.updated_at == c.updated_at {
            lemma_text_not_lt_transitive(a.thread_id, b.thread_id, c.thread_id);
        }
    }
    lemma_stable_sorted_by(roots, before);
    assert forall|thread: Thread|
        #![trigger choice_view(thread)]
        threads.contains(thread) && thread.parent_thread_id is None implies choices.contains(
        choice_view(thread),
    ) by {
        let i = choose|i: int| 0 <= i < threads.len() && threads[i] == thread;
        threads.lemma_filter_contains(keep, i);
        let k = choose|k: int| 0 <= k < picked.len() && picked[k] == thread;
        assert(roots[k] == choice_view(thread));
        assert(roots.contains(roots[k]));
    }
    assert forall|choice: ChoiceView| #[trigger] choices.contains(choice) implies exists|
        thread: Thread,
    |
        threads.contains(thread) && thread.parent_thread_id is None && choice
            == #[trigger] choice_view(thread) by {
        assert(roots.contains(choice));
        let k = choose|k: int| 0 <= k < roots.len() && roots[k] == choice;
        threads.lemma_filter_pred(keep, k);
        assert(picked.contains(picked[k]));
        threads.lemma_filter_contains_rev(keep, picked[k]);
        assert(choice == choice_view(picked[k]));
    }
    assert forall|i: int, j: int| 0 <= i < j < choices.len() implies (
    #[trigger] choices[i]).updated_at >= (#[trigger] choices[j]).updated_at by {
        assert(!before(choices[j], choices[i]));
    }
    assert forall|i: int, j: int|
        0 <= i < j < choices.len() && (#[trigger] choices[i]).updated_at == (
        #[trigger] choices[j]).updated_at implies !text_lt(
        choices[j].thread_id,
        choices[i].thread_id,
    ) by {
        assert(!before(choices[j], choices[i]));
    }
}

/// The selected choice is always shown. As many are shown as five rows each
/// allow, one at least; all of them where they fit. The list moves only as far
/// as the selected choice needs: where choices above do not show, the selected
/// one is the last that does.
pub proof fn lemma_selected_choice_is_shown(selected: int, len: int, height: int)
    requires
        0 <= selected < len,
        0 <= height,
    ensures
        ({
            let (start, end) = shown_choices(selected, len, height);
            &&& 0 <= start <= selected < end <= len
            &&& len * 5 <= height ==> start == 0 && end == len
            &&& end - start < len ==> end - start == (if height < 5 {
                1
            } else {
                height / 5
            })
            &&& end - start > 1 ==> (end - start) * 5 <= height
            &&& start > 0 ==> end == selected + 1
        }),
{
}

/// The line above the choices tells how many there are, and the one below how
/// many do not show on either side.
pub proof fn lemma_counts_of_choices(count: nat, above: nat, below: nat)
    ensures
        picker_header_view(count).last().0 == decimal(count) + " loaded roots"@,
        picker_header_view(count)[0].0 == "Select parent session"@,
        above + below > 0 ==> picker_footer_text(above, below)
            == "↑/↓ or j/k move · enter select · q quit · hidden: "@ + decimal(above)
            + " above, "@ + decimal(below) + " below"@,
        above + below == 0 ==> picker_footer_text(above, below)
            == "↑/↓ or j/k move · enter select · q quit"@,
{
}

/// The first line of a choice is marked where the choice is selected, and
/// shows its project, its label where that is another, the start of its
/// identity, its status and its time, in this order, with a dot between.
pub proof fn lemma_title_of_a_choice(choice: ChoiceView, selected: bool, time: Seq<char>)
    ensures
        ({
            let title = choice_title_view(choice, selected, time);
            let n = title.len();
            &&& title[0].0 == (if selected {
                "› "@
            } else {
                "  "@
            })
            &&& title[1] == (choice.project_name, bold_style())
            &&& n == (if choice.label == choice.project_name {
                8int
            } else {
                10int
            })
            &&& choice.label != choice.project_name ==> title[3].0 == choice.label
            &&& title[n - 5].0 == short_id(choice.thread_id)
            &&& title[n - 3] == (
                status_name(choice.status),
                color_style(status_color(choice.status)),
            )
            &&& title[n - 1].0 == time
            &&& title[n - 2] == dot() && title[n - 4] == dot() && title[n - 6] == dot()
            &&& dot().0 == " · "@
        }),
{
}

/// The lines of a choice are its title, its directory and the first line of
/// its preview.
pub proof fn lemma_lines_of_a_choice(
    choice: ChoiceView,
    selected: bool,
    time: Seq<char>,
    wrapped: Seq<Seq<char>>,
)
    ensures
        ({
            let lines = choice_lines_view(choice, selected, time, wrapped);
            &&& lines.len() == 3
            &&& lines[0] == choice_title_view(choice, selected, time)
            &&& lines[1][0].0 == "  cwd: "@ && lines[1][1].0 == choice.cwd && lines[1].len() == 2
            &&& lines[2][0].0 == "  preview: "@ && lines[2].len() == 2
            &&& wrapped.len() > 0 ==> lines[2][1].0 == wrapped[0]
            &&& wrapped.len() == 0 ==> lines[2][1].0.len() == 0
        }),
        choice.preview.len() == 0 ==> preview_or_none(choice.preview) == "No preview."@,
        choice.preview.len() > 0 ==> preview_or_none(choice.preview) == choice.preview,
{
}

/// A box leaves its text four columns less than it has, and none where it has
/// fewer.
pub proof fn lemma_room_in_a_box(width: u16)
    ensures
        width >= 4 ==> text_width(width) + 4 == width,
        width < 4 ==> text_width(width) == 0,
{
}

/// What is drawn of a choice is marked as selected where it is, in its title as
/// well, and shows the choice's project and directory, and its time.
pub proof fn lemma_drawn_choice(
    drawn: (bool, Vec<StyledLine>),
    choice: ParentThreadChoice,
    selected: bool,
    width: u16,
)
    requires
        is_drawn_choice(drawn, choice, selected, width),
    ensures
        drawn.0 == selected,
        lines_view(drawn.1@).len() == 3,
        lines_view(drawn.1@)[0][0].0 == (if selected {
            "› "@
        } else {
            "  "@
        }),
        lines_view(drawn.1@)[0][1].0 == choice.project_name@,
        shows_time(lines_view(drawn.1@)[0].last().0, choice.updated_at),
        lines_view(drawn.1@)[1][1].0 == choice.cwd@,
        ({
            let text = if choice.preview@.len() == 0 {
                "No preview."@
            } else {
                choice.preview@
            };
            let lines = wrapped_lines(
                text,
                if width >= 4 {
                    (width - 4) as usize
                } else {
                    0
                },
            );
            lines.len() > 0 ==> lines_view(drawn.1@)[2][1].0 == lines[0]
        }),
{
    let time = choose|time: Seq<char>|
        shows_time(time, choice.updated_at) && lines_view(drawn.1@)
            == #[trigger] choice_lines_view(
            choice@,
            selected,
            time,
            wrapped_lines(preview_or_none(choice@.preview), text_width(width)),
        );
    lemma_title_of_a_choice(choice@, selected, time);
}

/// Up and down, or `k` and `j`, move the selection by one and stop at the ends;
/// where there is room, the one undoes the other. Enter takes the selected
/// choice, escape and `q` give up, and no key does two of these.
pub proof fn lemma_keys_of_the_choice(key: Key, selected: int, len: int)
    requires
        0 <= selected < len,
    ensures
        0 <= selected_after(key, selected, len) < len,
        selected_after(Key::Up, selected, len) == selected_after(Key::Char('k'), selected, len),
        selected_after(Key::Down, selected, len) == selected_after(Key::Char('j'), selected, len),
        selected > 0 ==> selected_after(Key::Up, selected, len) == selected - 1,
        selected_after(Key::Up, 0, len) == 0,
        selected + 1 < len ==> selected_after(Key::Down, selected, len) == selected + 1
            && selected_after(Key::Up, selected_after(Key::Down, selected, len), len) == selected,
        selected_after(Key::Down, len - 1, len) == len - 1,
        !(key is Up) && !(key is Down) && key != Key::Char('k') && key != Key::Char('j')
            ==> selected_after(key, selected, len) == selected,
        takes(key) <==> key == Key::Enter,
        gives_up(key) <==> key == Key::Esc || key == Key::Char('q'),
{
}

} // verus!
