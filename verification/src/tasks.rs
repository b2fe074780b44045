//! What an agent is working on, as text: the inputs it was given and the last
//! task that its history shows.

use vstd::prelude::*;
use crate::communication::InterAgentCommunication;
use crate::text::{join, join_texts, same_text, texts};

verus! {

/// One piece of what a user hands to an agent.
#[derive(Debug)]
pub enum UserInput {
    Text { text: String },
    Image,
    LocalImage { path: String },
    Audio,
    LocalAudio { path: String },
    Skill { name: String, path: String },
    Mention { name: String, path: String },
    /// Any other kind of input.
    Other,
}

/// The text that stands for an input.
pub open spec fn input_text(input: UserInput) -> Seq<char> {
    match input {
        UserInput::Text { text } => text@,
        UserInput::Image => "[image]"@,
        UserInput::LocalImage { path } => "[local_image:"@ + path@ + "]"@,
        UserInput::Audio => "[audio]"@,
        UserInput::LocalAudio { path } => "[local_audio:"@ + path@ + "]"@,
        UserInput::Skill { name, path } => "[skill:$"@ + name@ + "]("@ + path@ + ")"@,
        UserInput::Mention { name, path } => "[mention:$"@ + name@ + "]("@ + path@ + ")"@,
        UserInput::Other => "[input]"@,
    }
}

/// The texts of the inputs, one per line.
pub open spec fn inputs_text(inputs: Seq<UserInput>) -> Seq<char> {
    join(inputs.map_values(|input: UserInput| input_text(input)), "\n"@)
}

fn input_to_text(input: &UserInput) -> (result: String)
    ensures
        result@ == input_text(*input),
{
    match input {
        UserInput::Text { text } => text.clone(),
        UserInput::Image => "[image]".to_owned(),
        UserInput::LocalImage { path } => "[local_image:".to_owned().concat(path.as_str()).concat(
            "]",
        ),
        UserInput::Audio => "[audio]".to_owned(),
        UserInput::LocalAudio { path } => "[local_audio:".to_owned().concat(path.as_str()).concat(
            "]",
        ),
        UserInput::Skill { name, path } => "[skill:$".to_owned().concat(name.as_str()).concat(
            "](",
        ).concat(path.as_str()).concat(")"),
        UserInput::Mention { name, path } => "[mention:$".to_owned().concat(name.as_str()).concat(
            "](",
        ).concat(path.as_str()).concat(")"),
        UserInput::Other => "[input]".to_owned(),
    }
}

/// The texts of the inputs, one per line.
pub fn render_user_inputs(items: &Vec<UserInput>) -> (result: String)
    ensures
        result@ == inputs_text(items@),
{
    let mut parts: Vec<String> = Vec::new();
    let mut i: usize = 0;
    let ghost all = items@.map_values(|input: UserInput| input_text(input));
    while i < items.len()
        invariant
            i <= items.len(),
            all == items@.map_values(|input: UserInput| input_text(input)),
            texts(parts@) == all.take(i as int),
        decreases items.len() - i,
    {
        let ghost before = parts@;
        let part = input_to_text(&items[i]);
        parts.push(part);
        i += 1;
        assert(texts(parts@) =~= texts(before).push(part@));
        assert(all.take(i as int) =~= all.take(i - 1).push(all[i - 1]));
    }
    assert(all.take(i as int) =~= all);
    join_texts(&parts, "\n")
}

/// The texts of the inputs, one per line.
pub fn render_input_preview(input: &Vec<UserInput>) -> (result: String)
    ensures
        result@ == inputs_text(input@),
{
    render_user_inputs(input)
}

/// One piece of a message in a thread's history.
#[derive(Debug)]
pub enum ContentItem {
    /// Text from outside; the content of the message between agents that it
    /// spells, if it spells one.
    InputText { communication: Option<String> },
    /// Text of the agent; as above.
    OutputText { communication: Option<String> },
    Other,
}

/// An item of a thread's history.
#[derive(Debug)]
pub enum HistoryItem {
    Message {
        /// A new turn begins with this item.
        turn_boundary: bool,
        role: String,
        content: Vec<ContentItem>,
        /// The inputs that a user's message holds, where it can be read.
        user_inputs: Option<Vec<UserInput>>,
    },
    Other,
}

/// The task that an item of the history gives the agent.
pub open spec fn item_task(item: HistoryItem) -> Option<Seq<char>> {
    match item {
        HistoryItem::Message { turn_boundary, role, content, user_inputs } => if !turn_boundary {
            None
        } else if role@ == "user"@ {
            match user_inputs {
                Some(inputs) => Some(inputs_text(inputs@)),
                None => None,
            }
        } else if content@.len() == 1 {
            match content@[0] {
                ContentItem::InputText { communication } => crate::text::opt_text(communication),
                ContentItem::OutputText { communication } => crate::text::opt_text(communication),
                ContentItem::Other => None,
            }
        } else {
            None
        },
        HistoryItem::Other => None,
    }
}

/// The task that the last item to give one gives.
pub open spec fn last_task(items: Seq<HistoryItem>) -> Option<Seq<char>>
    decreases items.len(),
{
    if items.len() == 0 {
        None
    } else if item_task(items.last()) is Some {
        item_task(items.last())
    } else {
        last_task(items.drop_last())
    }
}

/// The task that an item of the history gives the agent: what a user's
/// message says, or what a single message between agents says.
pub fn last_task_message_from_item(item: &HistoryItem) -> (result: Option<String>)
    ensures
        crate::text::opt_text(result) == item_task(*item),
{
    match item {
        HistoryItem::Message { turn_boundary, role, content, user_inputs } => {
            if !*turn_boundary {
                return None;
            }
            if same_text(role.as_str(), "user") {
                return match user_inputs {
                    Some(inputs) => Some(render_user_inputs(inputs)),
                    None => None,
                };
            }
            if content.len() != 1 {
                return None;
            }
            match &content[0] {
                ContentItem::InputText { communication } => communication.clone(),
                ContentItem::OutputText { communication } => communication.clone(),
                ContentItem::Other => None,
            }
        },
        HistoryItem::Other => None,
    }
}

/// The task that the last item to give one gives.
pub fn last_task_message_for_thread(items: &Vec<HistoryItem>) -> (result: Option<String>)
    ensures
        crate::text::opt_text(result) == last_task(items@),
{
    let mut n: usize = items.len();
    assert(items@.take(n as int) =~= items@);
    while n > 0
        invariant
            n <= items.len(),
            last_task(items@) == last_task(items@.take(n as int)),
        decreases n,
    {
        let task = last_task_message_from_item(&items[n - 1]);
        if task.is_some() {
            return task;
        }
        assert(items@.take(n as int).drop_last() =~= items@.take(n - 1));
        n -= 1;
    }
    None
}

/// What waits to be taken into a turn.
#[derive(Debug)]
pub enum TurnInput {
    UserInput { content: Vec<UserInput> },
    ResponseItem(HistoryItem),
    InterAgentCommunication(InterAgentCommunication),
}

/// Parts what waits for a turn before the first input of the user: what comes
/// before it is taken at once, the rest later, in the same order.
pub fn split_leading_non_user_input(pending: Vec<TurnInput>) -> (result: (
    Vec<TurnInput>,
    Vec<TurnInput>,
))
    ensures
        result.0@ + result.1@ == pending@,
        forall|i: int| 0 <= i < result.0@.len() ==> (#[trigger] result.0@[i]) !is UserInput,
        result.1@.len() > 0 ==> result.1@[0] is UserInput,
{
    let mut early = pending;
    let mut i: usize = 0;
    while i < early.len() && !matches!(early[i], TurnInput::UserInput { .. })
        invariant
            i <= early.len(),
            early@ == pending@,
            forall|k: int| 0 <= k < i ==> (#[trigger] early@[k]) !is UserInput,
        decreases early.len() - i,
    {
        i += 1;
    }
    let deferred = early.split_off(i);
    assert(early@ + deferred@ =~= pending@);
    (early, deferred)
}

/// Inputs are told one per line: none is told as nothing, one as its own text,
/// and one more in a line of its own below the others.
pub proof fn lemma_inputs_line_by_line(inputs: Seq<UserInput>, input: UserInput)
    ensures
        inputs_text(Seq::empty()).len() == 0,
        inputs_text(seq![input]) == input_text(input),
        inputs.len() > 0 ==> inputs_text(inputs.push(input)) == inputs_text(inputs) + "\n"@
            + input_text(input),
{
    let told = |input: UserInput| input_text(input);
    crate::text::lemma_join_one_by_one(inputs.map_values(told), input_text(input), "\n"@);
    assert(inputs.push(input).map_values(told) =~= inputs.map_values(told).push(
        input_text(input),
    ));
    assert(seq![input].map_values(told) =~= seq![input_text(input)]);
    assert(Seq::<UserInput>::empty().map_values(told) =~= Seq::<Seq<char>>::empty());
}

/// Text is told as it is; every other input in brackets, by its kind and what
/// it points to.
pub proof fn lemma_what_inputs_say(name: String, path: String, text: String)
    ensures
        input_text(UserInput::Text { text }) == text@,
        input_text(UserInput::Image) == "[image]"@,
        input_text(UserInput::LocalImage { path }) == "[local_image:"@ + path@ + "]"@,
        input_text(UserInput::Audio) == "[audio]"@,
        input_text(UserInput::LocalAudio { path }) == "[local_audio:"@ + path@ + "]"@,
        input_text(UserInput::Skill { name, path }) == "[skill:$"@ + name@ + "]("@ + path@ + ")"@,
        input_text(UserInput::Mention { name, path }) == "[mention:$"@ + name@ + "]("@ + path@
            + ")"@,
        input_text(UserInput::Other) == "[input]"@,
{
}

/// Only a message that begins a turn gives a task: a user's message the inputs
/// that it holds, any other the one message between agents that it spells.
pub proof fn lemma_which_items_give_tasks(
    turn_boundary: bool,
    role: String,
    content: Vec<ContentItem>,
    user_inputs: Option<Vec<UserInput>>,
)
    ensures
        ({
            let task = item_task(
                HistoryItem::Message { turn_boundary, role, content, user_inputs },
            );
            &&& !turn_boundary ==> task is None
            &&& turn_boundary && role@ == "user"@ ==> (task is Some <==> user_inputs is Some)
            &&& turn_boundary && role@ == "user"@ && user_inputs is Some ==> task == Some(
                inputs_text(user_inputs->0@),
            )
            &&& role@ != "user"@ && content@.len() != 1 ==> task is None
            &&& turn_boundary && role@ != "user"@ && content@.len() == 1 ==> match content@[0] {
                ContentItem::InputText { communication: Some(text) } => task == Some(text@),
                ContentItem::OutputText { communication: Some(text) } => task == Some(text@),
                _ => task is None,
            }
        }),
        item_task(HistoryItem::Other) is None,
{
}

/// The task of a history is the one of the last item that gives one: no later
/// item gives any, and there is none only where no item gives one.
pub proof fn lemma_last_task_is_the_latest(items: Seq<HistoryItem>) -> (at: int)
    ensures
        last_task(items) is Some ==> 0 <= at < items.len() && item_task(items[at]) == last_task(
            items,
        ) && forall|i: int| at < i < items.len() ==> item_task(#[trigger] items[i]) is None,
        last_task(items) is None ==> forall|i: int|
            0 <= i < items.len() ==> item_task(#[trigger] items[i]) is None,
    decreases items.len(),
{
    if items.len() == 0 || item_task(items.last()) is Some {
        items.len() - 1
    } else {
        let front = items.drop_last();
        let at = lemma_last_task_is_the_latest(front);
        if last_task(items) is Some {
            assert forall|i: int| at < i < items.len() implies item_task(
                #[trigger] items[i],
            ) is None by {
                if i < front.len() {
                    assert(front[i] == items[i]);
                }
            }
        } else {
            assert forall|i: int| 0 <= i < items.len() implies item_task(
                #[trigger] items[i],
            ) is None by {
                if i < front.len() {
                    assert(front[i] == items[i]);
                }
            }
        }
        at
    }
}

} // verus!
