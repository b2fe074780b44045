//! The previews of threads.

use vstd::prelude::*;
use crate::dashboard::model::{
    DashboardPreview, PreviewSource, PreviewView, Thread, ThreadItem, Turn,
};
use crate::text::{
    is_blank, join, join_texts, lemma_normalized_empty_iff_blank, normalize, normalized, texts,
};

verus! {

/// A text as a preview shows it: its words with one blank between them.
pub fn normalize_preview(text: &str) -> (result: String)
    ensures
        result@ == normalized(text@),
{
    normalize(text)
}

/// A finished preview, unless its text is empty.
pub open spec fn finished(text: Seq<char>, source: PreviewSource) -> Option<PreviewView> {
    if normalized(text).len() > 0 {
        Some(PreviewView { text: normalized(text), source, live: false })
    } else {
        None
    }
}

/// The preview that an item gives. Of a piece of reasoning the summary counts
/// first, then the content.
pub open spec fn item_preview(item: ThreadItem) -> Option<PreviewView> {
    match item {
        ThreadItem::AgentMessage { text } => finished(text@, PreviewSource::AgentMessage),
        ThreadItem::Plan { text } => finished(text@, PreviewSource::Plan),
        ThreadItem::Reasoning { summary, content } => {
            let from_summary = finished(
                join(texts(summary@), " "@),
                PreviewSource::ReasoningSummary,
            );
            if from_summary is Some {
                from_summary
            } else {
                finished(join(texts(content@), " "@), PreviewSource::ReasoningText)
            }
        },
        ThreadItem::Other => None,
    }
}

/// The preview that the last item to give one gives.
pub open spec fn items_preview(items: Seq<ThreadItem>) -> Option<PreviewView>
    decreases items.len(),
{
    if items.len() == 0 {
        None
    } else if item_preview(items.last()) is Some {
        item_preview(items.last())
    } else {
        items_preview(items.drop_last())
    }
}

/// The preview that the last turn to give one gives.
pub open spec fn turns_preview(turns: Seq<Turn>) -> Option<PreviewView>
    decreases turns.len(),
{
    if turns.len() == 0 {
        None
    } else if items_preview(turns.last().items@) is Some {
        items_preview(turns.last().items@)
    } else {
        turns_preview(turns.drop_last())
    }
}

/// The preview of a thread's finished work: what its turns give, else what
/// the thread itself has as a preview.
pub open spec fn thread_preview(thread: Thread) -> PreviewView {
    match turns_preview(thread.turns@) {
        Some(preview) => preview,
        None => PreviewView {
            text: normalized(thread.preview@),
            source: PreviewSource::ThreadPreview,
            live: false,
        },
    }
}

/// The view of an optional preview.
pub open spec fn opt_preview(preview: Option<DashboardPreview>) -> Option<PreviewView> {
    match preview {
        Some(preview) => Some(preview@),
        None => None,
    }
}

fn finished_preview(text: &str, source: PreviewSource) -> (result: Option<DashboardPreview>)
    ensures
        opt_preview(result) == finished(text@, source),
{
    let text = normalize_preview(text);
    if text.as_str().unicode_len() > 0 {
        Some(DashboardPreview { text, source, live: false })
    } else {
        None
    }
}

fn preview_of_item(item: &ThreadItem) -> (result: Option<DashboardPreview>)
    ensures
        opt_preview(result) == item_preview(*item),
{
    match item {
        ThreadItem::AgentMessage { text } => finished_preview(
            text.as_str(),
            PreviewSource::AgentMessage,
        ),
        ThreadItem::Plan { text } => finished_preview(text.as_str(), PreviewSource::Plan),
        ThreadItem::Reasoning { summary, content } => {
            let from_summary = finished_preview(
                join_texts(summary, " ").as_str(),
                PreviewSource::ReasoningSummary,
            );
            if from_summary.is_some() {
                return from_summary;
            }
            finished_preview(join_texts(content, " ").as_str(), PreviewSource::ReasoningText)
        },
        ThreadItem::Other => None,
    }
}

/// The preview that the last item of a turn to give one gives.
pub fn turn_preview(turn: &Turn) -> (result: Option<DashboardPreview>)
    ensures
        opt_preview(result) == items_preview(turn.items@),
{
    let items = &turn.items;
    let mut n: usize = items.len();
    assert(items@.take(n as int) =~= items@);
    while n > 0
        invariant
            n <= items.len(),
            *items == turn.items,
            items_preview(items@) == items_preview(items@.take(n as int)),
        decreases n,
    {
        let preview = preview_of_item(&items[n - 1]);
        if preview.is_some() {
            return preview;
        }
        assert(items@.take(n as int).drop_last() =~= items@.take(n - 1));
        n -= 1;
    }
    None
}

/// The preview of a thread's finished work.
pub fn committed_preview(thread: &Thread) -> (result: DashboardPreview)
    ensures
        result@ == thread_preview(*thread),
{
    let turns = &thread.turns;
    let mut n: usize = turns.len();
    assert(turns@.take(n as int) =~= turns@);
    while n > 0
        invariant
            n <= turns.len(),
            *turns == thread.turns,
            turns_preview(turns@) == turns_preview(turns@.take(n as int)),
        decreases n,
    {
        if let Some(preview) = turn_preview(&turns[n - 1]) {
            return preview;
        }
        assert(turns@.take(n as int).drop_last() =~= turns@.take(n - 1));
        n -= 1;
    }
    DashboardPreview {
        text: normalize_preview(thread.preview.as_str()),
        source: PreviewSource::ThreadPreview,
        live: false,
    }
}

/// The preview of finished work is finished, and is normalized already.
pub proof fn lemma_committed_preview_normalized(thread: Thread)
    ensures
        !thread_preview(thread).live,
        normalized(thread_preview(thread).text) == thread_preview(thread).text,
{
    lemma_turns_preview_normalized(thread.turns@);
    crate::text::lemma_normalized_idempotent(thread.preview@);
}

proof fn lemma_turns_preview_normalized(turns: Seq<Turn>)
    ensures
        turns_preview(turns) matches Some(preview) ==> !preview.live && normalized(preview.text)
            == preview.text,
    decreases turns.len(),
{
    if turns.len() > 0 {
        lemma_items_preview_normalized(turns.last().items@);
        lemma_turns_preview_normalized(turns.drop_last());
    }
}

proof fn lemma_items_preview_normalized(items: Seq<ThreadItem>)
    ensures
        items_preview(items) matches Some(preview) ==> !preview.live && normalized(preview.text)
            == preview.text,
    decreases items.len(),
{
    if items.len() > 0 {
        lemma_items_preview_normalized(items.drop_last());
        match items.last() {
            ThreadItem::AgentMessage { text } => crate::text::lemma_normalized_idempotent(text@),
            ThreadItem::Plan { text } => crate::text::lemma_normalized_idempotent(text@),
            ThreadItem::Reasoning { summary, content } => {
                crate::text::lemma_normalized_idempotent(join(texts(summary@), " "@));
                crate::text::lemma_normalized_idempotent(join(texts(content@), " "@));
            },
            ThreadItem::Other => {},
        }
    }
}

/// The latest item of a turn that says something is what the turn shows.
pub proof fn lemma_latest_item_is_shown(items: Seq<ThreadItem>, i: int)
    requires
        0 <= i < items.len(),
        item_preview(items[i]) is Some,
        forall|j: int| i < j < items.len() ==> item_preview(#[trigger] items[j]) is None,
    ensures
        items_preview(items) == item_preview(items[i]),
    decreases items.len(),
{
    if i < items.len() - 1 {
        assert(item_preview(items[items.len() - 1]) is None);
        let front = items.drop_last();
        assert forall|j: int| i < j < front.len() implies item_preview(#[trigger] front[j])
            is None by {
            assert(front[j] == items[j]);
        }
        lemma_latest_item_is_shown(front, i);
    }
}

/// A turn shows something exactly where one of its items says something.
pub proof fn lemma_silent_turn_shows_nothing(items: Seq<ThreadItem>)
    ensures
        items_preview(items) is None <==> forall|i: int|
            0 <= i < items.len() ==> item_preview(#[trigger] items[i]) is None,
    decreases items.len(),
{
    if items.len() > 0 {
        let front = items.drop_last();
        lemma_silent_turn_shows_nothing(front);
        if items_preview(items) is None {
            assert forall|i: int| 0 <= i < items.len() implies item_preview(#[trigger] items[i])
                is None by {
                if i < front.len() {
                    assert(front[i] == items[i]);
                }
            }
        }
        if forall|i: int| 0 <= i < items.len() ==> item_preview(#[trigger] items[i]) is None {
            assert(item_preview(items[items.len() - 1]) is None);
            assert forall|i: int| 0 <= i < front.len() implies item_preview(#[trigger] front[i])
                is None by {
                assert(front[i] == items[i]);
            }
        }
    }
}

proof fn lemma_latest_turn_counts(turns: Seq<Turn>, i: int)
    requires
        0 <= i < turns.len(),
        items_preview(turns[i].items@) is Some,
        forall|j: int|
            i < j < turns.len() ==> items_preview((#[trigger] turns[j]).items@) is None,
    ensures
        turns_preview(turns) == items_preview(turns[i].items@),
    decreases turns.len(),
{
    if i < turns.len() - 1 {
        assert(items_preview(turns[turns.len() - 1].items@) is None);
        let front = turns.drop_last();
        assert forall|j: int| i < j < front.len() implies items_preview(
            (#[trigger] front[j]).items@,
        ) is None by {
            assert(front[j] == turns[j]);
        }
        lemma_latest_turn_counts(front, i);
    }
}

proof fn lemma_silent_turns(turns: Seq<Turn>)
    requires
        forall|i: int|
            0 <= i < turns.len() ==> items_preview((#[trigger] turns[i]).items@) is None,
    ensures
        turns_preview(turns) is None,
    decreases turns.len(),
{
    if turns.len() > 0 {
        let front = turns.drop_last();
        assert(items_preview(turns[turns.len() - 1].items@) is None);
        assert forall|i: int| 0 <= i < front.len() implies items_preview(
            (#[trigger] front[i]).items@,
        ) is None by {
            assert(front[i] == turns[i]);
        }
        lemma_silent_turns(front);
    }
}

/// The latest turn that says something is what a thread shows, whatever
/// earlier turns said.
pub proof fn lemma_latest_turn_is_shown(thread: Thread, i: int)
    requires
        0 <= i < thread.turns@.len(),
        items_preview(thread.turns@[i].items@) is Some,
        forall|j: int|
            i < j < thread.turns@.len() ==> items_preview((#[trigger] thread.turns@[j]).items@)
                is None,
    ensures
        thread_preview(thread) == items_preview(thread.turns@[i].items@)->0,
{
    lemma_latest_turn_counts(thread.turns@, i);
}

/// A thread none of whose turns says anything shows its own preview.
pub proof fn lemma_silent_thread_shows_its_preview(thread: Thread)
    requires
        forall|i: int|
            0 <= i < thread.turns@.len() ==> items_preview((#[trigger] thread.turns@[i]).items@)
                is None,
    ensures
        thread_preview(thread).text == normalized(thread.preview@),
        thread_preview(thread).source is ThreadPreview,
        !thread_preview(thread).live,
{
    lemma_silent_turns(thread.turns@);
}

/// What an item says: a message and a plan their words, a piece of reasoning
/// the words of its summary or, where there are none, of its content; each
/// under its own name, and finished. Where there are no words, and for any
/// other item, nothing.
pub proof fn lemma_what_items_say(item: ThreadItem)
    ensures
        item is Other ==> item_preview(item) is None,
        item matches ThreadItem::AgentMessage { text } ==> match item_preview(item) {
            Some(preview) => preview.text == normalized(text@) && preview.text.len() > 0
                && preview.source is AgentMessage && !preview.live,
            None => is_blank(text@),
        },
        item matches ThreadItem::Plan { text } ==> match item_preview(item) {
            Some(preview) => preview.text == normalized(text@) && preview.text.len() > 0
                && preview.source is Plan && !preview.live,
            None => is_blank(text@),
        },
        item matches ThreadItem::Reasoning { summary, content } ==> {
            let words = normalized(join(texts(summary@), " "@));
            let more = normalized(join(texts(content@), " "@));
            match item_preview(item) {
                Some(preview) => {
                    &&& !preview.live
                    &&& words.len() > 0 ==> preview.text == words
                        && preview.source is ReasoningSummary
                    &&& words.len() == 0 ==> preview.text == more && more.len() > 0
                        && preview.source is ReasoningText
                },
                None => words.len() == 0 && more.len() == 0,
            }
        },
{
    match item {
        ThreadItem::AgentMessage { text } => lemma_normalized_empty_iff_blank(text@),
        ThreadItem::Plan { text } => lemma_normalized_empty_iff_blank(text@),
        _ => {},
    }
}

} // verus!
