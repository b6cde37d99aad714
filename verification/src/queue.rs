//! The pending-message queue, docked above the composer.
//!
//! Everything typed while the agent was busy, in the order it will be sent. What a row can do is
//! the whole set: move it, retype it, send it now, or drop it. Editing a row to nothing drops it.
//! Changes are made here first and then asked of the document's host.

use vstd::prelude::*;

use crate::search::is_text;
use crate::text::{
    chars_of, decimal, join, joined, lemma_single_spaced, lemma_words_joined, opt_text, push_decimal, same_str, single_spaced, split_words, string_of, trim,
    trimmed, words,
};

verus! {

/// A message that waits.
pub struct QueuedMessage {
    pub id: String,
    pub text: String,
    pub has_attachments: bool,
}

/// A queue row being dragged, scoped to its chat so that it cannot land in another queue.
pub struct QueueDragPayload {
    pub chat: String,
    pub from: usize,
}

/// Where the dragged row would land, tracked while it hovers the list.
#[derive(Debug, Clone, Copy, PartialEq, Eq, Structural)]
pub struct QueueDragState {
    pub from: usize,
    pub over: usize,
}

/// A message on one line.
pub open spec fn flat(text: Seq<char>) -> Seq<char> {
    join(words(text), " "@)
}

/// One line of a queued message: the breaks that make it a paragraph in the composer would make it
/// several rows here.
pub fn one_line(text: &str) -> (r: String)
    ensures
        r@ == flat(text@),
{
    let chars = chars_of(text);
    let parts = split_words(chars.as_slice());
    let line = joined(&parts, " ");
    string_of(line.as_slice())
}

/// "3 queued" — the panel header's aside.
pub fn queue_label(count: usize) -> (r: Option<String>)
    ensures
        opt_text(r) == if count == 0 {
            None
        } else {
            Some(decimal(count as nat) + " queued"@)
        },
{
    if count == 0 {
        return None;
    }
    let mut r = String::new();
    push_decimal(&mut r, count as u64);
    r.push_str(" queued");
    assert(r@ =~= decimal(count as nat) + " queued"@);
    Some(r)
}

/// A change that the document's host is asked for.
#[derive(Debug, PartialEq, Eq)]
pub enum QueueCall {
    Move { id: String, to_index: usize },
    Remove { id: String },
    SendNow { id: String },
    Update { id: String, text: String },
}

impl QueueCall {
    /// What is said where the host did not take it.
    pub fn failure(&self) -> (r: &'static str)
        ensures
            r@ == match *self {
                QueueCall::Move { .. } => "Couldn't reorder the queue"@,
                QueueCall::Remove { .. } => "Couldn't remove the message"@,
                QueueCall::SendNow { .. } => "Couldn't send that message"@,
                QueueCall::Update { .. } => "Couldn't save that edit"@,
            },
    {
        match self {
            QueueCall::Move { .. } => "Couldn't reorder the queue",
            QueueCall::Remove { .. } => "Couldn't remove the message",
            QueueCall::SendNow { .. } => "Couldn't send that message",
            QueueCall::Update { .. } => "Couldn't save that edit",
        }
    }
}

/// A queue with one row moved: taken out, and put back at its new place or at the end.
pub open spec fn moved<T>(queue: Seq<T>, from: int, to: int) -> Seq<T> {
    if 0 <= from < queue.len() {
        let rest = queue.remove(from);
        let at = if to < rest.len() {
            to
        } else {
            rest.len() as int
        };
        rest.insert(at, queue[from])
    } else {
        queue
    }
}

/// Moving a row keeps every row, and every other row's order.
pub proof fn law_moving_keeps_the_rows<T>(queue: Seq<T>, from: int, to: int)
    requires
        0 <= from < queue.len(),
        0 <= to,
    ensures
        moved(queue, from, to).len() == queue.len(),
        moved(queue, from, to).to_multiset() == queue.to_multiset(),
        ({
            let at = if to < queue.len() - 1 {
                to
            } else {
                queue.len() - 1
            };
            &&& moved(queue, from, to)[at] == queue[from]
            &&& moved(queue, from, to).remove(at) == queue.remove(from)
        }),
{
    broadcast use vstd::seq_lib::group_to_multiset_ensures;

    let rest = queue.remove(from);
    let at = if to < rest.len() {
        to
    } else {
        rest.len() as int
    };
    let item = queue[from];
    assert(rest.insert(at, item).remove(at) =~= rest);
    assert(rest.insert(at, item).to_multiset() =~= rest.to_multiset().insert(item));
    assert(rest.insert(from, item) =~= queue);
    assert(rest.insert(from, item).to_multiset() =~= rest.to_multiset().insert(item));
}

/// Moving a row and moving it back leaves the queue as it was.
pub proof fn law_moving_back_undoes<T>(queue: Seq<T>, from: int, to: int)
    requires
        0 <= from < queue.len(),
        0 <= to < queue.len(),
    ensures
        moved(moved(queue, from, to), to, from) == queue,
{
    assert(moved(moved(queue, from, to), to, from) =~= queue);
}

/// The rows but those with this id.
pub open spec fn without_id(queue: Seq<QueuedMessage>, id: Seq<char>) -> Seq<QueuedMessage>
    decreases queue.len(),
{
    if queue.len() == 0 {
        queue
    } else {
        let front = without_id(queue.drop_last(), id);
        if queue.last().id@ == id {
            front
        } else {
            front.push(queue.last())
        }
    }
}

/// The first row with this id, from the `i`th on.
pub open spec fn row_from(queue: Seq<QueuedMessage>, id: Seq<char>, i: int) -> Option<int>
    decreases queue.len() - i,
{
    if i < 0 || i >= queue.len() {
        None
    } else if queue[i].id@ == id {
        Some(i)
    } else {
        row_from(queue, id, i + 1)
    }
}

/// The queue of the selected chat, as the composer shows it, and the row that is being retyped.
pub struct Queue {
    pub items: Vec<QueuedMessage>,
    pub drag: Option<QueueDragState>,
    /// The row in the composer.
    pub editing: Option<String>,
    /// What was typed before the edit began.
    pub stash: Option<String>,
}

impl Queue {
    pub fn new() -> (r: Self)
        ensures
            r.items@.len() == 0,
            r.drag is None,
            r.editing is None,
            r.stash is None,
    {
        Queue { items: Vec::new(), drag: None, editing: None, stash: None }
    }

    fn find(&self, id: &str) -> (r: Option<usize>)
        ensures
            match row_from(self.items@, id@, 0) {
                Some(i) => r is Some && r->0 == i && i < self.items@.len(),
                None => r is None,
            },
    {
        for i in 0..self.items.len()
            invariant
                row_from(self.items@, id@, i as int) == row_from(self.items@, id@, 0),
        {
            if same_str(self.items[i].id.as_str(), id) {
                return Some(i);
            }
        }
        None
    }

    /// Track the drop slot while a row is dragged over the list. Returns whether it changed.
    pub fn update_drag_over(&mut self, from: usize, over: usize) -> (changed: bool)
        ensures
            *final(self) == (Queue { drag: Some(QueueDragState { from, over }), ..*old(self) }),
            changed == (old(self).drag != Some(QueueDragState { from, over })),
    {
        let changed = match self.drag {
            Some(drag) => drag.from != from || drag.over != over,
            None => true,
        };
        self.drag = Some(QueueDragState { from, over });
        changed
    }

    /// A row was dropped: on the queue of its own chat it moves to where it hovered, or stays.
    pub fn drop_row(&mut self, payload: &QueueDragPayload, chat: &str) -> (r: Option<QueueCall>)
        ensures
            final(self).drag is None,
            final(self).editing == old(self).editing,
            final(self).stash == old(self).stash,
            ({
                let to = match old(self).drag {
                    Some(drag) => drag.over,
                    None => payload.from,
                };
                if payload.chat@ != chat@ || payload.from == to || payload.from
                    >= old(self).items@.len() {
                    r is None && final(self).items@ == old(self).items@
                } else {
                    &&& final(self).items@ == moved(old(self).items@, payload.from as int, to as int)
                    &&& r matches Some(QueueCall::Move { id, to_index })
                    &&& id@ == old(self).items@[payload.from as int].id@
                    &&& to_index == to
                }
            }),
    {
        let to: usize = match self.drag {
            Some(drag) => drag.over,
            None => payload.from,
        };
        self.drag = None;
        if !same_str(payload.chat.as_str(), chat) {
            return None;
        }
        self.move_queued(payload.from, to)
    }

    /// Move the row at `from` to `to`.
    pub fn move_queued(&mut self, from: usize, to: usize) -> (r: Option<QueueCall>)
        ensures
            final(self).drag == old(self).drag,
            final(self).editing == old(self).editing,
            final(self).stash == old(self).stash,
            if from == to || from >= old(self).items@.len() {
                r is None && final(self).items@ == old(self).items@
            } else {
                &&& final(self).items@ == moved(old(self).items@, from as int, to as int)
                &&& r matches Some(QueueCall::Move { id, to_index })
                &&& id@ == old(self).items@[from as int].id@
                &&& to_index == to
            },
    {
        if from == to || from >= self.items.len() {
            return None;
        }
        let item = self.items.remove(from);
        let id = item.id.clone();
        let at: usize = if to < self.items.len() {
            to
        } else {
            self.items.len()
        };
        self.items.insert(at, item);
        Some(QueueCall::Move { id, to_index: to })
    }

    /// An edit of this row is over.
    pub open spec fn edit_without(self, id: Seq<char>) -> Option<Seq<char>> {
        if opt_text(self.editing) == Some(id) {
            None
        } else {
            opt_text(self.editing)
        }
    }

    /// Drop a queued message.
    pub fn remove_queued(&mut self, id: String) -> (r: QueueCall)
        ensures
            final(self).items@ == without_id(old(self).items@, id@),
            opt_text(final(self).editing) == old(self).edit_without(id@),
            final(self).drag == old(self).drag,
            final(self).stash == old(self).stash,
            r == (QueueCall::Remove { id }),
    {
        if is_text(&self.editing, id.as_str()) {
            self.editing = None;
        }
        let ghost all = self.items@;
        let mut items: Vec<QueuedMessage> = Vec::new();
        std::mem::swap(&mut items, &mut self.items);
        for item in it: items
            invariant
                it.seq() == all,
                self.items@ == without_id(all.take(it.index() as int), id@),
                opt_text(self.editing) == old(self).edit_without(id@),
                self.drag == old(self).drag,
                self.stash == old(self).stash,
        {
            proof {
                let upto = all.take(it.index() as int + 1);
                assert(upto.drop_last() =~= all.take(it.index() as int));
                assert(upto.last() == all[it.index() as int]);
            }
            if !same_str(item.id.as_str(), id.as_str()) {
                self.items.push(item);
            }
        }
        assert(all.take(all.len() as int) =~= all);
        QueueCall::Remove { id }
    }

    /// Send one now: the host stops the turn and hands this message over. The row leaves the queue
    /// when the host has taken it, so that a failed interrupt does not lose the text.
    pub fn send_queued_now(&mut self, id: String) -> (r: QueueCall)
        ensures
            final(self).items@ == old(self).items@,
            opt_text(final(self).editing) == old(self).edit_without(id@),
            final(self).drag == old(self).drag,
            final(self).stash == old(self).stash,
            r == (QueueCall::SendNow { id }),
    {
        if is_text(&self.editing, id.as_str()) {
            self.editing = None;
        }
        QueueCall::SendNow { id }
    }

    /// Enter on an empty composer with a queue behind it: the top message goes now.
    pub fn queue_pop_head(&mut self) -> (r: Option<QueueCall>)
        ensures
            final(self).items@ == old(self).items@,
            final(self).drag == old(self).drag,
            final(self).stash == old(self).stash,
            if old(self).items@.len() == 0 {
                r is None && final(self).editing == old(self).editing
            } else {
                &&& r matches Some(QueueCall::SendNow { id })
                &&& id@ == old(self).items@[0].id@
                &&& opt_text(final(self).editing) == old(self).edit_without(id@)
            },
    {
        if self.items.len() == 0 {
            return None;
        }
        let id = self.items[0].id.clone();
        Some(self.send_queued_now(id))
    }

    /// Lift a queued message into the composer to retype it: what the composer is to hold, or
    /// nothing where there is no such row. The row stays in line until the edit is committed, and
    /// what was half-typed is kept.
    pub fn begin_queue_edit(&mut self, id: String, typed: &str) -> (r: Option<String>)
        ensures
            final(self).items@ == old(self).items@,
            final(self).drag == old(self).drag,
            match row_from(old(self).items@, id@, 0) {
                None => {
                    &&& r is None
                    &&& final(self).editing == old(self).editing
                    &&& final(self).stash == old(self).stash
                },
                Some(i) => {
                    &&& opt_text(r) == Some(old(self).items@[i].text@)
                    &&& final(self).editing == Some(id)
                    &&& opt_text(final(self).stash) == if trim(typed@).len() > 0 {
                        Some(typed@)
                    } else {
                        None
                    }
                },
            },
    {
        let at: usize = match self.find(id.as_str()) {
            Some(at) => at,
            None => {
                return None;
            },
        };
        let chars = chars_of(typed);
        self.stash = if trimmed(chars.as_slice()).len() > 0 {
            Some(typed.to_owned())
        } else {
            None
        };
        self.editing = Some(id);
        Some(self.items[at].text.clone())
    }

    /// What the composer holds once an edit is over: the stash, or nothing.
    pub open spec fn restored(self) -> Seq<char> {
        match self.stash {
            Some(stash) => stash@,
            None => Seq::empty(),
        }
    }

    fn restore_stash(&mut self) -> (r: String)
        ensures
            r@ == old(self).restored(),
            final(self).stash is None,
            final(self).items == old(self).items,
            final(self).drag == old(self).drag,
            final(self).editing == old(self).editing,
    {
        match self.stash.take() {
            Some(stash) => stash,
            None => String::new(),
        }
    }

    /// Commit the edit in the composer: what the host is asked, and what the composer is to hold.
    /// Emptied text removes the row. Nothing where no edit is open.
    pub fn commit_queue_edit(&mut self, typed: &str) -> (r: Option<(QueueCall, String)>)
        ensures
            final(self).drag == old(self).drag,
            match old(self).editing {
                None => {
                    &&& r is None
                    &&& final(self).items@ == old(self).items@
                    &&& final(self).editing is None
                    &&& final(self).stash == old(self).stash
                },
                Some(id) => {
                    &&& final(self).editing is None
                    &&& final(self).stash is None
                    &&& r matches Some((call, restored))
                    &&& restored@ == old(self).restored()
                    &&& if trim(typed@).len() == 0 {
                        &&& call is Remove && call->Remove_id@ == id@
                        &&& final(self).items@ == without_id(old(self).items@, id@)
                    } else {
                        &&& call is Update && call->Update_id@ == id@ && call->text@ == trim(typed@)
                        &&& final(self).items@.len() == old(self).items@.len()
                        &&& forall|k: int|
                            #![trigger final(self).items@[k]]
                            0 <= k < final(self).items@.len() ==> {
                                let before = old(self).items@[k];
                                let after = final(self).items@[k];
                                if row_from(old(self).items@, id@, 0) == Some(k) {
                                    &&& after.id == before.id
                                    &&& after.text@ == trim(typed@)
                                    &&& after.has_attachments == before.has_attachments
                                } else {
                                    after == before
                                }
                            }
                    }
                },
            },
    {
        let id = match self.editing.take() {
            Some(id) => id,
            None => {
                return None;
            },
        };
        let chars = chars_of(typed);
        let bare = trimmed(chars.as_slice());
        let call = if bare.len() == 0 {
            self.remove_queued(id)
        } else {
            let text = string_of(bare);
            if let Some(at) = self.find(id.as_str()) {
                let mut item = self.items.remove(at);
                item.text = text.clone();
                self.items.insert(at, item);
            }
            QueueCall::Update { id, text }
        };
        let restored = self.restore_stash();
        Some((call, restored))
    }

    /// Leave an edit, with the row as it was: what the composer is to hold.
    pub fn cancel_queue_edit(&mut self) -> (r: Option<String>)
        ensures
            final(self).items@ == old(self).items@,
            final(self).drag == old(self).drag,
            final(self).editing is None,
            match old(self).editing {
                None => r is None && final(self).stash == old(self).stash,
                Some(_) => opt_text(r) == Some(old(self).restored()) && final(self).stash is None,
            },
    {
        match self.editing.take() {
            None => None,
            Some(_) => Some(self.restore_stash()),
        }
    }

    /// The place of a row in line, counted from one.
    pub open spec fn place_text(ix: nat) -> Seq<char> {
        decimal(ix + 1)
    }

    /// What a row shows: nothing but its gap while it is dragged.
    pub fn row(&self, ix: usize) -> (r: Option<QueueRow>)
        requires
            self.items@.len() < usize::MAX,
        ensures
            r is Some <==> ix < self.items@.len() && !(self.drag matches Some(drag) && drag.from
                == ix),
            r is Some ==> {
                let item = self.items@[ix as int];
                &&& r->0.place@ == Self::place_text(ix as nat)
                &&& r->0.text@ == flat(item.text@)
                &&& r->0.has_attachments == item.has_attachments
                &&& r->0.being_edited == (opt_text(self.editing) == Some(item.id@))
                &&& r->0.can_move_up == (ix > 0)
                &&& r->0.can_move_down == (ix + 1 < self.items@.len())
            },
    {
        if ix >= self.items.len() {
            return None;
        }
        if let Some(drag) = self.drag {
            if drag.from == ix {
                return None;
            }
        }
        let item = &self.items[ix];
        let mut place = String::new();
        push_decimal(&mut place, ix as u64 + 1);
        assert(place@ =~= Self::place_text(ix as nat));
        Some(
            QueueRow {
                place,
                text: one_line(item.text.as_str()),
                has_attachments: item.has_attachments,
                being_edited: is_text(&self.editing, item.id.as_str()),
                can_move_up: ix > 0,
                can_move_down: ix + 1 < self.items.len(),
            },
        )
    }
}

/// What a row of the queue shows.
#[derive(Debug, PartialEq, Eq)]
pub struct QueueRow {
    pub place: String,
    pub text: String,
    pub has_attachments: bool,
    pub being_edited: bool,
    pub can_move_up: bool,
    pub can_move_down: bool,
}

proof fn lemma_without_id(queue: Seq<QueuedMessage>, id: Seq<char>, i: int)
    requires
        0 <= i < queue.len(),
        queue[i].id@ != id,
    ensures
        without_id(queue.take(i), id).len() < without_id(queue, id).len(),
        without_id(queue, id)[without_id(queue.take(i), id).len() as int] == queue[i],
    decreases queue.len(),
{
    let front = queue.drop_last();
    if i < front.len() {
        assert(front[i] == queue[i]);
        assert(front.take(i) =~= queue.take(i));
        lemma_without_id(front, id, i);
    } else {
        assert(queue.take(i) =~= front);
    }
}

/// Dropping a message drops it and keeps the rest: no row has its id, nothing is added, and any two
/// other rows are there in their order.
pub proof fn law_dropping_keeps_the_others(
    queue: Seq<QueuedMessage>,
    id: Seq<char>,
    i: int,
    j: int,
)
    requires
        0 <= i < j < queue.len(),
        queue[i].id@ != id,
        queue[j].id@ != id,
    ensures
        ({
            let left = without_id(queue, id);
            exists|x: int, y: int|
                0 <= x < y < left.len() && #[trigger] left[x] == queue[i] && #[trigger] left[y]
                    == queue[j]
        }),
{
    let left = without_id(queue, id);
    lemma_without_id(queue, id, i);
    lemma_without_id(queue, id, j);
    assert(queue.take(j)[i] == queue[i]);
    lemma_without_id(queue.take(j), id, i);
    assert(queue.take(j).take(i) =~= queue.take(i));
    let x = without_id(queue.take(i), id).len() as int;
    let y = without_id(queue.take(j), id).len() as int;
    assert(left[x] == queue[i] && left[y] == queue[j]);
}

/// A dropped message is gone, and what is left was queued.
pub proof fn law_dropped_messages_are_gone(queue: Seq<QueuedMessage>, id: Seq<char>)
    ensures
        forall|k: int|
            0 <= k < without_id(queue, id).len() ==> (#[trigger] without_id(queue, id)[k]).id@ != id
                && queue.contains(without_id(queue, id)[k]),
        (forall|i: int| 0 <= i < queue.len() ==> (#[trigger] queue[i]).id@ != id) ==> without_id(
            queue,
            id,
        ) == queue,
    decreases queue.len(),
{
    if queue.len() > 0 {
        let front = queue.drop_last();
        law_dropped_messages_are_gone(front, id);
        let kept = without_id(front, id);
        let all = without_id(queue, id);
        assert forall|k: int| 0 <= k < all.len() implies (#[trigger] all[k]).id@ != id
            && queue.contains(all[k]) by {
            if k < kept.len() {
                assert(all[k] == kept[k]);
                let i = choose|i: int| 0 <= i < front.len() && front[i] == kept[k];
                assert(queue[i] == all[k]);
            } else {
                assert(all[k] == queue[queue.len() - 1]);
            }
        }
        if forall|i: int| 0 <= i < queue.len() ==> (#[trigger] queue[i]).id@ != id {
            assert forall|i: int| 0 <= i < front.len() implies (#[trigger] front[i]).id@ != id by {
                assert(front[i] == queue[i]);
            }
            assert(all =~= queue);
        }
    }
}

/// The row that is retyped is the first with its id.
pub proof fn law_rows_are_found_by_id(queue: Seq<QueuedMessage>, id: Seq<char>, from: int)
    requires
        0 <= from <= queue.len(),
    ensures
        match row_from(queue, id, from) {
            Some(i) => from <= i < queue.len() && queue[i].id@ == id && forall|j: int|
                from <= j < i ==> (#[trigger] queue[j]).id@ != id,
            None => forall|j: int| from <= j < queue.len() ==> (#[trigger] queue[j]).id@ != id,
        },
    decreases queue.len() - from,
{
    if from < queue.len() && queue[from].id@ != id {
        law_rows_are_found_by_id(queue, id, from + 1);
    }
}

/// A row shows its message on one line: no break is left in it, no two blanks stand together and
/// none at an end, and a message that is so already is shown as it is.
pub proof fn law_rows_are_one_line(text: Seq<char>)
    ensures
        single_spaced(flat(text)),
        single_spaced(text) ==> flat(text) == text,
        forall|i: int|
            0 <= i < flat(text).len() ==> #[trigger] flat(text)[i] == ' ' || text.contains(
                flat(text)[i],
            ),
{
    reveal_strlit(" ");
    assert(" "@ =~= seq![' ']);
    lemma_words_joined(text);
    if single_spaced(text) {
        lemma_single_spaced(text);
    }
}

/// An edit ends with the row that it is of, and with no other; when it is over the composer holds
/// what was typed before.
pub proof fn law_edits_end_with_their_row(queue: Queue, id: Seq<char>)
    ensures
        queue.editing is Some && (queue.editing->0)@ == id ==> queue.edit_without(id) is None,
        queue.editing is Some && (queue.editing->0)@ != id ==> queue.edit_without(id) == Some(
            (queue.editing->0)@,
        ),
        queue.editing is None ==> queue.edit_without(id) is None,
        queue.stash is Some ==> queue.restored() == (queue.stash->0)@,
        queue.stash is None ==> queue.restored().len() == 0,
{
}

} // verus!
