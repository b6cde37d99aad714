use zeron::queue::{one_line, queue_label, Queue, QueueCall, QueueDragPayload, QueuedMessage};

#[test]
fn label_counts_or_says_nothing() {
    assert_eq!(queue_label(0), None);
    assert_eq!(queue_label(1).as_deref(), Some("1 queued"));
    assert_eq!(queue_label(4).as_deref(), Some("4 queued"));
}

/// A row is one line tall, so a multi-line message has to read as one line
/// — otherwise the panel's rows stop lining up.
#[test]
fn rows_flatten_multi_line_messages() {
    assert_eq!(one_line("fix the test\n\nthen ship it"), "fix the test then ship it");
    assert_eq!(one_line("  spaced   out  "), "spaced out");
}

fn queue(ids: &[&str]) -> Queue {
    let mut queue = Queue::new();
    for id in ids {
        queue.items.push(QueuedMessage {
            id: id.to_string(),
            text: format!("text of {id}"),
            has_attachments: false,
        });
    }
    queue
}

fn ids(queue: &Queue) -> Vec<&str> {
    queue.items.iter().map(|item| item.id.as_str()).collect()
}

#[test]
fn rows_move_and_move_back() {
    let mut q = queue(&["a", "b", "c"]);
    assert_eq!(q.move_queued(0, 2), Some(QueueCall::Move { id: "a".into(), to_index: 2 }));
    assert_eq!(ids(&q), ["b", "c", "a"]);
    q.move_queued(2, 0);
    assert_eq!(ids(&q), ["a", "b", "c"]);
    assert_eq!(q.move_queued(1, 1), None);
    assert_eq!(q.move_queued(3, 0), None);
    assert_eq!(q.move_queued(0, 99), Some(QueueCall::Move { id: "a".into(), to_index: 99 }));
    assert_eq!(ids(&q), ["b", "c", "a"]);
}

#[test]
fn a_row_is_dropped_where_it_hovered() {
    let mut q = queue(&["a", "b", "c"]);
    assert!(q.update_drag_over(2, 0));
    assert!(!q.update_drag_over(2, 0));
    let elsewhere = QueueDragPayload { chat: "other".into(), from: 2 };
    assert_eq!(q.drop_row(&elsewhere, "chat"), None);
    assert!(q.drag.is_none());
    q.update_drag_over(2, 0);
    let here = QueueDragPayload { chat: "chat".into(), from: 2 };
    assert!(q.drop_row(&here, "chat").is_some());
    assert_eq!(ids(&q), ["c", "a", "b"]);
}

#[test]
fn rows_leave_when_they_are_removed_not_when_they_are_sent() {
    let mut q = queue(&["a", "b"]);
    assert_eq!(q.send_queued_now("a".into()), QueueCall::SendNow { id: "a".into() });
    assert_eq!(q.queue_pop_head(), Some(QueueCall::SendNow { id: "a".into() }));
    assert_eq!(ids(&q), ["a", "b"]);
    assert_eq!(q.remove_queued("a".into()), QueueCall::Remove { id: "a".into() });
    assert_eq!(ids(&q), ["b"]);
    assert_eq!(queue(&[]).queue_pop_head(), None);
}

#[test]
fn an_edit_keeps_what_was_typed_before() {
    let mut q = queue(&["a", "b"]);
    assert_eq!(q.begin_queue_edit("b".into(), "half a thought").as_deref(), Some("text of b"));
    let (call, typed) = q.commit_queue_edit("better").unwrap();
    assert_eq!(call, QueueCall::Update { id: "b".into(), text: "better".into() });
    assert_eq!(typed, "half a thought");
    assert_eq!(q.items[1].text, "better");
    q.begin_queue_edit("a".into(), "again");
    assert_eq!(q.cancel_queue_edit().as_deref(), Some("again"));
    assert_eq!(q.cancel_queue_edit(), None);
    assert_eq!(q.commit_queue_edit("lost"), None);
    assert_eq!(q.begin_queue_edit("gone".into(), "x"), None);
}

#[test]
fn rows_know_where_they_stand() {
    let mut q = queue(&["a", "b", "c"]);
    q.begin_queue_edit("b".into(), "");
    let row = q.row(1).unwrap();
    assert!(row.being_edited && row.can_move_up && row.can_move_down);
    assert!(!q.row(0).unwrap().can_move_up);
    assert!(!q.row(2).unwrap().can_move_down);
    assert_eq!(q.row(0).unwrap().text, "text of a");
    assert_eq!(q.row(3), None);
}

#[test]
fn each_call_has_its_own_failure() {
    let id = || "a".to_string();
    assert_eq!(QueueCall::Move { id: id(), to_index: 0 }.failure(), "Couldn't reorder the queue");
    assert_eq!(QueueCall::Remove { id: id() }.failure(), "Couldn't remove the message");
    assert_eq!(QueueCall::SendNow { id: id() }.failure(), "Couldn't send that message");
    assert_eq!(QueueCall::Update { id: id(), text: id() }.failure(), "Couldn't save that edit");
}
