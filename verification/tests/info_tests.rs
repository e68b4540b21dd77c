use dungeon::InfoMessage;
use dungeon::InfoQueue;

#[test]
fn test_message_display_text() {
    let m = InfoMessage::new("Item".to_string(), "Torch".to_string());
    assert_eq!(m.counter, 1);
    assert_eq!(m.to_string(), "Torch".to_string());
    let m = InfoMessage { counter: 12, title: "Item".to_string(), message: "Torch".to_string() };
    assert_eq!(m.to_string(), "12 mal: Torch".to_string());
}

#[test]
fn test_queue_deduplicates_repeated_head() {
    let mut q = InfoQueue::new();
    q.queue("Item".to_string(), "Torch".to_string());
    q.queue("Item".to_string(), "Torch".to_string());
    assert_eq!(q.queue.len(), 1);
    let head = q.head().unwrap();
    assert_eq!(head.counter, 2);
    assert_eq!(head.to_string(), "2 mal: Torch".to_string());
}

#[test]
fn test_queue_appends_when_head_differs() {
    let mut q = InfoQueue::new();
    q.queue("Item".to_string(), "Torch".to_string());
    q.queue("Enemy".to_string(), "Wolf".to_string());
    q.queue("Item".to_string(), "Axe".to_string());
    assert_eq!(q.queue.len(), 3);
    assert_eq!(q.queue[0].message, "Torch".to_string());
    assert_eq!(q.queue[1].message, "Wolf".to_string());
    assert_eq!(q.queue[2].message, "Axe".to_string());
    assert_eq!(q.queue[0].counter, 1);
    assert_eq!(q.queue[1].counter, 1);
    assert_eq!(q.queue[2].counter, 1);
}

#[test]
fn test_queue_dedup_checks_head_only() {
    // the de-duplication check is against the head only: a push that repeats
    // the head merges into it even when other entries sit behind it
    let mut q = InfoQueue::new();
    q.queue("Item".to_string(), "Torch".to_string());
    q.queue("Enemy".to_string(), "Wolf".to_string());
    q.queue("Item".to_string(), "Torch".to_string());
    assert_eq!(q.queue.len(), 2);
    assert_eq!(q.head().unwrap().counter, 2);
    // while a push matching a non-head entry is enqueued anew
    q.queue("Enemy".to_string(), "Wolf".to_string());
    assert_eq!(q.queue.len(), 3);
    assert_eq!(q.queue[1].counter, 1);
    assert_eq!(q.queue[2].counter, 1);
}

#[test]
fn test_queue_push_restarts_timer() {
    let mut q = InfoQueue::new();
    assert_eq!(q.timer, 30);
    q.timer = 3;
    q.queue("Item".to_string(), "Torch".to_string());
    assert_eq!(q.timer, 30);
    q.timer = 0;
    q.queue("Item".to_string(), "Torch".to_string());
    assert_eq!(q.timer, 30);
}

#[test]
fn test_dequeue_drops_head_and_restarts_timer() {
    let mut q = InfoQueue::new();
    q.queue("Item".to_string(), "Torch".to_string());
    q.queue("Enemy".to_string(), "Wolf".to_string());
    q.timer = 0;
    q.dequeue();
    assert_eq!(q.timer, 30);
    assert_eq!(q.queue.len(), 1);
    assert_eq!(q.head().unwrap().message, "Wolf".to_string());
    q.dequeue();
    assert!(q.head().is_none());
    // popping an empty queue stays empty and still restarts the timer
    q.timer = 7;
    q.dequeue();
    assert_eq!(q.timer, 30);
    assert_eq!(q.queue.len(), 0);
}
