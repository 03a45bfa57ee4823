use lib::queue::Queue;

#[test]
fn new_queue_is_empty() {
    let mut q: Queue<u32> = Queue::new();
    assert!(q.is_empty());
    assert_eq!(q.dequeue(), None);
    assert!(q.is_empty());
}

#[test]
fn items_leave_in_the_order_they_came() {
    let mut q = Queue::new();
    for i in 0..5u32 {
        q.enqueue(i);
    }
    assert!(!q.is_empty());
    for i in 0..5u32 {
        assert_eq!(q.dequeue(), Some(i));
    }
    assert_eq!(q.dequeue(), None);
    assert!(q.is_empty());
}

#[test]
fn enqueue_between_dequeues_keeps_order() {
    let mut q = Queue::new();
    q.enqueue("a");
    q.enqueue("b");
    assert_eq!(q.dequeue(), Some("a"));
    q.enqueue("c");
    q.enqueue("d");
    assert_eq!(q.dequeue(), Some("b"));
    q.enqueue("e");
    assert_eq!(q.dequeue(), Some("c"));
    assert_eq!(q.dequeue(), Some("d"));
    assert_eq!(q.dequeue(), Some("e"));
    assert_eq!(q.dequeue(), None);
}

#[test]
fn single_item_round_trip() {
    let mut q = Queue::new();
    q.enqueue(String::from("song"));
    assert_eq!(q.dequeue(), Some(String::from("song")));
    assert!(q.is_empty());
}

#[test]
fn iter_visits_front_to_back_and_leaves_queue() {
    let mut q = Queue::new();
    q.enqueue(1);
    q.enqueue(2);
    q.enqueue(3);
    // move some items to the inner front stack
    assert_eq!(q.dequeue(), Some(1));
    q.enqueue(4);
    let mut it = q.iter();
    let mut seen = Vec::new();
    while let Some(x) = it.next() {
        seen.push(x);
    }
    assert_eq!(seen, vec![2, 3, 4]);
    assert_eq!(it.next(), None);
    assert_eq!(q.dequeue(), Some(2));
    assert_eq!(q.dequeue(), Some(3));
    assert_eq!(q.dequeue(), Some(4));
    assert_eq!(q.dequeue(), None);
}

#[test]
fn iter_on_empty_queue_gives_nothing() {
    let q: Queue<String> = Queue::new();
    let mut it = q.iter();
    assert_eq!(it.next(), None);
}

#[test]
fn iter_clones_items() {
    let mut q = Queue::new();
    q.enqueue(vec![1, 2]);
    let mut it = q.iter();
    assert_eq!(it.next(), Some(vec![1, 2]));
    assert_eq!(it.next(), None);
    assert_eq!(q.dequeue(), Some(vec![1, 2]));
}

#[test]
fn dequeue_while_walking_empties_the_queue() {
    let mut q = Queue::new();
    for i in 0..4u32 {
        q.enqueue(i);
    }
    let mut it = q.iter();
    let mut seen = Vec::new();
    while let Some(x) = it.next() {
        seen.push(x);
        q.dequeue();
    }
    assert_eq!(seen, vec![0, 1, 2, 3]);
    assert!(q.is_empty());
}

#[test]
fn two_walks_over_the_same_queue_agree() {
    let mut q = Queue::new();
    q.enqueue(String::from("a"));
    q.enqueue(String::from("b"));
    q.dequeue();
    q.enqueue(String::from("c"));
    let collect = |q: &Queue<String>| {
        let mut it = q.iter();
        let mut v = Vec::new();
        while let Some(x) = it.next() {
            v.push(x);
        }
        v
    };
    assert_eq!(collect(&q), collect(&q));
    assert_eq!(collect(&q), vec![String::from("b"), String::from("c")]);
}
