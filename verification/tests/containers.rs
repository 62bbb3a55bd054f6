use rustack::deque::Deque;
use rustack::queue::Queue;
use rustack::stack::Stack;

#[test]
fn stack_primary_ops() {
    let mut s = Stack::new();
    s.push(1);
    s.push(2);
    s.push(3);
    s.push(4);
    assert_eq!(s.len(), 4);
    assert_eq!(s.pop(), Some(4));
    assert_eq!(s.len(), 3);
    assert!(!s.is_empty());
    s.clear();
    assert!(s.is_empty());
    assert_eq!(s.len(), 0);
}

#[test]
fn stack_pop_on_empty_is_none() {
    let mut s: Stack<i32> = Stack::new();
    assert_eq!(s.pop(), None);
    assert_eq!(s.len(), 0);
    s.push(7);
    assert_eq!(s.pop(), Some(7));
    assert_eq!(s.pop(), None);
    assert_eq!(s.pop(), None);
    assert_eq!(s.len(), 0);
}

#[test]
fn stack_net_push_count() {
    // After any mix of pushes and pops the length is the net push count:
    // five pushes, three successful pops, one pop on empty that does nothing.
    let mut s: Stack<u8> = Stack::new();
    assert_eq!(s.pop(), None);
    s.push(1);
    s.push(2);
    let _ = s.pop();
    let _ = s.pop();
    assert_eq!(s.pop(), None);
    s.push(3);
    s.push(4);
    s.push(5);
    let _ = s.pop();
    assert_eq!(s.len(), 2);
}

#[test]
fn stack_peek_ops() {
    let mut s = Stack::new();
    s.push(1);
    s.push(2);
    s.push(3);
    s.push(4);
    assert_eq!(s.peek(), Some(&4));
    assert_eq!(s.len(), 4);
    if let Some(top) = s.peek_mut() {
        *top = 9;
    }
    assert_eq!(s.pop(), Some(9));
    assert_eq!(s.pop(), Some(3));
}

#[test]
fn stack_peek_empty() {
    let mut s: Stack<char> = Stack::new();
    assert_eq!(s.peek(), None);
    assert!(s.peek_mut().is_none());
}

#[test]
fn stack_iteration_top_first() {
    let mut s = Stack::new();
    s.push(1);
    s.push(2);
    s.push(3);
    s.push(4);
    s.push(5);
    assert_eq!(s.iter(), vec![5, 4, 3, 2, 1]);
    assert_eq!(s.len(), 5);
    assert_eq!(s.into_iter(), vec![5, 4, 3, 2, 1]);
}

#[test]
fn queue_basic_ops() {
    let mut q = Queue::new(4);
    assert!(q.enqueue("Huxley").is_ok());
    assert!(q.enqueue("Adonijah").is_ok());
    assert!(q.enqueue("Harriet").is_ok());
    assert!(q.enqueue("Merit").is_ok());
    assert!(!q.is_empty());
    assert!(q.is_full());
    assert_eq!(q.len(), 4);
    match q.enqueue("Herine") {
        Err(message) => assert_eq!(message, "No space available"),
        Ok(()) => panic!("a full queue accepted an element"),
    }
    assert_eq!(q.dequeue(), Some("Huxley"));
    assert_eq!(q.len(), 3);
    assert!(!q.is_full());
    q.clear();
    assert!(q.is_empty());
    assert_eq!(q.dequeue(), None);
}

#[test]
fn queue_iteration_rear_to_front() {
    let mut q = Queue::new(4);
    let _ = q.enqueue(1);
    let _ = q.enqueue(2);
    let _ = q.enqueue(3);
    let _ = q.enqueue(4);
    assert_eq!(q.iter(), vec![4, 3, 2, 1]);
    assert_eq!(q.len(), 4);
    assert_eq!(q.into_iter(), vec![4, 3, 2, 1]);
}

#[test]
fn deque_basic_ops() {
    let mut deck = Deque::new(4);
    assert!(deck.add_front("Galileo").is_ok());
    assert!(deck.add_rear("Galilei").is_ok());
    assert!(deck.add_front("Leonhard").is_ok());
    assert!(deck.add_rear("Euler").is_ok());
    assert!(deck.is_full());
    assert_eq!(deck.len(), 4);
    assert_eq!(deck.remove_front(), Some("Leonhard"));
    assert_eq!(deck.remove_rear(), Some("Euler"));
    assert_eq!(deck.len(), 2);
    deck.clear();
    assert!(deck.is_empty());
    assert_eq!(deck.remove_front(), None);
    assert_eq!(deck.remove_rear(), None);
}

#[test]
fn deque_full_reports_error() {
    let mut deck = Deque::new(2);
    assert!(deck.add_rear(1).is_ok());
    assert!(deck.add_front(2).is_ok());
    match deck.add_rear(3) {
        Err(message) => assert_eq!(message, "No space available"),
        Ok(()) => panic!("a full deque accepted an element"),
    }
    match deck.add_front(4) {
        Err(message) => assert_eq!(message, "No space available"),
        Ok(()) => panic!("a full deque accepted an element"),
    }
}

#[test]
fn deque_iteration_rear_to_front() {
    let mut deck = Deque::new(4);
    let _ = deck.add_front(1);
    let _ = deck.add_rear(2);
    let _ = deck.add_front(3);
    let _ = deck.add_rear(4);
    // Front to rear the deque reads 3, 1, 2, 4; iteration runs the other way.
    assert_eq!(deck.iter(), vec![4, 2, 1, 3]);
    assert_eq!(deck.into_iter(), vec![4, 2, 1, 3]);
}
