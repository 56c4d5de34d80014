use rusty_dsa::data_structure::linked_list::List as LinkedList;
use rusty_dsa::data_structure::queue::Queue;
use rusty_dsa::data_structure::stack::Stack;

#[test]
fn test_linked_list() {
    let mut list = LinkedList::new();
    assert_eq!(list.pop(), None);

    list.push(1);
    list.push(2);
    list.push(3);

    assert_eq!(list.size(), 3);
}

#[test]
fn test_stack() {
    let mut stack: Stack<i32> = Stack::new();

    stack.push(1);
    stack.push(2);
    stack.push(3);

    let element_pop = stack.pop();
    assert_eq!(element_pop.unwrap(), 3);

    assert!(!stack.is_null());

    let element_pop = stack.pop();
    let element_pop = stack.pop();

    assert_eq!(stack.peek(), None);

    stack.push(1);
    stack.push(2);
    stack.push(3);

    assert_eq!(stack.peek(), Some(&3));
}

#[test]
fn test_stack_lifo_order() {
    let mut stack: Stack<i32> = Stack::new();

    stack.push(1);
    stack.push(2);
    stack.push(3);

    assert_eq!(stack.pop(), Some(3));
    assert_eq!(stack.pop(), Some(2));
    assert_eq!(stack.peek(), Some(&1));
}

#[test]
fn test_stack_empty() {
    let mut stack: Stack<i32> = Stack::new();

    assert!(stack.is_null());
    assert_eq!(stack.pop(), None);
    assert_eq!(stack.peek(), None);
}

#[test]
fn test_queue_fifo_order() {
    let mut queue: Queue<i32> = Queue::new();

    queue.enqueue(1);
    queue.enqueue(2);
    queue.enqueue(3);

    assert_eq!(queue.dequeue(), Some(1));
    assert_eq!(queue.peek(), Some(&2));
}

#[test]
fn test_queue_empty() {
    let mut queue: Queue<i32> = Queue::new();

    assert!(queue.is_null());
    assert_eq!(queue.dequeue(), None);
    assert_eq!(queue.peek(), None);

    queue.enqueue(5);
    assert!(!queue.is_null());
}

#[test]
fn test_linked_list_pop_order() {
    let mut list = LinkedList::new();

    list.push(1);
    list.push(2);
    list.push(3);

    assert_eq!(list.pop(), Some(3));
    assert_eq!(list.pop(), Some(2));
    assert_eq!(list.pop(), Some(1));
    assert_eq!(list.pop(), None);
    assert!(list.is_empty());
    assert_eq!(list.size(), 0);
}
