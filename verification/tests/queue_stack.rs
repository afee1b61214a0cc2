use exercises::queue_stack::{MyStack, Queue};

#[test]
fn test_queue() {
    let mut s = MyStack::<i32>::new();
    assert_eq!(s.pop(), Err("Stack is empty"));
    s.push(1);
    s.push(2);
    s.push(3);
    assert_eq!(s.pop(), Ok(3));
    assert_eq!(s.pop(), Ok(2));
    s.push(4);
    s.push(5);
    assert_eq!(s.is_empty(), false);
    assert_eq!(s.pop(), Ok(5));
    assert_eq!(s.pop(), Ok(4));
    assert_eq!(s.pop(), Ok(1));
    assert_eq!(s.pop(), Err("Stack is empty"));
    assert_eq!(s.is_empty(), true);
}

#[test]
fn pop_on_fresh_stack_is_an_error() {
    let mut s = MyStack::<u8>::new();
    assert!(s.is_empty());
    assert_eq!(s.pop(), Err("Stack is empty"));
    assert!(s.is_empty());
}

#[test]
fn pops_return_pushes_in_reverse() {
    let mut s = MyStack::<u32>::new();
    s.push(7);
    let items: Vec<u32> = (0..50).collect();
    for &item in items.iter() {
        s.push(item);
    }
    for &item in items.iter().rev() {
        assert_eq!(s.pop(), Ok(item));
    }
    assert_eq!(s.is_empty(), false);
    assert_eq!(s.pop(), Ok(7));
    assert_eq!(s.is_empty(), true);
}

#[test]
fn stack_is_empty_exactly_without_unmatched_pushes() {
    let mut s = MyStack::<char>::new();
    let mut unmatched: usize = 0;
    let script = "++-+--+-+++-----++-";
    for step in script.chars() {
        if step == '+' {
            s.push(step);
            unmatched += 1;
        } else {
            let popped = s.pop();
            if unmatched > 0 {
                assert_eq!(popped, Ok('+'));
                unmatched -= 1;
            } else {
                assert_eq!(popped, Err("Stack is empty"));
            }
        }
        assert_eq!(s.is_empty(), unmatched == 0);
    }
}

#[test]
fn stack_alternates_between_its_queues() {
    let mut s = MyStack::<i64>::new();
    for round in 0..6 {
        s.push(round);
        s.push(round + 100);
        assert_eq!(s.pop(), Ok(round + 100));
    }
    for round in (0..6).rev() {
        assert_eq!(s.pop(), Ok(round));
    }
    assert_eq!(s.pop(), Err("Stack is empty"));
}

#[test]
fn queue_is_first_in_first_out() {
    let mut q = Queue::<i32>::new();
    assert!(q.is_empty());
    assert_eq!(q.size(), 0);
    q.enqueue(10);
    q.enqueue(20);
    q.enqueue(30);
    assert_eq!(q.size(), 3);
    assert_eq!(q.is_empty(), false);
    assert_eq!(q.peek(), Ok(&10));
    assert_eq!(q.size(), 3);
    assert_eq!(q.dequeue(), Ok(10));
    assert_eq!(q.dequeue(), Ok(20));
    assert_eq!(q.peek(), Ok(&30));
    assert_eq!(q.dequeue(), Ok(30));
    assert_eq!(q.size(), 0);
    assert!(q.is_empty());
}

#[test]
fn empty_queue_reports_an_error() {
    let mut q = Queue::<String>::new();
    assert_eq!(q.peek(), Err("Queue is empty"));
    assert_eq!(q.dequeue(), Err("Queue is empty"));
    assert_eq!(q.size(), 0);
    q.enqueue(String::from("a"));
    assert_eq!(q.dequeue(), Ok(String::from("a")));
    assert_eq!(q.dequeue(), Err("Queue is empty"));
}

#[test]
fn default_queue_is_empty() {
    let q: Queue<u8> = Default::default();
    assert!(q.is_empty());
    assert_eq!(q.size(), 0);
}
