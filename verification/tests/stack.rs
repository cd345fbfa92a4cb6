use notation::stack::Stack;

#[test]
fn stack_it_works() {
    let mut my_stack = Stack::new();
    my_stack.push(1);
    my_stack.push(2);
    my_stack.push(3);
    my_stack.push(4);

    for item in my_stack.into_iter() {
        println!("{}", item);
    }
}

#[test]
fn it_ref_works() {
    let mut my_stack = Stack::new();
    my_stack.push(1);
    my_stack.push(2);
    my_stack.push(3);
    my_stack.push(4);

    for item in my_stack.iter() {
        println!("{}", item);
    }

    println!("{:?}", my_stack.pop());
}

#[test]
fn push_pop_lifo_order() {
    let mut s = Stack::new();
    s.push(10);
    s.push(20);
    s.push(30);
    assert_eq!(s.len(), 3);
    assert_eq!(s.pop(), Some(30));
    assert_eq!(s.pop(), Some(20));
    assert_eq!(s.pop(), Some(10));
    assert_eq!(s.pop(), None);
    assert!(s.is_empty());
}

#[test]
fn peek_does_not_remove() {
    let mut s = Stack::new();
    s.push('x');
    s.push('y');
    assert_eq!(s.peek(), Some(&'y'));
    assert_eq!(s.len(), 2);
    assert_eq!(s.pop(), Some('y'));
    assert_eq!(s.peek(), Some(&'x'));
}

#[test]
fn peek_mut_changes_top() {
    let mut s = Stack::new();
    s.push(1);
    s.push(2);
    if let Some(top) = s.peek_mut() {
        *top = 5;
    }
    assert_eq!(s.pop(), Some(5));
    assert_eq!(s.pop(), Some(1));
}

#[test]
fn clear_resets_to_empty() {
    let mut s = Stack::new();
    s.push(7);
    s.push(8);
    s.clear();
    assert!(s.is_empty());
    assert_eq!(s.len(), 0);
    assert_eq!(s.pop(), None);
    assert_eq!(s.peek(), None);
}

#[test]
fn iter_yields_top_to_bottom_without_draining() {
    let mut s = Stack::new();
    s.push(1);
    s.push(2);
    s.push(3);
    let seen: Vec<i32> = s.iter().into_iter().map(|r| *r).collect();
    assert_eq!(seen, vec![3, 2, 1]);
    assert_eq!(s.len(), 3);
}

#[test]
fn into_iter_yields_top_to_bottom() {
    let mut s = Stack::new();
    s.push(1);
    s.push(2);
    s.push(3);
    assert_eq!(s.into_iter(), vec![3, 2, 1]);
}

#[test]
fn len_matches_drain_law() {
    let mut s = Stack::new();
    s.push("a");
    s.push("b");
    s.push("c");
    assert!(s.drain_matches_len());
}

#[test]
fn empty_queries_absent_law() {
    assert!(Stack::<u64>::empty_queries_absent());
}
