use spsc_ring::stack::Stack;

#[test]
fn stack_basics() {
    let mut stack = Stack::new();

    // Check empty Stack behaves right
    assert_eq!(stack.pop(), None);
    // Populate Stack
    stack.push(1);
    stack.push(2);
    stack.push(3);
    // Check normal removal
    assert_eq!(stack.pop(), Some(3));
    assert_eq!(stack.pop(), Some(2));
    // Push some more just to make sure nothing's corrupted
    stack.push(4);
    stack.push(5);
    // Check normal removal
    assert_eq!(stack.pop(), Some(5));
    assert_eq!(stack.pop(), Some(4));
    // Check exhaustion
    assert_eq!(stack.pop(), Some(1));
    assert_eq!(stack.pop(), None);
}

#[test]
fn ptr_readwrite() {
    let mut a = Some(String::from("a"));
    let src = &mut a;
    let result = src.clone();
    assert_eq!(result, Some(String::from("a")));
    assert_eq!(src, &mut Some(String::from("a")));

    let _previous = std::mem::replace(src, Some(String::from("b")));
    assert_eq!(src, &mut Some(String::from("b")));
}

#[test]
fn drop_longstack() {
    let mut stack = Stack::new();
    for i in 0..100000 {
        stack.push(i);
    }
    drop(stack);
}

#[test]
fn stack_of_owned_values() {
    let mut stack = Stack::new();
    stack.push(String::from("x"));
    stack.push(String::from("y"));
    assert_eq!(stack.pop(), Some(String::from("y")));
    stack.push(String::from("z"));
    assert_eq!(stack.pop(), Some(String::from("z")));
    assert_eq!(stack.pop(), Some(String::from("x")));
    assert_eq!(stack.pop(), None);
}

#[test]
fn drop_long_stack_of_strings() {
    let mut stack = Stack::new();
    for i in 0..100000 {
        stack.push(i.to_string());
    }
    assert_eq!(stack.pop(), Some(String::from("99999")));
    drop(stack);
}
