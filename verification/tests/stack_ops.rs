//! The LIFO stack utility.

use brick_dungeon::collections::Stack;

#[test]
fn stack_push_pop_peek() {
    let mut s: Stack<u32> = Stack::new();
    assert!(s.is_empty());
    assert_eq!(s.size(), 0);
    assert_eq!(s.pop(), None);
    assert_eq!(s.peek(), None);
    s.push(1);
    s.push(2);
    s.push(3);
    assert!(!s.is_empty());
    assert_eq!(s.size(), 3);
    assert_eq!(s.peek(), Some(&3));
    assert_eq!(s.get(0), Some(&1));
    assert_eq!(s.get(2), Some(&3));
    assert_eq!(s.get(3), None);
    assert_eq!(s.pop(), Some(3));
    assert_eq!(s.pop(), Some(2));
    assert_eq!(s.pop(), Some(1));
    assert_eq!(s.pop(), None);
    assert!(s.is_empty());
}
