use claudeth::evm::stack::{Stack, StackError, MAX_STACK_SIZE};
use claudeth::types::U256;

#[test]
fn test_new_stack_is_empty() {
    let stack = Stack::new();
    assert!(stack.is_empty());
    assert_eq!(stack.len(), 0);
}

#[test]
fn test_push_and_len() {
    let mut stack = Stack::new();
    assert_eq!(stack.push(U256::from_u64(1)), Ok(()));
    assert_eq!(stack.len(), 1);
    assert_eq!(stack.push(U256::from_u64(2)), Ok(()));
    assert_eq!(stack.len(), 2);
}

#[test]
fn test_pop() {
    let mut stack = Stack::new();
    stack.push(U256::from_u64(1)).unwrap();
    stack.push(U256::from_u64(2)).unwrap();

    assert_eq!(stack.pop(), Ok(U256::from_u64(2)));
    assert_eq!(stack.len(), 1);
    assert_eq!(stack.pop(), Ok(U256::from_u64(1)));
    assert_eq!(stack.len(), 0);
}

#[test]
fn test_peek() {
    let mut stack = Stack::new();
    stack.push(U256::from_u64(1)).unwrap();
    stack.push(U256::from_u64(2)).unwrap();
    stack.push(U256::from_u64(3)).unwrap();

    // Peek at top (index 0)
    assert_eq!(stack.peek(0), Ok(&U256::from_u64(3)));
    // Peek at second (index 1)
    assert_eq!(stack.peek(1), Ok(&U256::from_u64(2)));
    // Peek at third (index 2)
    assert_eq!(stack.peek(2), Ok(&U256::from_u64(1)));

    // Stack should be unchanged
    assert_eq!(stack.len(), 3);
}

#[test]
fn test_overflow_on_full_stack() {
    let mut stack = Stack::new();
    // Fill the stack to maximum capacity
    for i in 0..MAX_STACK_SIZE {
        assert_eq!(stack.push(U256::from_u64(i as u64)), Ok(()));
    }
    // Next push should fail
    assert_eq!(stack.push(U256::zero()), Err(StackError::Overflow));
}

#[test]
fn test_dup_overflow_on_full_stack() {
    let mut stack = Stack::new();
    // Fill the stack to maximum capacity
    for i in 0..MAX_STACK_SIZE {
        stack.push(U256::from_u64(i as u64)).unwrap();
    }
    // DUP should fail on full stack
    assert_eq!(stack.dup(1), Err(StackError::Overflow));
}

#[test]
fn test_underflow_on_empty_pop() {
    let mut stack = Stack::new();
    assert_eq!(stack.pop(), Err(StackError::Underflow));
}

#[test]
fn test_underflow_on_empty_peek() {
    let stack = Stack::new();
    assert_eq!(stack.peek(0), Err(StackError::InvalidIndex));
}

#[test]
fn test_swap_underflow_insufficient_items() {
    let mut stack = Stack::new();
    stack.push(U256::from_u64(1)).unwrap();
    // Only 1 item, can't swap with position 1
    assert_eq!(stack.swap(1), Err(StackError::Underflow));
}

#[test]
fn test_dup_underflow_insufficient_items() {
    let mut stack = Stack::new();
    stack.push(U256::from_u64(1)).unwrap();
    // Only 1 item, can't dup position 2
    assert_eq!(stack.dup(2), Err(StackError::Underflow));
}

#[test]
fn stack_test_swap1() {
    let mut stack = Stack::new();
    stack.push(U256::from_u64(1)).unwrap();
    stack.push(U256::from_u64(2)).unwrap();

    assert_eq!(stack.swap(1), Ok(()));
    assert_eq!(stack.pop(), Ok(U256::from_u64(1)));
    assert_eq!(stack.pop(), Ok(U256::from_u64(2)));
}

#[test]
fn stack_test_swap2() {
    let mut stack = Stack::new();
    stack.push(U256::from_u64(1)).unwrap();
    stack.push(U256::from_u64(2)).unwrap();
    stack.push(U256::from_u64(3)).unwrap();

    assert_eq!(stack.swap(2), Ok(()));
    assert_eq!(stack.pop(), Ok(U256::from_u64(1)));
    assert_eq!(stack.pop(), Ok(U256::from_u64(2)));
    assert_eq!(stack.pop(), Ok(U256::from_u64(3)));
}

#[test]
fn stack_test_swap16() {
    let mut stack = Stack::new();
    // Push 17 items (1-17)
    for i in 1..=17 {
        stack.push(U256::from_u64(i)).unwrap();
    }

    // SWAP16 swaps top (17) with 16th item down (1)
    assert_eq!(stack.swap(16), Ok(()));
    assert_eq!(stack.pop(), Ok(U256::from_u64(1)));
    // Next should be 16
    for _ in 0..15 {
        stack.pop().unwrap();
    }
    assert_eq!(stack.pop(), Ok(U256::from_u64(17)));
}

#[test]
fn test_swap_zero_invalid() {
    let mut stack = Stack::new();
    stack.push(U256::from_u64(1)).unwrap();
    assert_eq!(stack.swap(0), Err(StackError::InvalidIndex));
}

#[test]
fn stack_test_dup1() {
    let mut stack = Stack::new();
    stack.push(U256::from_u64(1)).unwrap();

    assert_eq!(stack.dup(1), Ok(()));
    assert_eq!(stack.len(), 2);
    assert_eq!(stack.pop(), Ok(U256::from_u64(1)));
    assert_eq!(stack.pop(), Ok(U256::from_u64(1)));
}

#[test]
fn stack_test_dup2() {
    let mut stack = Stack::new();
    stack.push(U256::from_u64(1)).unwrap();
    stack.push(U256::from_u64(2)).unwrap();

    assert_eq!(stack.dup(2), Ok(()));
    assert_eq!(stack.len(), 3);
    assert_eq!(stack.pop(), Ok(U256::from_u64(1)));
    assert_eq!(stack.pop(), Ok(U256::from_u64(2)));
    assert_eq!(stack.pop(), Ok(U256::from_u64(1)));
}

#[test]
fn stack_test_dup16() {
    let mut stack = Stack::new();
    // Push 16 items (1-16)
    for i in 1..=16 {
        stack.push(U256::from_u64(i)).unwrap();
    }

    // DUP16 duplicates the 16th item (1) to top
    assert_eq!(stack.dup(16), Ok(()));
    assert_eq!(stack.len(), 17);
    assert_eq!(stack.pop(), Ok(U256::from_u64(1)));
}

#[test]
fn test_dup_zero_invalid() {
    let mut stack = Stack::new();
    stack.push(U256::from_u64(1)).unwrap();
    assert_eq!(stack.dup(0), Err(StackError::InvalidIndex));
}

#[test]
fn test_peek_out_of_bounds() {
    let mut stack = Stack::new();
    stack.push(U256::from_u64(1)).unwrap();
    stack.push(U256::from_u64(2)).unwrap();

    assert_eq!(stack.peek(2), Err(StackError::InvalidIndex));
    assert_eq!(stack.peek(100), Err(StackError::InvalidIndex));
}

#[test]
fn test_operations_preserve_other_values() {
    let mut stack = Stack::new();
    stack.push(U256::from_u64(10)).unwrap();
    stack.push(U256::from_u64(20)).unwrap();
    stack.push(U256::from_u64(30)).unwrap();

    // Peek should not modify stack
    stack.peek(1).unwrap();
    assert_eq!(stack.len(), 3);

    // Swap should preserve all values
    stack.swap(1).unwrap();
    assert_eq!(stack.len(), 3);
}

#[test]
fn test_large_u256_values() {
    let mut stack = Stack::new();
    stack.push(U256::max_value()).unwrap();
    assert_eq!(stack.pop(), Ok(U256::max_value()));
}

#[test]
fn test_full_stack_operations() {
    let mut stack = Stack::new();
    // Fill stack completely
    for i in 0..MAX_STACK_SIZE {
        stack.push(U256::from_u64(i as u64)).unwrap();
    }

    // Verify we can still perform read operations
    assert_eq!(stack.peek(0), Ok(&U256::from_u64((MAX_STACK_SIZE - 1) as u64)));
    assert_eq!(stack.len(), MAX_STACK_SIZE);

    // Verify we can swap on full stack
    assert_eq!(stack.swap(1), Ok(()));

    // Pop one and verify we can push again
    stack.pop().unwrap();
    assert_eq!(stack.push(U256::zero()), Ok(()));
}

#[test]
fn test_multiple_operations_sequence() {
    let mut stack = Stack::new();

    // Push some values
    stack.push(U256::from_u64(1)).unwrap();
    stack.push(U256::from_u64(2)).unwrap();
    stack.push(U256::from_u64(3)).unwrap();

    // DUP1 (duplicate top)
    stack.dup(1).unwrap();
    assert_eq!(stack.peek(0), Ok(&U256::from_u64(3)));
    assert_eq!(stack.len(), 4);

    // SWAP2 (swap top with third)
    stack.swap(2).unwrap();
    assert_eq!(stack.peek(0), Ok(&U256::from_u64(2)));

    // Pop and verify
    assert_eq!(stack.pop(), Ok(U256::from_u64(2)));
    assert_eq!(stack.pop(), Ok(U256::from_u64(3)));
}

#[test]
fn test_default_stack() {
    let stack = Stack::default();
    assert!(stack.is_empty());
    assert_eq!(stack.len(), 0);
}

#[test]
fn test_error_display() {
    let overflow = StackError::Overflow;
    let underflow = StackError::Underflow;
    let invalid = StackError::InvalidIndex;

    assert!(overflow.message().contains("overflow"));
    assert!(underflow.message().contains("underflow"));
    assert!(invalid.message().contains("Invalid"));
}

