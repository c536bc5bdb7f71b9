use gonk_core::rb::Rb;

#[test]
fn empty_buffer_pops_nothing() {
    let mut rb = Rb::new(4);
    assert!(rb.is_empty());
    assert!(!rb.is_full());
    assert_eq!(rb.pop_front(), None);
    assert_eq!(rb.pop_or_silence(), 0);
}

#[test]
fn samples_come_out_in_order_without_loss() {
    let mut rb = Rb::new(3);
    assert!(rb.try_push(10));
    assert!(rb.try_push(20));
    assert!(rb.try_push(30));
    assert!(rb.is_full());
    // a push against a full buffer stores nothing until a pop makes room
    assert!(!rb.try_push(40));
    assert_eq!(rb.pop_front(), Some(10));
    assert!(rb.try_push(40));
    assert_eq!(rb.pop_front(), Some(20));
    assert_eq!(rb.pop_front(), Some(30));
    assert_eq!(rb.pop_front(), Some(40));
    assert_eq!(rb.pop_front(), None);
}

#[test]
fn occupancy_stays_within_capacity() {
    let mut rb = Rb::new(2);
    let mut stored = 0u32;
    for round in 0..20u32 {
        if rb.try_push(round) {
            stored += 1;
        }
        assert!(stored <= 2);
        if round % 3 == 0 {
            if rb.pop_front().is_some() {
                stored -= 1;
            }
        }
    }
}

#[test]
fn wrap_around_keeps_fifo_order() {
    let mut rb = Rb::new(2);
    for i in 0..100u32 {
        assert!(rb.try_push(i));
        assert_eq!(rb.pop_front(), Some(i));
    }
    assert!(rb.is_empty());
}

#[test]
fn flush_empties_and_frees_space() {
    let mut rb = Rb::new(2);
    assert!(rb.try_push(1));
    assert!(rb.try_push(2));
    assert!(rb.is_full());
    rb.flush();
    assert!(rb.is_empty());
    assert!(rb.try_push(7));
    assert_eq!(rb.pop_front(), Some(7));
}
