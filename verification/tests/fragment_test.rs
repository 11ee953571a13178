use hocuspocu_rs::FragmentBuffer;

#[test]
fn incomplete_without_end() {
    let mut b = FragmentBuffer::new();
    b.add_chunk(0, vec![1, 2]);
    assert!(!b.is_complete());
}

#[test]
fn incomplete_with_gap() {
    let mut b = FragmentBuffer::new();
    b.add_chunk(0, vec![1]);
    b.add_chunk(2, vec![3]); // missing index 1
    b.mark_end();
    assert!(!b.is_complete());
}

#[test]
fn complete_and_combines_in_order() {
    let mut b = FragmentBuffer::new();
    // add out of order on purpose
    b.add_chunk(2, vec![5, 6]);
    b.add_chunk(0, vec![1, 2]);
    b.add_chunk(1, vec![3, 4]);
    b.mark_end();
    assert!(b.is_complete());
    assert_eq!(b.combine(), vec![1, 2, 3, 4, 5, 6]);
}

#[test]
fn complete_with_single_chunk() {
    let mut b = FragmentBuffer::new();
    b.add_chunk(0, vec![42, 43]);
    b.mark_end();
    assert!(b.is_complete());
    assert_eq!(b.combine(), vec![42, 43]);
}

#[test]
fn chunks_in_any_order_reassemble() {
    let message: Vec<u8> = (0..23u8).collect();
    let pieces: Vec<Vec<u8>> = message.chunks(5).map(|c| c.to_vec()).collect();
    let orders: Vec<Vec<usize>> = vec![vec![4, 3, 2, 1, 0], vec![2, 0, 4, 1, 3], vec![0, 1, 2, 3, 4]];
    for order in orders {
        let mut b = FragmentBuffer::new();
        for &i in &order {
            b.add_chunk(i as u64, pieces[i].clone());
        }
        assert!(!b.is_complete());
        b.mark_end();
        assert!(b.is_complete());
        assert_eq!(b.combine(), message);
    }
}

#[test]
fn indices_must_start_at_zero() {
    let mut b = FragmentBuffer::new();
    b.add_chunk(1, vec![1]);
    b.add_chunk(2, vec![2]);
    b.mark_end();
    assert!(!b.is_complete());
    b.add_chunk(0, vec![0]);
    assert!(b.is_complete());
    assert_eq!(b.combine(), vec![0, 1, 2]);
}
