use voxel_stream::queue::ArrayQueue;

fn items<const CAP: usize>(q: &ArrayQueue<i32, CAP>) -> Vec<i32> {
    let mut out = Vec::new();
    for i in 0..q.len() {
        out.push(*q.get(i));
    }
    out
}

#[test]
fn test() {
    let mut queue: ArrayQueue<i32, 16> = ArrayQueue::new();
    assert_eq!(items(&queue), Vec::<i32>::new());
    assert_eq!(queue.first(), None);

    queue.push_back(1);
    assert_eq!(items(&queue), vec![1]);

    queue.push_back(2);
    queue.push_back(3);
    assert_eq!(items(&queue), vec![1, 2, 3]);
    assert_eq!(queue.first(), Some(&1));

    assert_eq!(queue.pop_front(), Some(1));
    assert_eq!(queue.pop_front(), Some(2));
    assert_eq!(queue.pop_front(), Some(3));

    // wrapping test:

    let mut queue: ArrayQueue<i32, 2> = ArrayQueue::new();
    assert_eq!(items(&queue), Vec::<i32>::new());
    assert_eq!(queue.first(), None);

    queue.push_back(1);
    assert_eq!(items(&queue), vec![1]);

    queue.push_back(2);
    assert_eq!(items(&queue), vec![1, 2]);
    assert_eq!(queue.first(), Some(&1));

    assert_eq!(queue.pop_front(), Some(1));

    queue.push_back(3);
    assert_eq!(items(&queue), vec![2, 3]);

    assert_eq!(queue.pop_front(), Some(2));
}

#[test]
fn queue_pop_back_takes_the_last_item() {
    let mut queue: ArrayQueue<i32, 4> = ArrayQueue::new();
    queue.push_back(1);
    queue.push_back(2);
    queue.push_front(0);
    assert_eq!(items(&queue), vec![0, 1, 2]);
    assert_eq!(queue.last(), Some(&2));
    assert_eq!(queue.pop_back(), Some(2));
    assert_eq!(queue.pop_back(), Some(1));
    assert_eq!(queue.pop_back(), Some(0));
    assert_eq!(queue.pop_back(), None);
    assert!(queue.is_empty());
    assert_eq!(queue.last(), None);
}
