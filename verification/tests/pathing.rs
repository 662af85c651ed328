use botbowl::dice::D6Target;
use botbowl::model::Position;
use botbowl::pathing::{event_ends_player_action, FixedQueue, NodeIterator, PathingEvent, PositionOrEvent};

#[test]
fn fixed_queue_is_first_in_first_out() {
    let mut q: FixedQueue<u8> = FixedQueue::new();
    assert!(q.is_empty());
    assert_eq!(q.len(), 0);
    assert_eq!(q.last(), None);
    for v in 1..=6u8 {
        q.push_back(v);
    }
    assert!(q.is_full());
    assert_eq!(q.len(), 6);
    assert_eq!(q.last(), Some(&6));
    assert_eq!(q.iter(), vec![&1, &2, &3, &4, &5, &6]);
    assert_eq!(q.iter_rev(), vec![&6, &5, &4, &3, &2, &1]);
    assert_eq!(q.pop(), Some(1));
    assert_eq!(q.pop(), Some(2));
    assert_eq!(q.len(), 4);
    q.add(7);
    assert_eq!(q.iter(), vec![&3, &4, &5, &6, &7]);
    let mut q2 = FixedQueue::from_vec(vec![9u8, 8]);
    assert_eq!(q2.pop(), Some(9));
    assert_eq!(q2.pop(), Some(8));
    assert_eq!(q2.pop(), None);
    assert!(FixedQueue::<u8>::default().is_empty());
}

#[test]
fn node_iterator_hands_out_the_top_first() {
    let a = PositionOrEvent::Position(Position::new((3, 4)));
    let b = PositionOrEvent::Event(PathingEvent::Dodge(D6Target::ThreePlus));
    let mut it = NodeIterator::from_stack(vec![a.clone(), b.clone()]);
    assert_eq!(it.len(), 2);
    assert_eq!(it.next(), Some(b));
    assert_eq!(it.next(), Some(a));
    assert!(it.is_empty());
    assert_eq!(it.next(), None);
}

#[test]
fn only_terminal_events_end_the_action() {
    assert!(event_ends_player_action(&PathingEvent::Touchdown(3)));
    assert!(event_ends_player_action(&PathingEvent::Handoff(1, D6Target::TwoPlus)));
    assert!(!event_ends_player_action(&PathingEvent::GFI(D6Target::TwoPlus)));
    assert!(!event_ends_player_action(&PathingEvent::StandUp));
}
