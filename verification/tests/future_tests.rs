use icie::future::{AsyncRegistry, IDFactory, Poll, Pong, PongStream};

fn ready<V>(p: Poll<V>) -> Option<V> {
    match p {
        Poll::Ready(v) => Some(v),
        Poll::Pending => None,
    }
}

#[test]
fn ids_count_up() {
    let mut f = IDFactory::new();
    assert_eq!(f.generate(), 0);
    assert_eq!(f.generate(), 1);
    assert_eq!(f.generate(), 2);
}

#[test]
fn pongs_get_distinct_ids() {
    let mut reg: AsyncRegistry<String, u32> = AsyncRegistry::new();
    let a = Pong::new(&mut reg);
    let b = Pong::new(&mut reg);
    let s = PongStream::new(&mut reg);
    assert_ne!(a.aid(), b.aid());
    assert_ne!(b.aid(), s.aid());
}

#[test]
fn delivered_value_is_polled() {
    let mut reg: AsyncRegistry<String, u32> = AsyncRegistry::new();
    let p = Pong::new(&mut reg);
    assert_eq!(reg.deliver(p.aid(), "reply".to_owned()), None);
    assert_eq!(ready(p.poll(&mut reg, 7)), Some("reply".to_owned()));
}

#[test]
fn pending_poll_is_woken_by_delivery() {
    let mut reg: AsyncRegistry<i32, u32> = AsyncRegistry::new();
    let p = Pong::new(&mut reg);
    assert!(ready(p.poll(&mut reg, 11)).is_none());
    // A second poll keeps the first waker.
    assert!(ready(p.poll(&mut reg, 12)).is_none());
    assert_eq!(reg.deliver(p.aid(), 42), Some(11));
    assert_eq!(ready(p.poll(&mut reg, 13)), Some(42));
}

#[test]
fn reply_for_unknown_id_is_dropped() {
    let mut reg: AsyncRegistry<i32, u32> = AsyncRegistry::new();
    let p = Pong::new(&mut reg);
    assert_eq!(reg.deliver(p.aid() + 100, 1), None);
    assert!(ready(p.poll(&mut reg, 1)).is_none());
}

#[test]
fn closed_pong_gets_nothing() {
    let mut reg: AsyncRegistry<i32, u32> = AsyncRegistry::new();
    let p = Pong::new(&mut reg);
    let id = p.aid();
    p.close(&mut reg);
    assert_eq!(reg.deliver(id, 5), None);
}

#[test]
fn stream_is_fifo() {
    let mut reg: AsyncRegistry<i32, u32> = AsyncRegistry::new();
    let s = PongStream::new(&mut reg);
    assert!(matches!(s.poll_next(&mut reg, 3), Poll::Pending));
    assert_eq!(reg.deliver_stream(s.aid(), 1), Some(3));
    assert_eq!(reg.deliver_stream(s.aid(), 2), None);
    assert_eq!(ready(s.poll_next(&mut reg, 4)), Some(Some(1)));
    assert_eq!(ready(s.poll_next(&mut reg, 4)), Some(Some(2)));
    assert!(matches!(s.poll_next(&mut reg, 5), Poll::Pending));
    assert_eq!(reg.deliver_stream(s.aid(), 9), Some(5));
    s.close(&mut reg);
}

#[test]
fn stream_and_single_replies_are_separate() {
    let mut reg: AsyncRegistry<i32, u32> = AsyncRegistry::new();
    let p = Pong::new(&mut reg);
    let s = PongStream::new(&mut reg);
    assert_eq!(reg.deliver(s.aid(), 1), None);
    assert_eq!(reg.deliver_stream(p.aid(), 2), None);
    assert!(ready(p.poll(&mut reg, 0)).is_none());
    assert!(matches!(s.poll_next(&mut reg, 0), Poll::Pending));
}

#[test]
fn checked_polls_report_unregistered_ids() {
    let mut reg: AsyncRegistry<i32, u32> = AsyncRegistry::new();
    let p = Pong::new(&mut reg);
    let s = PongStream::new(&mut reg);
    assert!(matches!(p.try_poll(&mut reg, 1), Some(Poll::Pending)));
    assert!(matches!(s.try_poll_next(&mut reg, 1), Some(Poll::Pending)));
    reg.deliver(p.aid(), 3);
    assert!(matches!(p.try_poll(&mut reg, 1), Some(Poll::Ready(3))));
    // The reply was taken, so the channel is gone.
    assert!(p.try_poll(&mut reg, 1).is_none());
    let s2 = PongStream::new(&mut reg);
    let id = s2.aid();
    s2.close(&mut reg);
    assert_eq!(reg.deliver_stream(id, 1), None);
    s.close(&mut reg);
}

#[test]
fn ids_are_consecutive_across_kinds() {
    let mut reg: AsyncRegistry<i32, u32> = AsyncRegistry::new();
    let ids: Vec<u64> = (0..6)
        .map(|i| if i % 2 == 0 { Pong::new(&mut reg).aid() } else { PongStream::new(&mut reg).aid() })
        .collect();
    assert_eq!(ids, vec![0, 1, 2, 3, 4, 5]);
}
