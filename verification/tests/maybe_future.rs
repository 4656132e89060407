use n0_future::task::Poll;
use n0_future::MaybeFuture;

#[test]
fn test_maybefuture_poll_after_use() {
    let mut maybe_fut = MaybeFuture::Future(10u8);
    let res = maybe_fut.poll(Poll::Ready("hello"));
    assert_eq!(res, Poll::Ready("hello"));
    assert!(maybe_fut.is_none());

    // Now poll again: whatever the inner poll would give, there is no inner.
    assert_eq!(maybe_fut.poll(Poll::Ready("hello")), Poll::Pending);
    assert_eq!(maybe_fut.poll(Poll::<&str>::Pending), Poll::Pending);
    assert!(maybe_fut.is_none());
}

#[test]
fn test_maybefuture_mut_ref() {
    let mut fut = 10u8;
    let mut maybe_fut = MaybeFuture::Future(&mut fut);
    let res = maybe_fut.poll(Poll::Ready("hello"));
    assert_eq!(res, Poll::Ready("hello"));

    // Now poll again
    assert_eq!(maybe_fut.poll(Poll::Ready("hello")), Poll::Pending);
}

#[test]
fn maybe_future_stays_set_while_pending() {
    let mut maybe_fut = MaybeFuture::Future(1u8);
    assert_eq!(maybe_fut.poll(Poll::<u32>::Pending), Poll::Pending);
    assert!(maybe_fut.is_some());
    assert!(!maybe_fut.is_none());
    assert_eq!(maybe_fut.poll(Poll::Ready(7u32)), Poll::Ready(7));
    assert!(maybe_fut.is_none());
    assert!(!maybe_fut.is_some());
}

#[test]
fn maybe_future_default_is_empty() {
    let mut maybe_fut: MaybeFuture<u8> = MaybeFuture::default();
    assert!(maybe_fut.is_none());
    assert!(!maybe_fut.is_some());
    assert_eq!(maybe_fut.poll(Poll::Ready(1u32)), Poll::Pending);
}

#[test]
fn maybe_future_set_and_reset() {
    let mut maybe_fut: MaybeFuture<u8> = MaybeFuture::default();
    maybe_fut.set_future(3);
    assert!(maybe_fut.is_some());
    assert!(matches!(maybe_fut, MaybeFuture::Future(3)));
    maybe_fut.set_future(4);
    assert!(matches!(maybe_fut, MaybeFuture::Future(4)));
    maybe_fut.set_none();
    assert!(maybe_fut.is_none());
    assert!(matches!(maybe_fut, MaybeFuture::Empty));
    maybe_fut.set_none();
    assert!(maybe_fut.is_none());
}
