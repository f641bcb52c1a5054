use currawong::render::handle::{classify, new_pending, Handle, HandleError, HandleState};

#[test]
fn ready_handle_peeks_ready() {
    let h: Handle<u32> = Handle::ready(42);
    match h.peek() {
        HandleState::Ready(v) => assert_eq!(*v, 42),
        other => panic!("expected Ready, got {other:?}"),
    }
    assert!(h.is_ready());
    assert!(!h.is_loading());
    assert!(!h.is_failed());
}

#[test]
fn failed_handle_peeks_failed() {
    let h: Handle<u32> = Handle::failed(HandleError::new("nope"));
    match h.peek() {
        HandleState::Failed(e) => assert_eq!(e.message(), "nope"),
        other => panic!("expected Failed, got {other:?}"),
    }
    assert!(h.is_failed());
    assert!(!h.is_ready());
}

#[test]
fn pending_handle_starts_loading_then_publishes() {
    let (h, w) = new_pending::<u32>("foo");
    assert!(h.is_loading());
    assert_eq!(h.label(), "foo");
    w.set_ready(7);
    match h.peek() {
        HandleState::Ready(v) => assert_eq!(*v, 7),
        other => panic!("expected Ready, got {other:?}"),
    }
}

#[test]
fn pending_handle_can_fail() {
    let (h, w) = new_pending::<u32>("bar");
    w.set_failed(HandleError::new("decode error"));
    match h.peek() {
        HandleState::Failed(e) => assert_eq!(e.message(), "decode error"),
        other => panic!("expected Failed, got {other:?}"),
    }
}

#[test]
fn clones_share_state() {
    let (h1, w) = new_pending::<u32>("shared");
    let h2 = h1.clone();
    assert!(h1.is_loading());
    assert!(h2.is_loading());
    w.set_ready(99);
    assert!(h1.is_ready());
    assert!(h2.is_ready());
    match (h1.peek(), h2.peek()) {
        (HandleState::Ready(a), HandleState::Ready(b)) => {
            assert_eq!(*a, 99);
            assert_eq!(*b, 99);
        }
        _ => panic!("clones diverged"),
    }
}

#[test]
fn ptr_eq_distinguishes_distinct_loads() {
    let a: Handle<u32> = Handle::ready(1);
    let b: Handle<u32> = Handle::ready(1);
    let a_clone = a.clone();
    assert!(Handle::ptr_eq(&a, &a_clone));
    assert!(!Handle::ptr_eq(&a, &b));
}

#[test]
fn second_set_is_silently_dropped() {
    let (h, w1) = new_pending::<u32>("x");
    w1.set_ready(1);
    assert!(matches!(h.peek(), HandleState::Ready(v) if *v == 1));
}

#[test]
fn nothing_written_is_loading() {
    let none: Option<&Result<u32, HandleError>> = None;
    assert!(matches!(classify(none), HandleState::Loading));
    let ready: Result<u32, HandleError> = Ok(3);
    assert!(matches!(classify(Some(&ready)), HandleState::Ready(3)));
    let failed: Result<u32, HandleError> = Err(HandleError::new("no"));
    assert!(matches!(classify(Some(&failed)), HandleState::Failed(_)));
}

#[test]
fn settled_handles_have_no_label() {
    assert_eq!(Handle::ready(1u32).label(), "");
    assert_eq!(Handle::<u32>::failed(HandleError::new("x")).label(), "");
}

#[test]
fn the_first_result_is_kept() {
    let (handle, writer) = new_pending::<u32>("x");
    assert!(writer.set_ready(1));
    let (other, writer) = new_pending::<u32>("y");
    assert!(writer.set_failed(HandleError::new("gone")));
    for _ in 0..3 {
        assert!(matches!(handle.peek(), HandleState::Ready(1)));
        assert!(other.is_failed() && !other.is_ready() && !other.is_loading());
    }
}

#[test]
fn looks_at_a_handle_agree() {
    let (handle, writer) = new_pending::<u32>("x");
    let clone = handle.clone();
    assert!(handle.is_loading() && !handle.is_ready() && !handle.is_failed());
    writer.set_ready(5);
    for h in [&handle, &clone, &handle] {
        assert!(matches!(h.peek(), HandleState::Ready(5)));
        assert!(!h.is_loading() && h.is_ready() && !h.is_failed());
    }
}
