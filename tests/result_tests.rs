use idevice_lib::result::{contain_panic, get_panic_msg, RustResult};

#[test]
fn success_fills_only_ok() {
    let r: RustResult<u32> = RustResult::success(5);
    assert!(r.is_ok() && !r.is_err());
    assert_eq!(r.ok, Some(5));
}

#[test]
fn failure_fills_only_err() {
    let r: RustResult<u32> = RustResult::failure("no device".to_string());
    assert!(r.is_err() && !r.is_ok());
    assert_eq!(r.err.as_deref(), Some("no device"));
}

#[test]
fn outcomes_map_to_one_channel() {
    let a: RustResult<u8> = RustResult::from_outcome(Ok(1));
    assert!(a.ok.is_some() != a.err.is_some());
    let b: RustResult<u8> = RustResult::from_outcome(Err("bad".to_string()));
    assert!(b.ok.is_none());
    assert_eq!(b.err.as_deref(), Some("bad"));
}

#[test]
fn panic_message_from_text_or_placeholder() {
    assert_eq!(get_panic_msg(Some("boom")), "boom");
    assert_eq!(get_panic_msg(None), "Unknown panic");
}

#[test]
fn caught_panic_becomes_error_text() {
    let r: RustResult<u8> = contain_panic("get_provider", None, Some("boom"));
    assert!(r.ok.is_none());
    assert_eq!(r.err.as_deref(), Some("rust get_provider function paniced: boom"));
    let r2: RustResult<u8> = contain_panic("get_provider", None, None);
    assert_eq!(r2.err.as_deref(), Some("rust get_provider function paniced: Unknown panic"));
}

#[test]
fn finished_body_passes_through() {
    let r: RustResult<u8> = contain_panic("f", Some(Ok(3)), None);
    assert_eq!(r.ok, Some(3));
    assert!(r.err.is_none());
    let e: RustResult<u8> = contain_panic("f", Some(Err("x".to_string())), Some("ignored"));
    assert_eq!(e.err.as_deref(), Some("x"));
}
