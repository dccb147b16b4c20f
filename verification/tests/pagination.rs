use transit_fetch::errors::FetchError;
use transit_fetch::pagination::{collect_pages, FetchEvent, Paginator, PAGE_SIZE};

fn full_page(start: u32) -> Vec<u32> {
    let mut v = Vec::new();
    let mut i = 0u32;
    while (i as usize) < PAGE_SIZE {
        v.push(start + i);
        i += 1;
    }
    v
}

#[test]
fn single_short_page_is_one_request() {
    // Every page the source would serve is short, so only the first is fetched.
    let pages = vec![vec![7u32, 8, 9]];
    let (items, requests) = collect_pages(pages);
    assert_eq!(requests, 1);
    assert_eq!(items, vec![7, 8, 9]);
}

#[test]
fn empty_first_page_is_one_request() {
    let pages: Vec<Vec<u32>> = vec![vec![]];
    let (items, requests) = collect_pages(pages);
    assert_eq!(requests, 1);
    assert!(items.is_empty());
}

#[test]
fn full_pages_then_short_counts_requests_and_items() {
    // Two full pages followed by a short page of 120 items.
    let pages = vec![full_page(0), full_page(500), {
        let mut v = Vec::new();
        for i in 0..120u32 {
            v.push(1000 + i);
        }
        v
    }];
    let (items, requests) = collect_pages(pages);
    assert_eq!(requests, 3);
    assert_eq!(items.len(), 2 * PAGE_SIZE + 120);
    // Upstream order is preserved across page boundaries.
    assert_eq!(items[0], 0);
    assert_eq!(items[499], 499);
    assert_eq!(items[500], 500);
    assert_eq!(items[1000], 1000);
    assert_eq!(items[1119], 1119);
}

#[test]
fn pages_after_the_terminal_one_are_never_requested() {
    let pages = vec![vec![1u32, 2], full_page(0)];
    let (items, requests) = collect_pages(pages);
    assert_eq!(requests, 1);
    assert_eq!(items, vec![1, 2]);
}

#[test]
fn paginator_offsets_step_by_page_size() {
    let mut p: Paginator<u32> = Paginator::new();
    assert_eq!(p.next_offset(), 0);
    p.apply_page(full_page(0));
    assert!(!p.is_finished());
    assert_eq!(p.next_offset(), 500);
    p.apply_page(full_page(500));
    assert!(!p.is_finished());
    assert_eq!(p.next_offset(), 1000);
    p.apply_page(vec![1000, 1001]);
    assert!(p.is_finished());
    let items = p.into_items();
    assert_eq!(items.len(), 1002);
}

#[test]
fn transport_failure_aborts_with_transport_error() {
    let mut p: Paginator<u32> = Paginator::new();
    let r = p.handle(FetchEvent::TransportFailed("status 503".to_string()));
    match r {
        Err(FetchError::TransportError(m)) => assert_eq!(m, "status 503"),
        _ => panic!("expected a transport error"),
    }
}

#[test]
fn undecodable_body_aborts_with_decode_error_carrying_the_body() {
    let mut p: Paginator<u32> = Paginator::new();
    let r = p.handle(FetchEvent::Undecodable("<html>oops</html>".to_string()));
    match r {
        Err(FetchError::DecodeError(b)) => assert_eq!(b, "<html>oops</html>"),
        _ => panic!("expected a decode error"),
    }
}

#[test]
fn received_page_reports_whether_more_is_owed() {
    let mut p: Paginator<u32> = Paginator::new();
    let r = p.handle(FetchEvent::Received(full_page(0)));
    assert_eq!(r.unwrap(), true);
    let r = p.handle(FetchEvent::Received(vec![1u32]));
    assert_eq!(r.unwrap(), false);
    assert!(p.is_finished());
}

#[test]
fn error_messages_name_the_failure() {
    let e = FetchError::ConfigError("key".to_string());
    assert_eq!(e.message(), "missing credential: key");
    let e = FetchError::TransportError("timeout".to_string());
    assert_eq!(e.message(), "transport failure: timeout");
    let e = FetchError::DecodeError("{bad".to_string());
    assert_eq!(e.message(), "undecodable response body: {bad");
}

#[test]
fn missing_credential_is_config_error_before_any_request() {
    // The credential check is the first step of every fetch: with no key,
    // a ConfigError comes back and no paginator has issued anything.
    let r = transit_fetch::config::credential_from(None);
    match r {
        Err(FetchError::ConfigError(_)) => {}
        _ => panic!("expected a config error"),
    }
    let r = transit_fetch::config::credential_from(Some("test-key".to_string()));
    assert_eq!(r.unwrap(), "test-key");
}
