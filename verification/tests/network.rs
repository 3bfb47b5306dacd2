use three_d_asset::network::{
    check_body, is_html, load_urls_unavailable, plan_requests, route, HostThrottle, Request,
    RequestQueue, CONN_PER_HOST,
};
use three_d_asset::Error;

fn strings(items: &[&str]) -> Vec<String> {
    items.iter().map(|s| s.to_string()).collect()
}

fn requests(host: &str, count: usize) -> Vec<Request> {
    (0..count)
        .map(|i| Request { url: format!("https://{}/{}.png", host, i), host: host.to_string() })
        .collect()
}

#[test]
fn every_request_goes_to_the_host_of_its_url() {
    let plan = plan_requests(&strings(&[
        "https://Example.com/a.png",
        "http://127.0.0.1:8080/b.png",
        "https://[::1]/c.png",
        "https://example.com/d.png",
    ]))
    .unwrap();
    let hosts: Vec<&str> = plan.iter().map(|r| r.host.as_str()).collect();
    assert_eq!(hosts, vec!["example.com", "127.0.0.1", "[::1]", "example.com"]);
    let urls: Vec<&str> = plan.iter().map(|r| r.url.as_str()).collect();
    assert_eq!(
        urls,
        vec![
            "https://Example.com/a.png",
            "http://127.0.0.1:8080/b.png",
            "https://[::1]/c.png",
            "https://example.com/d.png"
        ]
    );
    assert!(plan_requests(&Vec::new()).unwrap().is_empty());
}

#[test]
fn a_malformed_url_fails_the_plan() {
    assert_eq!(
        plan_requests(&strings(&["https://ok.example/a", "//no-scheme/a", "https://"])).err(),
        Some(Error::FailedParsingUrl("//no-scheme/a".to_string()))
    );
    assert_eq!(
        plan_requests(&strings(&["https://"])).err(),
        Some(Error::FailedParsingUrl("https://".to_string()))
    );
}

#[test]
fn a_url_without_a_host_fails_the_plan() {
    assert_eq!(
        plan_requests(&strings(&["unix:/run/foo.socket"])).err(),
        Some(Error::FailedParsingUrl("unix:/run/foo.socket".to_string()))
    );
    assert_eq!(
        route("x:y", None).err(),
        Some(Error::FailedParsingUrl("x:y".to_string()))
    );
    let routed = route("https://h/a", Some("h".to_string())).unwrap();
    assert_eq!(routed.url, "https://h/a");
    assert_eq!(routed.host, "h");
}

#[test]
fn without_a_network_only_an_empty_batch_loads() {
    assert!(load_urls_unavailable(&Vec::new()).unwrap().is_empty());
    assert_eq!(
        load_urls_unavailable(&strings(&["https://h/a"])).err(),
        Some(Error::FeatureMissing("reqwest".to_string()))
    );
}

#[test]
fn a_body_that_begins_with_a_doctype_looks_like_a_page() {
    assert!(is_html(b"<!DOCTYPE html>"));
    assert!(is_html(b"<!DOCTYPE html><html></html>"));
    assert!(!is_html(b"<!DOCTYPE html"));
    assert!(!is_html(b"<!doctype html>"));
    assert!(!is_html(b""));
    assert!(!is_html(&[0x89, 0x50, 0x4e, 0x47]));
    assert_eq!(check_body("u", vec![1, 2]), Ok(vec![1, 2]));
    assert_eq!(
        check_body("u", b"<!DOCTYPE html>gone".to_vec()),
        Err(Error::FailedLoadingUrl("u".to_string(), "<!DOCTYPE html>gone".to_string()))
    );
    let mut binary = b"<!DOCTYPE html>".to_vec();
    binary.push(0xff);
    assert_eq!(
        check_body("u", binary),
        Err(Error::FailedLoadingUrl("u".to_string(), "<!DOCTYPE html>".to_string()))
    );
}

#[test]
fn the_throttle_counts_each_host_up_to_the_limit() {
    let mut throttle = HostThrottle::new(2);
    assert!(throttle.has_capacity("a"));
    assert!(throttle.try_acquire("a"));
    assert!(throttle.try_acquire("a"));
    assert!(!throttle.has_capacity("a"));
    assert!(!throttle.try_acquire("a"));
    assert_eq!(throttle.count("a"), 2);
    assert!(throttle.try_acquire("b"));
    assert_eq!(throttle.count("b"), 1);
    throttle.release("a");
    assert_eq!(throttle.count("a"), 1);
    assert!(throttle.try_acquire("a"));
    throttle.release("c");
    assert_eq!(throttle.count("c"), 0);
    throttle.release("b");
    throttle.release("b");
    assert_eq!(throttle.count("b"), 0);
    let mut closed = HostThrottle::new(0);
    assert!(!closed.try_acquire("a"));
    assert_eq!(closed.count("a"), 0);
}

#[test]
fn the_default_limit_is_eight_per_host() {
    assert_eq!(CONN_PER_HOST, 8);
    let mut throttle = HostThrottle::default();
    for _ in 0..8 {
        assert!(throttle.try_acquire("h"));
    }
    assert!(!throttle.try_acquire("h"));
}

#[test]
fn ten_requests_to_one_host_never_have_more_than_eight_in_flight() {
    let mut queue = RequestQueue::new(requests("h.example", 10), 8);
    let mut in_flight: Vec<Request> = Vec::new();
    let mut done = 0;
    let mut peak = 0;
    while done < 10 {
        while let Some(request) = queue.start_next() {
            in_flight.push(request);
            assert!(in_flight.len() <= 8);
            assert_eq!(queue.in_flight("h.example"), in_flight.len());
        }
        peak = peak.max(in_flight.len());
        let finished = in_flight.remove(0);
        queue.finished(&finished.host);
        done += 1;
    }
    assert_eq!(peak, 8);
    assert!(queue.is_empty());
    assert_eq!(queue.in_flight("h.example"), 0);
    assert!(queue.start_next().is_none());
}

#[test]
fn a_full_host_does_not_hold_back_another() {
    let mut waiting = requests("slow", 3);
    waiting.extend(requests("fast", 2));
    let mut queue = RequestQueue::new(waiting, 2);
    let started: Vec<String> =
        std::iter::from_fn(|| queue.start_next()).map(|r| r.url).collect();
    assert_eq!(
        started,
        strings(&[
            "https://slow/0.png",
            "https://slow/1.png",
            "https://fast/0.png",
            "https://fast/1.png"
        ])
    );
    assert_eq!(queue.in_flight("slow"), 2);
    assert_eq!(queue.in_flight("fast"), 2);
    assert!(!queue.is_empty());
    queue.finished("fast");
    assert!(queue.start_next().is_none());
    queue.finished("slow");
    assert_eq!(queue.start_next().unwrap().url, "https://slow/2.png");
    assert!(queue.is_empty());
}
