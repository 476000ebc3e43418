use simpletree::protocol::{Event, Request};
use simpletree::router::{dispatch, is_blank, refuse, route, scan_failed, start, Action};

#[test]
fn blank_lines_are_recognised() {
    assert!(is_blank(""));
    assert!(is_blank("   "));
    assert!(is_blank(" \t\r"));
    assert!(!is_blank(" x "));
    assert!(!is_blank("{}"));
}

#[test]
fn undecodable_line_is_answered_under_id_zero() {
    let act = route(Err("missing field `id` at line 1 column 15".to_string()));
    assert_eq!(
        act,
        Action::Reply {
            event: Event::Error {
                id: 0,
                message: "invalid request: missing field `id` at line 1 column 15".to_string(),
            }
        }
    );
}

#[test]
fn router_goes_on_after_an_undecodable_line() {
    let first = route(Err("missing field `id`".to_string()));
    assert!(matches!(first, Action::Reply { event: Event::Error { id: 0, .. } }));
    let second = route(Ok(Request::Cancel { id: 4 }));
    assert_eq!(second, Action::Cancel { id: 4 });
}

#[test]
fn list_and_expand_start_the_same_scan() {
    let want = Action::Scan { id: 2, path: "/tmp".to_string(), show_hidden: true, max: 50 };
    let list = Request::List { id: 2, path: "/tmp".to_string(), show_hidden: true, max: 50 };
    let expand = Request::Expand { id: 2, path: "/tmp".to_string(), show_hidden: true, max: 50 };
    assert_eq!(dispatch(list.clone()), want);
    assert_eq!(dispatch(expand), want);
    assert_eq!(route(Ok(list)), want);
}

#[test]
fn cancel_request_answers_with_no_event() {
    assert_eq!(dispatch(Request::Cancel { id: 77 }), Action::Cancel { id: 77 });
    assert_eq!(route(Ok(Request::Cancel { id: 0 })), Action::Cancel { id: 0 });
}

#[test]
fn zero_page_size_is_refused_under_the_request_id() {
    let want = Action::Reply {
        event: Event::Error {
            id: 6,
            message: "invalid request: max must be a positive integer".to_string(),
        },
    };
    assert_eq!(start(6, ".".to_string(), false, 0), want);
    assert_eq!(
        dispatch(Request::Expand { id: 6, path: ".".to_string(), show_hidden: false, max: 0 }),
        want
    );
}

#[test]
fn start_keeps_the_request_values() {
    assert_eq!(
        start(1, "a/b".to_string(), false, 1),
        Action::Scan { id: 1, path: "a/b".to_string(), show_hidden: false, max: 1 }
    );
}

#[test]
fn refuse_prefixes_the_details() {
    assert_eq!(
        refuse(3, "oops"),
        Event::Error { id: 3, message: "invalid request: oops".to_string() }
    );
    assert_eq!(refuse(0, ""), Event::Error { id: 0, message: "invalid request: ".to_string() });
}

#[test]
fn scan_failure_carries_the_request_id() {
    assert_eq!(
        scan_failed(12, "no such directory".to_string()),
        Event::Error { id: 12, message: "no such directory".to_string() }
    );
}
