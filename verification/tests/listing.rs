use simpletree::merge::{merge, sort_indices};
use simpletree::order::comes_before;
use simpletree::paging::{assemble, copy_range, scan_ended, Pager};
use simpletree::protocol::{default_page, Entry, Event};
use simpletree::sort::sort_entries;

fn file(name: &str) -> Entry {
    Entry { name: name.to_string(), path: format!("/root/{name}"), is_dir: false }
}

fn dir(name: &str) -> Entry {
    Entry { name: name.to_string(), path: format!("/root/{name}"), is_dir: true }
}

fn names(entries: &[Entry]) -> Vec<String> {
    entries.iter().map(|e| e.name.clone()).collect()
}

fn chunk(ev: &Event) -> (u64, Vec<String>, bool) {
    match ev {
        Event::ListChunk { id, entries, done } => (*id, names(entries), *done),
        Event::Error { .. } => panic!("an error event where a page was expected"),
    }
}

#[test]
fn default_page_is_200() {
    assert_eq!(default_page(), 200);
}

#[test]
fn duplicate_is_equal() {
    let e = dir("src");
    assert_eq!(e.duplicate(), e);
}

#[test]
fn directory_sorts_before_files_ignoring_case() {
    let mut v = vec![file("b.txt"), dir("A"), file("a.txt")];
    sort_entries(&mut v);
    assert_eq!(names(&v), vec!["A", "a.txt", "b.txt"]);
    assert!(v[0].is_dir && !v[1].is_dir && !v[2].is_dir);
}

#[test]
fn names_compare_in_lower_case() {
    let mut v = vec![file("a"), file("B"), file("c"), file("D")];
    sort_entries(&mut v);
    assert_eq!(names(&v), vec!["a", "B", "c", "D"]);
}

#[test]
fn upper_case_gives_the_same_order_as_lower_case() {
    let mut lower = vec![file("zeta"), file("alpha"), file("mid")];
    let mut upper = vec![file("ZETA"), file("ALPHA"), file("MID")];
    sort_entries(&mut lower);
    sort_entries(&mut upper);
    assert_eq!(names(&lower), vec!["alpha", "mid", "zeta"]);
    assert_eq!(names(&upper), vec!["ALPHA", "MID", "ZETA"]);
}

#[test]
fn directories_precede_files_whatever_their_names() {
    let mut v = vec![file("a"), dir("z"), file("b"), dir("y"), dir("B")];
    sort_entries(&mut v);
    assert_eq!(names(&v), vec!["B", "y", "z", "a", "b"]);
    let first_file = v.iter().position(|e| !e.is_dir).unwrap();
    assert_eq!(first_file, 3);
    assert!(v[first_file..].iter().all(|e| !e.is_dir));
}

#[test]
fn ties_keep_collection_order() {
    let mut v = vec![
        Entry { name: "Readme".to_string(), path: "first".to_string(), is_dir: false },
        Entry { name: "README".to_string(), path: "second".to_string(), is_dir: false },
        Entry { name: "readme".to_string(), path: "third".to_string(), is_dir: false },
        Entry { name: "a".to_string(), path: "fourth".to_string(), is_dir: false },
    ];
    sort_entries(&mut v);
    let paths: Vec<&str> = v.iter().map(|e| e.path.as_str()).collect();
    assert_eq!(paths, vec!["fourth", "first", "second", "third"]);
}

#[test]
fn prefix_sorts_before_longer_name() {
    let mut v = vec![file("abc"), file("ab"), file("a"), file("")];
    sort_entries(&mut v);
    assert_eq!(names(&v), vec!["", "a", "ab", "abc"]);
}

#[test]
fn sort_keeps_every_entry() {
    let mut v = vec![file("x"), dir("x"), file("x"), file("w")];
    sort_entries(&mut v);
    assert_eq!(v.len(), 4);
    assert_eq!(v.iter().filter(|e| e.name == "x" && !e.is_dir).count(), 2);
    assert_eq!(v.iter().filter(|e| e.name == "x" && e.is_dir).count(), 1);
    assert_eq!(v.iter().filter(|e| e.name == "w").count(), 1);
}

#[test]
fn sort_of_nothing_is_nothing() {
    let mut v: Vec<Entry> = vec![];
    sort_entries(&mut v);
    assert!(v.is_empty());
}

#[test]
fn non_ascii_names_fold_case() {
    let mut v = vec![file("Éclair"), file("zebra"), file("école")];
    sort_entries(&mut v);
    assert_eq!(names(&v), vec!["zebra", "Éclair", "école"]);
}

#[test]
fn comes_before_is_strict() {
    assert!(comes_before(&dir("z"), &file("a")));
    assert!(!comes_before(&file("a"), &dir("z")));
    assert!(comes_before(&file("a"), &file("B")));
    assert!(!comes_before(&file("B"), &file("a")));
    assert!(!comes_before(&file("same"), &file("SAME")));
    assert!(!comes_before(&file("SAME"), &file("same")));
}

#[test]
fn empty_directory_gives_one_empty_done_chunk() {
    let events = assemble(7, vec![], 200);
    assert_eq!(events.len(), 1);
    assert_eq!(events[0], Event::ListChunk { id: 7, entries: vec![], done: true });
}

#[test]
fn page_of_one_gives_three_chunks_for_three_entries() {
    let events = assemble(3, vec![file("b.txt"), dir("A"), file("a.txt")], 1);
    assert_eq!(events.len(), 3);
    assert_eq!(chunk(&events[0]), (3, vec!["A".to_string()], false));
    assert_eq!(chunk(&events[1]), (3, vec!["a.txt".to_string()], false));
    assert_eq!(chunk(&events[2]), (3, vec!["b.txt".to_string()], true));
}

#[test]
fn chunk_count_is_the_rounded_up_quotient() {
    for (n, max, want) in [
        (1usize, 1usize, 1usize),
        (5, 2, 3),
        (4, 2, 2),
        (6, 4, 2),
        (9, 3, 3),
        (10, 3, 4),
        (3, 200, 1),
        (7, usize::MAX, 1),
    ] {
        let collected: Vec<Entry> = (0..n).map(|i| file(&format!("f{i:03}"))).collect();
        let events = assemble(1, collected, max);
        assert_eq!(events.len(), want);
        let mut seen = 0;
        for (k, ev) in events.iter().enumerate() {
            let (id, page, done) = chunk(ev);
            assert_eq!(id, 1);
            assert!(!page.is_empty() && page.len() <= max);
            assert_eq!(done, k + 1 == want);
            seen += page.len();
        }
        assert_eq!(seen, n);
    }
}

#[test]
fn pages_run_through_the_listing_in_order() {
    let events = assemble(9, vec![file("e"), file("d"), file("c"), file("b"), file("a")], 2);
    let all: Vec<String> = events.iter().flat_map(|ev| chunk(ev).1).collect();
    assert_eq!(all, vec!["a", "b", "c", "d", "e"]);
    assert_eq!(chunk(&events[0]).1, vec!["a", "b"]);
    assert_eq!(chunk(&events[1]).1, vec!["c", "d"]);
    assert_eq!(chunk(&events[2]).1, vec!["e"]);
}

#[test]
fn copy_range_copies_the_slice() {
    let v = vec![file("a"), file("b"), file("c")];
    assert_eq!(copy_range(&v, 1, 3), vec![file("b"), file("c")]);
    assert_eq!(copy_range(&v, 2, 2), vec![]);
}

#[test]
fn pager_sorts_and_starts_open() {
    let p = Pager::new(4, vec![file("b"), file("a")], 10);
    assert_eq!(names(&p.entries), vec!["a", "b"]);
    assert_eq!((p.id, p.max, p.pos, p.closed), (4, 10, 0, false));
}

#[test]
fn pager_steps_until_closed() {
    let mut p = Pager::new(4, vec![file("b"), file("a"), file("c")], 2);
    assert_eq!(chunk(&p.step(false).unwrap()), (4, vec!["a".to_string(), "b".to_string()], false));
    assert_eq!((p.pos, p.closed), (2, false));
    assert_eq!(chunk(&p.step(false).unwrap()), (4, vec!["c".to_string()], true));
    assert_eq!((p.pos, p.closed), (3, true));
    assert_eq!(p.step(false), None);
    assert_eq!(p.step(true), None);
}

#[test]
fn cancelled_before_the_first_page_sends_nothing() {
    let mut p = Pager::new(4, vec![file("b"), file("a")], 1);
    assert_eq!(p.step(true), None);
    assert!(p.closed);
    assert_eq!(p.step(false), None);
    assert_eq!(p.pos, 0);
}

#[test]
fn cancelled_between_pages_never_sends_done() {
    let mut p = Pager::new(4, vec![file("c"), file("b"), file("a")], 1);
    let first = p.step(false).unwrap();
    assert_eq!(chunk(&first), (4, vec!["a".to_string()], false));
    assert_eq!(p.step(true), None);
    assert_eq!(p.step(false), None);
    assert_eq!(p.pos, 1);
}

#[test]
fn cancelled_empty_listing_sends_nothing() {
    let mut p = Pager::new(4, vec![], 5);
    assert_eq!(p.step(true), None);
    assert_eq!(p.step(false), None);
}

#[test]
fn results_are_discarded_when_cancelled_by_the_end_of_collection() {
    let mut p = Pager::collected(4, vec![file("b"), file("a")], 2, true);
    assert!(p.closed);
    assert!(p.entries.is_empty());
    assert_eq!(p.step(false), None);
}

#[test]
fn results_are_kept_and_sorted_when_not_cancelled() {
    let p = Pager::collected(4, vec![file("b"), file("a")], 2, false);
    assert!(!p.closed);
    assert_eq!(names(&p.entries), vec!["a", "b"]);
    assert_eq!((p.id, p.max, p.pos), (4, 2, 0));
}

fn scrambled(n: usize) -> Vec<Entry> {
    let mut state: u64 = 0x2545_f491_4f6c_dd1d;
    (0..n)
        .map(|i| {
            state ^= state << 13;
            state ^= state >> 7;
            state ^= state << 17;
            let letter = (b'a' + (state % 7) as u8) as char;
            let name = if state & 8 == 0 {
                letter.to_string()
            } else {
                letter.to_ascii_uppercase().to_string()
            };
            Entry { name, path: format!("{i}"), is_dir: state & 16 == 0 }
        })
        .collect()
}

#[test]
fn large_result_set_sorts_like_a_stable_sort() {
    let input = scrambled(3000);
    let mut want = input.clone();
    want.sort_by(|a, b| {
        b.is_dir.cmp(&a.is_dir).then_with(|| a.name.to_lowercase().cmp(&b.name.to_lowercase()))
    });
    let mut got = input;
    sort_entries(&mut got);
    assert_eq!(got, want);
}

#[test]
fn sorting_twice_changes_nothing_more() {
    let mut once = scrambled(200);
    sort_entries(&mut once);
    let mut twice = once.clone();
    sort_entries(&mut twice);
    assert_eq!(once, twice);
}

#[test]
fn merge_takes_ties_from_the_first_run_first() {
    let entries = vec![file("b"), file("A"), file("a"), file("c")];
    let keys: Vec<String> = entries.iter().map(|e| e.name.to_lowercase()).collect();
    assert_eq!(merge(&entries, &keys, &vec![2, 0], &vec![1, 3]), vec![2, 1, 0, 3]);
    assert_eq!(merge(&entries, &keys, &vec![1, 3], &vec![2, 0]), vec![1, 2, 0, 3]);
    assert_eq!(merge(&entries, &keys, &vec![], &vec![1, 3]), vec![1, 3]);
    assert_eq!(merge(&entries, &keys, &vec![0], &vec![]), vec![0]);
}

#[test]
fn sort_indices_orders_the_picked_entries() {
    let entries = vec![file("b"), file("A"), dir("z"), file("a"), file("c")];
    let keys: Vec<String> = entries.iter().map(|e| e.name.to_lowercase()).collect();
    assert_eq!(sort_indices(&entries, &keys, vec![0, 1, 2, 3, 4]), vec![2, 1, 3, 0, 4]);
    assert_eq!(sort_indices(&entries, &keys, vec![4, 3, 0]), vec![3, 0, 4]);
    assert_eq!(sort_indices(&entries, &keys, vec![]), Vec::<usize>::new());
}

#[test]
fn failed_scan_is_answered_with_one_error_and_no_page() {
    let r = scan_ended(5, Some("no such directory".to_string()), vec![file("a")], 10, false);
    assert_eq!(r.err(), Some(Event::Error { id: 5, message: "no such directory".to_string() }));
}

#[test]
fn cancelled_scan_ends_in_silence_even_when_it_failed() {
    let mut p = scan_ended(5, Some("no such directory".to_string()), vec![file("a")], 10, true)
        .ok()
        .unwrap();
    assert!(p.closed && p.entries.is_empty());
    assert_eq!(p.step(false), None);
    let mut q = scan_ended(5, None, vec![file("a")], 10, true).ok().unwrap();
    assert!(q.closed && q.entries.is_empty());
    assert_eq!(q.step(false), None);
}

#[test]
fn scan_that_ran_through_hands_over_the_sorted_results() {
    let mut p = scan_ended(5, None, vec![file("b"), dir("c"), file("a")], 2, false).ok().unwrap();
    assert_eq!((p.id, p.max, p.pos, p.closed), (5, 2, 0, false));
    assert_eq!(names(&p.entries), vec!["c", "a", "b"]);
    assert_eq!(chunk(&p.step(false).unwrap()), (5, vec!["c".to_string(), "a".to_string()], false));
    assert_eq!(chunk(&p.step(false).unwrap()), (5, vec!["b".to_string()], true));
}
