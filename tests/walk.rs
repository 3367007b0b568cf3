use hunt::classify::{classify_sample, Classification};
use hunt::scan::Match;
use hunt::walk::{effective_classification, file_matches, merge_child_results, split_listing};

fn search_file(path: &str, content: &[u8], pattern: &str) -> Result<Vec<Match>, String> {
    let class = effective_classification(&Ok(classify_sample(content)));
    Ok(file_matches(&String::from(path), class, content, pattern))
}

#[test]
fn directory_of_text_and_binary() {
    let a = search_file("/r/a.txt", b"hello\nworld hello\n", "hello");
    let b = search_file("/r/b.bin", &[0xFFu8; 256], "hello");
    let (found, errors) = merge_child_results(vec![a, b]);
    assert!(errors.is_empty());
    assert_eq!(found.len(), 2);
    assert!(found.iter().all(|m| m.file_path == "/r/a.txt"));
    let mut numbers: Vec<usize> = found.iter().map(|m| m.line_number).collect();
    numbers.sort();
    assert_eq!(numbers, vec![0, 1]);
}

#[test]
fn empty_directory_yields_nothing() {
    let (children, failures) = split_listing(Vec::<Result<String, String>>::new());
    assert!(children.is_empty() && failures.is_empty());
    let (found, errors) = merge_child_results(Vec::new());
    assert!(found.is_empty());
    assert!(errors.is_empty());
}

#[test]
fn unreadable_file_is_skipped_and_siblings_kept() {
    let classified: Result<Classification, String> = Err(String::from("error opening file: /r/locked. permission denied"));
    let class = effective_classification(&classified);
    assert_eq!(class, Classification::Binary);
    let locked = Ok(file_matches(&String::from("/r/locked"), class, b"hello", "hello"));
    let sibling = search_file("/r/ok.txt", b"say hello\n", "hello");
    let (found, errors) = merge_child_results(vec![locked, sibling]);
    assert!(errors.is_empty());
    assert_eq!(found.len(), 1);
    assert_eq!(found[0].file_path, "/r/ok.txt");
    assert_eq!(found[0].line, "say hello");
}

#[test]
fn binary_file_contributes_nothing_whatever_its_content() {
    let found = file_matches(&String::from("x"), Classification::Binary, b"hello\nhello\n", "hello");
    assert!(found.is_empty());
}

#[test]
fn listing_splits_children_from_failures() {
    let entries: Vec<Result<String, String>> = vec![
        Ok(String::from("/r/a")),
        Err(String::from("gone")),
        Ok(String::from("/r/b")),
        Err(String::from("denied")),
    ];
    let (children, failures) = split_listing(entries);
    assert_eq!(children, vec![String::from("/r/a"), String::from("/r/b")]);
    assert_eq!(failures, vec![String::from("gone"), String::from("denied")]);
}

#[test]
fn failed_child_task_is_reported_once() {
    let one = search_file("/r/one.txt", b"hello\n", "hello");
    let lost: Result<Vec<Match>, String> = Err(String::from("task cancelled"));
    let two = search_file("/r/two.txt", b"x\nhello hello\n", "hello");
    let (found, errors) = merge_child_results(vec![one, lost, two]);
    assert_eq!(errors, vec![String::from("task cancelled")]);
    let refs: Vec<(String, usize)> = found.iter().map(|m| (m.file_path.clone(), m.line_number)).collect();
    assert_eq!(refs, vec![(String::from("/r/one.txt"), 0), (String::from("/r/two.txt"), 1)]);
}

#[test]
fn merging_in_another_order_gives_the_same_matches() {
    let make = || {
        vec![
            search_file("/r/a.txt", b"hello\nworld hello\n", "hello"),
            search_file("/r/c.txt", b"no\nhello\n", "hello"),
        ]
    };
    let mut reversed = make();
    reversed.reverse();
    let key = |ms: Vec<Match>| {
        let mut v: Vec<(String, usize, String)> = ms.into_iter().map(|m| (m.file_path, m.line_number, m.line)).collect();
        v.sort();
        v
    };
    let (first, _) = merge_child_results(make());
    let (second, _) = merge_child_results(reversed);
    assert_eq!(key(first), key(second));
}
