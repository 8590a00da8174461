use rmarshal::yaml::read_stream;

#[test]
fn stream_splits_documents() {
    let docs = read_stream("---\na: 1\n---\nb: 2\n...\n\n--- c\n").unwrap();
    let docs: Vec<String> = docs.into_iter().collect();
    assert_eq!(docs, vec!["---\na: 1", "---\nb: 2\n...", "--- c"]);
}

#[test]
fn stream_without_markers_is_one_document() {
    let docs: Vec<String> = read_stream("  x: 1\n").unwrap().into_iter().collect();
    assert_eq!(docs, vec!["x: 1"]);
}

#[test]
fn stream_of_blank_text_is_empty() {
    assert!(read_stream("").unwrap().is_empty());
    assert!(read_stream("\n \n").unwrap().is_empty());
    let closed: Vec<String> = read_stream("\n \n...\n").unwrap().into_iter().collect();
    assert_eq!(closed, vec!["..."]);
}
