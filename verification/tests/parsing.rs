use todotxt::TodoEntry;

#[test]
fn test_from_str() {
    let expected = Ok(TodoEntry {
        done: true,
        priority: Some('A'),
        completion_date: None,
        creation_date: Some("2019-05-01".to_string()),
        description: "Get some milk".to_string(),
    });
    let input = "x (A) 2019-05-01 Get some milk";
    assert_eq!(TodoEntry::from_str(input), expected);
}

#[test]
fn test_to_string() {
    let entry = TodoEntry {
        done: true,
        priority: Some('A'),
        completion_date: None,
        creation_date: Some("2019-05-01".to_string()),
        description: "Get some milk".to_string(),
    };
    assert_eq!("x (A) 2019-05-01 Get some milk", entry.to_string());
}

#[test]
fn test_parse_and_to_string() {
    // well formed entry should be same after parse and to_string
    let entry_as_text = "x (B) 2019-07-02 2019-06-03 Do Stuff @tag1 @tag2 +project k:v";
    let entry = TodoEntry::from_str(entry_as_text).unwrap();
    assert_eq!(entry_as_text, entry.to_string().as_str());
}

#[test]
fn round_trip_of_canonical_lines() {
    let lines = [
        "",
        "Get some milk",
        "x Get some milk",
        "(A) Call mom",
        "2019-07-02 Do Stuff",
        "2019-07-02 2019-06-03 Do Stuff",
        "x (A) 2019-05-01 ",
        "x 2019-07-02 2019-06-03 Do Stuff",
        "x (Z) 0000-00-00 9999-99-99 strange but date-shaped",
    ];
    for line in lines {
        let entry = TodoEntry::from_str(line).unwrap();
        assert_eq!(line, entry.to_string().as_str());
    }
}

#[test]
fn date_tie_break() {
    // a lone date is a creation date, never a completion date
    let entry = TodoEntry::from_str("2019-07-02 Do Stuff").unwrap();
    assert_eq!(None, entry.completion_date);
    assert_eq!(Some("2019-07-02".to_string()), entry.creation_date);
    assert_eq!("Do Stuff", entry.description);
    assert!(!entry.done);
    assert_eq!(None, entry.priority);
}

#[test]
fn two_date_order() {
    let entry = TodoEntry::from_str("2019-07-02 2019-06-03 Do Stuff").unwrap();
    assert_eq!(Some("2019-07-02".to_string()), entry.completion_date);
    assert_eq!(Some("2019-06-03".to_string()), entry.creation_date);
    assert_eq!("Do Stuff", entry.description);
}

#[test]
fn empty_description() {
    let entry = TodoEntry::from_str("x (A) 2019-05-01 ").unwrap();
    assert!(entry.done);
    assert_eq!(Some('A'), entry.priority);
    assert_eq!(None, entry.completion_date);
    assert_eq!(Some("2019-05-01".to_string()), entry.creation_date);
    assert_eq!("", entry.description);
    assert_eq!(0, entry.tags().len());
}

#[test]
fn date_without_following_space_is_description() {
    // every prefix field needs trailing whitespace to match
    let entry = TodoEntry::from_str("2019-07-02").unwrap();
    assert_eq!(None, entry.completion_date);
    assert_eq!(None, entry.creation_date);
    assert_eq!("2019-07-02", entry.description);
}

#[test]
fn done_marker_needs_whitespace() {
    let entry = TodoEntry::from_str("xylophone lessons").unwrap();
    assert!(!entry.done);
    assert_eq!("xylophone lessons", entry.description);
}

#[test]
fn priority_must_be_uppercase() {
    let entry = TodoEntry::from_str("(a) lower case").unwrap();
    assert_eq!(None, entry.priority);
    assert_eq!("(a) lower case", entry.description);
}

#[test]
fn leading_and_extra_whitespace_is_skipped() {
    let entry = TodoEntry::from_str("   x   (B)  2019-01-02  milk").unwrap();
    assert!(entry.done);
    assert_eq!(Some('B'), entry.priority);
    assert_eq!(None, entry.completion_date);
    assert_eq!(Some("2019-01-02".to_string()), entry.creation_date);
    assert_eq!("milk", entry.description);
}

#[test]
fn completion_and_creation_date_slots() {
    let one = Some("2019-07-02".to_string());
    let two = Some("2019-06-03".to_string());
    assert_eq!(
        (None, None),
        todotxt::entry::completion_and_creation_date(None, None)
    );
    assert_eq!(
        (None, one.clone()),
        todotxt::entry::completion_and_creation_date(one.clone(), None)
    );
    assert_eq!(
        (one.clone(), two.clone()),
        todotxt::entry::completion_and_creation_date(one.clone(), two.clone())
    );
    // a second match without a first one is not a date at all
    assert_eq!(
        (None, None),
        todotxt::entry::completion_and_creation_date(None, two)
    );
}
