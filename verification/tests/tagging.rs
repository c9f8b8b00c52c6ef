use todotxt::{Tag, TodoEntry};

fn entry_with_description(description: &str) -> TodoEntry {
    TodoEntry {
        done: false,
        priority: None,
        completion_date: None,
        creation_date: None,
        description: description.to_string(),
    }
}

#[test]
fn test_tags() {
    let entry = TodoEntry {
        done: false,
        priority: None,
        completion_date: None,
        creation_date: None,
        description: "Do Homework due:2019-02-01 @at_home +school".to_string(),
    };
    let tags = entry.tags();
    let result = vec![
        Tag::KeyValue("due".to_string(), "2019-02-01".to_string()),
        Tag::Context("at_home".to_string()),
        Tag::Project("school".to_string()),
    ];
    assert_eq!(tags, result)
}

#[test]
fn test_parse_and_tags() {
    let entry =
        TodoEntry::from_str("x (B) 2019-07-02 2019-06-03 Do Stuff @tag1 @tag2 +project k:v")
            .unwrap();

    assert_eq!(true, entry.done);
    assert_eq!(Some('B'), entry.priority);
    assert_eq!(Some("2019-07-02".to_string()), entry.completion_date);
    assert_eq!(Some("2019-06-03".to_string()), entry.creation_date);
    assert_eq!("Do Stuff @tag1 @tag2 +project k:v", entry.description);
    assert_eq!(
        vec![
            Tag::Context("tag1".to_string()),
            Tag::Context("tag2".to_string()),
            Tag::Project("project".to_string()),
            Tag::KeyValue("k".to_string(), "v".to_string())
        ],
        entry.tags()
    );
}

#[test]
fn prefix_takes_precedence_over_colon() {
    let tags = entry_with_description("+proj:val").tags();
    assert_eq!(vec![Tag::Project("proj:val".to_string())], tags);
    let tags = entry_with_description("@ctx:val").tags();
    assert_eq!(vec![Tag::Context("ctx:val".to_string())], tags);
}

#[test]
fn tag_extraction_is_idempotent() {
    let description = "Do Homework due:2019-02-01 @at_home +school plain";
    let first = entry_with_description(description).tags();
    let second = entry_with_description(description).tags();
    assert_eq!(first, second);
}

#[test]
fn bare_markers_and_colons() {
    let tags = entry_with_description("+ @ : k: :v a:b:c plain").tags();
    assert_eq!(
        vec![
            Tag::Project("".to_string()),
            Tag::Context("".to_string()),
            Tag::KeyValue("".to_string(), "".to_string()),
            Tag::KeyValue("k".to_string(), "".to_string()),
            Tag::KeyValue("".to_string(), "v".to_string()),
            Tag::KeyValue("a".to_string(), "b:c".to_string()),
        ],
        tags
    );
}

#[test]
fn plain_words_contribute_nothing() {
    assert_eq!(0, entry_with_description("nothing to see here").tags().len());
    assert_eq!(0, entry_with_description("").tags().len());
    assert_eq!(0, entry_with_description("   ").tags().len());
}
