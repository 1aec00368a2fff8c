use lcas::artifacts::{
    add_artifact, find_artifact, get_artifact, put_artifact, read_artifacts_file,
    serialize_artifacts,
};
use lcas::error::ErrorKind;

fn pair(name: &str, value: &str) -> (String, String) {
    (name.to_string(), value.to_string())
}

#[test]
fn simple_serialize_artifacts() {
    let artifacts = vec![
        ("test1".to_string(), 1.to_string()),
        ("test2".to_string(), 2.to_string()),
        ("test3".to_string(), 3.to_string()),
    ];
    assert_eq!(
        serialize_artifacts(artifacts),
        "test1:1\ntest2:2\ntest3:3\n"
    );
}

#[test]
fn simple_all() {
    let artifacts = vec![
        ("test1".to_string(), 1.to_string()),
        ("test2".to_string(), 2.to_string()),
        ("test3".to_string(), 3.to_string()),
    ];

    let mut file: Option<String> = None;
    for (artifact_name, manifest_hash) in &artifacts {
        let text = add_artifact(
            artifact_name.to_string(),
            manifest_hash.to_string(),
            file.as_deref(),
        )
        .unwrap();
        file = Some(text);
    }

    assert_eq!(&read_artifacts_file(file.as_deref()).unwrap(), &artifacts);

    assert_eq!(
        get_artifact(&"test1".to_string(), file.as_deref())
            .unwrap()
            .unwrap(),
        1.to_string()
    );
}

#[test]
fn get_artifact_not_found() {
    assert_eq!(
        get_artifact(&"nonexistent".to_string(), Some("")).unwrap(),
        None
    );
}

#[test]
fn add_artifact_overwrites_existing() {
    let first = add_artifact("artifact".to_string(), "hash1".to_string(), None).unwrap();
    let second = add_artifact("artifact".to_string(), "hash2".to_string(), Some(&first)).unwrap();
    let artifacts = read_artifacts_file(Some(&second)).unwrap();
    assert_eq!(artifacts.len(), 1);
    assert_eq!(artifacts[0], ("artifact".to_string(), "hash2".to_string()));
}

#[test]
fn read_artifacts_file_nonexistent() {
    let artifacts = read_artifacts_file(None).unwrap();
    assert!(artifacts.is_empty());
}

#[test]
#[should_panic(expected = "Malformed artifacts file")]
fn read_artifacts_file_malformed() {
    let _ = read_artifacts_file(Some("bad_line_without_colon\n")).unwrap();
}

#[test]
fn malformed_failure_gives_the_words_and_the_line() {
    let error = read_artifacts_file(Some("bad_line_without_colon\n")).unwrap_err();
    assert_eq!(error.kind, ErrorKind::Malformed);
    assert_eq!(error.detail, "Malformed artifacts file: bad_line_without_colon");
    assert_eq!(error.message(), "Malformed artifacts file: bad_line_without_colon");
    assert!(error.message().contains("Malformed artifacts file"));
}

#[test]
fn malformed_line_is_never_skipped() {
    let text = "a:1\nno separator here\nb:2\n";
    let error = read_artifacts_file(Some(text)).unwrap_err();
    assert_eq!(error.kind, ErrorKind::Malformed);
    assert_eq!(error.detail, "Malformed artifacts file: no separator here");
    assert_eq!(
        get_artifact(&"a".to_string(), Some(text)).unwrap_err().kind,
        ErrorKind::Malformed
    );
    assert_eq!(
        add_artifact("c".to_string(), "3".to_string(), Some(text))
            .unwrap_err()
            .kind,
        ErrorKind::Malformed
    );
}

#[test]
fn first_malformed_line_is_reported() {
    let error = read_artifacts_file(Some("a:1\nfirst\nsecond\n")).unwrap_err();
    assert_eq!(error.detail, "Malformed artifacts file: first");
}

#[test]
fn empty_line_is_malformed() {
    let error = read_artifacts_file(Some("a:1\n\nb:2\n")).unwrap_err();
    assert_eq!(error.kind, ErrorKind::Malformed);
    assert_eq!(error.detail, "Malformed artifacts file: ");
}

#[test]
fn lines_end_at_line_feed_or_carriage_return_line_feed() {
    let records = read_artifacts_file(Some("a:1\r\nb:2\nc:3")).unwrap();
    assert_eq!(records, vec![pair("a", "1"), pair("b", "2"), pair("c", "3")]);
}

#[test]
fn last_line_keeps_a_bare_carriage_return() {
    let records = read_artifacts_file(Some("a:1\r")).unwrap();
    assert_eq!(records, vec![pair("a", "1\r")]);
}

#[test]
fn only_one_carriage_return_is_dropped() {
    let records = read_artifacts_file(Some("a:1\r\r\n")).unwrap();
    assert_eq!(records, vec![pair("a", "1\r")]);
}

#[test]
fn value_may_hold_the_separator() {
    let records = read_artifacts_file(Some("name:va:lue\n:x\ny:\n")).unwrap();
    assert_eq!(
        records,
        vec![pair("name", "va:lue"), pair("", "x"), pair("y", "")]
    );
}

#[test]
fn names_outside_ascii_are_kept() {
    let records = read_artifacts_file(Some("naïve:ß\n日本:語\n")).unwrap();
    assert_eq!(records, vec![pair("naïve", "ß"), pair("日本", "語")]);
    assert_eq!(serialize_artifacts(records), "naïve:ß\n日本:語\n");
}

#[test]
fn empty_text_has_no_records() {
    assert!(read_artifacts_file(Some("")).unwrap().is_empty());
    assert_eq!(serialize_artifacts(Vec::new()), "");
}

#[test]
fn find_takes_the_first_record_of_a_name() {
    let records = vec![pair("a", "1"), pair("b", "2"), pair("a", "3")];
    assert_eq!(find_artifact(&"a".to_string(), &records), Some("1".to_string()));
    assert_eq!(find_artifact(&"b".to_string(), &records), Some("2".to_string()));
    assert_eq!(find_artifact(&"c".to_string(), &records), None);
}

#[test]
fn put_removes_every_earlier_record_and_appends() {
    let records = vec![pair("a", "1"), pair("b", "2"), pair("a", "3"), pair("c", "4")];
    let after = put_artifact(&records, "a".to_string(), "5".to_string());
    assert_eq!(after, vec![pair("b", "2"), pair("c", "4"), pair("a", "5")]);
}

#[test]
fn last_registration_wins() {
    let first = add_artifact("n".to_string(), "v1".to_string(), Some("other:x\n")).unwrap();
    let second = add_artifact("n".to_string(), "v2".to_string(), Some(&first)).unwrap();
    assert_eq!(second, "other:x\nn:v2\n");
    assert_eq!(
        get_artifact(&"n".to_string(), Some(&second)).unwrap(),
        Some("v2".to_string())
    );
    assert_eq!(
        get_artifact(&"other".to_string(), Some(&second)).unwrap(),
        Some("x".to_string())
    );
}

#[test]
fn one_record_per_name_after_many_registrations() {
    let mut file: Option<String> = None;
    let names = ["a", "b", "a", "c", "b", "a"];
    for (i, name) in names.iter().enumerate() {
        file = Some(add_artifact(name.to_string(), i.to_string(), file.as_deref()).unwrap());
    }
    let records = read_artifacts_file(file.as_deref()).unwrap();
    assert_eq!(records, vec![pair("c", "3"), pair("b", "4"), pair("a", "5")]);
}

#[test]
fn written_records_are_read_back() {
    let records = vec![pair("x", "1"), pair("long name", ""), pair("", "v")];
    let text = serialize_artifacts(records.clone());
    assert_eq!(read_artifacts_file(Some(&text)).unwrap(), records);
}

#[test]
fn name_with_separator_is_not_read_back() {
    let text = add_artifact("a:b".to_string(), "v".to_string(), None).unwrap();
    assert_eq!(text, "a:b:v\n");
    assert_eq!(get_artifact(&"a:b".to_string(), Some(&text)).unwrap(), None);
    assert_eq!(
        get_artifact(&"a".to_string(), Some(&text)).unwrap(),
        Some("b:v".to_string())
    );
}

#[test]
fn registration_is_read_back_beside_a_value_that_ends_in_a_carriage_return() {
    let text = add_artifact("n".to_string(), "v".to_string(), Some("old:x\r\r\nn:w\r")).unwrap();
    assert_eq!(text, "old:x\r\nn:v\n");
    assert_eq!(get_artifact(&"n".to_string(), Some(&text)).unwrap(), Some("v".to_string()));
    let records = read_artifacts_file(Some(&text)).unwrap();
    assert_eq!(records, vec![pair("old", "x"), pair("n", "v")]);
}

#[test]
fn value_that_ends_in_a_carriage_return_is_read_back_without_it() {
    let text = add_artifact("n".to_string(), "v\r".to_string(), None).unwrap();
    assert_eq!(get_artifact(&"n".to_string(), Some(&text)).unwrap(), Some("v".to_string()));
}
