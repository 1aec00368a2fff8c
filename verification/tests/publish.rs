use lcas::publish::{get_temp_file, TempEntry, TempFile};

fn entry(name: &str, modified: Option<u128>) -> TempEntry {
    TempEntry { name: name.to_string(), modified }
}

fn fresh(name: &str) -> TempFile {
    TempFile { name: name.to_string(), evict: false }
}

#[test]
fn test_create_temp_file_overflow_test() {
    let mut dir: Vec<TempEntry> = Vec::new();
    let mut clock: u128 = 0;

    for _i in 0..1000 {
        let file = get_temp_file(None, &dir);
        if file.evict {
            let before = dir.len();
            dir.retain(|e| e.name != file.name);
            assert_eq!(dir.len(), before - 1);
        }
        assert!(!dir.iter().any(|e| e.name == file.name));
        clock += 1;
        dir.push(entry(&file.name, Some(clock)));
        assert!(dir.iter().any(|e| e.name == file.name));
        assert!(dir.len() <= 255);
    }
    assert_eq!(dir.len(), 255);
}

#[test]
fn test_get_temp_file_returns_unique_names() {
    let mut dir: Vec<TempEntry> = Vec::new();
    let file1 = get_temp_file(None, &dir);
    dir.push(entry(&file1.name, Some(1)));
    let file2 = get_temp_file(None, &dir);
    assert_ne!(file1, file2);
    assert_eq!(file1, fresh(".tmp_0"));
    assert_eq!(file2, fresh(".tmp_1"));
}

#[test]
fn first_free_number_is_taken() {
    let dir = vec![
        entry(".tmp_0", Some(5)),
        entry(".tmp_1", Some(6)),
        entry(".tmp_3", Some(7)),
        entry("tool", Some(1)),
    ];
    assert_eq!(get_temp_file(None, &dir), fresh(".tmp_2"));
    assert_eq!(get_temp_file(Some(0), &dir), fresh(".tmp_2"));
    assert_eq!(get_temp_file(Some(3), &dir), fresh(".tmp_4"));
    assert_eq!(get_temp_file(Some(200), &dir), fresh(".tmp_200"));
}

fn full_dir() -> Vec<TempEntry> {
    (0..255u128)
        .map(|k| entry(&format!(".tmp_{k}"), Some(1000 + k)))
        .collect()
}

#[test]
fn full_range_evicts_the_oldest() {
    let mut dir = full_dir();
    dir[17].modified = Some(3);
    dir.push(entry("tool", Some(1)));
    dir.push(entry(".tmpx", Some(0)));
    assert_eq!(
        get_temp_file(None, &dir),
        TempFile { name: ".tmp_17".to_string(), evict: true }
    );
}

#[test]
fn unknown_time_counts_as_oldest() {
    let mut dir = full_dir();
    dir[17].modified = Some(3);
    dir[40].modified = None;
    dir[90].modified = None;
    assert_eq!(
        get_temp_file(None, &dir),
        TempFile { name: ".tmp_40".to_string(), evict: true }
    );
}

#[test]
fn first_of_equally_old_is_evicted() {
    let mut dir = full_dir();
    dir[200].modified = Some(3);
    dir[100].modified = Some(3);
    assert_eq!(
        get_temp_file(None, &dir),
        TempFile { name: ".tmp_100".to_string(), evict: true }
    );
}

#[test]
fn any_temporary_entry_can_be_evicted() {
    let mut dir = full_dir();
    dir.push(entry(".tmp_leftover", Some(2)));
    assert_eq!(
        get_temp_file(None, &dir),
        TempFile { name: ".tmp_leftover".to_string(), evict: true }
    );
}

#[test]
fn last_number_is_never_tried() {
    let dir = vec![entry(".tmp_254", Some(9)), entry(".tmp_7", Some(4))];
    assert_eq!(get_temp_file(Some(254), &dir), TempFile { name: ".tmp_7".to_string(), evict: true });
    assert_eq!(get_temp_file(Some(255), &dir), TempFile { name: ".tmp_7".to_string(), evict: true });
    assert_eq!(get_temp_file(Some(253), &dir), fresh(".tmp_253"));
}

#[test]
fn nothing_to_evict_gives_the_last_name() {
    let dir = vec![entry("tool", Some(9))];
    assert_eq!(get_temp_file(Some(255), &dir), fresh(".tmp_255"));
    assert_eq!(get_temp_file(Some(255), &Vec::new()), fresh(".tmp_255"));
}
