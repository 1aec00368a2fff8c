use lcas::download_file;
use lcas::error::ErrorKind;
use std::path::PathBuf;

#[test]
#[should_panic(
    expected = "Attempted to download from a HTTPS source, but HTTPS feature not enabled."
)]
fn test_download_fail() {
    download_file("", "a").unwrap();
}

#[test]
fn test_download_file_invalid_url() {
    let url = "https://invalid.url/doesnotexist.txt";
    let target = PathBuf::from("test_download_file_invalid_url.txt");

    let result = download_file(url, &target.to_string_lossy());
    assert!(result.is_err());
    assert!(!target.exists());
}

#[test]
fn test_download_file_invalid_path() {
    let url = "https://raw.githubusercontent.com/github/gitignore/main/Rust.gitignore";
    // Use an invalid path (directory does not exist)
    let target = PathBuf::from("/invalid_dir/test_download_file_invalid_path.txt");

    let result = download_file(url, &target.to_string_lossy());
    assert!(result.is_err_and(|x| x.kind == ErrorKind::Io));
}

#[test]
fn download_reports_the_missing_transport() {
    let error = download_file("https://example.org/x", "x").unwrap_err();
    assert_eq!(error.kind, ErrorKind::Io);
    assert_eq!(
        error.detail,
        "Attempted to download from a HTTPS source, but HTTPS feature not enabled."
    );
}

#[test]
fn download_failure_reads_as_the_sentence_alone() {
    let error = download_file("", "a").unwrap_err();
    assert_eq!(
        error.message(),
        "Attempted to download from a HTTPS source, but HTTPS feature not enabled."
    );
}
