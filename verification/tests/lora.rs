use dynamo_llm::lora::downloader::{
    uri_to_cache_key, LoRADownloader, Search, SearchAction, SearchEvent,
};
use dynamo_llm::lora::source::{
    retry_step, temp_dir_name, EntryAction, LoRAError, LocalLoRASource, RetryStep, S3Download,
    S3LoRASource,
};

#[test]
fn test_parse_file_uri() {
    let uri = "file:///path/to/lora";
    let path = LocalLoRASource::parse_file_uri(uri).unwrap();
    assert_eq!(path, "/path/to/lora");
}

#[test]
fn test_parse_file_uri_invalid() {
    let uri = "http://example.com/lora";
    assert!(LocalLoRASource::parse_file_uri(uri).is_err());
}

#[test]
fn test_parse_s3_uri() {
    let uri = "s3://my-bucket/path/to/lora";
    let location = S3LoRASource::parse_s3_uri(uri).unwrap();
    assert_eq!(location.bucket, "my-bucket");
    assert_eq!(location.key, "path/to/lora");
}

#[test]
fn test_parse_s3_uri_invalid() {
    let uri = "file:///path/to/lora";
    assert!(S3LoRASource::parse_s3_uri(uri).is_err());
}

#[test]
fn uris_that_name_no_bucket_are_refused() {
    match S3LoRASource::parse_s3_uri("no uri") {
        Err(LoRAError::NotAUri(problem)) => assert_eq!(problem, "relative URL without a base"),
        _ => panic!("expected an error"),
    }
    assert!(matches!(S3LoRASource::parse_s3_uri("s3:///key"), Err(LoRAError::NoBucket)));
    match S3LoRASource::parse_s3_uri("https://host/key") {
        Err(error) => assert_eq!(error.message(), "Invalid S3 URI scheme: https"),
        Ok(_) => panic!("expected an error"),
    }
}

#[test]
fn local_adapters_have_to_be_directories() {
    assert_eq!(
        LocalLoRASource::download("/a".to_string(), true, true).unwrap(),
        "/a"
    );
    assert_eq!(
        LocalLoRASource::download("/a".to_string(), false, false).unwrap_err().message(),
        "LoRA path does not exist: /a"
    );
    assert_eq!(
        LocalLoRASource::download("/a".to_string(), true, false).unwrap_err().message(),
        "LoRA path is not a directory: /a"
    );
}

#[test]
fn settings_have_to_hold_both_keys() {
    let key = || Some("key".to_string());
    let source = S3LoRASource::from_settings(key(), key(), None, None).unwrap();
    assert_eq!(source.region, "us-east-1");
    assert_eq!(
        S3LoRASource::from_settings(None, None, None, None).unwrap_err().message(),
        "AWS_ACCESS_KEY_ID not set"
    );
    assert_eq!(
        S3LoRASource::from_settings(key(), None, None, None).unwrap_err().message(),
        "AWS_SECRET_ACCESS_KEY not set"
    );
}

#[test]
fn downloads_are_tried_three_times() {
    assert_eq!(retry_step(1), RetryStep::Wait(1000));
    assert_eq!(retry_step(2), RetryStep::Wait(2000));
    assert_eq!(retry_step(3), RetryStep::GiveUp);
}

#[test]
fn a_download_needs_at_least_one_file() {
    let mut download = S3Download::new();
    assert!(matches!(S3Download::on_entry("a/b", "a/b"), EntryAction::Skip));
    match S3Download::on_entry("a/b/c/d", "a/b") {
        EntryAction::Fetch(path) => assert_eq!(path, "c/d"),
        EntryAction::Skip => panic!("expected a file"),
    }
    assert_eq!(
        download.on_end("s3://a/b").unwrap_err().message(),
        "No files found at S3 URI: s3://a/b"
    );
    download.on_written();
    assert!(download.on_end("s3://a/b").is_ok());
    assert_eq!(temp_dir_name("lora", 17), "lora.tmp.17");
}

#[test]
fn cache_keys_are_one_name() {
    assert_eq!(uri_to_cache_key("s3://bucket/path/to\\lora"), "s3_bucket_path_to_lora");
    assert_eq!(uri_to_cache_key(":://x"), ":_x");
}

#[test]
fn local_adapters_are_used_where_they_are() {
    let downloader = LoRADownloader::new(vec!["first", "second"]);
    let begin = Search { local: false, source: 0 };
    let uri = "file:///lora";
    let (search, action) = downloader.next_action(begin, SearchEvent::Begin, uri);
    assert!(search.local);
    assert!(matches!(action, SearchAction::Ask(0)));
    let (search, action) = downloader.next_action(search, SearchEvent::Asked(None), uri);
    assert!(matches!(action, SearchAction::Ask(1)));
    let (search, action) = downloader.next_action(search, SearchEvent::Asked(Some(true)), uri);
    assert!(matches!(action, SearchAction::Download(1)));
    let (_, action) = downloader.next_action(search, SearchEvent::Downloaded(Ok(())), uri);
    assert!(matches!(action, SearchAction::UseDownloaded));
}

#[test]
fn remote_adapters_are_looked_for_in_the_cache_first() {
    let downloader = LoRADownloader::new(vec!["only"]);
    let begin = Search { local: false, source: 0 };
    let uri = "s3://b/lora";
    let (search, action) = downloader.next_action(begin, SearchEvent::Begin, uri);
    assert!(matches!(action, SearchAction::CheckCache));
    let (_, action) = downloader.next_action(search, SearchEvent::CacheChecked(Ok(true)), uri);
    assert!(matches!(action, SearchAction::UseCached));
    let (search, action) = downloader.next_action(search, SearchEvent::CacheChecked(Ok(false)), uri);
    assert!(matches!(action, SearchAction::Ask(0)));
    let (search, action) = downloader.next_action(search, SearchEvent::Asked(Some(true)), uri);
    assert!(matches!(action, SearchAction::Download(0)));
    let (search, action) = downloader.next_action(search, SearchEvent::Downloaded(Ok(())), uri);
    assert!(matches!(action, SearchAction::Validate));
    let (_, action) = downloader.next_action(search, SearchEvent::Validated(Ok(false)), uri);
    match action {
        SearchAction::Fail(message) => {
            assert_eq!(message, "LoRA s3://b/lora not found in any source")
        }
        _ => panic!("expected a failure"),
    }
}
