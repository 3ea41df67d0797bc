use rnagent::s3::extract_s3_key;
use rnagent::s3::make_upload_key;
use rnagent::s3::upload_key;

#[test]
fn key_extraction() {
    assert_eq!(
        extract_s3_key(
            "https://bucket.s3.eu-west-1.amazonaws.com/images/2024-01-01/abc.png?X-Amz-Expires=1"
        ),
        Some("images/2024-01-01/abc.png".to_string())
    );
    assert_eq!(
        extract_s3_key("https://bucket.s3.amazonaws.com/plain/key"),
        Some("plain/key".to_string())
    );
    assert_eq!(extract_s3_key("https://example.com/no-bucket"), None);
    // What follows a second marker is not part of the key.
    assert_eq!(
        extract_s3_key("https://a.amazonaws.com/k1.amazonaws.com/k2"),
        Some("k1".to_string())
    );
}

#[test]
fn upload_key_format() {
    assert_eq!(
        upload_key("2024-06-30", "0000-id", "png"),
        "images/2024-06-30/0000-id.png"
    );
}

#[test]
fn fresh_upload_keys() {
    let key = make_upload_key("Photo.PNG");
    assert!(key.starts_with("images/"));
    assert!(key.ends_with(".png"));
    // images/ + YYYY-MM-DD + / + 36-character identifier + .png
    assert_eq!(key.len(), 7 + 10 + 1 + 36 + 4);
    // The identifier part is fresh each time.
    let key2 = make_upload_key("Photo.PNG");
    assert_ne!(key, key2);

    let key = make_upload_key("archive");
    assert!(key.ends_with(".archive"));
}
