use url_shorter::errors::ShortenError;
use url_shorter::models::Url;

#[test]
fn try_create_correct_url() {
    assert!(Url::new("http://hello-world.com/here", 1).is_ok());
}

#[test]
fn try_to_create_incorrect_url() {
    assert!(Url::new("htt/2131231231dfd", 1).is_err());
}

#[test]
fn created_record_fields() {
    let record = Url::new("http://example.com", 5).unwrap();
    assert_eq!(record.id, 5);
    assert_eq!(record.url, "http://example.com");
    assert_eq!(record.short_url, "5");
}

#[test]
fn record_code_follows_identifier() {
    let record = Url::new("http://example.com", 36).unwrap();
    assert_eq!(record.short_url, "10");
}

#[test]
fn rejected_url_reports_invalid_url() {
    assert_eq!(
        Url::new("not a url", 1).err(),
        Some(ShortenError::InvalidUrl)
    );
}
