use url_shorter::errors::StoreError;
use url_shorter::models::Url;
use url_shorter::store::Database;

#[test]
fn startup_database() {
    let _ = Database::new();
}

#[test]
fn save_url_into_database() {
    let mut database = Database::new();
    database
        .save_shorter_url(Url::new("http://hello-world", 1).unwrap())
        .unwrap();
}

#[test]
fn saved_record_is_immediately_visible() {
    let mut database = Database::new();
    let record = Url::new("http://hello-world", 1).unwrap();
    let code = record.short_url.clone();
    database.save_shorter_url(record).unwrap();
    let found = database.find_by_code(&code).unwrap().unwrap();
    assert_eq!(found.id, 1);
    assert_eq!(found.url, "http://hello-world");
}

#[test]
fn duplicate_identifier_is_a_conflict() {
    let mut database = Database::new();
    database
        .save_shorter_url(Url::new("http://one.example", 1).unwrap())
        .unwrap();
    let result = database.save_shorter_url(Url::new("http://two.example", 1).unwrap());
    assert_eq!(result, Err(StoreError::Conflict));
    assert_eq!(database.len(), 1);
}

#[test]
fn get_origin_url_finds_saved_mapping() {
    let mut database = Database::new();
    database
        .save_shorter_url(Url::new("http://one.example", 1).unwrap())
        .unwrap();
    assert_eq!(database.get_origin_url("1").unwrap(), "http://one.example");
}

#[test]
fn get_origin_url_reports_missing_code() {
    let database = Database::new();
    assert_eq!(database.get_origin_url("1"), Err(StoreError::NotFound));
}

#[test]
fn max_id_tracks_greatest_identifier() {
    let mut database = Database::new();
    assert_eq!(database.max_id(), Ok(None));
    database
        .save_shorter_url(Url::new("http://one.example", 7).unwrap())
        .unwrap();
    database
        .save_shorter_url(Url::new("http://two.example", 3).unwrap())
        .unwrap();
    assert_eq!(database.max_id(), Ok(Some(7)));
}
