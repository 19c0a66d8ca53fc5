use url_shorter::errors::{ResolveError, ShortenError};
use url_shorter::models::Url;
use url_shorter::service::ShorterController;
use url_shorter::store::Database;
use url_shorter::web::HealthController;

fn fresh_service() -> ShorterController {
    ShorterController::new(Database::new())
}

#[test]
fn first_allocation_scenario() {
    let mut service = fresh_service();
    let code = service.short_url("http://example.com/a").unwrap();
    assert_eq!(code, "1");
    assert_eq!(
        service.redirect_to_origin_url("1").unwrap(),
        "http://example.com/a"
    );
}

#[test]
fn radix_rollover_scenario() {
    let mut service = fresh_service();
    for i in 0..36 {
        let url = format!("http://example.com/page/{}", i);
        service.short_url(&url).unwrap();
    }
    let code = service.short_url("http://example.com/rollover").unwrap();
    assert_eq!(code.len(), 2);
    assert_eq!(code, "11");
}

#[test]
fn shorten_then_resolve_round_trip() {
    let mut service = fresh_service();
    let urls = [
        "http://example.com/a",
        "https://example.org/b?q=1",
        "ftp://files.example.net/c",
    ];
    let mut codes = Vec::new();
    for url in urls {
        codes.push(service.short_url(url).unwrap());
    }
    for (code, url) in codes.iter().zip(urls.iter()) {
        assert_eq!(&service.redirect_to_origin_url(code).unwrap(), url);
    }
}

#[test]
fn distinct_urls_get_distinct_codes() {
    let mut service = fresh_service();
    let mut codes: Vec<String> = Vec::new();
    for i in 0..100 {
        let url = format!("http://example.com/item/{}", i);
        codes.push(service.short_url(&url).unwrap());
    }
    for i in 0..codes.len() {
        for j in (i + 1)..codes.len() {
            assert_ne!(codes[i], codes[j]);
        }
    }
}

#[test]
fn unissued_code_is_not_found() {
    let mut service = fresh_service();
    assert_eq!(
        service.redirect_to_origin_url("zzz"),
        Err(ResolveError::NotFound)
    );
    service.short_url("http://example.com/a").unwrap();
    assert_eq!(
        service.redirect_to_origin_url("2"),
        Err(ResolveError::NotFound)
    );
    assert_eq!(
        service.redirect_to_origin_url("not a code"),
        Err(ResolveError::NotFound)
    );
}

#[test]
fn invalid_url_writes_nothing() {
    let mut service = fresh_service();
    service.short_url("http://example.com/a").unwrap();
    let before = service.mapping_count();
    assert_eq!(
        service.short_url("not a url"),
        Err(ShortenError::InvalidUrl)
    );
    assert_eq!(service.mapping_count(), before);
}

#[test]
fn restart_resumes_after_existing_identifiers() {
    // Records surviving from an earlier run of the service.
    let mut database = Database::new();
    for id in 1..=3u64 {
        let url = format!("http://example.com/old/{}", id);
        database.save_shorter_url(Url::new(&url, id).unwrap()).unwrap();
    }
    // A restarted service must not reissue identifiers 1 to 3.
    let mut service = ShorterController::new(database);
    let code = service.short_url("http://example.com/new").unwrap();
    assert_eq!(code, "4");
    assert_eq!(
        service.redirect_to_origin_url("1").unwrap(),
        "http://example.com/old/1"
    );
    assert_eq!(
        service.redirect_to_origin_url("4").unwrap(),
        "http://example.com/new"
    );
}

#[test]
fn exhausted_identifier_space_is_reported() {
    let mut database = Database::new();
    database
        .save_shorter_url(Url::new("http://example.com/last", u64::MAX).unwrap())
        .unwrap();
    let mut service = ShorterController::new(database);
    assert_eq!(
        service.short_url("http://example.com/next"),
        Err(ShortenError::AllocationExhausted)
    );
    assert_eq!(service.mapping_count(), 1);
}

#[test]
fn health_probe_is_alive() {
    let controller = HealthController {};
    let (status, body) = controller.health_controller();
    assert_eq!(status, 200);
    assert_eq!(body, "It's ALIVE!!!");
}
