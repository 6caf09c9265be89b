use epd_photoframe_server::immich::{first_asset, Asset, ImmichClient, NoAssets};

#[test]
fn trailing_slashes_are_dropped() {
    let url = |s: &str| ImmichClient::new(s.to_string(), "key".to_string()).base_url;
    assert_eq!(url("https://photos.example//"), "https://photos.example");
    assert_eq!(url("https://photos.example"), "https://photos.example");
    assert_eq!(url("///"), "");
}

#[test]
fn requests() {
    let client = ImmichClient::new("https://p.example/".to_string(), "key".to_string());
    assert_eq!(client.api_key, "key");
    assert_eq!(client.random_url(), "https://p.example/api/assets/random?count=1");
    let asset = Asset { id: "abc".to_string() };
    assert_eq!(client.original_url(&asset), "https://p.example/api/assets/abc/original");
}

#[test]
fn first_asset_is_taken() {
    let list = vec![Asset { id: "a".to_string() }, Asset { id: "b".to_string() }];
    assert_eq!(first_asset(list).unwrap().id, "a");
    assert_eq!(first_asset(Vec::new()).unwrap_err(), NoAssets);
    assert_eq!(NoAssets.message(), "Immich returned empty asset list");
}
