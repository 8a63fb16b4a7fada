use ctxone_hub::lens::{lens_route, LensRoute};

#[test]
fn unknown_api_path_is_a_json_not_found() {
    match lens_route("/api/nope") {
        LensRoute::ApiNotFound { body } => {
            assert_eq!(body, r#"{"error":"not found","path":"/api/nope"}"#);
        }
        _ => panic!("expected an API 404"),
    }
}

#[test]
fn page_paths_try_the_file_then_its_index_then_the_root() {
    match lens_route("//sessions/") {
        LensRoute::Asset { candidates, cache_control } => {
            assert_eq!(candidates, vec!["sessions/".to_string(), "sessions/index.html".to_string(), "index.html".to_string()]);
            assert_eq!(cache_control, "no-cache");
        }
        _ => panic!("expected an asset"),
    }
    match lens_route("/") {
        LensRoute::Asset { candidates, .. } => {
            assert_eq!(candidates, vec!["".to_string(), "/index.html".to_string(), "index.html".to_string()]);
        }
        _ => panic!("expected an asset"),
    }
}

#[test]
fn immutable_assets_are_cached_for_a_year() {
    match lens_route("/_app/immutable/chunk.js") {
        LensRoute::Asset { candidates, cache_control } => {
            assert_eq!(candidates[0], "_app/immutable/chunk.js");
            assert_eq!(cache_control, "public, max-age=31536000, immutable");
        }
        _ => panic!("expected an asset"),
    }
    // `/api` without the trailing slash is a page path.
    assert!(matches!(lens_route("/api"), LensRoute::Asset { .. }));
}
