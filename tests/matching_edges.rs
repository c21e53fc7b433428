use route_path::parameters::RouteParameters;
use route_path::path::{capture_route_parameter, Path};

#[test]
fn literal_pattern_matches_only_its_own_text() {
    let path = Path::new("/foo/bar");
    assert_eq!(path.matches("/foo/bar").unwrap().len(), 0);
    assert!(path.matches("/foo/baz").is_none());
    assert!(path.matches("/foo/ba").is_none());
    assert!(path.matches("/foo/barr").is_none());
    assert!(path.matches("foo/bar").is_none());
    assert!(path.matches("").is_none());
}

#[test]
fn empty_pattern_matches_only_empty_path() {
    let path = Path::new("");
    assert!(path.matches("").unwrap().is_empty());
    assert!(path.matches("/").is_none());
}

#[test]
fn single_parameter_in_the_middle_captures_its_segment() {
    let path = Path::new("/a/:x/c");
    let params = path.matches("/a/some-long-segment-value-0123456789/c").unwrap();
    assert_eq!(params.len(), 1);
    assert_eq!(
        params.get("x").unwrap(),
        &"some-long-segment-value-0123456789".to_string()
    );
    assert!(path.matches("/a/b/d").is_none());
    assert!(path.matches("/b/b/c").is_none());
}

#[test]
fn segment_count_mismatch_gives_none() {
    let path = Path::new("/files/:path");
    assert!(path.matches("/files").is_none());
    assert!(path.matches("/files/a/b").is_none());
    assert!(path.matches("/files/a/").is_none());
    let all = Path::new("/:one/:two/:three");
    assert!(all.matches("/a/b/c/d/e/f/g").is_none());
}

#[test]
fn parameters_bind_to_their_own_segments() {
    let path = Path::new("/users/:user_id/friend/:friend_id/group/:group_id");
    let params = path.matches("/users/1/friend/2/group/77").unwrap();
    assert_eq!(params.len(), 3);
    assert_eq!(params.get("user_id").unwrap(), "1");
    assert_eq!(params.get("friend_id").unwrap(), "2");
    assert_eq!(params.get("group_id").unwrap(), "77");
    assert!(params.get("users").is_none());
}

#[test]
fn all_parameter_pattern_scenario() {
    let path = Path::new("/:one/:two/:three");
    let params = path.matches("/hello/howdie/hey").unwrap();
    assert_eq!(params.len(), 3);
    assert_eq!(params.get("one").unwrap(), "hello");
    assert_eq!(params.get("two").unwrap(), "howdie");
    assert_eq!(params.get("three").unwrap(), "hey");
    assert!(path.matches("/hello").is_none());
    assert!(path.matches("/hello/hello").is_none());
}

#[test]
fn capture_leaves_cursors_at_the_separator() {
    let mut route = "id/friends/:other_id".chars();
    let mut url = "123/friends/555".chars();
    let (key, value) = capture_route_parameter(&mut route, &mut url);
    assert_eq!(key, "id");
    assert_eq!(value, "123");
    assert_eq!(route.as_str(), "/friends/:other_id");
    assert_eq!(url.as_str(), "/friends/555");
}

#[test]
fn capture_runs_to_the_end_without_separator() {
    let mut route = "name".chars();
    let mut url = "".chars();
    let (key, value) = capture_route_parameter(&mut route, &mut url);
    assert_eq!(key, "name");
    assert_eq!(value, "");
    assert_eq!(route.as_str(), "");
}

#[test]
fn empty_parameter_name_is_accepted() {
    let path = Path::new("/:/x");
    let params = path.matches("/v/x").unwrap();
    assert_eq!(params.get("").unwrap(), "v");
}

#[test]
fn empty_segment_is_captured_as_empty_value() {
    let path = Path::new("/a/:x/b");
    let params = path.matches("/a//b").unwrap();
    assert_eq!(params.get("x").unwrap(), "");
    let last = Path::new("/a/:x");
    assert_eq!(last.matches("/a/").unwrap().get("x").unwrap(), "");
}

#[test]
fn repeated_name_keeps_the_later_value() {
    let path = Path::new("/:a/:a");
    let params = path.matches("/1/2").unwrap();
    assert_eq!(params.len(), 1);
    assert_eq!(params.get("a").unwrap(), "2");
}

#[test]
fn marker_inside_a_segment_captures_the_rest_of_it() {
    let path = Path::new("/v:id/x");
    let params = path.matches("/v42/x").unwrap();
    assert_eq!(params.get("id").unwrap(), "42");
    assert!(path.matches("/w42/x").is_none());
}

#[test]
fn non_ascii_text_is_matched_by_character() {
    let path = Path::new("/café/:nom");
    let params = path.matches("/café/crème").unwrap();
    assert_eq!(params.get("nom").unwrap(), "crème");
}

#[test]
fn route_parameters_insert_get_and_replace() {
    let mut params = RouteParameters::new();
    assert!(params.is_empty());
    params.insert("a".to_string(), "1".to_string());
    params.insert("b".to_string(), "2".to_string());
    assert_eq!(params.len(), 2);
    assert_eq!(params.get("a").unwrap(), "1");
    params.insert("a".to_string(), "3".to_string());
    assert_eq!(params.len(), 2);
    assert_eq!(params.get("a").unwrap(), "3");
    assert_eq!(params.get("b").unwrap(), "2");
    assert!(params.get("c").is_none());
}

#[test]
fn paths_are_equal_when_their_patterns_are() {
    assert_eq!(Path::new("/a/:b"), Path::new("/a/:b"));
    assert_ne!(Path::new("/a/:b"), Path::new("/a/:c"));
}
