use guestbook::error::Failure;

#[test]
fn duplicate_nick_maps_to_bad_request() {
    let response = Failure::DuplicateNick {
        message: "UNIQUE constraint failed: visitor.nick".to_owned(),
    }
    .into_response();
    assert_eq!(response.status, 400);
    assert_eq!(response.error, "UNIQUE constraint failed: visitor.nick");
}

#[test]
fn too_many_requests_maps_to_fixed_message() {
    let response = Failure::TooManyRequests.into_response();
    assert_eq!(response.status, 429);
    assert_eq!(response.error, "too many requests");
}

#[test]
fn unauthorized_maps_to_empty_body() {
    let response = Failure::Unauthorized.into_response();
    assert_eq!(response.status, 401);
    assert_eq!(response.error, "");
}

#[test]
fn other_store_failures_map_to_server_error() {
    let response = Failure::Store { message: "disk full".to_owned() }.into_response();
    assert_eq!(response.status, 500);
    assert_eq!(response.error, "disk full");
}
