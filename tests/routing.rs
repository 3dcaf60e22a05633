use framework::{
    bad_request, forbidden, hello_world, internal_server_error, no_content,
    not_found, status_code_response, text_response, unauthorized, Body, Response, Router,
};

type Handler = fn(()) -> Response;

fn respond(status_code: i64) -> Response {
    Response { status_code, body: None }
}

fn returns_500(_: ()) -> Response {
    respond(500)
}

fn returns_1(_: ()) -> Response {
    respond(1)
}

fn returns_2(_: ()) -> Response {
    respond(2)
}

fn returns_600(_: ()) -> Response {
    respond(600)
}

fn greet(_: ()) -> Response {
    hello_world()
}

#[test]
fn test_route() {
    let router = Router::new().register("/".to_string(), returns_500 as Handler);
    let output = router.invoke("/", ());
    assert_eq!(output.status_code, 500);
}

#[test]
fn test_multiple_route() {
    let router = Router::new()
        .register("/1".to_string(), returns_1 as Handler)
        .register("/2".to_string(), returns_2 as Handler);
    let output_1 = router.invoke("/1", ());
    let output_2 = router.invoke("/2", ());
    assert_eq!(output_1.status_code, 1);
    assert_eq!(output_2.status_code, 2);
}

#[test]
fn test_not_found() {
    let router: Router<Handler> = Router::new();
    let output = router.invoke("/", ());
    assert_eq!(output.status_code, 404);
}

#[test]
fn test_route_template() {
    let router = Router::new().register("/:id".to_string(), returns_600 as Handler);
    let output = router.invoke("/value", ());
    assert_eq!(output.status_code, 600);
}

#[test]
fn hello_world_route_answers_the_greeting() {
    let router = Router::new().register("/hello_world".to_string(), greet as Handler);
    let output = router.invoke("/hello_world", ());
    assert_eq!(
        output,
        Response {
            status_code: 200,
            body: Some(Body::Text("{\"message\":\"from service_a\"}".to_string())),
        }
    );
}

#[test]
fn no_matching_route_is_not_found() {
    let router = Router::new().register("/a".to_string(), returns_1 as Handler);
    assert_eq!(router.invoke("/b", ()), not_found());
    assert_eq!(router.route("/b"), None);
}

#[test]
fn earlier_registration_serves_first() {
    let router = Router::new()
        .register("/:id".to_string(), returns_1 as Handler)
        .register("/value".to_string(), returns_2 as Handler);
    assert_eq!(router.route("/value"), Some(0));
    for _ in 0..3 {
        assert_eq!(router.invoke("/value", ()).status_code, 1);
    }
}

#[test]
fn registering_a_template_again_replaces_its_handler() {
    let router = Router::new()
        .register("/x".to_string(), returns_1 as Handler)
        .register("/y".to_string(), returns_500 as Handler)
        .register("/x".to_string(), returns_2 as Handler);
    assert_eq!(router.invoke("/x", ()).status_code, 2);
    assert_eq!(router.route("/x"), Some(0));
    assert_eq!(router.route("/y"), Some(1));
}

#[test]
fn templates_differing_by_a_slash_are_distinct_entries() {
    let router = Router::new()
        .register("/x".to_string(), returns_1 as Handler)
        .register("/x/".to_string(), returns_2 as Handler);
    assert_eq!(router.route("/x/"), Some(0));
    assert_eq!(router.invoke("/x", ()).status_code, 1);
}

#[test]
fn handler_for_without_a_path_finds_nothing() {
    let router = Router::new().register("".to_string(), returns_1 as Handler);
    assert!(router.handler_for(None).is_none());
    let found = router.handler_for(Some("/"));
    assert_eq!(found.map(|h| h(()).status_code), Some(1));
    assert!(Router::<Handler>::new().handler_for(Some("/")).is_none());
}

#[test]
fn status_helpers_have_their_codes() {
    assert_eq!(no_content(), respond(204));
    assert_eq!(bad_request(), respond(400));
    assert_eq!(unauthorized(), respond(401));
    assert_eq!(forbidden(), respond(403));
    assert_eq!(not_found(), respond(404));
    assert_eq!(internal_server_error(), respond(500));
    assert_eq!(status_code_response(-7), respond(-7));
}

#[test]
fn text_response_carries_its_text() {
    let r = text_response(201, "plain \"text\"".to_string());
    assert_eq!(r.status_code, 201);
    assert_eq!(r.body, Some(Body::Text("plain \"text\"".to_string())));
}

#[test]
fn hello_world_is_encoded_json() {
    let r = hello_world();
    assert_eq!(r.status_code, 200);
    assert_eq!(r.body, Some(Body::Text("{\"message\":\"from service_a\"}".to_string())));
}
