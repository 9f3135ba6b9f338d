use planet_tiles::generation::world::World;
use planet_tiles::server::{
    content_header, content_type_for_file, default_header, default_response, dispatch,
    error_response, get_content_type, get_position, handle_get_world, handle_out, requested_file,
    root_components, route_for, static_response, text_response, tile_response, world_response,
    Dispatch, MapPos, Route,
};
use planet_tiles::worlds::{store_world, WorldRegistry};

fn texts(items: &[&str]) -> Vec<String> {
    items.iter().map(|item| item.to_string()).collect()
}

fn plain_head() -> Vec<u8> {
    b"HTTP/1.1 200 OK\r\nAccess-Control-Allow-Origin: *\r\nContent-Type: text/plain; charset=UTF-8\r\n\r\n"
        .to_vec()
}

fn json_head() -> Vec<u8> {
    b"HTTP/1.1 200 OK\r\nAccess-Control-Allow-Origin: *\r\nContent-Type: text/json; charset=UTF-8\r\n\r\n"
        .to_vec()
}

fn with_body(mut head: Vec<u8>, body: &str) -> Vec<u8> {
    head.extend_from_slice(body.as_bytes());
    head
}

fn origin() -> MapPos {
    MapPos { x: "0".to_string(), y: "0".to_string(), z: 0 }
}

#[test]
fn content_types_by_extension() {
    assert_eq!(get_content_type("html"), "text/html");
    assert_eq!(get_content_type("js"), "text/javascript");
    assert_eq!(get_content_type("css"), "text/css");
    assert_eq!(get_content_type("png"), "image/png");
    assert_eq!(get_content_type("jpg"), "image/jpeg");
    assert_eq!(get_content_type("json"), "text/json");
}

#[test]
fn unknown_extensions_are_plain_text() {
    assert_eq!(get_content_type(""), "text/plain");
    assert_eq!(get_content_type("HTML"), "text/plain");
    assert_eq!(get_content_type("jpeg"), "text/plain");
    assert_eq!(get_content_type("min.js"), "text/plain");
    assert_eq!(get_content_type(".js"), "text/plain");
}

#[test]
fn content_types_by_file_name() {
    assert_eq!(content_type_for_file("client.html"), "text/html");
    assert_eq!(content_type_for_file("map.png"), "image/png");
    assert_eq!(content_type_for_file("README"), "text/plain");
    assert_eq!(content_type_for_file("a.min.js"), "text/plain");
    assert_eq!(content_type_for_file(".css"), "text/css");
    assert_eq!(content_type_for_file("style."), "text/plain");
    assert_eq!(content_type_for_file(""), "text/plain");
}

#[test]
fn the_content_header_names_the_type() {
    assert_eq!(
        content_header("text/html"),
        b"HTTP/1.1 200 OK\r\nAccess-Control-Allow-Origin: *\r\nContent-Type: text/html; charset=UTF-8\r\n\r\n"
            .to_vec()
    );
    assert_eq!(default_header(), plain_head());
    assert_eq!(content_header("text/plain"), default_header());
}

#[test]
fn a_text_response_is_head_then_text() {
    assert_eq!(text_response("No such file"), with_body(plain_head(), "No such file"));
    assert_eq!(text_response("grüß"), with_body(plain_head(), "grüß"));
    assert_eq!(text_response(""), plain_head());
}

#[test]
fn an_error_response_is_a_json_object() {
    assert_eq!(
        error_response("Could not find world"),
        with_body(json_head(), "{\"error\":\"Could not find world\"}")
    );
}

#[test]
fn an_error_message_is_escaped() {
    assert_eq!(
        error_response("bad \"id\" \\ here"),
        with_body(json_head(), "{\"error\":\"bad \\\"id\\\" \\\\ here\"}")
    );
    assert_eq!(
        error_response("a\tb\nc\rd\u{8}e\u{c}f"),
        with_body(json_head(), "{\"error\":\"a\\tb\\nc\\rd\\be\\ff\"}")
    );
    assert_eq!(
        error_response("\u{0}\u{1}\u{1f}\u{7f} é/"),
        with_body(json_head(), "{\"error\":\"\\u0000\\u0001\\u001f\u{7f} é/\"}")
    );
    assert_eq!(error_response(""), with_body(json_head(), "{\"error\":\"\"}"));
}

#[test]
fn an_error_response_reads_back() {
    let message = "line one\nline \"two\"";
    let response = error_response(message);
    let body = std::str::from_utf8(&response[json_head().len()..]).unwrap();
    let parsed = json::parse(body).unwrap();
    assert_eq!(parsed["error"].as_str(), Some(message));
}

#[test]
fn a_world_response_is_its_json_as_plain_text() {
    let world = World {
        name: "Earth".to_string(),
        id: 42,
        seed: "abc".to_string(),
        sea_level: "1.5".to_string(),
        temperature: "2".to_string(),
        humidity: "3".to_string(),
    };
    assert_eq!(
        world_response(&world),
        with_body(
            plain_head(),
            "{\"name\":\"Earth\",\"id\":\"42\",\"seed\":\"abc\",\"sea_level\":\"1.5\",\"temperature\":\"2\",\"humidity\":\"3\"}"
        )
    );
}

#[test]
fn the_default_response_is_a_small_page() {
    assert_eq!(
        default_response(),
        b"HTTP/1.1 200 OK\r\nContent-Type: text/html; charset=UTF-8\r\n\r\n<html><body>Unable to complete request</body></html>\r\n"
            .to_vec()
    );
}

#[test]
fn routes_by_the_first_component() {
    assert_eq!(route_for(&texts(&["new"])), Route::NewWorld);
    assert_eq!(route_for(&texts(&["tiles", "1", "2", "3"])), Route::Tiles);
    assert_eq!(route_for(&texts(&["client", "client.js"])), Route::Static);
    assert_eq!(route_for(&texts(&["get", "17"])), Route::GetWorld);
    assert_eq!(route_for(&texts(&["new", "extra", "parts"])), Route::NewWorld);
}

#[test]
fn the_root_and_a_world_number_lead_to_the_client() {
    assert_eq!(route_for(&Vec::new()), Route::Root);
    assert_eq!(route_for(&texts(&["12345"])), Route::Root);
    assert_eq!(route_for(&texts(&["+7"])), Route::Root);
    assert_eq!(route_for(&texts(&["18446744073709551615"])), Route::Root);
}

#[test]
fn other_paths_are_unknown() {
    assert_eq!(route_for(&texts(&["favicon.ico"])), Route::Unknown);
    assert_eq!(route_for(&texts(&["12345", "more"])), Route::Unknown);
    assert_eq!(route_for(&texts(&["18446744073709551616"])), Route::Unknown);
    assert_eq!(route_for(&texts(&["-1"])), Route::Unknown);
    assert_eq!(route_for(&texts(&["New"])), Route::Unknown);
    assert_eq!(route_for(&texts(&["tiles2"])), Route::Unknown);
}

#[test]
fn a_request_is_taken_apart() {
    let request = "POST /new HTTP/1.1\r\nHost: x\r\n\r\n{\"name\":\"a\"}".to_string();
    assert_eq!(
        handle_out(&request),
        Dispatch {
            route: Route::NewWorld,
            path_components: texts(&["new"]),
            body: Some("{\"name\":\"a\"}".to_string()),
        }
    );
    let tiles = "GET /tiles/3/1.5/2 HTTP/1.1\r\n\r\n".to_string();
    assert_eq!(
        handle_out(&tiles),
        Dispatch {
            route: Route::Tiles,
            path_components: texts(&["tiles", "3", "1.5", "2"]),
            body: Some("".to_string()),
        }
    );
}

#[test]
fn a_request_without_a_path_cannot_be_served() {
    let expected = Dispatch { route: Route::Unknown, path_components: Vec::new(), body: None };
    assert_eq!(handle_out(&"".to_string()), expected);
    assert_eq!(handle_out(&"garbage\r\n\r\nbody".to_string()), expected);
    assert_eq!(dispatch(None, &"GET / HTTP/1.1\r\n\r\nbody".to_string()), expected);
}

#[test]
fn a_path_is_dispatched_by_its_components() {
    let request = "ignored\r\n\r\nthe body".to_string();
    assert_eq!(
        dispatch(Some("/get/5".to_string()), &request),
        Dispatch {
            route: Route::GetWorld,
            path_components: texts(&["get", "5"]),
            body: Some("the body".to_string()),
        }
    );
    assert_eq!(
        dispatch(Some("/".to_string()), &"no empty line".to_string()),
        Dispatch { route: Route::Root, path_components: Vec::new(), body: None }
    );
}

#[test]
fn a_tile_address_is_read_from_the_last_three_components() {
    assert_eq!(
        get_position(&texts(&["tiles", "3", "1", "2"])),
        MapPos { x: "1".to_string(), y: "2".to_string(), z: 3 }
    );
    assert_eq!(
        get_position(&texts(&["a", "b", "tiles", "7", "1.5", "-2.25e1"])),
        MapPos { x: "1.5".to_string(), y: "-2.25e1".to_string(), z: 7 }
    );
    assert_eq!(
        get_position(&texts(&["0", "0", "0"])),
        MapPos { x: "0".to_string(), y: "0".to_string(), z: 0 }
    );
    assert_eq!(
        get_position(&texts(&["4294967295", "inf", "NaN"])),
        MapPos { x: "inf".to_string(), y: "NaN".to_string(), z: 4294967295 }
    );
}

#[test]
fn a_short_path_names_the_origin() {
    assert_eq!(get_position(&Vec::new()), origin());
    assert_eq!(get_position(&texts(&["tiles"])), origin());
    assert_eq!(get_position(&texts(&["1", "2"])), origin());
    assert_eq!(get_position(&texts(&["tiles", "5"])), origin());
}

#[test]
fn an_address_that_cannot_be_read_names_the_origin() {
    assert_eq!(get_position(&texts(&["tiles", "x", "1", "2"])), origin());
    assert_eq!(get_position(&texts(&["tiles", "3", "one", "2"])), origin());
    assert_eq!(get_position(&texts(&["tiles", "3", "1", ""])), origin());
    assert_eq!(get_position(&texts(&["tiles", "3.0", "1", "2"])), origin());
    assert_eq!(get_position(&texts(&["tiles", "-3", "1", "2"])), origin());
    assert_eq!(get_position(&texts(&["tiles", "4294967296", "1", "2"])), origin());
    assert_eq!(get_position(&texts(&["tiles", "3", "1", "2", "png"])), origin());
    assert_eq!(get_position(&texts(&["a", "b", "c"])), get_position(&texts(&["0", "0", "0"])));
}

#[test]
fn a_world_that_exists_is_looked_up() {
    let mut registry = WorldRegistry::new();
    let world = World {
        name: "Earth".to_string(),
        id: 42,
        seed: "abc".to_string(),
        sea_level: "1".to_string(),
        temperature: "2".to_string(),
        humidity: "3".to_string(),
    };
    store_world(&mut registry, world.clone());
    assert_eq!(handle_get_world(&registry, &texts(&["get", "42"])), world_response(&world));
    assert_eq!(handle_get_world(&registry, &texts(&["get", "+042", "more"])), world_response(&world));
}

#[test]
fn a_lookup_says_what_went_wrong() {
    let mut registry = WorldRegistry::new();
    let world = World {
        name: "Earth".to_string(),
        id: 42,
        seed: "abc".to_string(),
        sea_level: "1".to_string(),
        temperature: "2".to_string(),
        humidity: "3".to_string(),
    };
    store_world(&mut registry, world);
    assert_eq!(
        handle_get_world(&registry, &texts(&["get"])),
        with_body(json_head(), "{\"error\":\"No ID found in URL\"}")
    );
    assert_eq!(
        handle_get_world(&registry, &Vec::new()),
        with_body(json_head(), "{\"error\":\"No ID found in URL\"}")
    );
    assert_eq!(
        handle_get_world(&registry, &texts(&["get", "forty-two"])),
        with_body(json_head(), "{\"error\":\"Could not parse ID\"}")
    );
    assert_eq!(
        handle_get_world(&registry, &texts(&["get", "18446744073709551616"])),
        with_body(json_head(), "{\"error\":\"Could not parse ID\"}")
    );
    assert_eq!(
        handle_get_world(&registry, &texts(&["get", "43"])),
        with_body(json_head(), "{\"error\":\"Could not find world\"}")
    );
    assert_eq!(
        handle_get_world(&registry, &texts(&["get", "0"])),
        with_body(json_head(), "{\"error\":\"Could not find world\"}")
    );
}

#[test]
fn a_tile_response_is_image_head_then_image() {
    let mut expected =
        b"HTTP/1.1 200 OK\r\nContent-type: image/png\r\nTransfer-Encoding: identity\r\n\r\n".to_vec();
    expected.extend_from_slice(&[7, 8, 9]);
    assert_eq!(tile_response(vec![7, 8, 9]), expected);
}

#[test]
fn the_requested_file_is_the_second_component() {
    assert_eq!(requested_file(&texts(&["client", "client.js"])), Some("client.js".to_string()));
    assert_eq!(requested_file(&texts(&["client", "a", "b"])), Some("a".to_string()));
    assert_eq!(requested_file(&texts(&["client"])), None);
    assert_eq!(requested_file(&Vec::new()), None);
}

#[test]
fn the_root_is_the_page_of_the_client() {
    assert_eq!(root_components(), texts(&["client", "client.html"]));
    assert_eq!(requested_file(&root_components()), Some("client.html".to_string()));
}

#[test]
fn a_static_response_is_typed_by_the_file_name() {
    let mut expected = content_header("text/css");
    expected.extend_from_slice(b"body {}");
    assert_eq!(static_response("style.css", b"body {}".to_vec()), expected);
    let mut plain = plain_head();
    plain.extend_from_slice(&[0, 255]);
    assert_eq!(static_response("data", vec![0, 255]), plain);
}
