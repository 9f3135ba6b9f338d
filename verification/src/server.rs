//! Routing a request and writing the responses.

use vstd::prelude::*;
use vstd::string::{StrSliceExecFns, StringExecFns};
use vstd::utf8::encode_utf8;
use crate::generation::world::{world_json, World, WorldView};
use crate::images::{image_header_text, image_response};
use crate::parser::{
    body_of, get_body, get_path, get_path_components, path_components, request_path, text_view,
};
use crate::text::{
    chars_of, decimal_value, digits_end, find_char, is_float, is_float_text, is_number_at,
    is_unsigned_text, json_quoted, json_string, parse_u32, parse_u64, position_of, same_text,
    text_between, unsigned_digits, unsigned_value,
};
use crate::worlds::{get_world_for_id, WorldRegistry};

verus! {

/// The content type that goes with a file extension.
pub open spec fn content_type_of(extension: Seq<char>) -> Seq<char> {
    if extension == "html"@ {
        "text/html"@
    } else if extension == "js"@ {
        "text/javascript"@
    } else if extension == "css"@ {
        "text/css"@
    } else if extension == "png"@ {
        "image/png"@
    } else if extension == "jpg"@ {
        "image/jpeg"@
    } else if extension == "json"@ {
        "text/json"@
    } else {
        "text/plain"@
    }
}

/// The content type that goes with a file extension; plain text for an
/// extension that is not known.
pub fn get_content_type(extension: &str) -> (out: &'static str)
    ensures
        out@ == content_type_of(extension@),
{
    if same_text(extension, "html") {
        "text/html"
    } else if same_text(extension, "js") {
        "text/javascript"
    } else if same_text(extension, "css") {
        "text/css"
    } else if same_text(extension, "png") {
        "image/png"
    } else if same_text(extension, "jpg") {
        "image/jpeg"
    } else if same_text(extension, "json") {
        "text/json"
    } else {
        "text/plain"
    }
}

/// The head of a response with the given content type.
pub open spec fn content_header_text(content_type: Seq<char>) -> Seq<char> {
    "HTTP/1.1 200 OK\r\nAccess-Control-Allow-Origin: *\r\nContent-Type: "@ + content_type
        + "; charset=UTF-8\r\n\r\n"@
}

/// The head of a response with the given content type, as bytes.
pub fn content_header(content_type: &str) -> (out: Vec<u8>)
    ensures
        out@ == encode_utf8(content_header_text(content_type@)),
{
    let mut head = String::from_str(
        "HTTP/1.1 200 OK\r\nAccess-Control-Allow-Origin: *\r\nContent-Type: ",
    );
    head.append(content_type);
    head.append("; charset=UTF-8\r\n\r\n");
    head.as_str().as_bytes_vec()
}

/// The head of a response in plain text, as bytes.
pub fn default_header() -> (out: Vec<u8>)
    ensures
        out@ == encode_utf8(content_header_text("text/plain"@)),
{
    content_header("text/plain")
}

/// The bytes of a response: the head with the given content type, then the
/// bytes of the text `body`.
pub open spec fn reply(content_type: Seq<char>, body: Seq<char>) -> Seq<u8> {
    encode_utf8(content_header_text(content_type)) + encode_utf8(body)
}

/// The response that carries `message` as plain text.
pub fn text_response(message: &str) -> (out: Vec<u8>)
    ensures
        out@ == reply("text/plain"@, message@),
{
    let mut out = default_header();
    let mut body = message.as_bytes_vec();
    out.append(&mut body);
    out
}

/// The extension `json` has the content type `text/json`.
pub proof fn lemma_json_content_type()
    ensures
        content_type_of("json"@) == "text/json"@,
{
    reveal_strlit("json");
    reveal_strlit("html");
    reveal_strlit("js");
    reveal_strlit("css");
    reveal_strlit("png");
    reveal_strlit("jpg");
    assert("json"@[0] != "html"@[0]);
    assert("json"@.len() != "js"@.len());
    assert("json"@.len() != "css"@.len());
    assert("json"@.len() != "png"@.len());
    assert("json"@.len() != "jpg"@.len());
}

/// The JSON object that reports an error.
pub open spec fn error_json(message: Seq<char>) -> Seq<char> {
    "{\"error\":"@ + json_quoted(message) + "}"@
}

/// The response that reports an error: a JSON object with the one member
/// `error`, which holds `message`.
pub fn error_response(message: &str) -> (out: Vec<u8>)
    ensures
        out@ == reply("text/json"@, error_json(message@)),
{
    let mut out = content_header(get_content_type("json"));
    let mut data = String::from_str("{\"error\":");
    data.append(json_string(message).as_str());
    data.append("}");
    let mut body = data.as_str().as_bytes_vec();
    out.append(&mut body);
    proof {
        lemma_json_content_type();
    }
    out
}

/// The response that carries a world: its JSON object, sent as plain text.
pub fn world_response(world: &World) -> (out: Vec<u8>)
    ensures
        out@ == reply("text/plain"@, world_json(world@)),
{
    let mut out = default_header();
    let mut body = world.to_json().as_str().as_bytes_vec();
    out.append(&mut body);
    out
}

/// The page that is sent when a request cannot be served.
pub open spec fn default_page() -> Seq<char> {
    "HTTP/1.1 200 OK\r\nContent-Type: text/html; charset=UTF-8\r\n\r\n<html><body>Unable to complete request</body></html>\r\n"@
}

/// The response that is sent when a request cannot be served.
pub fn default_response() -> (out: Vec<u8>)
    ensures
        out@ == encode_utf8(default_page()),
{
    "HTTP/1.1 200 OK\r\nContent-Type: text/html; charset=UTF-8\r\n\r\n<html><body>Unable to complete request</body></html>\r\n".as_bytes_vec()
}

/// What a request asks for.
#[derive(Clone, Copy, Debug, PartialEq, Eq)]
pub enum Route {
    /// To create a world.
    NewWorld,
    /// A tile of the map.
    Tiles,
    /// A file of the client.
    Static,
    /// A world that exists.
    GetWorld,
    /// The page of the client.
    Root,
    /// Nothing that can be served.
    Unknown,
}

/// The route of a path, by its components. The first component decides; a
/// path without components, or of one component that is a number, leads to
/// the page of the client.
pub open spec fn route_of(components: Seq<Seq<char>>) -> Route {
    if components.len() == 0 {
        Route::Root
    } else if components[0] == "new"@ {
        Route::NewWorld
    } else if components[0] == "tiles"@ {
        Route::Tiles
    } else if components[0] == "client"@ {
        Route::Static
    } else if components[0] == "get"@ {
        Route::GetWorld
    } else if components.len() > 1 {
        Route::Unknown
    } else if is_unsigned_text(components[0], u64::MAX as nat) {
        Route::Root
    } else {
        Route::Unknown
    }
}

/// The route of a path, by its components.
pub fn route_for(path_components: &Vec<String>) -> (route: Route)
    ensures
        route == route_of(path_components.deep_view()),
{
    if path_components.len() == 0 {
        return Route::Root;
    }
    let first = path_components[0].as_str();
    assert(path_components.deep_view()[0] == first@);
    if same_text(first, "new") {
        Route::NewWorld
    } else if same_text(first, "tiles") {
        Route::Tiles
    } else if same_text(first, "client") {
        Route::Static
    } else if same_text(first, "get") {
        Route::GetWorld
    } else if path_components.len() > 1 {
        Route::Unknown
    } else if parse_u64(first).is_some() {
        Route::Root
    } else {
        Route::Unknown
    }
}

/// A request, taken apart: where it goes, the components of its path, and
/// its body.
#[derive(Debug, PartialEq, Eq)]
pub struct Dispatch {
    pub route: Route,
    pub path_components: Vec<String>,
    pub body: Option<String>,
}

/// Whether `dispatch` is the request `request` taken apart, given the path
/// that was found in its head. Without a path the request cannot be served,
/// and nothing else is read from it.
pub open spec fn dispatches(path: Option<Seq<char>>, request: Seq<char>, dispatch: Dispatch) -> bool {
    match path {
        Some(p) => {
            &&& dispatch.route == route_of(path_components(p))
            &&& dispatch.path_components.deep_view() == path_components(p)
            &&& text_view(dispatch.body) == body_of(request)
        },
        None => {
            &&& dispatch.route == Route::Unknown
            &&& dispatch.path_components.len() == 0
            &&& dispatch.body is None
        },
    }
}

/// Takes a request apart, given the path that was found in its head.
pub fn dispatch(path: Option<String>, request: &String) -> (out: Dispatch)
    ensures
        dispatches(text_view(path), request@, out),
{
    match path {
        Some(p) => {
            let path_components = get_path_components(p);
            let body = get_body(request);
            let route = route_for(&path_components);
            Dispatch { route, path_components, body }
        },
        None => Dispatch { route: Route::Unknown, path_components: Vec::new(), body: None },
    }
}

/// Takes a request apart: finds the path in its head and decides by it
/// where the request goes.
pub fn handle_out(request: &String) -> (out: Dispatch)
    ensures
        dispatches(request_path(request@), request@, out),
{
    dispatch(get_path(request), request)
}

/// The response to a request for the world that the second component of
/// the path names.
pub open spec fn lookup_reply(worlds: Map<u64, WorldView>, components: Seq<Seq<char>>) -> Seq<u8> {
    if components.len() < 2 {
        reply("text/json"@, error_json("No ID found in URL"@))
    } else if !is_unsigned_text(components[1], u64::MAX as nat) {
        reply("text/json"@, error_json("Could not parse ID"@))
    } else if !worlds.contains_key(unsigned_value(components[1]) as u64) {
        reply("text/json"@, error_json("Could not find world"@))
    } else {
        reply("text/plain"@, world_json(worlds[unsigned_value(components[1]) as u64]))
    }
}

/// Answers a request for a world: the world as JSON if the path names one
/// that exists, else a JSON object that says what went wrong.
pub fn handle_get_world(registry: &WorldRegistry, path_components: &Vec<String>) -> (out: Vec<u8>)
    ensures
        out@ == lookup_reply(registry@, path_components.deep_view()),
{
    if path_components.len() < 2 {
        return error_response("No ID found in URL");
    }
    let raw_id = path_components[1].as_str();
    assert(path_components.deep_view()[1] == raw_id@);
    match parse_u64(raw_id) {
        Some(id) => match get_world_for_id(registry, id) {
            Some(world) => world_response(&world),
            None => error_response("Could not find world"),
        },
        None => error_response("Could not parse ID"),
    }
}

/// The address of a tile: the zoom level, and the column and the row as
/// the texts of two floating-point numbers.
#[derive(Debug, PartialEq, Eq)]
pub struct MapPos {
    pub x: String,
    pub y: String,
    pub z: u32,
}

/// The mathematical value of a `MapPos`.
pub ghost struct MapPosView {
    pub x: Seq<char>,
    pub y: Seq<char>,
    pub z: u32,
}

impl View for MapPos {
    type V = MapPosView;

    open spec fn view(&self) -> MapPosView {
        MapPosView { x: self.x@, y: self.y@, z: self.z }
    }
}

/// The address that stands in for one that cannot be read: column zero,
/// row zero, zoom level zero.
pub open spec fn fallback_position() -> MapPosView {
    MapPosView { x: "0"@, y: "0"@, z: 0 }
}

/// Whether the last three components of a path are a tile address: a zoom
/// level that fits in 32 bits, then two floating-point numbers.
pub open spec fn names_tile(components: Seq<Seq<char>>) -> bool {
    let n = components.len();
    &&& n >= 3
    &&& is_unsigned_text(components[n - 3], u32::MAX as nat)
    &&& is_float_text(components[n - 2])
    &&& is_float_text(components[n - 1])
}

/// The tile address that a path names: its last three components as zoom
/// level, column and row if they can be read so, else the fallback address.
pub open spec fn tile_position(components: Seq<Seq<char>>) -> MapPosView {
    let n = components.len();
    if names_tile(components) {
        MapPosView {
            x: components[n - 2],
            y: components[n - 1],
            z: unsigned_value(components[n - 3]) as u32,
        }
    } else {
        fallback_position()
    }
}

/// A path whose last three components cannot be read as a tile address
/// names the same tile as the path `0/0/0`.
pub proof fn lemma_unreadable_address_is_origin(components: Seq<Seq<char>>)
    requires
        !names_tile(components),
    ensures
        tile_position(components) == tile_position(seq!["0"@, "0"@, "0"@]),
{
    let zero = "0"@;
    let origin = seq![zero, zero, zero];
    reveal_strlit("0");
    assert(zero.len() == 1 && zero[0] == '0');
    assert(unsigned_digits(zero) == zero);
    assert(zero.drop_last() =~= Seq::<char>::empty());
    reveal_with_fuel(decimal_value, 3);
    assert(decimal_value(zero) == 0);
    assert(is_unsigned_text(zero, u32::MAX as nat));
    reveal_with_fuel(digits_end, 3);
    assert(digits_end(zero, 0) == 1);
    assert(is_number_at(zero, 0));
    assert(is_float_text(zero));
    assert(names_tile(origin));
}

/// The tile address that a path names. A path that names none is answered
/// with the fallback address, never with an error.
pub fn get_position(split_url: &Vec<String>) -> (out: MapPos)
    ensures
        out@ == tile_position(split_url.deep_view()),
{
    let n = split_url.len();
    if n >= 3 {
        let raw_y = split_url[n - 1].as_str();
        let raw_x = split_url[n - 2].as_str();
        let raw_z = split_url[n - 3].as_str();
        assert(split_url.deep_view()[n - 1] == raw_y@);
        assert(split_url.deep_view()[n - 2] == raw_x@);
        assert(split_url.deep_view()[n - 3] == raw_z@);
        let z = parse_u32(raw_z);
        if is_float(raw_x) && is_float(raw_y) && z.is_some() {
            return MapPos { x: String::from_str(raw_x), y: String::from_str(raw_y), z: z.unwrap() };
        }
    }
    MapPos { x: String::from_str("0"), y: String::from_str("0"), z: 0 }
}

/// The response that carries a tile: the image head, then the image.
pub fn tile_response(image: Vec<u8>) -> (out: Vec<u8>)
    ensures
        out@ == encode_utf8(image_header_text()) + image@,
{
    image_response(image)
}

/// The name of the file that the path of a request for a file of the
/// client names: its second component, if it has one.
pub fn requested_file(path_components: &Vec<String>) -> (out: Option<String>)
    ensures
        out is Some <==> path_components.len() >= 2,
        out matches Some(name) ==> name@ == path_components.deep_view()[1],
{
    if path_components.len() >= 2 {
        assert(path_components.deep_view()[1] == path_components[1]@);
        Some(path_components[1].clone())
    } else {
        None
    }
}

/// The path components that stand in for a request for the page of the
/// client.
pub fn root_components() -> (out: Vec<String>)
    ensures
        out.deep_view() == seq!["client"@, "client.html"@],
{
    let mut out: Vec<String> = Vec::new();
    out.push(String::from_str("client"));
    out.push(String::from_str("client.html"));
    assert(out.deep_view() =~= seq!["client"@, "client.html"@]);
    out
}

/// The content type of a file, by its name: that of the extension, which
/// is all that follows the first point of the name; plain text for a name
/// without a point.
pub open spec fn file_content_type(file_name: Seq<char>) -> Seq<char> {
    let point = position_of(file_name, '.', 0);
    if point < file_name.len() {
        content_type_of(file_name.skip(point + 1))
    } else {
        "text/plain"@
    }
}

/// The content type of a file, by its name.
pub fn content_type_for_file(file_name: &str) -> (out: &'static str)
    ensures
        out@ == file_content_type(file_name@),
{
    let chars = chars_of(file_name);
    let point = find_char(&chars, '.');
    if point < chars.len() {
        let extension = text_between(&chars, point + 1, chars.len());
        assert(chars@.subrange(point + 1, chars.len() as int) =~= chars@.skip(point + 1));
        get_content_type(extension.as_str())
    } else {
        "text/plain"
    }
}

/// The response that carries a file of the client: the head with the
/// content type of the file, then the contents as they are.
pub fn static_response(file_name: &str, contents: Vec<u8>) -> (out: Vec<u8>)
    ensures
        out@ == encode_utf8(content_header_text(file_content_type(file_name@))) + contents@,
{
    let mut out = content_header(content_type_for_file(file_name));
    let mut contents = contents;
    out.append(&mut contents);
    out
}

} // verus!
