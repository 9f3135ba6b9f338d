//! Reading a request: its path, the components of a path, its body, and the
//! fields of a world that a body asks for.

use vstd::prelude::*;
use crate::text::{chars_of, same_text, text_between};

verus! {

/// The pieces of `s` between occurrences of `sep`. Text without `sep` is one
/// piece; a separator at either end, or two in a row, bound an empty piece.
pub open spec fn pieces(s: Seq<char>, sep: char) -> Seq<Seq<char>>
    decreases s.len(),
{
    if s.len() == 0 {
        seq![Seq::empty()]
    } else {
        let before = pieces(s.drop_last(), sep);
        if s.last() == sep {
            before.push(Seq::empty())
        } else {
            before.drop_last().push(before.last().push(s.last()))
        }
    }
}

/// `pieces` without its empty members, in order.
pub open spec fn without_empty(pieces: Seq<Seq<char>>) -> Seq<Seq<char>>
    decreases pieces.len(),
{
    if pieces.len() == 0 {
        pieces
    } else {
        let kept = without_empty(pieces.drop_last());
        if pieces.last().len() > 0 {
            kept.push(pieces.last())
        } else {
            kept
        }
    }
}

/// The components of a path: what stands between its slashes, empty pieces
/// left out.
pub open spec fn path_components(path: Seq<char>) -> Seq<Seq<char>> {
    without_empty(pieces(path, '/'))
}

/// `s` is never cut into no pieces at all.
pub proof fn lemma_pieces_non_empty(s: Seq<char>, sep: char)
    ensures
        pieces(s, sep).len() > 0,
    decreases s.len(),
{
    if s.len() > 0 {
        lemma_pieces_non_empty(s.drop_last(), sep);
    }
}

/// No piece holds the separator.
pub proof fn lemma_pieces_hold_no_separator(s: Seq<char>, sep: char)
    ensures
        forall|i: int, j: int|
            0 <= i < pieces(s, sep).len() && 0 <= j < pieces(s, sep)[i].len() ==> #[trigger] pieces(
                s,
                sep,
            )[i][j] != sep,
    decreases s.len(),
{
    if s.len() > 0 {
        lemma_pieces_hold_no_separator(s.drop_last(), sep);
        lemma_pieces_non_empty(s.drop_last(), sep);
    }
}

/// What `without_empty` keeps is not empty and was among the pieces.
pub proof fn lemma_without_empty_keeps(all: Seq<Seq<char>>)
    ensures
        forall|i: int|
            0 <= i < without_empty(all).len() ==> (#[trigger] without_empty(all)[i]).len() > 0
                && all.contains(without_empty(all)[i]),
    decreases all.len(),
{
    if all.len() > 0 {
        lemma_without_empty_keeps(all.drop_last());
        let kept = without_empty(all.drop_last());
        assert forall|i: int| 0 <= i < without_empty(all).len() implies (#[trigger] without_empty(
            all,
        )[i]).len() > 0 && all.contains(without_empty(all)[i]) by {
            if i < kept.len() {
                let piece = kept[i];
                assert(all.drop_last().contains(piece));
                let at = choose|at: int| 0 <= at < all.drop_last().len() && all.drop_last()[at] == piece;
                assert(all[at] == piece);
            } else {
                assert(all[all.len() - 1] == all.last());
            }
        }
    }
}

/// Every component of a path has at least one character, and none of its
/// characters is a slash.
pub proof fn lemma_components_are_clean(path: Seq<char>)
    ensures
        forall|i: int|
            0 <= i < path_components(path).len() ==> (#[trigger] path_components(path)[i]).len() > 0
                && !path_components(path)[i].contains('/'),
{
    let all = pieces(path, '/');
    lemma_pieces_hold_no_separator(path, '/');
    lemma_without_empty_keeps(all);
    assert forall|i: int| 0 <= i < path_components(path).len() implies (#[trigger] path_components(
        path,
    )[i]).len() > 0 && !path_components(path)[i].contains('/') by {
        let piece = path_components(path)[i];
        assert(all.contains(piece));
        let at = choose|at: int| 0 <= at < all.len() && all[at] == piece;
        if piece.contains('/') {
            let j = choose|j: int| 0 <= j < piece.len() && piece[j] == '/';
            assert(all[at][j] != '/');
        }
    }
}

/// Splits a path at its slashes and drops the empty pieces.
pub fn get_path_components(path: String) -> (out: Vec<String>)
    ensures
        out.deep_view() == path_components(path@),
{
    let chars = chars_of(path.as_str());
    let n = chars.len();
    let mut out: Vec<String> = Vec::new();
    let mut start: usize = 0;
    let mut i: usize = 0;
    let ghost mut done: Seq<Seq<char>> = Seq::empty();
    assert(chars@.take(0) =~= Seq::<char>::empty());
    assert(chars@.subrange(0, 0) =~= Seq::<char>::empty());
    assert(pieces(chars@.take(0), '/') =~= done.push(chars@.subrange(0, 0)));
    assert(out.deep_view() =~= without_empty(done));
    while i < n
        invariant
            start <= i <= n,
            n == chars.len(),
            pieces(chars@.take(i as int), '/') == done.push(chars@.subrange(start as int, i as int)),
            out.deep_view() == without_empty(done),
        decreases n - i,
    {
        let ghost seen = chars@.take(i + 1);
        let ghost current = chars@.subrange(start as int, i as int);
        assert(seen.drop_last() =~= chars@.take(i as int));
        assert(seen.last() == chars@[i as int]);
        assert(done.push(current).drop_last() =~= done);
        if chars[i] == '/' {
            if start < i {
                let piece = text_between(&chars, start, i);
                let ghost before = out.deep_view();
                out.push(piece);
                assert(out.deep_view() =~= before.push(current));
            }
            proof {
                done = done.push(current);
                assert(chars@.subrange(i + 1, i + 1) =~= Seq::<char>::empty());
            }
            start = i + 1;
        } else {
            assert(chars@.subrange(start as int, i + 1) =~= current.push(chars@[i as int]));
        }
        i += 1;
    }
    assert(chars@.take(n as int) =~= chars@);
    let ghost last = chars@.subrange(start as int, n as int);
    assert(done.push(last).drop_last() =~= done);
    if start < n {
        let piece = text_between(&chars, start, n);
        let ghost before = out.deep_view();
        out.push(piece);
        assert(out.deep_view() =~= before.push(last));
    }
    out
}

/// Whether the four characters of `s` from `i` on are an empty line: a
/// carriage return and a line feed, twice.
pub open spec fn blank_line_at(s: Seq<char>, i: int) -> bool {
    &&& 0 <= i
    &&& i + 4 <= s.len()
    &&& s[i] == '\r'
    &&& s[i + 1] == '\n'
    &&& s[i + 2] == '\r'
    &&& s[i + 3] == '\n'
}

/// Where the first empty line at or after `from` starts; the length of `s`
/// if there is none.
pub open spec fn first_blank_line(s: Seq<char>, from: int) -> int
    decreases s.len() - from,
{
    if from < 0 || from + 4 > s.len() {
        s.len() as int
    } else if blank_line_at(s, from) {
        from
    } else {
        first_blank_line(s, from + 1)
    }
}

/// The body of a request: what follows its first empty line, if it has one.
pub open spec fn body_of(request: Seq<char>) -> Option<Seq<char>> {
    let at = first_blank_line(request, 0);
    if at < request.len() {
        Some(request.skip(at + 4))
    } else {
        None
    }
}

/// `first_blank_line` is the first: an empty line starts there and none
/// starts earlier, or none starts anywhere from `from` on.
pub proof fn lemma_first_blank_line(s: Seq<char>, from: int)
    requires
        0 <= from,
    ensures
        from <= first_blank_line(s, from) || first_blank_line(s, from) == s.len(),
        first_blank_line(s, from) < s.len() ==> blank_line_at(s, first_blank_line(s, from)),
        forall|j: int| from <= j < first_blank_line(s, from) ==> !blank_line_at(s, j),
    decreases s.len() - from,
{
    if from + 4 <= s.len() && !blank_line_at(s, from) {
        lemma_first_blank_line(s, from + 1);
    }
}

/// The text after the first empty line of a request, if there is one.
pub fn get_body(request: &String) -> (body: Option<String>)
    ensures
        body is Some <==> body_of(request@) is Some,
        body matches Some(text) ==> Some(text@) == body_of(request@),
{
    let chars = chars_of(request.as_str());
    let n = chars.len();
    let mut i: usize = 0;
    while n >= 4 && i <= n - 4
        invariant
            i <= n,
            n == chars.len(),
            chars@ == request@,
            first_blank_line(chars@, 0) == first_blank_line(chars@, i as int),
        decreases n - i,
    {
        if chars[i] == '\r' && chars[i + 1] == '\n' && chars[i + 2] == '\r' && chars[i + 3]
            == '\n' {
            let text = text_between(&chars, i + 4, n);
            assert(chars@.subrange(i + 4, n as int) =~= chars@.skip(i + 4));
            return Some(text);
        }
        i += 1;
    }
    None
}

/// What trimming removes from the two ends of a text.
#[derive(Clone, Copy, Debug)]
pub enum Padding {
    /// The character with code zero.
    Nul,
    /// The characters that Unicode gives the property `White_Space`.
    WhiteSpace,
}

/// Whether Unicode gives `c` the property `White_Space`.
pub open spec fn is_white_space(c: char) -> bool {
    ||| '\u{9}' <= c <= '\u{d}'
    ||| c == ' '
    ||| c == '\u{85}'
    ||| c == '\u{a0}'
    ||| c == '\u{1680}'
    ||| '\u{2000}' <= c <= '\u{200a}'
    ||| c == '\u{2028}'
    ||| c == '\u{2029}'
    ||| c == '\u{202f}'
    ||| c == '\u{205f}'
    ||| c == '\u{3000}'
}

impl Padding {
    /// Whether `c` belongs to this padding.
    pub open spec fn holds(self, c: char) -> bool {
        match self {
            Padding::Nul => c == '\0',
            Padding::WhiteSpace => is_white_space(c),
        }
    }

    /// Whether `c` belongs to this padding.
    pub fn has(&self, c: char) -> (out: bool)
        ensures
            out == self.holds(c),
    {
        match self {
            Padding::Nul => c == '\0',
            Padding::WhiteSpace => {
                ('\u{9}' <= c && c <= '\u{d}') || c == ' ' || c == '\u{85}' || c == '\u{a0}' || c
                    == '\u{1680}' || ('\u{2000}' <= c && c <= '\u{200a}') || c == '\u{2028}' || c
                    == '\u{2029}' || c == '\u{202f}' || c == '\u{205f}' || c == '\u{3000}'
            },
        }
    }
}

/// The first position at or after `from` that holds no padding.
pub open spec fn padding_end(s: Seq<char>, padding: Padding, from: int) -> int
    decreases s.len() - from,
{
    if 0 <= from < s.len() && padding.holds(s[from]) {
        padding_end(s, padding, from + 1)
    } else {
        from
    }
}

/// The end of the text that is left of `s[from..to]` when the padding at its
/// end is taken away.
pub open spec fn padding_start(s: Seq<char>, padding: Padding, from: int, to: int) -> int
    decreases to - from,
{
    if from < to <= s.len() && padding.holds(s[to - 1]) {
        padding_start(s, padding, from, to - 1)
    } else {
        to
    }
}

/// `s` without the padding at its two ends.
pub open spec fn trimmed(s: Seq<char>, padding: Padding) -> Seq<char> {
    let from = padding_end(s, padding, 0);
    let to = padding_start(s, padding, from, s.len() as int);
    s.subrange(from, to)
}

/// Takes the padding away from the two ends of `chars`.
pub fn trim(chars: &Vec<char>, padding: Padding) -> (out: Vec<char>)
    ensures
        out@ == trimmed(chars@, padding),
{
    let n = chars.len();
    let mut from: usize = 0;
    while from < n && padding.has(chars[from])
        invariant
            from <= n,
            n == chars.len(),
            padding_end(chars@, padding, 0) == padding_end(chars@, padding, from as int),
        decreases n - from,
    {
        from += 1;
    }
    let mut to: usize = n;
    while from < to && padding.has(chars[to - 1])
        invariant
            from <= to <= n,
            n == chars.len(),
            padding_start(chars@, padding, from as int, n as int) == padding_start(
                chars@,
                padding,
                from as int,
                to as int,
            ),
        decreases to - from,
    {
        to -= 1;
    }
    let mut out: Vec<char> = Vec::new();
    let mut i: usize = from;
    while i < to
        invariant
            from <= i <= to <= chars.len(),
            out@ == chars@.subrange(from as int, i as int),
        decreases to - i,
    {
        out.push(chars[i]);
        assert(chars@.subrange(from as int, i + 1) =~= chars@.subrange(from as int, i as int).push(
            chars@[i as int],
        ));
        i += 1;
    }
    out
}

/// A number as a JSON text writes it: a sign, the digits as one integer, and
/// the power of ten that scales them.
#[derive(Clone, Copy, Debug, PartialEq, Eq)]
pub struct Decimal {
    pub positive: bool,
    pub mantissa: u64,
    pub exponent: i16,
}

impl Decimal {
    /// The number with the given sign, digits and power of ten.
    pub fn from_parts(parts: (bool, u64, i16)) -> (out: Decimal)
        ensures
            out.positive == parts.0,
            out.mantissa == parts.1,
            out.exponent == parts.2,
    {
        Decimal { positive: parts.0, mantissa: parts.1, exponent: parts.2 }
    }
}

/// What a request to create a world asks for. A field is `None` where the
/// request does not give it, or gives it with another type than the field's.
#[derive(Debug, PartialEq, Eq)]
pub struct WorldRequest {
    pub name: Option<String>,
    pub seed: Option<String>,
    pub sea_level: Option<Decimal>,
    pub temperature: Option<Decimal>,
    pub humidity: Option<Decimal>,
}

/// The mathematical value of a `WorldRequest`.
pub ghost struct WorldRequestView {
    pub name: Option<Seq<char>>,
    pub seed: Option<Seq<char>>,
    pub sea_level: Option<Decimal>,
    pub temperature: Option<Decimal>,
    pub humidity: Option<Decimal>,
}

/// The characters of an optional text.
pub open spec fn text_view(text: Option<String>) -> Option<Seq<char>> {
    match text {
        Some(t) => Some(t@),
        None => None,
    }
}

impl View for WorldRequest {
    type V = WorldRequestView;

    open spec fn view(&self) -> WorldRequestView {
        WorldRequestView {
            name: text_view(self.name),
            seed: text_view(self.seed),
            sea_level: self.sea_level,
            temperature: self.temperature,
            humidity: self.humidity,
        }
    }
}

/// The value of a member of a JSON object, as far as a request for a world
/// looks at it.
#[derive(Debug, PartialEq, Eq)]
pub enum MemberValue {
    /// A string, with its characters.
    Text(String),
    /// A number.
    Number(Decimal),
    /// Anything else: null, a truth value, an array or an object.
    Other,
}

/// The mathematical value of a `MemberValue`.
pub ghost enum MemberValueView {
    Text(Seq<char>),
    Number(Decimal),
    Other,
}

impl View for MemberValue {
    type V = MemberValueView;

    open spec fn view(&self) -> MemberValueView {
        match self {
            MemberValue::Text(text) => MemberValueView::Text(text@),
            MemberValue::Number(number) => MemberValueView::Number(*number),
            MemberValue::Other => MemberValueView::Other,
        }
    }
}

/// One member of a JSON object: its key and its value.
#[derive(Debug, PartialEq, Eq)]
pub struct Member {
    pub key: String,
    pub value: MemberValue,
}

impl View for Member {
    type V = (Seq<char>, MemberValueView);

    open spec fn view(&self) -> (Seq<char>, MemberValueView) {
        (self.key@, self.value@)
    }
}

/// The mathematical values of some members, in order.
pub open spec fn members_view(members: Seq<Member>) -> Seq<(Seq<char>, MemberValueView)> {
    Seq::new(members.len(), |i: int| members[i]@)
}

/// The longest text that is handed to the JSON parser, in characters.
pub const MAX_JSON_LENGTH: usize = 32768;

/// What `json::parse` makes of `text`: nothing where `text` is no JSON
/// document; else the members of the document in the order in which their
/// keys first occur, none where the document is no object.
pub uninterp spec fn json_members(text: Seq<char>) -> Option<Seq<(Seq<char>, MemberValueView)>>;

/// Calls `json::parse` on `text` and hands out the members of the document
/// that `JsonValue::entries` walks, each value by its variant. Texts above
/// `MAX_JSON_LENGTH` are left out because the parser counts the digits of a
/// fraction in sixteen bits and would run over. The contract gives the
/// outcome a name and claims no more than that it depends on `text` alone.
#[verifier::external_body]
fn read_members(text: &str) -> (out: Option<Vec<Member>>)
    requires
        text@.len() <= MAX_JSON_LENGTH,
    ensures
        out is Some <==> json_members(text@) is Some,
        out matches Some(members) ==> Some(members_view(members@)) == json_members(text@),
{
    let doc = json::parse(text).ok()?;
    let member = |(key, value): (&str, &json::JsonValue)| Member {
        key: key.to_string(),
        value: match value {
            json::JsonValue::Short(text) => MemberValue::Text(text.to_string()),
            json::JsonValue::String(text) => MemberValue::Text(text.clone()),
            json::JsonValue::Number(number) => {
                MemberValue::Number(Decimal::from_parts(number.as_parts()))
            },
            _ => MemberValue::Other,
        },
    };
    Some(doc.entries().map(member).collect())
}

/// Where the first member at or after `from` with the key `key` stands; the
/// number of members if there is none.
pub open spec fn key_position(
    members: Seq<(Seq<char>, MemberValueView)>,
    key: Seq<char>,
    from: int,
) -> int
    decreases members.len() - from,
{
    if 0 <= from < members.len() && members[from].0 != key {
        key_position(members, key, from + 1)
    } else if from < members.len() {
        from
    } else {
        members.len() as int
    }
}

/// The value of the first member with the key `key`, if there is one.
pub open spec fn member_value(members: Seq<(Seq<char>, MemberValueView)>, key: Seq<char>) -> Option<
    MemberValueView,
> {
    let at = key_position(members, key, 0);
    if at < members.len() {
        Some(members[at].1)
    } else {
        None
    }
}

/// The text under `key`: set where the member is there and is a string.
pub open spec fn text_member(members: Seq<(Seq<char>, MemberValueView)>, key: Seq<char>) -> Option<
    Seq<char>,
> {
    match member_value(members, key) {
        Some(MemberValueView::Text(text)) => Some(text),
        _ => None,
    }
}

/// The number under `key`: set where the member is there and is a number.
pub open spec fn number_member(
    members: Seq<(Seq<char>, MemberValueView)>,
    key: Seq<char>,
) -> Option<Decimal> {
    match member_value(members, key) {
        Some(MemberValueView::Number(number)) => Some(number),
        _ => None,
    }
}

/// The request for a world that the members of a JSON object make: `name`
/// and `seed` where they are strings, `sea_level`, `temperature` and
/// `humidity` where they are numbers. A member that is missing, or is of
/// another type, leaves its field unset.
pub open spec fn request_of(members: Seq<(Seq<char>, MemberValueView)>) -> WorldRequestView {
    WorldRequestView {
        name: text_member(members, "name"@),
        seed: text_member(members, "seed"@),
        sea_level: number_member(members, "sea_level"@),
        temperature: number_member(members, "temperature"@),
        humidity: number_member(members, "humidity"@),
    }
}

/// Where the first member with the key `key` stands; the number of members
/// if there is none.
pub fn find_member(members: &Vec<Member>, key: &str) -> (at: usize)
    ensures
        at <= members.len(),
        at == key_position(members_view(members@), key@, 0),
{
    let mut i: usize = 0;
    while i < members.len() && !same_text(members[i].key.as_str(), key)
        invariant
            i <= members.len(),
            key_position(members_view(members@), key@, 0) == key_position(
                members_view(members@),
                key@,
                i as int,
            ),
        decreases members.len() - i,
    {
        i += 1;
    }
    i
}

/// The text under `key`, where the member is there and is a string.
pub fn text_of_member(members: &Vec<Member>, key: &str) -> (out: Option<String>)
    ensures
        text_view(out) == text_member(members_view(members@), key@),
{
    let at = find_member(members, key);
    if at < members.len() {
        match &members[at].value {
            MemberValue::Text(text) => Some(text.clone()),
            _ => None,
        }
    } else {
        None
    }
}

/// The number under `key`, where the member is there and is a number.
pub fn number_of_member(members: &Vec<Member>, key: &str) -> (out: Option<Decimal>)
    ensures
        out == number_member(members_view(members@), key@),
{
    let at = find_member(members, key);
    if at < members.len() {
        match &members[at].value {
            MemberValue::Number(number) => Some(*number),
            _ => None,
        }
    } else {
        None
    }
}

/// Reads the request for a world off the members of a JSON object.
pub fn world_request_of(members: &Vec<Member>) -> (out: WorldRequest)
    ensures
        out@ == request_of(members_view(members@)),
{
    WorldRequest {
        name: text_of_member(members, "name"),
        seed: text_of_member(members, "seed"),
        sea_level: number_of_member(members, "sea_level"),
        temperature: number_of_member(members, "temperature"),
        humidity: number_of_member(members, "humidity"),
    }
}

/// The text of a body that is read as JSON: the body without the zero
/// characters at its ends, and then without the white space at its ends.
pub open spec fn body_text(body: Seq<char>) -> Seq<char> {
    trimmed(trimmed(body, Padding::Nul), Padding::WhiteSpace)
}

/// The request that a body makes: none where there is no body, where its
/// text is empty or longer than `MAX_JSON_LENGTH`, or where that text is no
/// JSON document.
pub open spec fn requested_world(body: Option<Seq<char>>) -> Option<WorldRequestView> {
    match body {
        Some(b) => if body_text(b).len() == 0 || body_text(b).len() > MAX_JSON_LENGTH {
            None
        } else {
            match json_members(body_text(b)) {
                Some(members) => Some(request_of(members)),
                None => None,
            }
        },
        None => None,
    }
}

/// Reads the body of a request to create a world.
pub fn parse_body(body_string: Option<String>) -> (out: Option<WorldRequest>)
    ensures
        out is Some <==> requested_world(text_view(body_string)) is Some,
        out matches Some(request) ==> Some(request@) == requested_world(text_view(body_string)),
{
    match body_string {
        Some(contents) => {
            let chars = chars_of(contents.as_str());
            let inner = trim(&chars, Padding::Nul);
            let bare = trim(&inner, Padding::WhiteSpace);
            if bare.len() == 0 || bare.len() > MAX_JSON_LENGTH {
                return None;
            }
            let text = text_between(&bare, 0, bare.len());
            assert(bare@.subrange(0, bare.len() as int) =~= bare@);
            match read_members(text.as_str()) {
                Some(members) => Some(world_request_of(&members)),
                None => None,
            }
        },
        None => None,
    }
}

/// The path that `httparse` finds in the head of `request`, if it finds one.
pub uninterp spec fn request_path(request: Seq<char>) -> Option<Seq<char>>;

/// Runs `httparse::Request::parse` over the bytes of `request`, with room for
/// sixteen headers, and hands back the field `path` as the parser left it,
/// whether or not the rest of the head was well formed. The contract gives the
/// outcome a name and claims no more than that it depends on `request` alone.
#[verifier::external_body]
fn parse_request_path(request: &str) -> (path: Option<String>)
    ensures
        path is Some <==> request_path(request@) is Some,
        path matches Some(p) ==> Some(p@) == request_path(request@),
{
    let mut headers = [httparse::EMPTY_HEADER; 16];
    let mut parsed = httparse::Request::new(&mut headers);
    let _ = parsed.parse(request.as_bytes());
    parsed.path.map(String::from)
}

/// The path of a request, as `httparse` reads it from the request line.
pub fn get_path(header: &String) -> (path: Option<String>)
    ensures
        text_view(path) == request_path(header@),
{
    parse_request_path(header.as_str())
}

} // verus!
