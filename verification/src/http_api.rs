use vstd::prelude::*;

use crate::window_manager::{Buffer, WindowError, WindowMetaData};

verus! {

/// Why a request on the HTTP interface failed.
#[derive(Debug, PartialEq, Eq, Structural)]
pub enum HttpApiError {
    InternalError,
    InvalidWindowId,
    WindowIdNotExist,
}

/// The HTTP status that answers each error.
pub open spec fn status_of(e: HttpApiError) -> u16 {
    match e {
        HttpApiError::InternalError => 500,
        HttpApiError::InvalidWindowId => 400,
        HttpApiError::WindowIdNotExist => 404,
    }
}

impl HttpApiError {
    /// The status of the (empty) response that reports this error.
    pub fn status_code(&self) -> (code: u16)
        ensures
            code == status_of(*self),
    {
        match self {
            HttpApiError::InternalError => 500,
            HttpApiError::InvalidWindowId => 400,
            HttpApiError::WindowIdNotExist => 404,
        }
    }

    /// The text that describes this error.
    pub fn description(&self) -> (text: String)
        ensures
            text@ == match *self {
                HttpApiError::InternalError => "internal error"@,
                HttpApiError::InvalidWindowId => "invalid window id"@,
                HttpApiError::WindowIdNotExist => "window id not exist"@,
            },
    {
        match self {
            HttpApiError::InternalError => "internal error".to_owned(),
            HttpApiError::InvalidWindowId => "invalid window id".to_owned(),
            HttpApiError::WindowIdNotExist => "window id not exist".to_owned(),
        }
    }
}

/// A byte that an HTTP header value may hold and still read as text:
/// visible ASCII or a tab.
pub open spec fn is_visible_ascii(b: u8) -> bool {
    (32 <= b && b < 127) || b == 9
}

/// The byte with ASCII upper-case letters turned into lower case.
pub open spec fn ascii_lower(b: u8) -> u8 {
    if 65 <= b && b <= 90 {
        (b + 32) as u8
    } else {
        b
    }
}

/// "websocket" in bytes.
pub open spec fn websocket_bytes() -> Seq<u8> {
    seq![119u8, 101u8, 98u8, 115u8, 111u8, 99u8, 107u8, 101u8, 116u8]
}

/// The bytes of `v` from `i` on, read in lower case, start with `pat`.
pub open spec fn matches_at(v: Seq<u8>, i: int, pat: Seq<u8>) -> bool {
    &&& 0 <= i
    &&& i + pat.len() <= v.len()
    &&& forall|k: int| 0 <= k < pat.len() ==> #[trigger] ascii_lower(v[i + k]) == pat[k]
}

/// `v`, read in lower case, holds `pat` somewhere.
pub open spec fn contains_lower(v: Seq<u8>, pat: Seq<u8>) -> bool {
    exists|i: int| matches_at(v, i, pat)
}

/// The request asks for a WebSocket: it has an `Upgrade` header whose value
/// reads as text and, in lower case, contains "websocket".
pub open spec fn requests_websocket(upgrade: Option<Seq<u8>>) -> bool {
    match upgrade {
        None => false,
        Some(v) => (forall|k: int| 0 <= k < v.len() ==> #[trigger] is_visible_ascii(v[k])) && contains_lower(v, websocket_bytes()),
    }
}

/// Every byte reads as header text.
fn all_visible_ascii(v: &[u8]) -> (ok: bool)
    ensures
        ok == forall|k: int| 0 <= k < v@.len() ==> #[trigger] is_visible_ascii(v@[k]),
{
    let n = v.len();
    let mut k: usize = 0;
    while k < n
        invariant
            n == v@.len(),
            k <= n,
            forall|j: int| 0 <= j < k ==> #[trigger] is_visible_ascii(v@[j]),
        decreases n - k,
    {
        let b = v[k];
        if !((32 <= b && b < 127) || b == 9) {
            assert(!is_visible_ascii(v@[k as int]));
            return false;
        }
        k = k + 1;
    }
    true
}

/// Whether the bytes, read in lower case, contain "websocket".
fn contains_websocket(v: &[u8]) -> (found: bool)
    ensures
        found == contains_lower(v@, websocket_bytes()),
{
    let n = v.len();
    let pat: [u8; 9] = [119, 101, 98, 115, 111, 99, 107, 101, 116];
    assert(pat@ =~= websocket_bytes());
    if n < 9 {
        assert forall|i: int| !matches_at(v@, i, websocket_bytes()) by {}
        return false;
    }
    let mut i: usize = 0;
    while i <= n - 9
        invariant
            n == v@.len(),
            n >= 9,
            i <= n - 8,
            pat@ == websocket_bytes(),
            forall|j: int| 0 <= j < i ==> !#[trigger] matches_at(v@, j, websocket_bytes()),
        decreases n - i,
    {
        let mut k: usize = 0;
        let mut all = true;
        while k < 9
            invariant
                n == v@.len(),
                i + 9 <= n,
                k <= 9,
                pat@ == websocket_bytes(),
                all <==> forall|j: int| 0 <= j < k ==> #[trigger] ascii_lower(v@[i + j]) == pat@[j],
            decreases 9 - k,
        {
            let b = v[i + k];
            let lower: u8 = if 65 <= b && b <= 90 { b + 32 } else { b };
            assert(lower == ascii_lower(v@[i + k]));
            if lower != pat[k] {
                all = false;
            }
            k = k + 1;
        }
        if all {
            assert(matches_at(v@, i as int, websocket_bytes()));
            return true;
        }
        assert(!matches_at(v@, i as int, websocket_bytes())) by {
            if matches_at(v@, i as int, websocket_bytes()) {
                assert(forall|j: int| 0 <= j < 9 ==> #[trigger] ascii_lower(v@[i + j]) == pat@[j]);
            }
        }
        i = i + 1;
    }
    assert forall|j: int| !matches_at(v@, j, websocket_bytes()) by {
        if 0 <= j && j + 9 <= n {
            assert(j < i);
        }
    }
    false
}

/// Whether the value of the `Upgrade` header (`None` where there is no such
/// header) asks for a WebSocket.
pub fn is_websocket_upgrade(upgrade: Option<&[u8]>) -> (ws: bool)
    ensures
        ws == requests_websocket(match upgrade { Some(v) => Some(v@), None => None }),
{
    match upgrade {
        None => false,
        Some(v) => all_visible_ascii(v) && contains_websocket(v),
    }
}

/// An ASCII decimal digit.
pub open spec fn is_digit(b: u8) -> bool {
    48 <= b && b <= 57
}

/// The number that a string of decimal digits writes.
pub open spec fn decimal_value(s: Seq<u8>) -> int
    decreases s.len(),
{
    if s.len() == 0 {
        0
    } else {
        decimal_value(s.drop_last()) * 10 + (s.last() - 48)
    }
}

/// The digits of a number in text: all of it, or all after a leading '+'.
pub open spec fn digits_of(text: Seq<u8>) -> Seq<u8> {
    if text.len() > 0 && text[0] == 43 {
        text.drop_first()
    } else {
        text
    }
}

/// What reading `text` as a 64-bit unsigned number gives, as Rust's
/// `str::parse::<u64>` reads it: an optional '+', then one or more decimal
/// digits whose value fits in 64 bits.
pub open spec fn parse_u64_spec(text: Seq<u8>) -> Option<u64> {
    let d = digits_of(text);
    if d.len() > 0 && (forall|k: int| 0 <= k < d.len() ==> #[trigger] is_digit(d[k])) && decimal_value(d) <= u64::MAX {
        Some(decimal_value(d) as u64)
    } else {
        None
    }
}

proof fn lemma_decimal_value_grows(s: Seq<u8>, j: int)
    requires
        0 <= j <= s.len(),
        forall|k: int| 0 <= k < s.len() ==> #[trigger] is_digit(s[k]),
    ensures
        0 <= decimal_value(s.take(j)) <= decimal_value(s),
    decreases s.len(),
{
    if s.len() > 0 {
        let t = s.drop_last();
        assert forall|k: int| 0 <= k < t.len() implies #[trigger] is_digit(t[k]) by {
            assert(t[k] == s[k]);
        }
        assert(is_digit(s[s.len() - 1]));
        if j < s.len() {
            assert(t.take(j) =~= s.take(j));
            lemma_decimal_value_grows(t, j);
        } else {
            assert(s.take(j) =~= s);
            lemma_decimal_value_grows(t, 0);
        }
    } else {
        assert(s.take(j) =~= s);
    }
}

/// Reads the window id of a request path, as `str::parse::<u64>` does;
/// text that is no such number is an `InvalidWindowId`.
pub fn parse_window_id(text: &[u8]) -> (result: Result<u64, HttpApiError>)
    ensures
        match parse_u64_spec(text@) {
            Some(n) => result == Ok::<u64, HttpApiError>(n),
            None => result == Err::<u64, HttpApiError>(HttpApiError::InvalidWindowId),
        },
{
    let n = text.len();
    let start: usize = if n > 0 && text[0] == 43 { 1 } else { 0 };
    let ghost d = digits_of(text@);
    assert(d =~= text@.subrange(start as int, n as int));
    if start == n {
        return Err(HttpApiError::InvalidWindowId);
    }
    let mut acc: u64 = 0;
    let mut i: usize = start;
    while i < n
        invariant
            n == text@.len(),
            start <= i <= n,
            d == text@.subrange(start as int, n as int),
            d == digits_of(text@),
            acc == decimal_value(text@.subrange(start as int, i as int)),
            forall|k: int| start <= k < i ==> #[trigger] is_digit(text@[k]),
        decreases n - i,
    {
        let b = text[i];
        if b < 48 || b > 57 {
            assert(!is_digit(d[i - start]));
            return Err(HttpApiError::InvalidWindowId);
        }
        let digit = (b - 48) as u64;
        let ghost next = text@.subrange(start as int, i + 1);
        assert(next.drop_last() =~= text@.subrange(start as int, i as int));
        assert(decimal_value(next) == acc * 10 + digit);
        if acc > (u64::MAX - digit) / 10 {
            assert(acc * 10 + digit > u64::MAX) by (nonlinear_arith)
                requires acc > (u64::MAX - digit) / 10, digit <= 9;
            proof {
                if forall|k: int| 0 <= k < d.len() ==> #[trigger] is_digit(d[k]) {
                    assert(d.take(i + 1 - start) =~= next);
                    lemma_decimal_value_grows(d, i + 1 - start);
                }
            }
            return Err(HttpApiError::InvalidWindowId);
        }
        assert(acc * 10 + digit <= u64::MAX) by (nonlinear_arith)
            requires acc <= (u64::MAX - digit) / 10, digit <= 9;
        acc = acc * 10 + digit;
        i = i + 1;
    }
    assert(text@.subrange(start as int, n as int) == d);
    assert forall|k: int| 0 <= k < d.len() implies #[trigger] is_digit(d[k]) by {
        assert(d[k] == text@[start + k]);
    }
    Ok(acc)
}

/// The decimal digits of `n`, most significant first, in ASCII.
pub open spec fn decimal_bytes(n: nat) -> Seq<u8>
    decreases n,
{
    if n < 10 {
        seq![(n + 48) as u8]
    } else {
        decimal_bytes(n / 10).push(((n % 10) + 48) as u8)
    }
}

proof fn lemma_decimal_bytes_value(n: nat)
    ensures
        decimal_bytes(n).len() > 0,
        decimal_bytes(n)[0] != 43,
        forall|k: int| 0 <= k < decimal_bytes(n).len() ==> #[trigger] is_digit(decimal_bytes(n)[k]),
        decimal_value(decimal_bytes(n)) == n,
    decreases n,
{
    if n < 10 {
        assert(decimal_bytes(n).drop_last() =~= Seq::<u8>::empty());
        assert(decimal_bytes(n).last() == n + 48);
        assert(decimal_value(decimal_bytes(n)) == decimal_value(decimal_bytes(n).drop_last()) * 10 + (decimal_bytes(n).last() - 48));
    } else {
        let q = n / 10;
        lemma_decimal_bytes_value(q);
        let s = decimal_bytes(n);
        assert(s.drop_last() =~= decimal_bytes(q));
        assert(s[0] == decimal_bytes(q)[0]);
        assert(s.last() == (n % 10) + 48);
        assert(decimal_value(s) == decimal_value(decimal_bytes(q)) * 10 + (n % 10));
        assert forall|k: int| 0 <= k < s.len() implies #[trigger] is_digit(s[k]) by {
            if k < s.len() - 1 {
                assert(s[k] == decimal_bytes(q)[k]);
            }
        }
        assert(q * 10 + n % 10 == n) by (nonlinear_arith)
            requires q == n / 10;
    }
}

/// A window id written in decimal, as the window listing writes it, reads
/// back as the same id: every id that `/window` lists can be asked for at
/// `/window/{id}`.
pub proof fn lemma_parse_decimal_roundtrip(id: u64)
    ensures
        parse_u64_spec(decimal_bytes(id as nat)) == Some(id),
{
    lemma_decimal_bytes_value(id as nat);
}

/// How a request for one window is served.
#[derive(Debug, PartialEq, Eq, Structural)]
pub enum WindowRoute {
    /// Answer with the window's metadata as JSON.
    Json(u64),
    /// Open a WebSocket that streams the window's contents.
    WebSocket(u64),
}

/// Decides how a request on `/window/{id}` is served, from the value of its
/// `Upgrade` header and the text of `{id}`: an id that is no number fails with
/// `InvalidWindowId` (also for a WebSocket request); otherwise a WebSocket
/// request opens a stream and any other request asks for the metadata.
pub fn route_window(upgrade: Option<&[u8]>, id_text: &[u8]) -> (result: Result<WindowRoute, HttpApiError>)
    ensures
        match parse_u64_spec(id_text@) {
            None => result == Err::<WindowRoute, HttpApiError>(HttpApiError::InvalidWindowId),
            Some(id) => result == Ok::<WindowRoute, HttpApiError>(
                if requests_websocket(match upgrade { Some(v) => Some(v@), None => None }) {
                    WindowRoute::WebSocket(id)
                } else {
                    WindowRoute::Json(id)
                },
            ),
        },
{
    let has_hdr = is_websocket_upgrade(upgrade);
    let id = match parse_window_id(id_text) {
        Ok(id) => id,
        Err(e) => return Err(e),
    };
    if !has_hdr {
        Ok(WindowRoute::Json(id))
    } else {
        Ok(WindowRoute::WebSocket(id))
    }
}

/// The answer to a metadata request, from what the window manager found
/// under the id: the metadata, or `WindowIdNotExist`.
pub fn window_json(found: Option<WindowMetaData>) -> (result: Result<WindowMetaData, HttpApiError>)
    ensures
        match found {
            Some(m) => result == Ok::<WindowMetaData, HttpApiError>(m),
            None => result == Err::<WindowMetaData, HttpApiError>(HttpApiError::WindowIdNotExist),
        },
{
    match found {
        Some(m) => Ok(m),
        None => Err(HttpApiError::WindowIdNotExist),
    }
}

/// The decimal digits of `n`, most significant first, as text.
pub open spec fn decimal_text(n: nat) -> Seq<char>
    decreases n,
{
    if n < 10 {
        seq![((n + 48) as u8) as char]
    } else {
        decimal_text(n / 10).push((((n % 10) + 48) as u8) as char)
    }
}

/// The JSON object with the size of a frame, as the WebSocket sends it
/// before the frame's pixels.
pub open spec fn size_json_text(width: u32, height: u32) -> Seq<char> {
    "{\"height\":"@ + decimal_text(height as nat) + ",\"width\":"@ + decimal_text(width as nat) + "}"@
}

/// Writes `{"height":H,"width":W}` with `serde_json`: a `serde_json::Map`
/// with the keys "height" and "width" (inserted in key order, so that the
/// text is the same whether or not the map keeps insertion order), turned
/// into text by `Display` of `serde_json::Value`, which writes compact JSON,
/// numbers in decimal.
#[verifier::external_body]
fn size_json(width: u32, height: u32) -> (text: String)
    ensures
        text@ == size_json_text(width, height),
{
    let mut map = serde_json::Map::new();
    map.insert("height".to_string(), serde_json::Value::from(height));
    map.insert("width".to_string(), serde_json::Value::from(width));
    serde_json::Value::Object(map).to_string()
}

/// A message that arrives on a window's WebSocket.
#[derive(Debug)]
pub enum WsMessage {
    Ping(Vec<u8>),
    Pong(Vec<u8>),
    Text(String),
    Binary(Vec<u8>),
    Closed,
    Error,
    /// Any other frame (a continuation or a no-op).
    Other,
}

/// What the WebSocket of a window does next.
#[derive(Debug)]
pub enum WsAction {
    /// Answer a ping with these bytes.
    Pong(Vec<u8>),
    /// Ask the window manager to finish the window's frame.
    NextFrame,
    /// Send this text.
    Text(String),
    /// Send these bytes.
    Binary(Vec<u8>),
    /// Close the connection.
    Stop,
}

/// The WebSocket that streams the contents of one window.
pub struct WindowStreamWs {
    window_id: u64,
}

impl WindowStreamWs {
    pub closed spec fn spec_window_id(&self) -> u64 {
        self.window_id
    }

    /// A stream of the window with this id.
    pub fn new(window_id: u64) -> (ws: Self)
        ensures
            ws.spec_window_id() == window_id,
    {
        WindowStreamWs { window_id }
    }

    /// The id of the window that this stream shows.
    pub fn window_id(&self) -> (id: u64)
        ensures
            id == self.spec_window_id(),
    {
        self.window_id
    }

    /// Answers a message from the browser: a ping is answered with a pong of
    /// the same bytes, any text asks for the next frame (the page sends
    /// nothing else), bytes are echoed, a close or an error ends the
    /// connection, and anything else is ignored.
    pub fn handle_message(&self, msg: WsMessage) -> (action: Option<WsAction>)
        ensures
            match (msg, action) {
                (WsMessage::Ping(p), Some(WsAction::Pong(q))) => q@ == p@,
                (WsMessage::Text(_), Some(WsAction::NextFrame)) => true,
                (WsMessage::Binary(b), Some(WsAction::Binary(c))) => c@ == b@,
                (WsMessage::Closed, Some(WsAction::Stop)) => true,
                (WsMessage::Error, Some(WsAction::Stop)) => true,
                (WsMessage::Pong(_), None) => true,
                (WsMessage::Other, None) => true,
                _ => false,
            },
    {
        match msg {
            WsMessage::Ping(p) => Some(WsAction::Pong(p)),
            WsMessage::Text(_) => Some(WsAction::NextFrame),
            WsMessage::Binary(b) => Some(WsAction::Binary(b)),
            WsMessage::Closed => Some(WsAction::Stop),
            WsMessage::Error => Some(WsAction::Stop),
            WsMessage::Pong(_) => None,
            WsMessage::Other => None,
        }
    }

    /// Answers a commit of the window, given what reading its buffer gave: a
    /// new frame is sent as its size in JSON followed by its pixels; a
    /// removed buffer or a failed read sends nothing.
    pub fn handle_commit(&self, buffer: Result<Buffer, WindowError>) -> (actions: Vec<WsAction>)
        ensures
            match buffer {
                Ok(Buffer::Update { data, size }) => {
                    &&& actions@.len() == 2
                    &&& actions@[0] matches WsAction::Text(t) && t@ == size_json_text(size.0, size.1)
                    &&& actions@[1] matches WsAction::Binary(b) && b@ == data@
                },
                _ => actions@.len() == 0,
            },
    {
        let mut actions: Vec<WsAction> = Vec::new();
        match buffer {
            Ok(Buffer::Update { data, size }) => {
                let (width, height) = size;
                actions.push(WsAction::Text(size_json(width, height)));
                actions.push(WsAction::Binary(data));
            },
            Ok(Buffer::Erase) => {},
            Err(_) => {},
        }
        actions
    }
}

} // verus!
