//! The daemon's own decisions: the framing of messages on its socket, the
//! commands it answers, its configuration defaults, and when the database
//! schema is rebuilt.
use vstd::prelude::*;
use crate::text::{chars_eq, chars_of};

verus! {

// ---------------------------------------------------------------------------
// Message framing
// ---------------------------------------------------------------------------

/// The largest request the daemon reads, in bytes.
pub const MAX_MESSAGE_BYTES: u32 = 1048576;

/// The number that four bytes encode, most significant first.
pub open spec fn be_value(b: Seq<u8>) -> int {
    b[0] * 16777216 + b[1] * 65536 + b[2] * 256 + b[3]
}

/// The four bytes that encode `v` (below 2^32), most significant first.
pub open spec fn be_bytes(v: int) -> Seq<u8> {
    seq![(v / 16777216) as u8, ((v / 65536) % 256) as u8, ((v / 256) % 256) as u8, (v % 256) as u8]
}

/// The length announced by a request's four-byte header.
pub fn frame_length(header: [u8; 4]) -> (n: u32)
    ensures
        n == be_value(header@),
{
    let b0 = header[0] as u32;
    let b1 = header[1] as u32;
    let b2 = header[2] as u32;
    let b3 = header[3] as u32;
    b0 * 16777216 + b1 * 65536 + b2 * 256 + b3
}

/// The body length to read for an announced length: `None` (the daemon
/// closes the connection) when it is zero or above `MAX_MESSAGE_BYTES`.
pub fn accepted_length(n: u32) -> (r: Option<usize>)
    ensures
        r is None <==> (n == 0 || n > MAX_MESSAGE_BYTES),
        r matches Some(m) ==> m == n,
{
    if n == 0 || n > MAX_MESSAGE_BYTES {
        None
    } else {
        Some(n as usize)
    }
}

/// The header announcing a response of `len` bytes: the length taken
/// modulo 2^32, most significant byte first.
pub fn response_header(len: usize) -> (r: [u8; 4])
    ensures
        r@ == be_bytes(len as int % 4294967296),
{
    let v: u64 = len as u64;
    let w: u64 = v % 4294967296;
    let b0 = (w / 16777216) as u8;
    let b1 = ((w / 65536) % 256) as u8;
    let b2 = ((w / 256) % 256) as u8;
    let b3 = (w % 256) as u8;
    let r = [b0, b1, b2, b3];
    assert(r@ =~= be_bytes(len as int % 4294967296));
    r
}

/// Law: a header written for a length is read back as that length, for
/// every length below 2^32.
pub proof fn law_header_round_trip(v: int)
    requires
        0 <= v < 4294967296,
    ensures
        be_value(be_bytes(v)) == v,
{
    let w = v as u32;
    assert(((w / 16777216) as u8) as u64 * 16777216 + (((w / 65536) % 256) as u8) as u64 * 65536
        + (((w / 256) % 256) as u8) as u64 * 256 + ((w % 256) as u8) as u64 == w as u64)
        by (bit_vector);
    assert(w as int == v);
}

// ---------------------------------------------------------------------------
// Commands
// ---------------------------------------------------------------------------

/// The requests the daemon answers.
#[derive(Clone, Copy, PartialEq, Eq, Structural, Debug)]
pub enum Command {
    /// Search the index.
    Search,
    /// Forget every clipboard entry.
    ClearClipboard,
    /// Anything else.
    Unknown,
}

/// The command named by a request's `command` field.
pub open spec fn command_for(name: Option<Seq<char>>) -> Command {
    match name {
        Some(n) => if n == "search"@ {
            Command::Search
        } else if n == "clear_clipboard"@ {
            Command::ClearClipboard
        } else {
            Command::Unknown
        },
        None => Command::Unknown,
    }
}

/// The characters of an optional string.
pub open spec fn opt_str_view(o: Option<&str>) -> Option<Seq<char>> {
    match o {
        Some(s) => Some(s@),
        None => None,
    }
}

/// The command named by a request's `command` field.
pub fn parse_command(name: Option<&str>) -> (r: Command)
    ensures
        r == command_for(opt_str_view(name)),
{
    match name {
        Some(n) => {
            let v = chars_of(n);
            let search = chars_of("search");
            let clear = chars_of("clear_clipboard");
            if chars_eq(&v, &search) {
                Command::Search
            } else if chars_eq(&v, &clear) {
                Command::ClearClipboard
            } else {
                Command::Unknown
            }
        },
        None => Command::Unknown,
    }
}

/// The fixed answer to a command, or `None` for a search (whose answer is
/// its results).
pub open spec fn fixed_answer(c: Command) -> Option<Seq<char>> {
    match c {
        Command::Search => None,
        Command::ClearClipboard => Some("{\"status\":\"cleared\"}"@),
        Command::Unknown => Some("{\"error\":\"unknown_command\"}"@),
    }
}

/// The fixed answer to a command, or `None` for a search.
pub fn fixed_response(c: Command) -> (r: Option<String>)
    ensures
        match r {
            Some(s) => fixed_answer(c) == Some(s@),
            None => fixed_answer(c) is None,
        },
{
    match c {
        Command::Search => None,
        Command::ClearClipboard => Some("{\"status\":\"cleared\"}".to_owned()),
        Command::Unknown => Some("{\"error\":\"unknown_command\"}".to_owned()),
    }
}

// ---------------------------------------------------------------------------
// Configuration
// ---------------------------------------------------------------------------

/// The folders watched when the configuration names none.
pub open spec fn default_watch_dirs() -> Seq<Seq<char>> {
    seq![
        "~/Downloads"@,
        "~/Desktop"@,
        "~/Documents"@,
        "~/Movies"@,
        "~/Pictures"@,
        "~/.qfinder/notes"@,
    ]
}

/// The views of a list of strings.
pub open spec fn string_views(v: Seq<String>) -> Seq<Seq<char>> {
    Seq::new(v.len(), |i: int| v[i]@)
}

/// The folders to watch: those the configuration names, else the default
/// folders.
pub fn watch_dirs_or_default(configured: Option<Vec<String>>) -> (r: Vec<String>)
    ensures
        string_views(r@) == match configured {
            Some(v) => string_views(v@),
            None => default_watch_dirs(),
        },
{
    match configured {
        Some(v) => v,
        None => {
            let r = vec![
                "~/Downloads".to_owned(),
                "~/Desktop".to_owned(),
                "~/Documents".to_owned(),
                "~/Movies".to_owned(),
                "~/Pictures".to_owned(),
                "~/.qfinder/notes".to_owned(),
            ];
            assert(string_views(r@) =~= default_watch_dirs());
            r
        },
    }
}

/// Whether the clipboard monitor runs: as configured, else yes.
pub fn clipboard_enabled_or_default(configured: Option<bool>) -> (r: bool)
    ensures
        r == match configured {
            Some(b) => b,
            None => true,
        },
{
    match configured {
        Some(b) => b,
        None => true,
    }
}

// ---------------------------------------------------------------------------
// Decoding requests and configuration
// ---------------------------------------------------------------------------

/// The request field naming the command.
pub const COMMAND_FIELD: &'static str = "command";

/// The request field holding the search query.
pub const QUERY_FIELD: &'static str = "query";

/// The request field holding the search scope.
pub const SCOPE_FIELD: &'static str = "scope";

/// The configuration field listing the folders to watch.
pub const WATCH_DIRS_FIELD: &'static str = "watch_dirs";

/// The configuration field switching the clipboard monitor.
pub const CLIPBOARD_FIELD: &'static str = "clipboard_enabled";

/// What reading the bytes `body` as JSON (`serde_json::from_slice` into a
/// `serde_json::Value`) and taking the string value of its field `key`
/// gives: `None` when the bytes are not JSON; else the field's string, or
/// `None` inside when the field is missing or not a string.
pub uninterp spec fn json_string_field(body: Seq<u8>, key: Seq<char>) -> Option<Option<Seq<char>>>;

/// What reading the text `text` as JSON (`serde_json::from_str` into a
/// `serde_json::Value`) and taking the boolean value of its field `key`
/// gives: `None` when the text is not JSON or the field is missing or not a
/// boolean.
pub uninterp spec fn json_bool_field(text: Seq<char>, key: Seq<char>) -> Option<bool>;

/// What reading the text `text` as JSON (`serde_json::from_str` into a
/// `serde_json::Value`) and taking its field `key` as an array gives: `None`
/// when the text is not JSON or the field is missing or not an array; else,
/// for each element in order, its string value (`None` for an element that
/// is not a string).
pub uninterp spec fn json_string_array_field(text: Seq<char>, key: Seq<char>) -> Option<Seq<Option<Seq<char>>>>;

/// The characters of an optional string.
pub open spec fn opt_string_chars(o: Option<String>) -> Option<Seq<char>> {
    match o {
        Some(s) => Some(s@),
        None => None,
    }
}

/// The characters of an optional optional string.
pub open spec fn opt_opt_chars(o: Option<Option<String>>) -> Option<Option<Seq<char>>> {
    match o {
        Some(v) => Some(opt_string_chars(v)),
        None => None,
    }
}

/// The characters of a list of optional strings.
pub open spec fn opt_strings_view(v: Seq<Option<String>>) -> Seq<Option<Seq<char>>> {
    Seq::new(v.len(), |i: int| opt_string_chars(v[i]))
}

/// Calls `serde_json::from_slice` into a `serde_json::Value`, indexes it by
/// `key` and takes `Value::as_str`. Claims only that the outcome is a
/// function of the bytes and the key.
#[verifier::external_body]
fn json_body_string(body: &[u8], key: &str) -> (r: Option<Option<String>>)
    ensures
        opt_opt_chars(r) == json_string_field(body@, key@),
{
    let v: serde_json::Value = serde_json::from_slice(body).ok()?;
    Some(v[key].as_str().map(String::from))
}

/// Calls `serde_json::from_str` into a `serde_json::Value`, indexes it by
/// `key` and takes `Value::as_bool`. Claims only that the outcome is a
/// function of the text and the key.
#[verifier::external_body]
fn json_text_bool(text: &str, key: &str) -> (r: Option<bool>)
    ensures
        r == json_bool_field(text@, key@),
{
    let v: serde_json::Value = serde_json::from_str(text).ok()?;
    v[key].as_bool()
}

/// Calls `serde_json::from_str` into a `serde_json::Value`, indexes it by
/// `key`, takes `Value::as_array` and `Value::as_str` of each element.
/// Claims only that the outcome is a function of the text and the key.
#[verifier::external_body]
fn json_text_string_array(text: &str, key: &str) -> (r: Option<Vec<Option<String>>>)
    ensures
        match r {
            Some(v) => json_string_array_field(text@, key@) == Some(opt_strings_view(v@)),
            None => json_string_array_field(text@, key@) is None,
        },
{
    let v: serde_json::Value = serde_json::from_str(text).ok()?;
    Some(v[key].as_array()?.iter().map(|x| x.as_str().map(String::from)).collect())
}

/// A decoded request.
pub struct Request {
    /// The command it names.
    pub command: Command,
    /// The search query (empty when absent).
    pub query: String,
    /// The search scope, when given.
    pub scope: Option<String>,
}

/// The string value of a request field, or `None` when it has none.
pub open spec fn field_value(body: Seq<u8>, key: Seq<char>) -> Option<Seq<char>> {
    match json_string_field(body, key) {
        Some(v) => v,
        None => None,
    }
}

/// A request made of the values of its fields: the command named by the
/// `command` field, the `query` field (empty when absent), and the `scope`
/// field.
pub fn request_from_fields(command: Option<String>, query: Option<String>, scope: Option<String>) -> (r: Request)
    ensures
        r.command == command_for(opt_string_chars(command)),
        r.query@ == (match query {
            Some(q) => q@,
            None => Seq::empty(),
        }),
        opt_string_chars(r.scope) == opt_string_chars(scope),
{
    let command = match command {
        Some(c) => parse_command(Some(c.as_str())),
        None => Command::Unknown,
    };
    let query = match query {
        Some(q) => q,
        None => String::new(),
    };
    Request { command, query, scope }
}

/// Decodes a request body: `None` when it is not JSON; else the command
/// named by its `command` field, its `query` field (empty when absent) and
/// its `scope` field.
pub fn decode_request(body: &[u8]) -> (r: Option<Request>)
    ensures
        r is None <==> json_string_field(body@, COMMAND_FIELD@) is None,
        r matches Some(req) ==> {
            &&& req.command == command_for(field_value(body@, COMMAND_FIELD@))
            &&& req.query@ == (match field_value(body@, QUERY_FIELD@) {
                Some(q) => q,
                None => Seq::empty(),
            })
            &&& opt_string_chars(req.scope) == field_value(body@, SCOPE_FIELD@)
        },
{
    let command = match json_body_string(body, COMMAND_FIELD) {
        None => return None,
        Some(c) => c,
    };
    let query = match json_body_string(body, QUERY_FIELD) {
        Some(q) => q,
        None => None,
    };
    let scope = match json_body_string(body, SCOPE_FIELD) {
        Some(s) => s,
        None => None,
    };
    Some(request_from_fields(command, query, scope))
}

/// The strings among `v`, in order.
pub open spec fn strings_only(v: Seq<Option<Seq<char>>>) -> Seq<Seq<char>>
    decreases v.len(),
{
    if v.len() == 0 {
        Seq::empty()
    } else {
        let rest = strings_only(v.drop_last());
        match v.last() {
            Some(s) => rest.push(s),
            None => rest,
        }
    }
}

/// The folders and clipboard switch of a configuration whose fields were
/// read as `dirs` and `clipboard`: the string elements of the folder list,
/// or the default folders when there is no list; the switch, or on.
pub fn config_from_fields(dirs: Option<Vec<Option<String>>>, clipboard: Option<bool>) -> (r: (Vec<String>, bool))
    ensures
        string_views(r.0@) == match dirs {
            Some(v) => strings_only(opt_strings_view(v@)),
            None => default_watch_dirs(),
        },
        r.1 == match clipboard {
            Some(b) => b,
            None => true,
        },
{
    let configured = match dirs {
        Some(v) => {
            let mut out: Vec<String> = Vec::new();
            let mut i: usize = 0;
            let ghost view = opt_strings_view(v@);
            while i < v.len()
                invariant
                    i <= v.len(),
                    view == opt_strings_view(v@),
                    string_views(out@) == strings_only(view.take(i as int)),
                decreases v.len() - i,
            {
                assert(view.take(i + 1).drop_last() =~= view.take(i as int));
                match &v[i] {
                    Some(d) => {
                        let ghost before = out@;
                        out.push(d.clone());
                        assert(string_views(out@) =~= string_views(before).push(d@));
                    },
                    None => {},
                }
                i += 1;
            }
            assert(view.take(i as int) =~= view);
            Some(out)
        },
        None => None,
    };
    (watch_dirs_or_default(configured), clipboard_enabled_or_default(clipboard))
}

/// The folders to watch and whether to watch the clipboard, from the
/// configuration text (`None` when there is no configuration): the string
/// elements of its `watch_dirs` array, or the default folders; its
/// `clipboard_enabled` boolean, or on.
pub fn config_from_json(text: Option<&str>) -> (r: (Vec<String>, bool))
    ensures
        string_views(r.0@) == match text {
            Some(t) => match json_string_array_field(t@, WATCH_DIRS_FIELD@) {
                Some(v) => strings_only(v),
                None => default_watch_dirs(),
            },
            None => default_watch_dirs(),
        },
        r.1 == match text {
            Some(t) => match json_bool_field(t@, CLIPBOARD_FIELD@) {
                Some(b) => b,
                None => true,
            },
            None => true,
        },
{
    match text {
        Some(t) => {
            let dirs = json_text_string_array(t, WATCH_DIRS_FIELD);
            let clipboard = json_text_bool(t, CLIPBOARD_FIELD);
            config_from_fields(dirs, clipboard)
        },
        None => config_from_fields(None, None),
    }
}

// ---------------------------------------------------------------------------
// Database schema
// ---------------------------------------------------------------------------

/// The version of the database schema that this daemon writes.
pub const SCHEMA_VERSION: i32 = 2;

/// Whether a database at schema version `version` must be rebuilt.
pub fn needs_schema_reset(version: i32) -> (r: bool)
    ensures
        r == (version < SCHEMA_VERSION),
{
    version < SCHEMA_VERSION
}

} // verus!
