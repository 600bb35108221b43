//! The request codec: from the text of one frame to a typed request, and back.
//!
//! A frame is a header line `Rustis <version>`, a command keyword, and the
//! command's arguments, one per line; the last argument of `publish`, `set`
//! and `setex` takes all remaining lines.

use vstd::prelude::*;
use crate::decimal::{decimal_text, parse_u64, parse_u64_spec, u64_to_text};
use crate::text::{join_from, join_lines, lines_of, split_lines, views_of};

verus! {

/// The version that this server speaks. A request must name exactly this one.
pub const VERSION: &'static str = "1.0.0";

/// The shape of a header line, as a regular expression.
pub const HEADER_PATTERN: &'static str = "^Rustis (\\d{1,4}\\.\\d{1,4}\\.\\d{1,4})$";

/// The group of `HEADER_PATTERN` that holds the version.
pub const VERSION_GROUP: usize = 1;

/// A request as a client sent it.
#[derive(Debug)]
pub enum RequestPacket {
    Publish { channel: String, message: String },
    Subscribe { channel: String },
    SetValue { key: String, value: String },
    SetEx { key: String, value: String, ttl: u64 },
    Get { key: String },
    Ttl { key: String },
    Unknown,
    Invalid { error: String },
}

/// What a request says, with its texts as sequences of characters.
pub enum Request {
    Publish { channel: Seq<char>, message: Seq<char> },
    Subscribe { channel: Seq<char> },
    SetValue { key: Seq<char>, value: Seq<char> },
    SetEx { key: Seq<char>, value: Seq<char>, ttl: u64 },
    Get { key: Seq<char> },
    Ttl { key: Seq<char> },
    Unknown,
    Invalid { error: Seq<char> },
}

impl View for RequestPacket {
    type V = Request;

    open spec fn view(&self) -> Request {
        match self {
            RequestPacket::Publish { channel, message } => Request::Publish {
                channel: channel@,
                message: message@,
            },
            RequestPacket::Subscribe { channel } => Request::Subscribe { channel: channel@ },
            RequestPacket::SetValue { key, value } => Request::SetValue {
                key: key@,
                value: value@,
            },
            RequestPacket::SetEx { key, value, ttl } => Request::SetEx {
                key: key@,
                value: value@,
                ttl: *ttl,
            },
            RequestPacket::Get { key } => Request::Get { key: key@ },
            RequestPacket::Ttl { key } => Request::Ttl { key: key@ },
            RequestPacket::Unknown => Request::Unknown,
            RequestPacket::Invalid { error } => Request::Invalid { error: error@ },
        }
    }
}

/// The text that group number `group` took in the leftmost match of the
/// regular expression `pattern` in `text`. `None` where the pattern does not
/// compile, nothing matches, there is no such group, or the group took no
/// part in the match.
pub uninterp spec fn group_text(pattern: Seq<char>, group: usize, text: Seq<char>) -> Option<
    Seq<char>,
>;

/// Runs `regex::Regex::new` on the pattern and `Regex::captures` on the text,
/// and takes the group by `Captures::get` and `Match::as_str`. Together they
/// are a function of pattern, group and text alone; the contract gives their
/// result the name `group_text` and says nothing more of it.
#[verifier::external_body]
fn capture_group(pattern: &str, group: usize, text: &str) -> (found: Option<String>)
    ensures
        found is Some == group_text(pattern@, group, text@) is Some,
        found matches Some(s) ==> group_text(pattern@, group, text@) == Some(s@),
{
    let re = match regex::Regex::new(pattern) {
        Ok(re) => re,
        Err(_) => return None,
    };
    let captures = re.captures(text)?;
    Some(captures.get(group)?.as_str().to_string())
}

/// The request in the lines after a header that named the running version.
pub open spec fn decode_command(lines: Seq<Seq<char>>) -> Request {
    if lines.len() < 2 {
        Request::Unknown
    } else if lines[1] == "publish"@ {
        if lines.len() < 3 {
            Request::Invalid { error: "missing channel"@ }
        } else if lines.len() < 4 {
            Request::Invalid { error: "missing message"@ }
        } else {
            Request::Publish { channel: lines[2], message: join_lines(lines.skip(3)) }
        }
    } else if lines[1] == "subscribe"@ {
        if lines.len() < 3 {
            Request::Invalid { error: "missing channel"@ }
        } else {
            Request::Subscribe { channel: lines[2] }
        }
    } else if lines[1] == "set"@ {
        if lines.len() < 3 {
            Request::Invalid { error: "missing key"@ }
        } else if lines.len() < 4 {
            Request::Invalid { error: "missing value"@ }
        } else {
            Request::SetValue { key: lines[2], value: join_lines(lines.skip(3)) }
        }
    } else if lines[1] == "setex"@ {
        if lines.len() < 3 {
            Request::Invalid { error: "missing key"@ }
        } else if lines.len() < 4 {
            Request::Invalid { error: "missing ttl"@ }
        } else if parse_u64_spec(lines[3]) is None {
            Request::Invalid { error: "invalid ttl"@ }
        } else if lines.len() < 5 {
            Request::Invalid { error: "missing value"@ }
        } else {
            Request::SetEx {
                key: lines[2],
                value: join_lines(lines.skip(4)),
                ttl: parse_u64_spec(lines[3])->0,
            }
        }
    } else if lines[1] == "get"@ {
        if lines.len() < 3 {
            Request::Invalid { error: "missing key"@ }
        } else {
            Request::Get { key: lines[2] }
        }
    } else if lines[1] == "ttl"@ {
        if lines.len() < 3 {
            Request::Invalid { error: "missing key"@ }
        } else {
            Request::Ttl { key: lines[2] }
        }
    } else {
        Request::Unknown
    }
}

/// The request that a frame's lines stand for, given the version found in
/// their header line and the version that the server runs.
pub open spec fn decode(header: Option<Seq<char>>, lines: Seq<Seq<char>>, running: Seq<char>)
    -> Request {
    match header {
        None => Request::Invalid { error: "missing headers"@ },
        Some(version) => if version != running {
            Request::Invalid { error: "version mismatch"@ }
        } else {
            decode_command(lines)
        },
    }
}

/// What `String::from_utf8_lossy` makes of the bytes: their text, with each
/// malformed stretch replaced by the replacement character.
pub uninterp spec fn utf8_lossy(bytes: Seq<u8>) -> Seq<char>;

/// Runs `String::from_utf8_lossy` and copies the result into a `String`.
/// The result is a function of the bytes alone and gets the name
/// `utf8_lossy`; on well-formed UTF-8 it is the text that the bytes encode,
/// as the function's documentation says.
#[verifier::external_body]
fn lossy_text(bytes: &[u8]) -> (text: String)
    ensures
        text@ == utf8_lossy(bytes@),
        vstd::utf8::valid_utf8(bytes@) ==> text@ == vstd::utf8::decode_utf8(bytes@),
{
    String::from_utf8_lossy(bytes).into_owned()
}

/// The header line that names a version.
pub open spec fn header_line(version: Seq<char>) -> Seq<char> {
    "Rustis "@ + version
}

/// The lines of the frame that asks for a request; `None` for the two
/// results of decoding that are no request.
pub open spec fn request_lines(request: Request, version: Seq<char>) -> Option<Seq<Seq<char>>> {
    match request {
        Request::Publish { channel, message } => Some(
            seq![header_line(version), "publish"@, channel, message],
        ),
        Request::Subscribe { channel } => Some(seq![header_line(version), "subscribe"@, channel]),
        Request::SetValue { key, value } => Some(seq![header_line(version), "set"@, key, value]),
        Request::SetEx { key, value, ttl } => Some(
            seq![header_line(version), "setex"@, key, decimal_text(ttl as nat), value],
        ),
        Request::Get { key } => Some(seq![header_line(version), "get"@, key]),
        Request::Ttl { key } => Some(seq![header_line(version), "ttl"@, key]),
        Request::Unknown => None,
        Request::Invalid { .. } => None,
    }
}

/// The text of the frame that asks for a request: its lines, joined.
pub open spec fn frame_text(request: Request, version: Seq<char>) -> Option<Seq<char>> {
    match request_lines(request, version) {
        Some(lines) => Some(join_lines(lines)),
        None => None,
    }
}

/// The request that the bytes of one frame stand for, on a server that runs
/// `VERSION`.
pub open spec fn frame_request(frame: Seq<u8>) -> Request {
    text_request(utf8_lossy(frame))
}

/// The request that the text of one frame stands for, on a server that runs
/// `VERSION`.
pub open spec fn text_request(text: Seq<char>) -> Request {
    decode(
        group_text(HEADER_PATTERN@, VERSION_GROUP, split_lines(text)[0]),
        split_lines(text),
        VERSION@,
    )
}

fn invalid(error: &str) -> (packet: RequestPacket)
    ensures
        packet@ == (Request::Invalid { error: error@ }),
{
    RequestPacket::Invalid { error: error.to_owned() }
}

impl RequestPacket {
    /// Decodes the text of one frame.
    ///
    /// The first line is held against `HEADER_PATTERN`. What the regular
    /// expression finds there is named by `group_text`; `decode` says which
    /// request follows from it and from the lines.
    pub fn new(buf: String) -> (packet: RequestPacket)
        ensures
            packet@ == text_request(buf@),
    {
        let lines = lines_of(buf.as_str());
        proof {
            crate::text::lemma_split_lines_nonempty(buf@);
        }
        let header = capture_group(HEADER_PATTERN, VERSION_GROUP, lines[0].as_str());
        RequestPacket::from_lines(header, &lines, VERSION)
    }

    /// Decodes the lines of one frame, given the version that was found in its
    /// header line (`None` where the line is no header) and the version that
    /// the server runs.
    pub fn from_lines(header: Option<String>, lines: &Vec<String>, running: &str) -> (packet:
        RequestPacket)
        ensures
            packet@ == decode(
                match header {
                    Some(v) => Some(v@),
                    None => None,
                },
                views_of(lines@),
                running@,
            ),
    {
        match header {
            None => invalid("missing headers"),
            Some(version) => {
                if !version.as_str().eq(running) {
                    invalid("version mismatch")
                } else {
                    RequestPacket::command(lines)
                }
            },
        }
    }

    /// Decodes the bytes of one frame, read as UTF-8 with malformed stretches
    /// replaced. Where the bytes are well-formed UTF-8, the request is that
    /// of the text which they encode.
    pub fn from_bytes(frame: &[u8]) -> (packet: RequestPacket)
        ensures
            packet@ == frame_request(frame@),
            vstd::utf8::valid_utf8(frame@) ==> packet@ == text_request(
                vstd::utf8::decode_utf8(frame@),
            ),
    {
        RequestPacket::new(lossy_text(frame))
    }

    /// The text of the frame that asks for this request of a server that runs
    /// `version`. `Unknown` and `Invalid` are no requests and have none.
    pub fn encode(&self, version: &str) -> (text: Option<String>)
        ensures
            match text {
                Some(t) => frame_text(self@, version@) == Some(t@),
                None => frame_text(self@, version@) is None,
            },
    {
        let mut lines: Vec<String> = Vec::new();
        let mut header = "Rustis ".to_owned();
        header.append(version);
        lines.push(header);
        match self {
            RequestPacket::Publish { channel, message } => {
                lines.push("publish".to_owned());
                lines.push(channel.clone());
                lines.push(message.clone());
            },
            RequestPacket::Subscribe { channel } => {
                lines.push("subscribe".to_owned());
                lines.push(channel.clone());
            },
            RequestPacket::SetValue { key, value } => {
                lines.push("set".to_owned());
                lines.push(key.clone());
                lines.push(value.clone());
            },
            RequestPacket::SetEx { key, value, ttl } => {
                lines.push("setex".to_owned());
                lines.push(key.clone());
                lines.push(u64_to_text(*ttl));
                lines.push(value.clone());
            },
            RequestPacket::Get { key } => {
                lines.push("get".to_owned());
                lines.push(key.clone());
            },
            RequestPacket::Ttl { key } => {
                lines.push("ttl".to_owned());
                lines.push(key.clone());
            },
            RequestPacket::Unknown => {
                return None;
            },
            RequestPacket::Invalid { .. } => {
                return None;
            },
        }
        assert(views_of(lines@) == request_lines(self@, version@)->0);
        assert(views_of(lines@).skip(0) == views_of(lines@));
        Some(join_from(&lines, 0))
    }

    /// Decodes command and arguments, the header being settled.
    fn command(lines: &Vec<String>) -> (packet: RequestPacket)
        ensures
            packet@ == decode_command(views_of(lines@)),
    {
        let n = lines.len();
        if n < 2 {
            return RequestPacket::Unknown;
        }
        let keyword = lines[1].as_str();
        if keyword.eq("publish") {
            if n < 3 {
                invalid("missing channel")
            } else if n < 4 {
                invalid("missing message")
            } else {
                RequestPacket::Publish { channel: lines[2].clone(), message: join_from(lines, 3) }
            }
        } else if keyword.eq("subscribe") {
            if n < 3 {
                invalid("missing channel")
            } else {
                RequestPacket::Subscribe { channel: lines[2].clone() }
            }
        } else if keyword.eq("set") {
            if n < 3 {
                invalid("missing key")
            } else if n < 4 {
                invalid("missing value")
            } else {
                RequestPacket::SetValue { key: lines[2].clone(), value: join_from(lines, 3) }
            }
        } else if keyword.eq("setex") {
            if n < 3 {
                invalid("missing key")
            } else if n < 4 {
                invalid("missing ttl")
            } else {
                match parse_u64(lines[3].as_str()) {
                    None => invalid("invalid ttl"),
                    Some(ttl) => {
                        if n < 5 {
                            invalid("missing value")
                        } else {
                            RequestPacket::SetEx {
                                key: lines[2].clone(),
                                value: join_from(lines, 4),
                                ttl,
                            }
                        }
                    },
                }
            }
        } else if keyword.eq("get") {
            if n < 3 {
                invalid("missing key")
            } else {
                RequestPacket::Get { key: lines[2].clone() }
            }
        } else if keyword.eq("ttl") {
            if n < 3 {
                invalid("missing key")
            } else {
                RequestPacket::Ttl { key: lines[2].clone() }
            }
        } else {
            RequestPacket::Unknown
        }
    }
}

} // verus!
