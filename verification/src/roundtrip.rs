//! What holds between encoding and decoding a request.

use vstd::prelude::*;
use crate::decimal::{
    decimal_text,
    lemma_decimal_text,
    lemma_parse_decimal_text,
    parse_u64_spec,
};
use crate::packetreader::{
    decode,
    decode_command,
    frame_text,
    header_line,
    request_lines,
    Request,
};
use crate::text::{
    join_lines,
    lemma_join_split,
    lemma_split_join_tail,
    single_line,
    split_lines,
};

verus! {

/// The first argument of a request: its channel or its key.
pub open spec fn first_argument(request: Request) -> Seq<char> {
    match request {
        Request::Publish { channel, .. } => channel,
        Request::Subscribe { channel } => channel,
        Request::SetValue { key, .. } => key,
        Request::SetEx { key, .. } => key,
        Request::Get { key } => key,
        Request::Ttl { key } => key,
        Request::Unknown => Seq::<char>::empty(),
        Request::Invalid { .. } => Seq::<char>::empty(),
    }
}

/// A request that a frame can carry: one of the six commands, with a channel
/// or key that stays on its line.
pub open spec fn encodable(request: Request) -> bool {
    &&& !(request is Unknown)
    &&& !(request is Invalid)
    &&& single_line(first_argument(request))
}

/// The six keywords are pairwise different, and none holds a newline.
proof fn lemma_keywords()
    ensures
        "publish"@ != "subscribe"@,
        "publish"@ != "set"@,
        "publish"@ != "setex"@,
        "publish"@ != "get"@,
        "publish"@ != "ttl"@,
        "subscribe"@ != "set"@,
        "subscribe"@ != "setex"@,
        "subscribe"@ != "get"@,
        "subscribe"@ != "ttl"@,
        "set"@ != "setex"@,
        "set"@ != "get"@,
        "set"@ != "ttl"@,
        "setex"@ != "get"@,
        "setex"@ != "ttl"@,
        "get"@ != "ttl"@,
        single_line("publish"@),
        single_line("subscribe"@),
        single_line("set"@),
        single_line("setex"@),
        single_line("get"@),
        single_line("ttl"@),
        single_line("Rustis "@),
{
    reveal_strlit("publish");
    reveal_strlit("subscribe");
    reveal_strlit("set");
    reveal_strlit("setex");
    reveal_strlit("get");
    reveal_strlit("ttl");
    reveal_strlit("Rustis ");
    assert("publish"@.len() == 7 && "subscribe"@.len() == 9 && "setex"@.len() == 5);
    assert("set"@.len() == 3 && "get"@.len() == 3 && "ttl"@.len() == 3);
    assert("set"@[0] != "get"@[0]);
    assert("set"@[0] != "ttl"@[0]);
    assert("get"@[0] != "ttl"@[0]);
}

/// Decoding gives back what was encoded: for each of the six commands, for
/// every channel or key without a newline, and for every message or value,
/// newlines included, the frame text of the request decodes to that request.
pub proof fn lemma_decode_encode(request: Request, version: Seq<char>)
    requires
        encodable(request),
        single_line(version),
    ensures
        frame_text(request, version) is Some,
        decode(Some(version), split_lines(frame_text(request, version)->0), version) == request,
{
    lemma_keywords();
    let all = request_lines(request, version)->0;
    let heads = all.drop_last();
    let tail = all.last();
    assert(heads.push(tail) == all);
    assert(single_line(header_line(version)));
    let lines = split_lines(join_lines(all));
    match request {
        Request::Publish { channel, message } => {
            lemma_split_join_tail(heads, tail);
            lemma_join_split(message);
            assert(lines.skip(3) == split_lines(message));
        },
        Request::SetValue { key, value } => {
            lemma_split_join_tail(heads, tail);
            lemma_join_split(value);
            assert(lines.skip(3) == split_lines(value));
        },
        Request::SetEx { key, value, ttl } => {
            lemma_decimal_text(ttl as nat);
            lemma_parse_decimal_text(ttl);
            assert(single_line(decimal_text(ttl as nat)));
            lemma_split_join_tail(heads, tail);
            lemma_join_split(value);
            assert(lines.skip(4) == split_lines(value));
            assert(parse_u64_spec(lines[3]) == Some(ttl));
        },
        _ => {
            lemma_split_join_tail(heads, tail);
            crate::text::lemma_split_single_line(tail);
        },
    }
    crate::text::lemma_split_lines_nonempty(tail);
    assert(decode_command(lines) == request);
}

/// A frame whose header names another version than the one that runs is
/// answered with "version mismatch", whatever its other lines hold.
pub proof fn lemma_version_mismatch(version: Seq<char>, lines: Seq<Seq<char>>, running: Seq<char>)
    requires
        version != running,
    ensures
        decode(Some(version), lines, running) == (Request::Invalid { error: "version mismatch"@ }),
{
}

} // verus!
