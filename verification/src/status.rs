//! The reason phrases of HTTP status codes.
use vstd::prelude::*;

verus! {

/// The standard reason phrase of a status code, if the code is a known one.
pub open spec fn reason_phrase(code: u16) -> Option<Seq<char>> {
    match code {
        100 => Some("Continue"@),
        101 => Some("Switching Protocols"@),
        102 => Some("Processing"@),
        200 => Some("OK"@),
        201 => Some("Created"@),
        202 => Some("Accepted"@),
        203 => Some("Non Authoritative Information"@),
        204 => Some("No Content"@),
        205 => Some("Reset Content"@),
        206 => Some("Partial Content"@),
        207 => Some("Multi-Status"@),
        208 => Some("Already Reported"@),
        226 => Some("IM Used"@),
        300 => Some("Multiple Choices"@),
        301 => Some("Moved Permanently"@),
        302 => Some("Found"@),
        303 => Some("See Other"@),
        304 => Some("Not Modified"@),
        305 => Some("Use Proxy"@),
        307 => Some("Temporary Redirect"@),
        308 => Some("Permanent Redirect"@),
        400 => Some("Bad Request"@),
        401 => Some("Unauthorized"@),
        402 => Some("Payment Required"@),
        403 => Some("Forbidden"@),
        404 => Some("Not Found"@),
        405 => Some("Method Not Allowed"@),
        406 => Some("Not Acceptable"@),
        407 => Some("Proxy Authentication Required"@),
        408 => Some("Request Timeout"@),
        409 => Some("Conflict"@),
        410 => Some("Gone"@),
        411 => Some("Length Required"@),
        412 => Some("Precondition Failed"@),
        413 => Some("Payload Too Large"@),
        414 => Some("URI Too Long"@),
        415 => Some("Unsupported Media Type"@),
        416 => Some("Range Not Satisfiable"@),
        417 => Some("Expectation Failed"@),
        418 => Some("I'm a teapot"@),
        421 => Some("Misdirected Request"@),
        422 => Some("Unprocessable Entity"@),
        423 => Some("Locked"@),
        424 => Some("Failed Dependency"@),
        426 => Some("Upgrade Required"@),
        428 => Some("Precondition Required"@),
        429 => Some("Too Many Requests"@),
        431 => Some("Request Header Fields Too Large"@),
        451 => Some("Unavailable For Legal Reasons"@),
        500 => Some("Internal Server Error"@),
        501 => Some("Not Implemented"@),
        502 => Some("Bad Gateway"@),
        503 => Some("Service Unavailable"@),
        504 => Some("Gateway Timeout"@),
        505 => Some("HTTP Version Not Supported"@),
        506 => Some("Variant Also Negotiates"@),
        507 => Some("Insufficient Storage"@),
        508 => Some("Loop Detected"@),
        510 => Some("Not Extended"@),
        511 => Some("Network Authentication Required"@),
        _ => None,
    }
}

/// The standard reason phrase of `code`, or `None` for an unknown code.
pub fn canonical_reason(code: u16) -> (r: Option<&'static str>)
    ensures
        match r {
            Some(s) => reason_phrase(code) == Some(s@),
            None => reason_phrase(code) is None,
        },
{
    match code {
        100 => Some("Continue"),
        101 => Some("Switching Protocols"),
        102 => Some("Processing"),
        200 => Some("OK"),
        201 => Some("Created"),
        202 => Some("Accepted"),
        203 => Some("Non Authoritative Information"),
        204 => Some("No Content"),
        205 => Some("Reset Content"),
        206 => Some("Partial Content"),
        207 => Some("Multi-Status"),
        208 => Some("Already Reported"),
        226 => Some("IM Used"),
        300 => Some("Multiple Choices"),
        301 => Some("Moved Permanently"),
        302 => Some("Found"),
        303 => Some("See Other"),
        304 => Some("Not Modified"),
        305 => Some("Use Proxy"),
        307 => Some("Temporary Redirect"),
        308 => Some("Permanent Redirect"),
        400 => Some("Bad Request"),
        401 => Some("Unauthorized"),
        402 => Some("Payment Required"),
        403 => Some("Forbidden"),
        404 => Some("Not Found"),
        405 => Some("Method Not Allowed"),
        406 => Some("Not Acceptable"),
        407 => Some("Proxy Authentication Required"),
        408 => Some("Request Timeout"),
        409 => Some("Conflict"),
        410 => Some("Gone"),
        411 => Some("Length Required"),
        412 => Some("Precondition Failed"),
        413 => Some("Payload Too Large"),
        414 => Some("URI Too Long"),
        415 => Some("Unsupported Media Type"),
        416 => Some("Range Not Satisfiable"),
        417 => Some("Expectation Failed"),
        418 => Some("I'm a teapot"),
        421 => Some("Misdirected Request"),
        422 => Some("Unprocessable Entity"),
        423 => Some("Locked"),
        424 => Some("Failed Dependency"),
        426 => Some("Upgrade Required"),
        428 => Some("Precondition Required"),
        429 => Some("Too Many Requests"),
        431 => Some("Request Header Fields Too Large"),
        451 => Some("Unavailable For Legal Reasons"),
        500 => Some("Internal Server Error"),
        501 => Some("Not Implemented"),
        502 => Some("Bad Gateway"),
        503 => Some("Service Unavailable"),
        504 => Some("Gateway Timeout"),
        505 => Some("HTTP Version Not Supported"),
        506 => Some("Variant Also Negotiates"),
        507 => Some("Insufficient Storage"),
        508 => Some("Loop Detected"),
        510 => Some("Not Extended"),
        511 => Some("Network Authentication Required"),
        _ => None,
    }
}


/// The length, first char, last char and middle char of a phrase.
pub open spec fn phrase_fingerprint(s: Seq<char>) -> (nat, char, char, char) {
    (s.len(), s[0], s[s.len() - 1], s[(s.len() / 2) as int])
}

/// The code whose phrase has fingerprint `f`, or -1 for none.
spec fn code_of_fingerprint(f: (nat, char, char, char)) -> int {
    if f == (8nat, 'C', 'e', 'i') {
        100
    } else     if f == (19nat, 'S', 's', ' ') {
        101
    } else     if f == (10nat, 'P', 'g', 's') {
        102
    } else     if f == (2nat, 'O', 'K', 'K') {
        200
    } else     if f == (7nat, 'C', 'd', 'a') {
        201
    } else     if f == (8nat, 'A', 'd', 'p') {
        202
    } else     if f == (29nat, 'N', 'n', 'i') {
        203
    } else     if f == (10nat, 'N', 't', 'n') {
        204
    } else     if f == (13nat, 'R', 't', 'C') {
        205
    } else     if f == (15nat, 'P', 't', ' ') {
        206
    } else     if f == (12nat, 'M', 's', 'S') {
        207
    } else     if f == (16nat, 'A', 'd', 'R') {
        208
    } else     if f == (7nat, 'I', 'd', 'U') {
        226
    } else     if f == (16nat, 'M', 's', ' ') {
        300
    } else     if f == (17nat, 'M', 'y', 'r') {
        301
    } else     if f == (5nat, 'F', 'd', 'u') {
        302
    } else     if f == (9nat, 'S', 'r', 'O') {
        303
    } else     if f == (12nat, 'N', 'd', 'd') {
        304
    } else     if f == (9nat, 'U', 'y', 'P') {
        305
    } else     if f == (18nat, 'T', 't', ' ') {
        307
    } else     if f == (18nat, 'P', 't', ' ') {
        308
    } else     if f == (11nat, 'B', 't', 'e') {
        400
    } else     if f == (12nat, 'U', 'd', 'o') {
        401
    } else     if f == (16nat, 'P', 'd', 'R') {
        402
    } else     if f == (9nat, 'F', 'n', 'i') {
        403
    } else     if f == (9nat, 'N', 'd', 'F') {
        404
    } else     if f == (18nat, 'M', 'd', 't') {
        405
    } else     if f == (14nat, 'N', 'e', 'e') {
        406
    } else     if f == (29nat, 'P', 'd', 'c') {
        407
    } else     if f == (15nat, 'R', 't', ' ') {
        408
    } else     if f == (8nat, 'C', 't', 'l') {
        409
    } else     if f == (4nat, 'G', 'e', 'n') {
        410
    } else     if f == (15nat, 'L', 'd', 'R') {
        411
    } else     if f == (19nat, 'P', 'd', 'i') {
        412
    } else     if f == (17nat, 'P', 'e', 'T') {
        413
    } else     if f == (12nat, 'U', 'g', 'o') {
        414
    } else     if f == (22nat, 'U', 'e', ' ') {
        415
    } else     if f == (21nat, 'R', 'e', 'S') {
        416
    } else     if f == (18nat, 'E', 'd', 'o') {
        417
    } else     if f == (12nat, 'I', 't', 't') {
        418
    } else     if f == (19nat, 'M', 't', 'e') {
        421
    } else     if f == (20nat, 'U', 'y', 'b') {
        422
    } else     if f == (6nat, 'L', 'd', 'k') {
        423
    } else     if f == (17nat, 'F', 'y', 'e') {
        424
    } else     if f == (16nat, 'U', 'd', 'R') {
        426
    } else     if f == (21nat, 'P', 'd', 'o') {
        428
    } else     if f == (17nat, 'T', 's', ' ') {
        429
    } else     if f == (31nat, 'R', 'e', 'F') {
        431
    } else     if f == (29nat, 'U', 's', 'r') {
        451
    } else     if f == (21nat, 'I', 'r', 'e') {
        500
    } else     if f == (15nat, 'N', 'd', 'l') {
        501
    } else     if f == (11nat, 'B', 'y', 'a') {
        502
    } else     if f == (19nat, 'S', 'e', 'n') {
        503
    } else     if f == (15nat, 'G', 't', ' ') {
        504
    } else     if f == (26nat, 'H', 'd', 'N') {
        505
    } else     if f == (23nat, 'V', 's', 'o') {
        506
    } else     if f == (20nat, 'I', 'e', 'n') {
        507
    } else     if f == (13nat, 'L', 'd', 'e') {
        508
    } else     if f == (12nat, 'N', 'd', 't') {
        510
    } else     if f == (31nat, 'N', 'd', 'i') {
        511
    } else {
        -1
    }
}

proof fn lemma_phrase_determines_code(code: u16)
    ensures
        reason_phrase(code) matches Some(p) ==> code_of_fingerprint(phrase_fingerprint(p)) == code,
{
    reveal_strlit("Continue");
    reveal_strlit("Switching Protocols");
    reveal_strlit("Processing");
    reveal_strlit("OK");
    reveal_strlit("Created");
    reveal_strlit("Accepted");
    reveal_strlit("Non Authoritative Information");
    reveal_strlit("No Content");
    reveal_strlit("Reset Content");
    reveal_strlit("Partial Content");
    reveal_strlit("Multi-Status");
    reveal_strlit("Already Reported");
    reveal_strlit("IM Used");
    reveal_strlit("Multiple Choices");
    reveal_strlit("Moved Permanently");
    reveal_strlit("Found");
    reveal_strlit("See Other");
    reveal_strlit("Not Modified");
    reveal_strlit("Use Proxy");
    reveal_strlit("Temporary Redirect");
    reveal_strlit("Permanent Redirect");
    reveal_strlit("Bad Request");
    reveal_strlit("Unauthorized");
    reveal_strlit("Payment Required");
    reveal_strlit("Forbidden");
    reveal_strlit("Not Found");
    reveal_strlit("Method Not Allowed");
    reveal_strlit("Not Acceptable");
    reveal_strlit("Proxy Authentication Required");
    reveal_strlit("Request Timeout");
    reveal_strlit("Conflict");
    reveal_strlit("Gone");
    reveal_strlit("Length Required");
    reveal_strlit("Precondition Failed");
    reveal_strlit("Payload Too Large");
    reveal_strlit("URI Too Long");
    reveal_strlit("Unsupported Media Type");
    reveal_strlit("Range Not Satisfiable");
    reveal_strlit("Expectation Failed");
    reveal_strlit("I'm a teapot");
    reveal_strlit("Misdirected Request");
    reveal_strlit("Unprocessable Entity");
    reveal_strlit("Locked");
    reveal_strlit("Failed Dependency");
    reveal_strlit("Upgrade Required");
    reveal_strlit("Precondition Required");
    reveal_strlit("Too Many Requests");
    reveal_strlit("Request Header Fields Too Large");
    reveal_strlit("Unavailable For Legal Reasons");
    reveal_strlit("Internal Server Error");
    reveal_strlit("Not Implemented");
    reveal_strlit("Bad Gateway");
    reveal_strlit("Service Unavailable");
    reveal_strlit("Gateway Timeout");
    reveal_strlit("HTTP Version Not Supported");
    reveal_strlit("Variant Also Negotiates");
    reveal_strlit("Insufficient Storage");
    reveal_strlit("Loop Detected");
    reveal_strlit("Not Extended");
    reveal_strlit("Network Authentication Required");
}

/// Each known status code has a phrase of its own: no two codes share one,
/// and a phrase is never empty.
pub proof fn lemma_reason_phrases_distinct(c1: u16, c2: u16)
    ensures
        reason_phrase(c1) matches Some(p) ==> p.len() > 0,
        reason_phrase(c1) is Some && reason_phrase(c1) == reason_phrase(c2) ==> c1 == c2,
{
    lemma_phrase_determines_code(c1);
    lemma_phrase_determines_code(c2);
    reveal_strlit("Continue");
    reveal_strlit("Switching Protocols");
    reveal_strlit("Processing");
    reveal_strlit("OK");
    reveal_strlit("Created");
    reveal_strlit("Accepted");
    reveal_strlit("Non Authoritative Information");
    reveal_strlit("No Content");
    reveal_strlit("Reset Content");
    reveal_strlit("Partial Content");
    reveal_strlit("Multi-Status");
    reveal_strlit("Already Reported");
    reveal_strlit("IM Used");
    reveal_strlit("Multiple Choices");
    reveal_strlit("Moved Permanently");
    reveal_strlit("Found");
    reveal_strlit("See Other");
    reveal_strlit("Not Modified");
    reveal_strlit("Use Proxy");
    reveal_strlit("Temporary Redirect");
    reveal_strlit("Permanent Redirect");
    reveal_strlit("Bad Request");
    reveal_strlit("Unauthorized");
    reveal_strlit("Payment Required");
    reveal_strlit("Forbidden");
    reveal_strlit("Not Found");
    reveal_strlit("Method Not Allowed");
    reveal_strlit("Not Acceptable");
    reveal_strlit("Proxy Authentication Required");
    reveal_strlit("Request Timeout");
    reveal_strlit("Conflict");
    reveal_strlit("Gone");
    reveal_strlit("Length Required");
    reveal_strlit("Precondition Failed");
    reveal_strlit("Payload Too Large");
    reveal_strlit("URI Too Long");
    reveal_strlit("Unsupported Media Type");
    reveal_strlit("Range Not Satisfiable");
    reveal_strlit("Expectation Failed");
    reveal_strlit("I'm a teapot");
    reveal_strlit("Misdirected Request");
    reveal_strlit("Unprocessable Entity");
    reveal_strlit("Locked");
    reveal_strlit("Failed Dependency");
    reveal_strlit("Upgrade Required");
    reveal_strlit("Precondition Required");
    reveal_strlit("Too Many Requests");
    reveal_strlit("Request Header Fields Too Large");
    reveal_strlit("Unavailable For Legal Reasons");
    reveal_strlit("Internal Server Error");
    reveal_strlit("Not Implemented");
    reveal_strlit("Bad Gateway");
    reveal_strlit("Service Unavailable");
    reveal_strlit("Gateway Timeout");
    reveal_strlit("HTTP Version Not Supported");
    reveal_strlit("Variant Also Negotiates");
    reveal_strlit("Insufficient Storage");
    reveal_strlit("Loop Detected");
    reveal_strlit("Not Extended");
    reveal_strlit("Network Authentication Required");
}

} // verus!
