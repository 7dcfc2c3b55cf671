//! Errors of the engine and their texts.

use vstd::prelude::*;
use crate::text::push_decimal;
use crate::text::decimal;

verus! {

/// The name of an HTTP status code: the registered ones and those that
/// common servers add.
pub open spec fn spec_response_code(code: u32) -> Option<Seq<char>> {
    if code == 100 {
        Some("Continue"@)
    } else if code == 101 {
        Some("Switching Protocols"@)
    } else if code == 102 {
        Some("Processing"@)
    } else if code == 200 {
        Some("OK"@)
    } else if code == 201 {
        Some("Created"@)
    } else if code == 202 {
        Some("Accepted"@)
    } else if code == 203 {
        Some("Non-Authoritative Information"@)
    } else if code == 204 {
        Some("No Content"@)
    } else if code == 205 {
        Some("Reset Content"@)
    } else if code == 206 {
        Some("Partial Content"@)
    } else if code == 207 {
        Some("Multi-Status"@)
    } else if code == 208 {
        Some("Already Reported"@)
    } else if code == 226 {
        Some("IM Used"@)
    } else if code == 300 {
        Some("Multiple Choices"@)
    } else if code == 301 {
        Some("Moved Permanently"@)
    } else if code == 302 {
        Some("Found"@)
    } else if code == 303 {
        Some("See Other"@)
    } else if code == 304 {
        Some("Not Modified"@)
    } else if code == 305 {
        Some("Use Proxy"@)
    } else if code == 306 {
        Some("Switch Proxy"@)
    } else if code == 307 {
        Some("Temporary Redirect"@)
    } else if code == 308 {
        Some("Permanent Redirect"@)
    } else if code == 400 {
        Some("Bad Request"@)
    } else if code == 401 {
        Some("Unauthorized"@)
    } else if code == 402 {
        Some("Payment Required"@)
    } else if code == 403 {
        Some("Forbidden"@)
    } else if code == 404 {
        Some("Not Found"@)
    } else if code == 405 {
        Some("Method Not Allowed"@)
    } else if code == 406 {
        Some("Not Acceptable"@)
    } else if code == 407 {
        Some("Proxy Authentication Required"@)
    } else if code == 408 {
        Some("Request Timeout"@)
    } else if code == 409 {
        Some("Conflict"@)
    } else if code == 410 {
        Some("Gone"@)
    } else if code == 411 {
        Some("Length Required"@)
    } else if code == 412 {
        Some("Precondition Failed"@)
    } else if code == 413 {
        Some("Payload Too Large"@)
    } else if code == 414 {
        Some("URI Too Long"@)
    } else if code == 415 {
        Some("Unsupported Media Type"@)
    } else if code == 416 {
        Some("Range Not Satisfiable"@)
    } else if code == 417 {
        Some("Expectation Failed"@)
    } else if code == 418 {
        Some("I'm a teapot"@)
    } else if code == 421 {
        Some("Misdirected Request"@)
    } else if code == 422 {
        Some("Unprocessable Entity"@)
    } else if code == 423 {
        Some("Locked"@)
    } else if code == 424 {
        Some("Failed Dependency"@)
    } else if code == 426 {
        Some("Upgrade Required"@)
    } else if code == 428 {
        Some("Precondition Required"@)
    } else if code == 429 {
        Some("Too Many Requests"@)
    } else if code == 431 {
        Some("Request Header Fields Too Large"@)
    } else if code == 451 {
        Some("Unavailable For Legal Reasons"@)
    } else if code == 500 {
        Some("Internal Server Error"@)
    } else if code == 501 {
        Some("Not Implemented"@)
    } else if code == 502 {
        Some("Bad Gateway"@)
    } else if code == 503 {
        Some("Service Unavailable"@)
    } else if code == 504 {
        Some("Gateway Timeout"@)
    } else if code == 505 {
        Some("HTTP Version Not Supported"@)
    } else if code == 506 {
        Some("Variant Also Negotiates"@)
    } else if code == 507 {
        Some("Insufficient Storage"@)
    } else if code == 508 {
        Some("Loop Detected"@)
    } else if code == 510 {
        Some("Not Extended"@)
    } else if code == 511 {
        Some("Network Authentication Required"@)
    } else if code == 444 {
        Some("No Response"@)
    } else if code == 495 {
        Some("SSL Certificate Error"@)
    } else if code == 496 {
        Some("SSL Certificate Required"@)
    } else if code == 497 {
        Some("HTTP Request Sent to HTTPS Port"@)
    } else if code == 499 {
        Some("Client Closed Request"@)
    } else if code == 520 {
        Some("Unknown Error"@)
    } else if code == 521 {
        Some("Web Server Is Down"@)
    } else if code == 522 {
        Some("Connection Timed Out"@)
    } else if code == 523 {
        Some("Origin Is Unreachable"@)
    } else if code == 524 {
        Some("A Timeout Occurred"@)
    } else if code == 525 {
        Some("SSL Handshake Failed"@)
    } else if code == 526 {
        Some("Invalid SSL Certificate"@)
    } else {
        None
    }
}

/// The name of an HTTP status code, where it has one.
pub fn response_code(code: u32) -> (name: Option<&'static str>)
    ensures
        match name {
            Some(text) => spec_response_code(code) == Some(text@),
            None => spec_response_code(code) is None,
        },
{
    if code == 100 {
        Some("Continue")
    } else if code == 101 {
        Some("Switching Protocols")
    } else if code == 102 {
        Some("Processing")
    } else if code == 200 {
        Some("OK")
    } else if code == 201 {
        Some("Created")
    } else if code == 202 {
        Some("Accepted")
    } else if code == 203 {
        Some("Non-Authoritative Information")
    } else if code == 204 {
        Some("No Content")
    } else if code == 205 {
        Some("Reset Content")
    } else if code == 206 {
        Some("Partial Content")
    } else if code == 207 {
        Some("Multi-Status")
    } else if code == 208 {
        Some("Already Reported")
    } else if code == 226 {
        Some("IM Used")
    } else if code == 300 {
        Some("Multiple Choices")
    } else if code == 301 {
        Some("Moved Permanently")
    } else if code == 302 {
        Some("Found")
    } else if code == 303 {
        Some("See Other")
    } else if code == 304 {
        Some("Not Modified")
    } else if code == 305 {
        Some("Use Proxy")
    } else if code == 306 {
        Some("Switch Proxy")
    } else if code == 307 {
        Some("Temporary Redirect")
    } else if code == 308 {
        Some("Permanent Redirect")
    } else if code == 400 {
        Some("Bad Request")
    } else if code == 401 {
        Some("Unauthorized")
    } else if code == 402 {
        Some("Payment Required")
    } else if code == 403 {
        Some("Forbidden")
    } else if code == 404 {
        Some("Not Found")
    } else if code == 405 {
        Some("Method Not Allowed")
    } else if code == 406 {
        Some("Not Acceptable")
    } else if code == 407 {
        Some("Proxy Authentication Required")
    } else if code == 408 {
        Some("Request Timeout")
    } else if code == 409 {
        Some("Conflict")
    } else if code == 410 {
        Some("Gone")
    } else if code == 411 {
        Some("Length Required")
    } else if code == 412 {
        Some("Precondition Failed")
    } else if code == 413 {
        Some("Payload Too Large")
    } else if code == 414 {
        Some("URI Too Long")
    } else if code == 415 {
        Some("Unsupported Media Type")
    } else if code == 416 {
        Some("Range Not Satisfiable")
    } else if code == 417 {
        Some("Expectation Failed")
    } else if code == 418 {
        Some("I'm a teapot")
    } else if code == 421 {
        Some("Misdirected Request")
    } else if code == 422 {
        Some("Unprocessable Entity")
    } else if code == 423 {
        Some("Locked")
    } else if code == 424 {
        Some("Failed Dependency")
    } else if code == 426 {
        Some("Upgrade Required")
    } else if code == 428 {
        Some("Precondition Required")
    } else if code == 429 {
        Some("Too Many Requests")
    } else if code == 431 {
        Some("Request Header Fields Too Large")
    } else if code == 451 {
        Some("Unavailable For Legal Reasons")
    } else if code == 500 {
        Some("Internal Server Error")
    } else if code == 501 {
        Some("Not Implemented")
    } else if code == 502 {
        Some("Bad Gateway")
    } else if code == 503 {
        Some("Service Unavailable")
    } else if code == 504 {
        Some("Gateway Timeout")
    } else if code == 505 {
        Some("HTTP Version Not Supported")
    } else if code == 506 {
        Some("Variant Also Negotiates")
    } else if code == 507 {
        Some("Insufficient Storage")
    } else if code == 508 {
        Some("Loop Detected")
    } else if code == 510 {
        Some("Not Extended")
    } else if code == 511 {
        Some("Network Authentication Required")
    } else if code == 444 {
        Some("No Response")
    } else if code == 495 {
        Some("SSL Certificate Error")
    } else if code == 496 {
        Some("SSL Certificate Required")
    } else if code == 497 {
        Some("HTTP Request Sent to HTTPS Port")
    } else if code == 499 {
        Some("Client Closed Request")
    } else if code == 520 {
        Some("Unknown Error")
    } else if code == 521 {
        Some("Web Server Is Down")
    } else if code == 522 {
        Some("Connection Timed Out")
    } else if code == 523 {
        Some("Origin Is Unreachable")
    } else if code == 524 {
        Some("A Timeout Occurred")
    } else if code == 525 {
        Some("SSL Handshake Failed")
    } else if code == 526 {
        Some("Invalid SSL Certificate")
    } else {
        None
    }
}

/// What can go wrong in the engine.
#[derive(Debug, Clone, PartialEq, Eq)]
pub enum Error {
    AlreadySubscribed,
    NotSubscribed,
    /// The input ended too early.
    EOF,
    TooManyRedirects,
    /// The document holds no feed.
    EmptyFeed,
    /// The server answered with this status code.
    Http(u32),
    /// The database at this path could not be opened.
    DatabaseOpen(String),
    /// The database at this path could not be saved.
    DatabaseSave(String),
    DatabaseFormat,
    /// The XML reader failed; what it said.
    Xml(String),
    /// The transport failed; what it said.
    Curl(String),
    /// The input is no UTF-8; what the decoder said.
    Utf8(String),
}

impl Error {
    /// The text of the error.
    pub open spec fn spec_message(self) -> Seq<char> {
        match self {
            Error::AlreadySubscribed => "AlreadySubscribed"@,
            Error::NotSubscribed => "NotSubscribed"@,
            Error::EOF => "unexpected EOF"@,
            Error::TooManyRedirects => "too many redirects"@,
            Error::EmptyFeed => "feed is empty or not valid"@,
            Error::Http(code) => "HTTP "@ + decimal(code as nat) + " ("@ + (match spec_response_code(
                code,
            ) {
                Some(name) => name,
                None => "Unknown"@,
            }) + ")"@,
            Error::DatabaseOpen(path) => "failed to open database: '"@ + path@ + "'"@,
            Error::DatabaseSave(path) => "failed to save database: '"@ + path@ + "'"@,
            Error::DatabaseFormat => "illegal database format"@,
            Error::Xml(message) => message@,
            Error::Curl(message) => message@,
            Error::Utf8(message) => message@,
        }
    }

    /// Writes the text of the error.
    pub fn message(&self) -> (text: String)
        ensures
            text@ == self.spec_message(),
    {
        match self {
            Error::AlreadySubscribed => "AlreadySubscribed".to_owned(),
            Error::NotSubscribed => "NotSubscribed".to_owned(),
            Error::EOF => "unexpected EOF".to_owned(),
            Error::TooManyRedirects => "too many redirects".to_owned(),
            Error::EmptyFeed => "feed is empty or not valid".to_owned(),
            Error::Http(code) => {
                let mut text = "HTTP ".to_owned();
                push_decimal(&mut text, *code as u64);
                text.append(" (");
                match response_code(*code) {
                    Some(name) => text.append(name),
                    None => text.append("Unknown"),
                }
                text.append(")");
                text
            },
            Error::DatabaseOpen(path) => {
                let mut text = "failed to open database: '".to_owned();
                text.append(path.as_str());
                text.append("'");
                text
            },
            Error::DatabaseSave(path) => {
                let mut text = "failed to save database: '".to_owned();
                text.append(path.as_str());
                text.append("'");
                text
            },
            Error::DatabaseFormat => "illegal database format".to_owned(),
            Error::Xml(message) => message.clone(),
            Error::Curl(message) => message.clone(),
            Error::Utf8(message) => message.clone(),
        }
    }
}

} // verus!
