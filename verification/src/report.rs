//! Log records on responses with which a push gateway refuses metrics.
use vstd::prelude::*;
use crate::text::decimal_text;

verus! {

/// The text with which `std::str::Utf8Error` displays why bytes are no UTF-8.
pub uninterp spec fn utf8_error_text(bytes: Seq<u8>) -> Seq<char>;

/// Reads bytes as UTF-8.
///
/// Calls `std::str::from_utf8`. It succeeds on the valid UTF-8 and on nothing else, and hands back
/// the text that the bytes encode. The error depends on the bytes alone; its displayed text, to
/// which it is converted, goes by the name [`utf8_error_text`].
#[verifier::external_body]
fn utf8_text(bytes: &[u8]) -> (text: Result<String, String>)
    ensures
        text is Ok <==> vstd::utf8::valid_utf8(bytes@),
        text matches Ok(t) ==> t@ == vstd::utf8::decode_utf8(bytes@),
        text matches Err(e) ==> e@ == utf8_error_text(bytes@),
{
    match std::str::from_utf8(bytes) {
        Ok(text) => Ok(text.to_string()),
        Err(err) => Err(err.to_string()),
    }
}

/// A record to be logged on a response with which the gateway refused metrics.
#[derive(Debug)]
pub enum ResponseReport {
    /// A warning: the gateway answered a push with this status and this body.
    Refused { status: u16, body: String, endpoint: String },
    /// An error: the body of the answer could not be read.
    Unreadable { status: u16, err: String, endpoint: String },
}

/// The text that stands for a body of `len` bytes that is no UTF-8 for the given reason.
pub open spec fn non_utf8_text(len: nat, err: Seq<char>) -> Seq<char> {
    "(Non UTF-8 body with length "@ + crate::text::decimal(len) + "B: "@ + err + ")"@
}

/// The text by which a response body is logged.
pub open spec fn body_text(body: Seq<u8>) -> Seq<char> {
    if vstd::utf8::valid_utf8(body) {
        vstd::utf8::decode_utf8(body)
    } else {
        non_utf8_text(body.len(), utf8_error_text(body))
    }
}

impl ResponseReport {
    /// Whether this is the record on a response of the gateway at `endpoint` with the given status,
    /// whose body was read, or could not be read for the given reason.
    pub open spec fn is_on(
        self,
        endpoint: Seq<char>,
        status: u16,
        body: Result<Vec<u8>, String>,
    ) -> bool {
        match (self, body) {
            (ResponseReport::Refused { status: s, body: b, endpoint: e }, Ok(bytes)) => {
                s == status && b@ == body_text(bytes@) && e@ == endpoint
            },
            (ResponseReport::Unreadable { status: s, err: r, endpoint: e }, Err(reason)) => {
                s == status && r@ == reason@ && e@ == endpoint
            },
            _ => false,
        }
    }
}

/// A record carries the status and the endpoint that it is about. If the body was read, it is
/// a warning with the text of the body, or with the length of the body and the reason why it has no
/// text; otherwise it is an error with the reason why the body was not read.
pub proof fn lemma_record(
    report: ResponseReport,
    endpoint: Seq<char>,
    status: u16,
    body: Result<Vec<u8>, String>,
)
    requires
        report.is_on(endpoint, status, body),
    ensures
        body matches Ok(bytes) ==> (report matches ResponseReport::Refused {
            status: s,
            body: text,
            endpoint: e,
        } && s == status && e@ == endpoint && (if vstd::utf8::valid_utf8(bytes@) {
            text@ == vstd::utf8::decode_utf8(bytes@)
        } else {
            text@ == "(Non UTF-8 body with length "@ + crate::text::decimal(bytes@.len()) + "B: "@
                + utf8_error_text(bytes@) + ")"@
        })),
        body matches Err(reason) ==> (report matches ResponseReport::Unreadable {
            status: s,
            err,
            endpoint: e,
        } && s == status && e@ == endpoint && err@ == reason@),
        forall|len: nat, err: Seq<char>| #[trigger]
            non_utf8_text(len, err) == "(Non UTF-8 body with length "@ + crate::text::decimal(len)
                + "B: "@ + err + ")"@,
{
}

/// Returns the text by which a body is logged, given its length and what came of reading it
/// as UTF-8: its text, or the reason why it has none.
pub fn describe_body(len: usize, read: Result<String, String>) -> (text: String)
    ensures
        read matches Ok(t) ==> text@ == t@,
        read matches Err(e) ==> text@ == non_utf8_text(len as nat, e@),
{
    match read {
        Ok(text) => text,
        Err(err) => {
            let mut text = "(Non UTF-8 body with length ".to_owned();
            text.append(decimal_text(len as u128).as_str());
            text.append("B: ");
            text.append(err.as_str());
            text.append(")");
            text
        },
    }
}

/// Makes the record on a response of the gateway at `endpoint` that came with the given status,
/// and whose body was read, or could not be read for the given reason.
pub fn report_erroneous_response(
    endpoint: String,
    status: u16,
    body: Result<Vec<u8>, String>,
) -> (report: ResponseReport)
    ensures
        report.is_on(endpoint@, status, body),
{
    match body {
        Ok(bytes) => {
            let read = utf8_text(bytes.as_slice());
            ResponseReport::Refused { status, body: describe_body(bytes.len(), read), endpoint }
        },
        Err(err) => ResponseReport::Unreadable { status, err, endpoint },
    }
}

} // verus!
