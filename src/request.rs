//! One request line in, one response line out: decoding and validating the
//! request, the verdict, and encoding the response.

use vstd::prelude::*;
use vstd::string::StringExecFns;
use vstd::utf8::encode_utf8;
use num_bigint::{BigInt, Sign};
use serde_json::{Number, Value};
use crate::json::{
    fits_f64, finite_f64_text, is_json_whitespace, is_member_token, json_string, json_view, number_text, parse_value,
    parsed_json, quote, JsonView,
};
use crate::primality::{
    bigint_value, integer_text_value, is_integer_text, parse_decimal, prime_verdict, probably_prime,
};

verus! {

/// Why a line is not a request.
#[derive(Debug, Clone, Copy, PartialEq, Eq, Structural)]
pub enum DecodeError {
    /// The line is not one JSON object.
    Malformed,
    /// `method` is absent or not a string.
    BadMethod,
    /// `number` is absent, not a number, or neither an integer nor a finite float.
    BadNumber,
}

/// The `number` of a request: an integer literal of any size, or another
/// numeric literal that reads as a finite float (kept as its text).
pub enum RequestNumber {
    Integer(BigInt),
    Float(String),
}

pub struct Request {
    pub method: String,
    pub number: RequestNumber,
}

pub enum NumberView {
    Integer(int),
    Float(Seq<char>),
}

pub struct RequestView {
    pub method: Seq<char>,
    pub number: NumberView,
}

impl View for RequestNumber {
    type V = NumberView;

    open spec fn view(&self) -> NumberView {
        match self {
            RequestNumber::Integer(n) => NumberView::Integer(bigint_value(*n)),
            RequestNumber::Float(t) => NumberView::Float(t@),
        }
    }
}

impl View for Request {
    type V = RequestView;

    open spec fn view(&self) -> RequestView {
        RequestView { method: self.method@, number: self.number@ }
    }
}

pub open spec fn method_key() -> Seq<char> {
    seq!['m', 'e', 't', 'h', 'o', 'd']
}

pub open spec fn number_key() -> Seq<char> {
    seq!['n', 'u', 'm', 'b', 'e', 'r']
}

/// How a numeric literal is read: as an integer where it is one, else as a
/// float where it is a finite one.
pub open spec fn number_from_text(t: Seq<char>) -> Option<NumberView> {
    if is_integer_text(t) {
        Some(NumberView::Integer(integer_text_value(t)))
    } else if finite_f64_text(t) {
        Some(NumberView::Float(t))
    } else {
        None
    }
}

/// The request that a JSON value states; members other than `method` and
/// `number` play no part. A member given twice counts once, with its later
/// value, as in the object that `serde_json` reads. An object that
/// `serde_json` itself reads as a number (one whose first key is its private
/// number token) counts as that number.
pub open spec fn request_from_json(j: JsonView) -> Result<RequestView, DecodeError> {
    match j {
        JsonView::Object(m) => {
            if !(m.contains_key(method_key()) && m[method_key()] is Str) {
                Err(DecodeError::BadMethod)
            } else if !(m.contains_key(number_key()) && m[number_key()] is Num
                && number_from_text(m[number_key()]->Num_0) is Some) {
                Err(DecodeError::BadNumber)
            } else {
                Ok(
                    RequestView {
                        method: m[method_key()]->Str_0,
                        number: number_from_text(m[number_key()]->Num_0).unwrap(),
                    },
                )
            }
        },
        _ => Err(DecodeError::Malformed),
    }
}

/// The request that a line states.
pub open spec fn request_from_line(line: Seq<u8>) -> Result<RequestView, DecodeError> {
    match parsed_json(line) {
        Some(j) => request_from_json(j),
        None => Err(DecodeError::Malformed),
    }
}

pub open spec fn request_result_view(r: Result<Request, DecodeError>) -> Result<RequestView, DecodeError> {
    match r {
        Ok(q) => Ok(q@),
        Err(e) => Err(e),
    }
}

fn decode_number(n: &Number) -> (r: Option<RequestNumber>)
    ensures
        r.is_some() == number_from_text(number_text(*n)).is_some(),
        r.is_some() ==> number_from_text(number_text(*n)) == Some(r.unwrap()@),
{
    let text = n.as_str();
    match parse_decimal(text) {
        Some(i) => Some(RequestNumber::Integer(i)),
        None => {
            if fits_f64(n) {
                Some(RequestNumber::Float(text.to_owned()))
            } else {
                None
            }
        },
    }
}

/// Reads a request out of a parsed JSON value.
pub fn decode_value(v: &Value) -> (r: Result<Request, DecodeError>)
    ensures
        request_result_view(r) == request_from_json(json_view(*v)),
{
    proof {
        reveal_strlit("/method");
        reveal_strlit("/number");
        assert("/method"@.drop_first() =~= method_key());
        assert("/number"@.drop_first() =~= number_key());
        assert(is_member_token(method_key()) && is_member_token(number_key())) by {
            assert(!('0' <= method_key()[0] && method_key()[0] <= '9'));
            assert(!('0' <= number_key()[0] && number_key()[0] <= '9'));
        }
    }
    if !v.is_object() {
        return Err(DecodeError::Malformed);
    }
    let method = match v.pointer("/method") {
        Some(m) => match m.as_str() {
            Some(text) => text,
            None => return Err(DecodeError::BadMethod),
        },
        None => return Err(DecodeError::BadMethod),
    };
    let number = match v.pointer("/number") {
        Some(n) => match n.as_number() {
            Some(n) => n,
            None => return Err(DecodeError::BadNumber),
        },
        None => return Err(DecodeError::BadNumber),
    };
    match decode_number(number) {
        Some(number) => Ok(Request { method: method.to_owned(), number }),
        None => Err(DecodeError::BadNumber),
    }
}

/// The verdict on a number: a float is never prime, nor is a negative
/// integer; a non-negative integer gets the verdict of `num-prime`.
pub open spec fn verdict(n: NumberView) -> bool {
    match n {
        NumberView::Float(_) => false,
        NumberView::Integer(i) => i >= 0 && prime_verdict(i as nat),
    }
}

impl Request {
    /// Whether the number of the request is (probably) prime.
    pub fn is_prime(&self) -> (r: bool)
        ensures
            r == verdict(self.number@),
    {
        match &self.number {
            RequestNumber::Float(_) => false,
            RequestNumber::Integer(n) => match n.sign() {
                Sign::Minus => false,
                _ => probably_prime(n.magnitude()),
            },
        }
    }
}

/// The response line: `method` first, then `prime`, then a newline.
pub open spec fn response_text(method: Seq<char>, prime: bool) -> Seq<char> {
    "{\"method\":"@ + json_string(method) + ",\"prime\":"@ + (if prime {
        "true"@
    } else {
        "false"@
    }) + "}\n"@
}

/// Writes the response line for a method and a verdict.
pub fn encode_response(method: &str, prime: bool) -> (r: String)
    ensures
        r@ == response_text(method@, prime),
{
    let mut out = String::new();
    out.append("{\"method\":");
    let quoted = quote(method).unwrap();
    out.append(quoted.as_str());
    out.append(",\"prime\":");
    if prime {
        out.append("true");
    } else {
        out.append("false");
    }
    out.append("}\n");
    out
}

pub open spec fn reply_view(r: Result<String, DecodeError>) -> Result<Seq<char>, DecodeError> {
    match r {
        Ok(s) => Ok(s@),
        Err(e) => Err(e),
    }
}

/// The outcome of processing a line: the decode error of the line, or the
/// response line with the verdict on its number.
pub open spec fn reply_for_line(line: Seq<u8>) -> Result<Seq<char>, DecodeError> {
    match request_from_line(line) {
        Err(e) => Err(e),
        Ok(q) => Ok(response_text(q.method, verdict(q.number))),
    }
}

/// Reads one request line (with or without its line terminator) and writes
/// the response line.
pub fn respond(line: &[u8]) -> (r: Result<String, DecodeError>)
    ensures
        reply_view(r) == reply_for_line(line@),
        forall|w: u8| #[trigger] is_json_whitespace(w) ==> reply_for_line(line@.push(w)) == reply_view(r),
{
    let value = match parse_value(line) {
        Ok(v) => v,
        Err(_) => return Err(DecodeError::Malformed),
    };
    let request = match decode_value(&value) {
        Ok(q) => q,
        Err(e) => return Err(e),
    };
    let prime = request.is_prime();
    Ok(encode_response(request.method.as_str(), prime))
}

/// Processes one request given as text.
pub fn handle_request(json: String) -> (r: Result<String, DecodeError>)
    ensures
        reply_view(r) == reply_for_line(encode_utf8(json@)),
{
    respond(json.as_str().as_bytes())
}

} // verus!
