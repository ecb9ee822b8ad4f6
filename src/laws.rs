//! Laws that tie the functions of the library together.

use vstd::prelude::*;
use crate::connection::{
    capped_reply, carriage_return, invalid_reply, line_reply, replies_answer, strip_cr,
};
use crate::json::{escape_char, escape_text, finite_f64_text, hex_digit, json_string, parsed_json, JsonView};
use crate::primality::{
    is_digit, is_digit_run, is_integer_text, is_prime_number, lemma_trial_division,
    prime_by_trial_division, DETERMINISTIC_LIMIT,
};
use crate::request::{
    method_key, number_from_text, number_key, reply_for_line, request_from_json, response_text, verdict,
    DecodeError, NumberView, RequestView,
};

verus! {

/// Below 2^64 the verdict on a non-negative integer is primality itself, as
/// trial division up to the square root decides it.
pub proof fn lemma_verdict_exact(n: nat)
    requires
        n < DETERMINISTIC_LIMIT,
    ensures
        verdict(NumberView::Integer(n as int)) == is_prime_number(n),
        verdict(NumberView::Integer(n as int)) == prime_by_trial_division(n),
{
    lemma_trial_division(n);
}

/// No negative integer is found prime.
pub proof fn lemma_negative_not_prime(n: int)
    requires
        n < 0,
    ensures
        !verdict(NumberView::Integer(n)),
{
}

/// No float is found prime, whatever its value.
pub proof fn lemma_float_not_prime(text: Seq<char>)
    ensures
        !verdict(NumberView::Float(text)),
{
}

/// A literal with a fraction or an exponent is read as a float, even where
/// its value is integral, and is not found prime.
pub proof fn lemma_fraction_is_float(text: Seq<char>, i: int)
    requires
        0 <= i < text.len(),
        text[i] == '.' || text[i] == 'e' || text[i] == 'E',
        finite_f64_text(text),
    ensures
        number_from_text(text) == Some(NumberView::Float(text)),
        !verdict(number_from_text(text).unwrap()),
{
    if is_integer_text(text) {
        if is_digit_run(text) {
            assert(is_digit(text[i]) || text[i] == '_');
        } else if i > 0 {
            assert(text.drop_first()[i - 1] == text[i]);
        }
    }
}

/// Replies are a function of their lines: within one connection, two equal
/// lines get equal replies, wherever they stand.
pub proof fn lemma_equal_lines_equal_replies(lines: Seq<Seq<u8>>, out: Seq<String>, i: int, j: int)
    requires
        replies_answer(lines, out),
        0 <= i < lines.len(),
        0 <= j < lines.len(),
        lines[i] == lines[j],
    ensures
        out[i]@ == out[j]@,
{
}

/// Members of a request other than `method` and `number` change nothing.
pub proof fn lemma_extra_member_ignored(members: Map<Seq<char>, JsonView>, key: Seq<char>, value: JsonView)
    requires
        key != method_key(),
        key != number_key(),
    ensures
        request_from_json(JsonView::Object(members.insert(key, value))) == request_from_json(
            JsonView::Object(members),
        ),
{
    let m2 = members.insert(key, value);
    assert(m2.contains_key(method_key()) == members.contains_key(method_key()));
    assert(m2.contains_key(number_key()) == members.contains_key(number_key()));
}

/// Two lines whose objects differ only in such members get the same outcome.
pub proof fn lemma_extra_member_same_reply(
    line: Seq<u8>,
    wider: Seq<u8>,
    members: Map<Seq<char>, JsonView>,
    key: Seq<char>,
    value: JsonView,
)
    requires
        parsed_json(line) == Some(JsonView::Object(members)),
        parsed_json(wider) == Some(JsonView::Object(members.insert(key, value))),
        key != method_key(),
        key != number_key(),
    ensures
        reply_for_line(wider) == reply_for_line(line),
{
    lemma_extra_member_ignored(members, key, value);
}

/// A request whose `number` is absent or no number (a string, a boolean,
/// null, an array or an object) does not decode.
pub proof fn lemma_number_required(members: Map<Seq<char>, JsonView>)
    requires
        !members.contains_key(number_key()) || !(members[number_key()] is Num),
    ensures
        request_from_json(JsonView::Object(members)) is Err,
{
}

/// A line that holds such a request is answered with `Invalid JSON`.
pub proof fn lemma_number_required_reply(line: Seq<u8>, members: Map<Seq<char>, JsonView>)
    requires
        parsed_json(line) == Some(JsonView::Object(members)),
        !members.contains_key(number_key()) || !(members[number_key()] is Num),
    ensures
        line_reply(line) == invalid_reply(),
{
    lemma_number_required(members);
}

/// A request whose `method` is a string and whose `number` is a finite
/// literal with a fraction or an exponent decodes with that number as a
/// float, kept as its text.
pub proof fn lemma_fraction_request(members: Map<Seq<char>, JsonView>, text: Seq<char>, i: int)
    requires
        members.contains_key(method_key()),
        members[method_key()] is Str,
        members.contains_key(number_key()),
        members[number_key()] == JsonView::Num(text),
        0 <= i < text.len(),
        text[i] == '.' || text[i] == 'e' || text[i] == 'E',
        finite_f64_text(text),
    ensures
        request_from_json(JsonView::Object(members)) == Ok::<RequestView, DecodeError>(
            RequestView { method: members[method_key()]->Str_0, number: NumberView::Float(text) },
        ),
{
    lemma_fraction_is_float(text, i);
}

/// A line that does not decode is answered `Invalid JSON`, and the lines
/// around it are answered as ever: one reply per line, each by its own line.
pub proof fn lemma_bad_line_answered_invalid(lines: Seq<Seq<u8>>, out: Seq<String>, i: int)
    requires
        replies_answer(lines, out),
        0 <= i < lines.len(),
        reply_for_line(strip_cr(lines[i])) is Err,
    ensures
        out[i]@ == invalid_reply(),
        out.len() == lines.len(),
        forall|j: int| 0 <= j < lines.len() ==> out[j]@ == #[trigger] capped_reply(lines[j]),
{
    assert(out[i]@ == capped_reply(lines[i]));
}

/// A carriage return before the newline changes no reply.
pub proof fn lemma_carriage_return_tolerated(line: Seq<u8>)
    requires
        !(line.len() > 0 && line.last() == carriage_return()),
    ensures
        capped_reply(line.push(carriage_return())) == capped_reply(line),
{
    assert(line.push(carriage_return()).drop_last() =~= line);
}

pub open spec fn char_code(c: char) -> nat {
    (c as u32) as nat
}

pub open spec fn hex_value(c: char) -> Option<nat> {
    if '0' <= c && c <= '9' {
        Some((c as u32 - '0' as u32) as nat)
    } else if 'a' <= c && c <= 'f' {
        Some((c as u32 - 'a' as u32 + 10) as nat)
    } else if 'A' <= c && c <= 'F' {
        Some((c as u32 - 'A' as u32 + 10) as nat)
    } else {
        None
    }
}

/// The character that an escape at the start of a text stands for, and the
/// length of the escape.
pub open spec fn read_escape(t: Seq<char>) -> Option<(char, nat)> {
    if t.len() < 2 || t[0] != '\\' {
        None
    } else if t[1] == '"' || t[1] == '\\' || t[1] == '/' {
        Some((t[1], 2))
    } else if t[1] == 'b' {
        Some(('\x08', 2))
    } else if t[1] == 'f' {
        Some(('\x0c', 2))
    } else if t[1] == 'n' {
        Some(('\n', 2))
    } else if t[1] == 'r' {
        Some(('\r', 2))
    } else if t[1] == 't' {
        Some(('\t', 2))
    } else if t[1] == 'u' && t.len() >= 6 && hex_value(t[2]) is Some && hex_value(t[3]) is Some
        && hex_value(t[4]) is Some && hex_value(t[5]) is Some {
        let v = 4096 * hex_value(t[2])->Some_0 + 256 * hex_value(t[3])->Some_0 + 16 * hex_value(
            t[4],
        )->Some_0 + hex_value(t[5])->Some_0;
        if exists|c: char| #[trigger] char_code(c) == v {
            Some((choose|c: char| #[trigger] char_code(c) == v, 6))
        } else {
            None
        }
    } else {
        None
    }
}

/// The text that the inside of a JSON string literal stands for.
pub open spec fn unescape_text(t: Seq<char>) -> Option<Seq<char>>
    decreases t.len(),
{
    if t.len() == 0 {
        Some(Seq::empty())
    } else if t[0] == '\\' {
        match read_escape(t) {
            Some((c, k)) => match unescape_text(t.skip(k as int)) {
                Some(r) => Some(seq![c] + r),
                None => None,
            },
            None => None,
        }
    } else if t[0] == '"' || (t[0] as u32) < 0x20 {
        None
    } else {
        match unescape_text(t.drop_first()) {
            Some(r) => Some(seq![t[0]] + r),
            None => None,
        }
    }
}

/// The text that a JSON string literal stands for.
pub open spec fn read_json_string(t: Seq<char>) -> Option<Seq<char>> {
    if t.len() >= 2 && t[0] == '"' && t.last() == '"' {
        unescape_text(t.subrange(1, t.len() - 1))
    } else {
        None
    }
}

proof fn lemma_char_code_injective(a: char, b: char)
    requires
        a as u32 == b as u32,
    ensures
        a == b,
{
}

proof fn lemma_hex_round_trip(d: nat)
    requires
        d < 16,
    ensures
        hex_value(hex_digit(d)) == Some(d),
{
    let digits = seq!['0', '1', '2', '3', '4', '5', '6', '7', '8', '9', 'a', 'b', 'c', 'd', 'e', 'f'];
    assert(hex_digit(d) == digits[d as int]);
}

proof fn lemma_unescape_one(c: char, rest: Seq<char>)
    ensures
        unescape_text(escape_char(c) + rest) == (match unescape_text(rest) {
            Some(r) => Some(seq![c] + r),
            None => None::<Seq<char>>,
        }),
{
    let t = escape_char(c) + rest;
    if c == '"' || c == '\\' || c == '\x08' || c == '\t' || c == '\n' || c == '\x0c' || c == '\r' {
        assert(t[0] == '\\');
        assert(read_escape(t) == Some((c, 2nat)));
        assert(t.skip(2) =~= rest);
    } else if (c as u32) < 0x20 {
        let v = c as u32;
        lemma_hex_round_trip((v / 16) as nat);
        lemma_hex_round_trip((v % 16) as nat);
        assert(hex_value('0') == Some(0nat));
        assert(t[0] == '\\' && t[1] == 'u' && t[2] == '0' && t[3] == '0');
        assert(t[4] == hex_digit((v / 16) as nat) && t[5] == hex_digit((v % 16) as nat));
        assert(hex_value(t[4]) == Some((v / 16) as nat));
        assert(hex_value(t[5]) == Some((v % 16) as nat));
        assert(4096 * 0 + 256 * 0 + 16 * ((v / 16) as nat) + (v % 16) as nat == v);
        let w: nat = 4096 * hex_value(t[2])->Some_0 + 256 * hex_value(t[3])->Some_0 + 16 * hex_value(
            t[4],
        )->Some_0 + hex_value(t[5])->Some_0;
        assert(w == v as nat);
        assert(char_code(c) == w);
        let picked = choose|x: char| #[trigger] char_code(x) == w;
        assert(char_code(picked) == w);
        assert(picked as u32 == c as u32);
        lemma_char_code_injective(picked, c);
        assert(picked == c);
        assert(read_escape(t) == Some((picked, 6nat)));
        assert(read_escape(t) == Some((c, 6nat)));
        assert(t.skip(6) =~= rest);
    } else {
        assert(t[0] == c);
        assert(t.drop_first() =~= rest);
    }
}

proof fn lemma_unescape_escape(s: Seq<char>)
    ensures
        unescape_text(escape_text(s)) == Some(s),
    decreases s.len(),
{
    if s.len() > 0 {
        lemma_unescape_escape(s.drop_first());
        lemma_unescape_one(s[0], escape_text(s.drop_first()));
        assert(seq![s[0]] + s.drop_first() =~= s);
    }
}

/// The JSON string literal written for a text reads back as that text.
pub proof fn lemma_json_string_round_trip(s: Seq<char>)
    ensures
        read_json_string(json_string(s)) == Some(s),
{
    let t = json_string(s);
    assert(t.subrange(1, t.len() - 1) =~= escape_text(s));
    lemma_unescape_escape(s);
}

/// Reads a response line back: the JSON string literal between `{"method":`
/// and `,"prime":`, and the verdict after it.
pub open spec fn response_fields(t: Seq<char>) -> Option<(Seq<char>, bool)> {
    let head = "{\"method\":"@;
    let yes = ",\"prime\":true}\n"@;
    let no = ",\"prime\":false}\n"@;
    if t.len() >= head.len() + yes.len() && t.take(head.len() as int) == head && t.skip(
        t.len() - yes.len(),
    ) == yes {
        Some((t.subrange(head.len() as int, t.len() - yes.len()), true))
    } else if t.len() >= head.len() + no.len() && t.take(head.len() as int) == head && t.skip(
        t.len() - no.len(),
    ) == no {
        Some((t.subrange(head.len() as int, t.len() - no.len()), false))
    } else {
        None
    }
}

/// Decodes a response line into its method and its verdict.
pub open spec fn decode_response(t: Seq<char>) -> Option<(Seq<char>, bool)> {
    match response_fields(t) {
        Some((literal, prime)) => match read_json_string(literal) {
            Some(method) => Some((method, prime)),
            None => None,
        },
        None => None,
    }
}

/// A response line decodes back to the method and the verdict it was written
/// with.
pub proof fn lemma_response_round_trip(method: Seq<char>, prime: bool)
    ensures
        response_fields(response_text(method, prime)) == Some((json_string(method), prime)),
        decode_response(response_text(method, prime)) == Some((method, prime)),
{
    let head = "{\"method\":"@;
    let yes = ",\"prime\":true}\n"@;
    let no = ",\"prime\":false}\n"@;
    reveal_strlit("{\"method\":");
    reveal_strlit(",\"prime\":true}\n");
    reveal_strlit(",\"prime\":false}\n");
    reveal_strlit(",\"prime\":");
    reveal_strlit("true");
    reveal_strlit("false");
    reveal_strlit("}\n");
    let q = json_string(method);
    let t = response_text(method, prime);
    if prime {
        assert(t =~= head + q + yes);
        assert(t.take(head.len() as int) =~= head);
        assert(t.skip(t.len() - yes.len()) =~= yes);
        assert(t.subrange(head.len() as int, t.len() - yes.len()) =~= q);
    } else {
        assert(t =~= head + q + no);
        assert(t.take(head.len() as int) =~= head);
        assert(t.skip(t.len() - no.len()) =~= no);
        assert(t.subrange(head.len() as int, t.len() - no.len()) =~= q);
        assert(t.skip(t.len() - yes.len())[0] != yes[0]);
    }
    lemma_json_string_round_trip(method);
}

proof fn lemma_escape_has_no_newline(s: Seq<char>)
    ensures
        !escape_text(s).contains('\n'),
    decreases s.len(),
{
    if s.len() > 0 {
        lemma_escape_has_no_newline(s.drop_first());
        let e = escape_char(s[0]);
        let digits = seq!['0', '1', '2', '3', '4', '5', '6', '7', '8', '9', 'a', 'b', 'c', 'd', 'e', 'f'];
        assert(forall|d: nat| d < 16 ==> #[trigger] hex_digit(d) == digits[d as int]);
        assert(!e.contains('\n')) by {
            if e.contains('\n') {
                let k = choose|k: int| 0 <= k < e.len() && e[k] == '\n';
                assert(e[k] == '\n');
            }
        }
        let whole = escape_text(s);
        let tail = escape_text(s.drop_first());
        assert(whole == e + tail);
        if whole.contains('\n') {
            let k = choose|k: int| 0 <= k < whole.len() && whole[k] == '\n';
            if k < e.len() {
                assert(e[k] == '\n');
            } else {
                assert(tail[k - e.len()] == '\n');
            }
        }
    }
}

/// A response is one line: its only newline is the last character.
pub proof fn lemma_response_is_one_line(method: Seq<char>, prime: bool)
    ensures
        response_text(method, prime).last() == '\n',
        forall|i: int|
            0 <= i < response_text(method, prime).len() - 1 ==> #[trigger] response_text(
                method,
                prime,
            )[i] != '\n',
{
    reveal_strlit("{\"method\":");
    reveal_strlit(",\"prime\":");
    reveal_strlit("true");
    reveal_strlit("false");
    reveal_strlit("}\n");
    lemma_escape_has_no_newline(method);
    let t = response_text(method, prime);
    let head = "{\"method\":"@;
    let q = json_string(method);
    let e = escape_text(method);
    let mid = ",\"prime\":"@;
    let b = if prime { "true"@ } else { "false"@ };
    let end = "}\n"@;
    assert(t == head + q + mid + b + end);
    assert forall|i: int| 0 <= i < t.len() - 1 implies #[trigger] t[i] != '\n' by {
        if head.len() + 1 <= i < head.len() + 1 + e.len() {
            assert(t[i] == e[i - head.len() - 1]);
        }
    }
}

} // verus!
