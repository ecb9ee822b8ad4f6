//! The decisions of one connection: bytes come in, are cut into lines, and
//! each line gets one reply line, in order. Reading and writing the socket is
//! left to the caller, who hands over what arrived and writes what comes back.

use vstd::prelude::*;
use vstd::string::StringExecFns;
use crate::request::{reply_for_line, respond};

verus! {

pub open spec fn newline() -> u8 {
    10u8
}

/// Cuts bytes into the lines that a newline ends (without the newline) and
/// the bytes after the last newline.
pub open spec fn split_lines(bytes: Seq<u8>) -> (Seq<Seq<u8>>, Seq<u8>)
    decreases bytes.len(),
{
    if bytes.len() == 0 {
        (Seq::empty(), Seq::empty())
    } else {
        let (lines, rest) = split_lines(bytes.drop_last());
        if bytes.last() == newline() {
            (lines.push(rest), Seq::empty())
        } else {
            (lines, rest.push(bytes.last()))
        }
    }
}

/// The line sent back for a line that is no request.
pub open spec fn invalid_reply() -> Seq<char> {
    "Invalid JSON\n"@
}

/// The reply line to a line: its response, or `Invalid JSON`.
pub open spec fn line_reply(line: Seq<u8>) -> Seq<char> {
    match reply_for_line(line) {
        Ok(response) => response,
        Err(_) => invalid_reply(),
    }
}

/// The longest line that is read; a longer one is answered `Invalid JSON`
/// and its bytes are not kept.
pub const MAX_LINE_LEN: usize = 1048576;

pub open spec fn carriage_return() -> u8 {
    13u8
}

/// A line without the carriage return that may end it.
pub open spec fn strip_cr(line: Seq<u8>) -> Seq<u8> {
    if line.len() > 0 && line.last() == carriage_return() {
        line.drop_last()
    } else {
        line
    }
}

/// The reply line to a line, long lines included; a final carriage return
/// is no part of the line.
pub open spec fn capped_reply(line: Seq<u8>) -> Seq<char> {
    if strip_cr(line).len() > MAX_LINE_LEN {
        invalid_reply()
    } else {
        line_reply(strip_cr(line))
    }
}

/// Whether replies answer lines one for one, in order.
pub open spec fn replies_answer(lines: Seq<Seq<u8>>, out: Seq<String>) -> bool {
    &&& out.len() == lines.len()
    &&& forall|i: int| 0 <= i < lines.len() ==> out[i]@ == capped_reply(#[trigger] lines[i])
}

fn invalid_line() -> (r: String)
    ensures
        r@ == invalid_reply(),
{
    let mut out = String::new();
    out.append("Invalid JSON\n");
    out
}

/// The reply line for one line: its response, or `Invalid JSON`.
pub fn reply_to_line(line: &[u8]) -> (r: String)
    ensures
        r@ == line_reply(line@),
{
    match respond(line) {
        Ok(response) => response,
        Err(_) => invalid_line(),
    }
}

/// The state of one connection: the line not yet ended.
pub struct Connection {
    /// The bytes of that line, while it is no longer than the limit.
    kept: Vec<u8>,
    /// Whether that line has gone past the limit.
    overlong: bool,
    line: Ghost<Seq<u8>>,
}

impl Connection {
    /// The bytes received since the last newline.
    pub closed spec fn pending(&self) -> Seq<u8> {
        self.line@
    }

    /// No newline waits in the line, and its bytes are kept exactly while it
    /// is within the limit.
    pub closed spec fn wf(&self) -> bool {
        &&& !self.line@.contains(newline())
        &&& if self.overlong {
            strip_cr(self.line@).len() > MAX_LINE_LEN && self.kept@.len() == 0
        } else {
            self.kept@ == self.line@ && strip_cr(self.line@).len() <= MAX_LINE_LEN
        }
    }

    pub fn new() -> (r: Connection)
        ensures
            r.wf(),
            r.pending() == Seq::<u8>::empty(),
    {
        Connection { kept: Vec::new(), overlong: false, line: Ghost(Seq::empty()) }
    }

    /// The reply to the line received so far, which is then dropped.
    fn end_line(&mut self) -> (r: String)
        requires
            old(self).wf(),
        ensures
            final(self).wf(),
            final(self).pending() == Seq::<u8>::empty(),
            r@ == capped_reply(old(self).pending()),
    {
        let reply = if self.overlong {
            invalid_line()
        } else {
            let n = self.kept.len();
            if n > 0 && self.kept[n - 1] == 13u8 {
                self.kept.pop();
            }
            proof {
                assert(self.kept@ =~= strip_cr(old(self).pending()));
            }
            reply_to_line(self.kept.as_slice())
        };
        self.kept = Vec::new();
        self.overlong = false;
        self.line = Ghost(Seq::empty());
        reply
    }

    /// Takes the bytes that arrived and returns the replies to the lines they
    /// end, in order; what follows the last newline waits for more.
    pub fn on_data(&mut self, data: &[u8]) -> (out: Vec<String>)
        requires
            old(self).wf(),
        ensures
            final(self).wf(),
            replies_answer(split_lines(old(self).pending() + data@).0, out@),
            final(self).pending() == split_lines(old(self).pending() + data@).1,
    {
        let mut out: Vec<String> = Vec::new();
        let ghost start = self.line@;
        proof {
            lemma_split_no_newline(start);
            assert(start + data@.take(0) =~= start);
        }
        let mut i: usize = 0;
        while i < data.len()
            invariant
                0 <= i <= data@.len(),
                self.wf(),
                replies_answer(split_lines(start + data@.take(i as int)).0, out@),
                self.pending() == split_lines(start + data@.take(i as int)).1,
            decreases data@.len() - i,
        {
            let b = data[i];
            proof {
                assert((start + data@.take(i as int + 1)).drop_last() =~= start + data@.take(i as int));
                assert((start + data@.take(i as int + 1)).last() == b);
            }
            if b == 10u8 {
                let reply = self.end_line();
                out.push(reply);
            } else {
                let ghost before = self.line@;
                self.line = Ghost(self.line@.push(b));
                proof {
                    assert(!self.line@.contains(newline())) by {
                        if self.line@.contains(newline()) {
                            let k = choose|k: int| 0 <= k < self.line@.len() && self.line@[k] == newline();
                            assert(k < before.len() ==> before[k] == newline());
                        }
                    }
                }
                if !self.overlong {
                    if self.kept.len() < MAX_LINE_LEN || (self.kept.len() == MAX_LINE_LEN && b == 13u8) {
                        self.kept.push(b);
                    } else {
                        self.kept = Vec::new();
                        self.overlong = true;
                    }
                }
            }
            i = i + 1;
        }
        proof {
            assert(data@.take(data@.len() as int) =~= data@);
        }
        out
    }

    /// The stream has ended: the reply to a last line that no newline ended,
    /// if there is one.
    pub fn on_end(&mut self) -> (r: Option<String>)
        requires
            old(self).wf(),
        ensures
            final(self).wf(),
            final(self).pending() == Seq::<u8>::empty(),
            r.is_some() == (old(self).pending().len() > 0),
            r.is_some() ==> r.unwrap()@ == capped_reply(old(self).pending()),
    {
        if !self.overlong && self.kept.len() == 0 {
            None
        } else {
            Some(self.end_line())
        }
    }
}

/// With no newline in them, bytes form no line and are all left over.
pub proof fn lemma_split_no_newline(bytes: Seq<u8>)
    requires
        !bytes.contains(newline()),
    ensures
        split_lines(bytes).0 == Seq::<Seq<u8>>::empty(),
        split_lines(bytes).1 == bytes,
    decreases bytes.len(),
{
    if bytes.len() > 0 {
        assert(!bytes.drop_last().contains(newline())) by {
            if bytes.drop_last().contains(newline()) {
                let k = choose|k: int| 0 <= k < bytes.drop_last().len() && bytes.drop_last()[k] == newline();
                assert(bytes[k] == newline());
            }
        }
        lemma_split_no_newline(bytes.drop_last());
        assert(bytes.last() != newline()) by {
            if bytes.last() == newline() {
                assert(bytes[bytes.len() - 1] == newline());
            }
        }
        assert(bytes.drop_last().push(bytes.last()) =~= bytes);
    }
}

} // verus!
