//! The wire protocol: the reply each line earns, its exact text, and the
//! session rule that replies are emitted in request order until the first
//! protocol violation closes the connection.

use vstd::prelude::*;

use crate::oracle::{is_prime, spec_prime};
use crate::request::{extract_number, query_of, shape_of};

verus! {

/// The reply to one request line.
#[derive(PartialEq, Eq, Structural, Clone, Copy, Debug)]
pub enum Reply {
    /// A well-formed request: whether the queried number is prime.
    Conforming(bool),
    /// A protocol violation; the session closes after this reply.
    Malformed,
}

/// The reply a given line earns: the primality of its validated query, or
/// the malformed marker where validation fails.
pub open spec fn spec_reply(line: Seq<char>) -> Reply {
    match query_of(shape_of(line)) {
        Some(q) => Reply::Conforming(spec_prime(q)),
        None => Reply::Malformed,
    }
}

/// The exact text written for a reply.
pub open spec fn spec_reply_text(r: Reply) -> Seq<char> {
    match r {
        Reply::Conforming(true) => "{\"method\":\"isPrime\",\"prime\":true}\n"@,
        Reply::Conforming(false) => "{\"method\":\"isPrime\",\"prime\":false}\n"@,
        Reply::Malformed => "{}"@,
    }
}

/// Whether the session goes on reading after a reply.
pub open spec fn spec_continues(r: Reply) -> bool {
    r is Conforming
}

/// Handles one line of a session: validates it and answers the primality
/// question. A line whose number has a fractional component queries zero
/// and so is always answered `false`.
pub fn process_line(line: &str) -> (r: Reply)
    ensures
        r == spec_reply(line@),
        (shape_of(line@) matches crate::request::ShapeModel::Fields {
            method: Some(crate::request::FieldModel::Text(m)),
            number: Some(crate::request::FieldModel::Numeric(t)),
        } && m == "isPrime"@ && crate::request::contains_dot(t)) ==> r == Reply::Conforming(false),
{
    match extract_number(line) {
        Some(q) => Reply::Conforming(is_prime(&q)),
        None => Reply::Malformed,
    }
}

/// The text to write for a reply.
pub fn reply_text(r: &Reply) -> (t: &'static str)
    ensures
        t@ == spec_reply_text(*r),
{
    match r {
        Reply::Conforming(true) => "{\"method\":\"isPrime\",\"prime\":true}\n",
        Reply::Conforming(false) => "{\"method\":\"isPrime\",\"prime\":false}\n",
        Reply::Malformed => "{}",
    }
}

/// Whether the session goes on reading after this reply.
pub fn continues(r: &Reply) -> (c: bool)
    ensures
        c == spec_continues(*r),
{
    match r {
        Reply::Conforming(_) => true,
        Reply::Malformed => false,
    }
}

/// The replies a session emits for a sequence of lines: one per line, in
/// order, stopping with the malformed marker after the first violation.
pub open spec fn spec_session(lines: Seq<Seq<char>>) -> Seq<Reply>
    decreases lines.len(),
{
    if lines.len() == 0 {
        Seq::empty()
    } else {
        let r = spec_reply(lines[0]);
        if r is Malformed {
            seq![r]
        } else {
            seq![r] + spec_session(lines.drop_first())
        }
    }
}

/// Runs a whole pipelined session over the lines read from one
/// connection: replies come in request order, one per line, and the
/// session ends early at the first protocol violation.
pub fn session_replies(lines: &Vec<String>) -> (rs: Vec<Reply>)
    ensures
        rs@ == spec_session(lines.deep_view()),
{
    let ghost all = lines.deep_view();
    let mut rs: Vec<Reply> = Vec::new();
    let mut idx: usize = 0;
    proof {
        assert(all.skip(0) =~= all);
        assert(rs@ + spec_session(all.skip(0)) =~= spec_session(all));
    }
    while idx < lines.len()
        invariant
            idx <= lines.len(),
            all == lines.deep_view(),
            all.len() == lines.len(),
            forall|k: int| 0 <= k < idx ==> spec_continues(#[trigger] rs@[k]),
            rs@.len() == idx,
            spec_session(all) == rs@ + spec_session(all.skip(idx as int)),
        decreases lines.len() - idx,
    {
        let r = process_line(lines[idx].as_str());
        proof {
            assert(all.skip(idx as int)[0] == all[idx as int]);
            assert(all.skip(idx as int).drop_first() =~= all.skip(idx as int + 1));
            assert(all[idx as int] == lines[idx as int]@);
        }
        rs.push(r);
        if !continues(&r) {
            proof {
                assert(spec_session(all.skip(idx as int)) =~= seq![r]);
                assert(rs@ =~= spec_session(all));
            }
            return rs;
        }
        proof {
            assert(spec_session(all.skip(idx as int)) =~= seq![r] + spec_session(
                all.skip(idx as int + 1),
            ));
            assert(rs@ + spec_session(all.skip(idx as int + 1)) =~= spec_session(all));
        }
        idx += 1;
    }
    proof {
        assert(all.skip(idx as int) =~= Seq::empty());
        assert(rs@ =~= spec_session(all));
    }
    rs
}

} // verus!
