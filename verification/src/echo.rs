use vstd::prelude::*;

use crate::text::{split, split_bytes};

verus! {

/// The byte that ends a line.
pub const NEWLINE: u8 = 10;

/// The pieces joined, with `sep` between each two.
pub open spec fn join(parts: Seq<Seq<u8>>, sep: u8) -> Seq<u8>
    decreases parts.len(),
{
    if parts.len() == 0 {
        Seq::empty()
    } else if parts.len() == 1 {
        parts[0]
    } else {
        join(parts.drop_last(), sep) + seq![sep] + parts.last()
    }
}

/// Each line of `data` reversed, the newlines kept in place.
pub open spec fn reversed_lines(data: Seq<u8>) -> Seq<u8> {
    join(split(data, NEWLINE).map_values(|l: Seq<u8>| l.reverse()), NEWLINE)
}

/// `s` reversed.
fn reversed(s: &Vec<u8>) -> (r: Vec<u8>)
    ensures
        r@ == s@.reverse(),
{
    let mut r: Vec<u8> = Vec::new();
    let mut i: usize = s.len();
    while i > 0
        invariant
            i <= s@.len(),
            r@ == s@.subrange(i as int, s@.len() as int).reverse(),
        decreases i,
    {
        i -= 1;
        r.push(s[i]);
        proof {
            assert(s@.subrange(i as int, s@.len() as int).reverse() =~= s@.subrange(
                i + 1,
                s@.len() as int,
            ).reverse().push(s@[i as int]));
        }
    }
    proof {
        assert(s@.subrange(0, s@.len() as int) =~= s@);
    }
    r
}

/// The reply of the reverse-echo service to the bytes it received: each
/// line reversed, the newlines kept where they were.
pub fn reverse_lines(data: &[u8]) -> (r: Vec<u8>)
    ensures
        r@ == reversed_lines(data@),
{
    let lines = split_bytes(data, NEWLINE);
    let ghost parts = lines@.map_values(|v: Vec<u8>| v@);
    let ghost rev = parts.map_values(|l: Seq<u8>| l.reverse());
    let mut out: Vec<u8> = Vec::new();
    let mut i: usize = 0;
    while i < lines.len()
        invariant
            i <= lines@.len(),
            parts == lines@.map_values(|v: Vec<u8>| v@),
            rev == parts.map_values(|l: Seq<u8>| l.reverse()),
            out@ == join(rev.subrange(0, i as int), NEWLINE),
        decreases lines@.len() - i,
    {
        if i > 0 {
            out.push(NEWLINE);
        }
        let line = reversed(&lines[i]);
        let ghost before = out@;
        let mut j: usize = 0;
        while j < line.len()
            invariant
                j <= line@.len(),
                out@ == before + line@.subrange(0, j as int),
            decreases line@.len() - j,
        {
            out.push(line[j]);
            proof {
                assert(line@.subrange(0, j + 1) =~= line@.subrange(0, j as int).push(line@[j as int]));
            }
            j += 1;
        }
        proof {
            assert(line@.subrange(0, line@.len() as int) =~= line@);
            let sub = rev.subrange(0, i + 1);
            assert(sub.drop_last() =~= rev.subrange(0, i as int));
            assert(sub.last() == rev[i as int]);
            assert(rev[i as int] == lines@[i as int]@.reverse());
            if i == 0 {
                assert(rev.subrange(0, 0) =~= Seq::<Seq<u8>>::empty());
                assert(out@ =~= sub[0]);
            } else {
                assert(out@ =~= join(rev.subrange(0, i as int), NEWLINE) + seq![NEWLINE] + sub.last());
            }
        }
        i += 1;
    }
    proof {
        assert(rev.subrange(0, rev.len() as int) =~= rev);
    }
    out
}

/// What the reverse-echo service does with its socket in one round.
#[derive(Clone, Copy, Debug, PartialEq, Eq, Structural)]
pub enum EchoAction {
    /// Listen on the service's port.
    Listen,
    /// Receive what came in and reply with its lines reversed.
    Echo,
    /// The peer stopped sending: close the connection.
    Close,
    /// Nothing to do.
    Idle,
}

/// One round of the reverse-echo service: a socket that is not open
/// listens again (and, listening, has nothing to receive or send); else it
/// receives while the connection may receive, closes while it may still
/// send, or waits.
pub fn echo_action(is_open: bool, may_recv: bool, may_send: bool) -> (r: EchoAction)
    ensures
        r == (if !is_open {
            EchoAction::Listen
        } else if may_recv {
            EchoAction::Echo
        } else if may_send {
            EchoAction::Close
        } else {
            EchoAction::Idle
        }),
{
    if !is_open {
        EchoAction::Listen
    } else if may_recv {
        EchoAction::Echo
    } else if may_send {
        EchoAction::Close
    } else {
        EchoAction::Idle
    }
}

/// The reply to send for the received bytes: their lines reversed, when
/// there is room to send and the reply is not empty.
pub fn echo_reply(received: &[u8], can_send: bool) -> (r: Option<Vec<u8>>)
    ensures
        r matches Some(v) ==> v@ == reversed_lines(received@) && v@.len() > 0 && can_send,
        r is None ==> !can_send || reversed_lines(received@).len() == 0,
{
    let data = reverse_lines(received);
    if can_send && data.len() > 0 {
        Some(data)
    } else {
        None
    }
}

} // verus!
