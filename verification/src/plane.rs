//! `apex io`: one request on the I/O plane, step by step.

use vstd::prelude::*;
use vstd::string::*;

use crate::num::{decimal, digits};
use crate::text::{chars_of, has_at, same, stands_at};

verus! {

/// How a request is sent.
#[derive(Clone, Copy, Debug, PartialEq, Eq, Structural)]
pub enum Sending {
    /// A tunnel: stdin in, the far end out, until either side is done.
    Tunnel,
    /// Stdin is the body.
    Body,
    /// There is no body: its end is sent.
    End,
    /// Nothing more is sent.
    Nothing,
}

/// A method that has no body of its own.
pub open spec fn bodiless(method: Seq<char>) -> bool {
    method == "GET"@ || method == "HEAD"@ || method == "DELETE"@ || method == "OPTIONS"@
}

/// How a request is sent: `PUT` has a body always, and one that is not
/// known to have none does when stdin is not a terminal.
pub open spec fn sending(method: Seq<char>, url: Seq<char>, terminal: bool) -> Sending {
    if method == "CONNECT"@ {
        Sending::Tunnel
    } else if method == "PUT"@ || (!bodiless(method) && !terminal) {
        Sending::Body
    } else if stands_at(url, 0, "http"@) {
        Sending::End
    } else {
        Sending::Nothing
    }
}

/// How a request is sent.
pub fn io_send(method: &str, url: &str, terminal: bool) -> (s: Sending)
    ensures
        s == sending(method@, url@, terminal),
{
    if same(method, "CONNECT") {
        return Sending::Tunnel;
    }
    let none = same(method, "GET") || same(method, "HEAD") || same(method, "DELETE") || same(method, "OPTIONS");
    if same(method, "PUT") || (!none && !terminal) {
        return Sending::Body;
    }
    let c: Vec<char> = chars_of(url);
    if has_at(c.as_slice(), 0, "http") {
        Sending::End
    } else {
        Sending::Nothing
    }
}

/// What an answer's status leads to.
#[derive(Clone, Copy, Debug, PartialEq, Eq, Structural)]
pub enum Answered {
    /// The tunnel is open.
    Tunnel,
    /// The body is told as what went wrong, and the status is the error.
    Refused,
    /// The body is written out.
    Body,
    /// The body is written out, and the status is the error.
    Failed,
    /// Each version is written out as it comes.
    Watch,
}

/// What an answer's status leads to.
pub fn io_answer(tunnel: bool, watch: bool, status: u16) -> (a: Answered)
    ensures
        a == (if tunnel {
            if status == 200 {
                Answered::Tunnel
            } else {
                Answered::Refused
            }
        } else if status != 200 {
            Answered::Failed
        } else if watch {
            Answered::Watch
        } else {
            Answered::Body
        }),
{
    if tunnel {
        if status == 200 {
            Answered::Tunnel
        } else {
            Answered::Refused
        }
    } else if status != 200 {
        Answered::Failed
    } else if watch {
        Answered::Watch
    } else {
        Answered::Body
    }
}

/// The status as an error.
pub fn status_said(status: u16) -> (s: String)
    ensures
        s@ == digits(status as nat),
{
    decimal(status as u64)
}

/// What comes through a tunnel.
pub enum Frame {
    Body(Vec<u8>),
    End,
    Reset(String),
    /// Anything else that a stream may hold.
    Other,
}

/// What became of a tunnel.
pub enum Tunnelled {
    /// It goes on.
    Open,
    /// Its far end is done.
    Done,
    /// It was broken off, for this reason.
    Reset(String),
}

/// The bytes of the first `n` frames.
pub open spec fn bodies(f: Seq<Frame>, n: int) -> Seq<u8>
    decreases n,
{
    if n <= 0 || n > f.len() {
        Seq::empty()
    } else {
        match f[n - 1] {
            Frame::Body(b) => bodies(f, n - 1) + b@,
            _ => bodies(f, n - 1),
        }
    }
}

/// The first of the frames from `i` on that ends the tunnel; the end of
/// them where none does.
pub open spec fn last_frame(f: Seq<Frame>, i: int) -> int
    decreases f.len() - i,
{
    if 0 <= i < f.len() && !(f[i] is End) && !(f[i] is Reset) {
        last_frame(f, i + 1)
    } else {
        i
    }
}

/// What came through a tunnel is written out, up to what ends it.
pub fn tunnelled(frames: &Vec<Frame>, out: &mut Vec<u8>) -> (t: Tunnelled)
    ensures
        ({
            let z = last_frame(frames@, 0);
            &&& final(out)@ == old(out)@ + bodies(frames@, z)
            &&& match t {
                Tunnelled::Open => z >= frames@.len(),
                Tunnelled::Done => z < frames@.len() && frames@[z] is End,
                Tunnelled::Reset(r) => z < frames@.len() && (frames@[z] matches Frame::Reset(q) && r@ == q@),
            }
        }),
{
    let ghost start = out@;
    let mut i: usize = 0;
    proof {
        assert(out@ =~= start + bodies(frames@, 0));
    }
    while i < frames.len()
        invariant
            i <= frames@.len(),
            last_frame(frames@, i as int) == last_frame(frames@, 0),
            out@ == start + bodies(frames@, i as int),
            start == old(out)@,
        decreases frames@.len() - i,
    {
        match &frames[i] {
            Frame::Body(b) => {
                let ghost before = out@;
                let mut k: usize = 0;
                proof {
                    assert(b@.take(0) =~= Seq::empty());
                    assert(out@ =~= before + b@.take(0));
                }
                while k < b.len()
                    invariant
                        k <= b@.len(),
                        out@ == before + b@.take(k as int),
                    decreases b@.len() - k,
                {
                    out.push(b[k]);
                    k = k + 1;
                    proof {
                        assert(b@.take(k as int) =~= b@.take(k - 1).push(b@[k - 1]));
                        assert(out@ =~= before + b@.take(k as int));
                    }
                }
                proof {
                    assert(b@.take(k as int) =~= b@);
                    assert(out@ =~= start + (bodies(frames@, i as int) + b@));
                }
            },
            Frame::End => {
                return Tunnelled::Done;
            },
            Frame::Reset(r) => {
                return Tunnelled::Reset(r.clone());
            },
            Frame::Other => {},
        }
        i = i + 1;
    }
    Tunnelled::Open
}

/// Nothing that comes after a tunnel's end is written out.
pub proof fn law_a_tunnels_end_is_its_last(f: Seq<Frame>, more: Seq<Frame>)
    requires
        last_frame(f, 0) < f.len(),
    ensures
        last_frame(f + more, 0) == last_frame(f, 0),
        bodies(f + more, last_frame(f, 0)) == bodies(f, last_frame(f, 0)),
{
    lemma_last(f, more, 0);
    lemma_last_within(f, 0);
    lemma_bodies(f, more, last_frame(f, 0));
}

proof fn lemma_last_within(f: Seq<Frame>, i: int)
    requires
        0 <= i <= f.len(),
    ensures
        i <= last_frame(f, i) <= f.len(),
    decreases f.len() - i,
{
    if i < f.len() && !(f[i] is End) && !(f[i] is Reset) {
        lemma_last_within(f, i + 1);
    }
}

proof fn lemma_last(f: Seq<Frame>, more: Seq<Frame>, i: int)
    requires
        0 <= i,
        last_frame(f, i) < f.len(),
    ensures
        last_frame(f + more, i) == last_frame(f, i),
    decreases f.len() - i,
{
    if i < f.len() {
        assert((f + more)[i] == f[i]);
        if !(f[i] is End) && !(f[i] is Reset) {
            lemma_last(f, more, i + 1);
        }
    }
}

proof fn lemma_bodies(f: Seq<Frame>, more: Seq<Frame>, n: int)
    requires
        n <= f.len(),
    ensures
        bodies(f + more, n) == bodies(f, n),
    decreases n,
{
    if n > 0 {
        assert((f + more)[n - 1] == f[n - 1]);
        lemma_bodies(f, more, n - 1);
    }
}

proof fn lemma_methods()
    ensures
        "CONNECT"@ != "PUT"@ && "CONNECT"@ != "GET"@ && "CONNECT"@ != "HEAD"@ && "CONNECT"@ != "DELETE"@ && "CONNECT"@
            != "OPTIONS"@,
        "PUT"@ != "GET"@ && "PUT"@ != "HEAD"@ && "PUT"@ != "DELETE"@ && "PUT"@ != "OPTIONS"@,
{
    reveal_strlit("CONNECT");
    reveal_strlit("PUT");
    reveal_strlit("GET");
    reveal_strlit("HEAD");
    reveal_strlit("DELETE");
    reveal_strlit("OPTIONS");
    assert("CONNECT"@.len() == 7 && "PUT"@.len() == 3 && "GET"@.len() == 3 && "HEAD"@.len() == 4 && "DELETE"@.len() == 6
        && "OPTIONS"@.len() == 7);
    assert("CONNECT"@[0] == 'C' && "OPTIONS"@[0] == 'O' && "PUT"@[0] == 'P' && "GET"@[0] == 'G');
}

/// A tunnel is made by CONNECT alone; PUT always has a body, what is only
/// asked for never, and anything else one where stdin is not a terminal; of
/// what has none the end is sent to the web alone.
pub proof fn law_what_is_sent_after_a_request(method: Seq<char>, url: Seq<char>, terminal: bool)
    ensures
        sending("CONNECT"@, url, terminal) == Sending::Tunnel,
        sending(method, url, terminal) == Sending::Tunnel ==> method == "CONNECT"@,
        sending("PUT"@, url, terminal) == Sending::Body,
        method == "GET"@ || method == "HEAD"@ || method == "DELETE"@ || method == "OPTIONS"@ ==> (sending(
            method,
            url,
            terminal,
        ) == if stands_at(url, 0, "http"@) {
            Sending::End
        } else {
            Sending::Nothing
        }),
        method != "CONNECT"@ && !bodiless(method) && !terminal ==> sending(method, url, terminal) == Sending::Body,
        method != "CONNECT"@ && method != "PUT"@ && terminal ==> sending(method, url, terminal) != Sending::Body,
{
    lemma_methods();
}

} // verus!
