//! The link to a session's daemon, as a window sees it: whether it is
//! up, how far away it is, and what is said of it.

use vstd::prelude::*;
use vstd::string::*;

use crate::argv::{words, words_of};
use crate::num::{decimal, digits};
use crate::session::maybe;
use crate::text::{chars_of, string_of, views};

verus! {

/// A ping not answered in this many nanoseconds: the link is dead, even
/// if its socket has not closed.
pub const HEARTBEAT_TIMEOUT: u64 = 8_000_000_000;

/// The heartbeat of a link: whether it is taken to be up, when the last
/// ping went out, and how long the last one took to come back.  Times
/// are in nanoseconds.
#[derive(Clone, Copy, Debug, PartialEq, Eq, Structural)]
pub struct Heart {
    pub connected: bool,
    pub last_ping: Option<u64>,
    pub ping_ms: Option<u64>,
}

impl Heart {
    /// The link of a window that opens: up, with no ping out yet.
    pub fn new() -> (h: Heart)
        ensures
            h == (Heart { connected: true, last_ping: None, ping_ms: None }),
    {
        Heart { connected: true, last_ping: None, ping_ms: None }
    }

    /// The last ping has been answered; or none went out.
    pub open spec fn answered(self, pong: Option<u64>) -> bool {
        match (self.last_ping, pong) {
            (Some(sent), Some(p)) => p >= sent,
            (Some(_), None) => false,
            (None, _) => true,
        }
    }

    /// The last ping has gone unanswered for too long.
    pub open spec fn overdue(self, pong: Option<u64>, now: u64) -> bool {
        self.last_ping is Some && !self.answered(pong) && now - self.last_ping->0 > HEARTBEAT_TIMEOUT
    }

    /// Whether the link is up after a beat.
    pub open spec fn up(self, pong: Option<u64>, now: u64) -> bool {
        if self.overdue(pong, now) && self.connected {
            false
        } else if self.answered(pong) && !self.connected && pong is Some {
            true
        } else {
            self.connected
        }
    }

    /// A beat at a time, the daemon last heard of at another: a ping goes
    /// out once the last has been answered or is overdue; a link whose
    /// ping is overdue is down, and one that answers again is up.
    /// Whether the link has changed, and whether a ping is to go out.
    pub fn beat(&mut self, pong: Option<u64>, now: u64) -> (r: (bool, bool))
        ensures
            ({
                let (changed, ping) = r;
                &&& final(self).connected == old(self).up(pong, now)
                &&& changed == (final(self).connected != old(self).connected)
                &&& ping == (old(self).answered(pong) || old(self).overdue(pong, now))
                &&& final(self).last_ping == (if ping {
                    Some(now)
                } else {
                    old(self).last_ping
                })
                &&& final(self).ping_ms == (match (old(self).last_ping, pong) {
                    (Some(sent), Some(p)) if p >= sent => Some(((p - sent) / 1_000_000) as u64),
                    _ => old(self).ping_ms,
                })
            }),
    {
        let answered = match (self.last_ping, pong) {
            (Some(sent), Some(p)) => p >= sent,
            (Some(_), None) => false,
            (None, _) => true,
        };
        let overdue = match self.last_ping {
            Some(sent) => !answered && now > sent && now - sent > HEARTBEAT_TIMEOUT,
            None => false,
        };
        let mut changed = false;
        if overdue && self.connected {
            self.connected = false;
            changed = true;
        } else if answered && !self.connected && pong.is_some() {
            self.connected = true;
            changed = true;
        }
        if let (Some(sent), Some(p)) = (self.last_ping, pong) {
            if p >= sent {
                self.ping_ms = Some((p - sent) / 1_000_000);
            }
        }
        let ping = answered || overdue;
        if ping {
            self.last_ping = Some(now);
        }
        (changed, ping)
    }
}

/// A link that has gone quiet is found out: whatever came before, a ping
/// that goes unanswered for longer than the timeout takes the link down;
/// and a pong after that brings it back.
pub proof fn law_silence_is_found_out(h: Heart, pong: Option<u64>, now: u64)
    ensures
        h.last_ping is Some && (pong is Some ==> pong->0 < h.last_ping->0) && now - h.last_ping->0
            > HEARTBEAT_TIMEOUT ==> !h.up(pong, now),
        h.last_ping is Some && pong is Some && pong->0 >= h.last_ping->0 ==> h.up(pong, now),
{
}

fn milliseconds(m: Option<u64>) -> (r: String)
    ensures
        r@ == said(m),
{
    match m {
        Some(m) => {
            let mut r: String = decimal(m);
            r.append("ms");
            r
        },
        None => "\u{2014}".to_owned(),
    }
}

/// A time in milliseconds, or a dash.
pub open spec fn said(m: Option<u64>) -> Seq<char> {
    match m {
        Some(m) => digits(m as nat) + "ms"@,
        None => "\u{2014}"@,
    }
}

/// What the title bar shows of a link that is up: the heartbeat's round
/// trip and the log's.
pub fn latency(connected: bool, ping_ms: Option<u64>, ack_ms: Option<u64>) -> (r: Option<String>)
    ensures
        maybe(r) == (if connected {
            Some(said(ping_ms) + "/"@ + said(ack_ms))
        } else {
            None
        }),
{
    if !connected {
        return None;
    }
    let mut r: String = milliseconds(ping_ms);
    r.append("/");
    r.append(milliseconds(ack_ms).as_str());
    Some(r)
}

/// What a client's lease on the layout says: who holds it, and whether
/// it was released.
#[derive(Clone, Copy, Debug, PartialEq, Eq, Structural)]
pub struct Lease {
    pub holder: u64,
    pub released: bool,
}

/// Another client leads: this one's lease is another's, or was released.
pub fn fenced(lease: Option<Lease>, me: u64) -> (r: bool)
    ensures
        r == (lease is Some && (lease->0.holder != me || lease->0.released)),
{
    match lease {
        Some(l) => l.holder != me || l.released,
        None => false,
    }
}

/// A window's title, its session described.
pub open spec fn titled(described: Seq<char>) -> Seq<char> {
    described + " \u{2014} apex"@
}

/// A window's title, its session described.
pub fn title(described: &str) -> (t: String)
    ensures
        t@ == titled(described@),
{
    let mut t: String = described.to_owned();
    t.append(" \u{2014} apex");
    t
}

/// A window's title as things are: with the session's URL while there is
/// no link, or another client leads; else the session described.
pub fn current_title(url: &str, described: &str, connected: bool, fenced: bool) -> (t: String)
    ensures
        t@ == (if !connected {
            url@ + " \u{2014} disconnected \u{2014} apex"@
        } else if fenced {
            url@ + " \u{2014} fenced (another client leads) \u{2014} apex"@
        } else {
            titled(described@)
        }),
{
    if !connected {
        let mut t: String = url.to_owned();
        t.append(" \u{2014} disconnected \u{2014} apex");
        t
    } else if fenced {
        let mut t: String = url.to_owned();
        t.append(" \u{2014} fenced (another client leads) \u{2014} apex");
        t
    } else {
        title(described)
    }
}

/// What to tell the user when a session could not be attached: the
/// error, and for a daemon of another build, how to get going again.
pub fn connect_error(described: &str, error: &str, another_build: bool) -> (m: String)
    ensures
        m@ == described@ + ": "@ + error@ + (if another_build {
            ": Reconnect (\u{2318}\u{21e7}R)\n"@
        } else {
            "\n"@
        }),
{
    let mut m: String = described.to_owned();
    m.append(": ");
    m.append(error);
    if another_build {
        m.append(": Reconnect (\u{2318}\u{21e7}R)\n");
    } else {
        m.append("\n");
    }
    m
}

/// The second word of a command, where it has one.
pub open spec fn second_word(cmd: Seq<char>) -> Option<Seq<char>> {
    if words_of(cmd).len() > 1 {
        Some(words_of(cmd)[1])
    } else {
        None
    }
}

/// The second word of a command, where it has one.
pub fn second(cmd: &str) -> (w: Option<String>)
    ensures
        maybe(w) == second_word(cmd@),
{
    let all: Vec<char> = chars_of(cmd);
    let w: Vec<Vec<char>> = words(all.as_slice());
    proof {
        assert(views(w@).len() == w@.len());
    }
    if w.len() > 1 {
        proof {
            assert(views(w@)[1] == w@[1]@);
        }
        Some(string_of(w[1].as_slice()))
    } else {
        None
    }
}

/// The title of a window attached through a command: the session, and
/// the command's second word, or all of it.
pub fn via_title(session: &str, cmd: &str) -> (t: String)
    ensures
        t@ == session@ + " via "@ + (match second_word(cmd@) {
            Some(w) => w,
            None => cmd@,
        }) + " \u{2014} apex"@,
{
    let mut t: String = session.to_owned();
    t.append(" via ");
    match second(cmd) {
        Some(w) => t.append(w.as_str()),
        None => t.append(cmd),
    }
    t.append(" \u{2014} apex");
    t
}

/// A terminal is to be resized: it is not of that size already.
pub fn resizes(now: Option<(u16, u16)>, cols: u16, rows: u16) -> (r: bool)
    ensures
        r == (now != Some((cols, rows))),
{
    match now {
        Some((c, r)) => c != cols || r != rows,
        None => true,
    }
}

/// A link that was up is taken for down when a ping has gone unanswered for
/// more than eight seconds, and not before; one that was down is up with the
/// first answer.
pub proof fn law_a_link_is_down_after_eight_seconds(h: Heart, pong: Option<u64>, now: u64, sent: u64)
    requires
        h.last_ping == Some(sent),
    ensures
        h.connected && (pong is None || pong->0 < sent) ==> (h.up(pong, now) <==> now - sent <= 8_000_000_000),
        !h.connected && (pong is None || pong->0 < sent) ==> !h.up(pong, now),
        pong is Some && pong->0 >= sent ==> h.up(pong, now),
        h.overdue(pong, now) <==> (pong is None || pong->0 < sent) && now - sent > 8_000_000_000,
{
}

/// A time is told in milliseconds, and one that is not known by a dash.
pub proof fn law_a_time_is_told_in_milliseconds(m: u64)
    ensures
        said(Some(m)) == digits(m as nat) + seq!['m', 's'],
        said(None) == seq!['\u{2014}'],
{
    reveal_strlit("ms");
    reveal_strlit("\u{2014}");
    assert("ms"@ =~= seq!['m', 's']);
    assert("\u{2014}"@ =~= seq!['\u{2014}']);
}

} // verus!
