//! `sd_notify(3)` protocol: `READY=1`, `STATUS=`, `MAINPID=`, `WATCHDOG=1`,
//! `STOPPING=1`, `RELOADING=1`, `BARRIER=1`.

use crate::number;
use crate::number::{parse_i32, parse_u64};
use crate::text;
use crate::text::{chars_of, decode, is_str, lines, split_once, string_of};
use vstd::prelude::*;

verus! {

/// Parsed message from a single `sd_notify` datagram.
#[derive(Debug, PartialEq, Eq)]
pub struct NotifyMessage {
    /// `READY=1`.
    pub ready: bool,
    /// `STOPPING=1`.
    pub stopping: bool,
    /// `RELOADING=1`.
    pub reloading: bool,
    /// `WATCHDOG=1` ping.
    pub watchdog: bool,
    /// `BARRIER=1`.
    pub barrier: bool,
    /// `MAINPID=N`.
    pub main_pid: Option<i32>,
    /// `STATUS=...`.
    pub status: Option<String>,
    /// `WATCHDOG_USEC=N`.
    pub watchdog_usec: Option<u64>,
    /// `ERRNO=N`.
    pub errno: Option<i32>,
}

/// A [`NotifyMessage`] by its characters.
pub struct NotifyView {
    pub ready: bool,
    pub stopping: bool,
    pub reloading: bool,
    pub watchdog: bool,
    pub barrier: bool,
    pub main_pid: Option<i32>,
    pub status: Option<Seq<char>>,
    pub watchdog_usec: Option<u64>,
    pub errno: Option<i32>,
}

impl View for NotifyMessage {
    type V = NotifyView;

    open spec fn view(&self) -> NotifyView {
        NotifyView {
            ready: self.ready,
            stopping: self.stopping,
            reloading: self.reloading,
            watchdog: self.watchdog,
            barrier: self.barrier,
            main_pid: self.main_pid,
            status: text::opt_text(self.status),
            watchdog_usec: self.watchdog_usec,
            errno: self.errno,
        }
    }
}

/// The message that says nothing.
pub open spec fn no_message() -> NotifyView {
    NotifyView {
        ready: false,
        stopping: false,
        reloading: false,
        watchdog: false,
        barrier: false,
        main_pid: None,
        status: None,
        watchdog_usec: None,
        errno: None,
    }
}

impl Default for NotifyMessage {
    fn default() -> (r: Self)
        ensures
            r@ == no_message(),
    {
        NotifyMessage {
            ready: false,
            stopping: false,
            reloading: false,
            watchdog: false,
            barrier: false,
            main_pid: None,
            status: None,
            watchdog_usec: None,
            errno: None,
        }
    }
}

/// The `i32` that a text stands for.
pub open spec fn small_int(s: Seq<char>) -> Option<i32> {
    match number::int_of(s, 0x7fff_ffff) {
        Ok(n) => Some(n as i32),
        Err(_) => None,
    }
}

/// The `u64` that a text stands for.
pub open spec fn large_uint(s: Seq<char>) -> Option<u64> {
    match number::uint_of(s, 10, 0xffff_ffff_ffff_ffff) {
        Ok(n) => Some(n as u64),
        Err(_) => None,
    }
}

/// A message with what a key and its value add. Unknown keys, and flags with
/// another value than `1`, add nothing.
pub open spec fn with_field(m: NotifyView, k: Seq<char>, v: Seq<char>) -> NotifyView {
    if k == "READY"@ {
        NotifyView { ready: m.ready || v == "1"@, ..m }
    } else if k == "STOPPING"@ {
        NotifyView { stopping: m.stopping || v == "1"@, ..m }
    } else if k == "RELOADING"@ {
        NotifyView { reloading: m.reloading || v == "1"@, ..m }
    } else if k == "WATCHDOG"@ {
        NotifyView { watchdog: m.watchdog || v == "1"@, ..m }
    } else if k == "BARRIER"@ {
        NotifyView { barrier: m.barrier || v == "1"@, ..m }
    } else if k == "MAINPID"@ {
        NotifyView { main_pid: small_int(v), ..m }
    } else if k == "STATUS"@ {
        NotifyView { status: Some(v), ..m }
    } else if k == "WATCHDOG_USEC"@ {
        NotifyView { watchdog_usec: large_uint(v), ..m }
    } else if k == "ERRNO"@ {
        NotifyView { errno: small_int(v), ..m }
    } else {
        m
    }
}

/// The message that a list of lines makes.
pub open spec fn message_of(ls: Seq<Seq<char>>) -> NotifyView
    decreases ls.len(),
{
    if ls.len() == 0 {
        no_message()
    } else {
        let before = message_of(ls.drop_last());
        match text::split_at_first(ls.last(), '=') {
            Some((k, v)) => with_field(before, k, v),
            None => before,
        }
    }
}

/// The message of a datagram; one that is not valid UTF-8 says nothing.
pub open spec fn datagram_message(buf: Seq<u8>) -> NotifyView {
    if vstd::utf8::valid_utf8(buf) {
        message_of(text::lines_of(vstd::utf8::decode_utf8(buf)))
    } else {
        no_message()
    }
}

fn int_value(v: &[char]) -> (r: Option<i32>)
    ensures
        r == small_int(v@),
{
    match parse_i32(v) {
        Ok(n) => Some(n),
        Err(_) => None,
    }
}

impl NotifyMessage {
    fn add_field(&mut self, k: &[char], v: &[char])
        ensures
            final(self)@ == with_field(old(self)@, k@, v@),
    {
        if is_str(k, "READY") {
            self.ready = self.ready || is_str(v, "1");
        } else if is_str(k, "STOPPING") {
            self.stopping = self.stopping || is_str(v, "1");
        } else if is_str(k, "RELOADING") {
            self.reloading = self.reloading || is_str(v, "1");
        } else if is_str(k, "WATCHDOG") {
            self.watchdog = self.watchdog || is_str(v, "1");
        } else if is_str(k, "BARRIER") {
            self.barrier = self.barrier || is_str(v, "1");
        } else if is_str(k, "MAINPID") {
            self.main_pid = int_value(v);
        } else if is_str(k, "STATUS") {
            self.status = Some(string_of(v));
        } else if is_str(k, "WATCHDOG_USEC") {
            self.watchdog_usec = match parse_u64(v) {
                Ok(n) => Some(n),
                Err(_) => None,
            };
        } else if is_str(k, "ERRNO") {
            self.errno = int_value(v);
        }
    }

    /// Parse a `sd_notify` datagram. Lines are `KEY=VALUE`, separated by `\n`.
    /// Unknown keys are ignored (forward-compat).
    pub fn parse(buf: &[u8]) -> (r: Self)
        ensures
            r@ == datagram_message(buf@),
    {
        let mut out = NotifyMessage::default();
        if let Some(s) = decode(buf) {
            let v = chars_of(s.as_str());
            let ls = lines(v.as_slice());
            let ghost all = text::slices(ls@);
            let mut i: usize = 0;
            while i < ls.len()
                invariant
                    i <= ls.len(),
                    all == text::slices(ls@),
                    out@ == message_of(all.take(i as int)),
                decreases ls.len() - i,
            {
                proof {
                    assert(all.take(i + 1).drop_last() =~= all.take(i as int));
                    assert(all.take(i + 1).last() == ls@[i as int]@);
                }
                if let Some((k, v)) = split_once(ls[i], '=') {
                    out.add_field(k, v);
                }
                i = i + 1;
            }
            proof {
                assert(all.take(all.len() as int) =~= all);
            }
        }
        out
    }
}

/// A line with an unknown key changes nothing.
pub proof fn unknown_keys_are_ignored(m: NotifyView, k: Seq<char>, v: Seq<char>)
    requires
        k != "READY"@,
        k != "STOPPING"@,
        k != "RELOADING"@,
        k != "WATCHDOG"@,
        k != "BARRIER"@,
        k != "MAINPID"@,
        k != "STATUS"@,
        k != "WATCHDOG_USEC"@,
        k != "ERRNO"@,
    ensures
        with_field(m, k, v) == m,
{
}

// ---------------------------------------------------------------------
// PID files
// ---------------------------------------------------------------------

/// The process id that a `PIDFile=` holds: the positive number on its first
/// line.
pub open spec fn pid_of(contents: Seq<char>) -> Option<i32> {
    let ls = text::lines_of(contents);
    if ls.len() == 0 {
        None
    } else {
        match number::int_of(text::trimmed(ls[0]), 0x7fff_ffff) {
            Ok(n) => if n > 0 {
                Some(n as i32)
            } else {
                None
            },
            Err(_) => None,
        }
    }
}

/// Reads the process id that a `PIDFile=` holds.
pub fn parse_pid_file(contents: &str) -> (r: Option<i32>)
    ensures
        r == pid_of(contents@),
{
    let v = chars_of(contents);
    let ls = lines(v.as_slice());
    proof {
        assert(text::slices(ls@).len() == ls@.len());
    }
    if ls.len() == 0 {
        return None;
    }
    match parse_i32(text::trim(ls[0])) {
        Ok(n) => if n > 0 {
            Some(n)
        } else {
            None
        },
        Err(_) => None,
    }
}

/// What to do after a look at a `PIDFile=`.
#[derive(Debug, Clone, Copy, PartialEq, Eq, Structural)]
pub enum PidStep {
    /// The process id is known.
    Found(i32),
    /// The deadline has passed.
    TimedOut,
    /// Look again after a short sleep.
    Retry,
}

/// Decides what to do after a look at a `PIDFile=`: what could be read of it,
/// and whether the deadline has passed.
pub fn pid_file_step(contents: &Option<String>, past_deadline: bool) -> (r: PidStep)
    ensures
        r == match (contents, past_deadline) {
            (Some(c), late) => match pid_of(c@) {
                Some(pid) => PidStep::Found(pid),
                None => if late {
                    PidStep::TimedOut
                } else {
                    PidStep::Retry
                },
            },
            (None, true) => PidStep::TimedOut,
            (None, false) => PidStep::Retry,
        },
{
    if let Some(c) = contents {
        if let Some(pid) = parse_pid_file(c.as_str()) {
            return PidStep::Found(pid);
        }
    }
    if past_deadline {
        PidStep::TimedOut
    } else {
        PidStep::Retry
    }
}

} // verus!
