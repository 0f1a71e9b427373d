//! `.socket` activation engine.
//!
//! Each `Listen*=` directive becomes one or more listeners. For `Accept=no`,
//! the listening fd is held and passed to the launched service via
//! `LISTEN_FDS=`. The functions here say what to bind and what the service
//! is told; the caller makes the sockets.
//!
//! Per `sd_listen_fds(3)`:
//! - `LISTEN_FDS=N` — number of fds. They start at fd 3 and are contiguous.
//! - `LISTEN_PID=<pid>` — must equal `getpid()` of the receiving process to
//!   guard against accidental inheritance.
//! - `LISTEN_FDNAMES=name1:name2:...` — colon-separated names, one per fd.

use crate::number;
use crate::number::decimal_string;
use crate::text;
use crate::text::join_by;
use crate::unit::duration;
use crate::unit::env;
use crate::unit::inet;
use crate::unit::inet::{InetAddr, InetView};
use crate::unit::socket;
use crate::unit::socket::{
    AddrView, ListenSpec, ListenView, SocketAddrSpec, SocketUnit, SocketView,
};
use vstd::prelude::*;

verus! {

/// The kind of a socket.
#[derive(Debug, Clone, Copy, PartialEq, Eq, Structural)]
pub enum SockType {
    Stream,
    Datagram,
    SeqPacket,
}

/// How a listener is made.
#[derive(Debug, PartialEq, Eq)]
pub enum Bind {
    /// An internet socket.
    Inet {
        /// Where it is bound.
        addr: InetAddr,
        /// Its kind.
        sock_type: SockType,
        /// How many connections may wait; `None` where it does not listen.
        backlog: Option<u32>,
        /// Whether it is for IPv6 alone.
        v6_only: bool,
    },
    /// A socket in the file system.
    Unix {
        /// Its path; what is there is removed, and its directory is made.
        path: String,
        /// Its kind.
        sock_type: SockType,
        /// How many connections may wait; `None` where it does not listen.
        backlog: Option<u32>,
        /// Its mode, where one is set.
        mode: Option<u32>,
    },
    /// A named pipe, made where it is missing.
    Fifo {
        /// Its path.
        path: String,
        /// The mode that it is made with.
        mode: u32,
    },
    /// A file that is opened as it is.
    Special {
        /// Its path.
        path: String,
    },
}

/// A [`Bind`] by its characters.
pub enum BindView {
    Inet { addr: InetView, sock_type: SockType, backlog: Option<u32>, v6_only: bool },
    Unix { path: Seq<char>, sock_type: SockType, backlog: Option<u32>, mode: Option<u32> },
    Fifo { path: Seq<char>, mode: u32 },
    Special { path: Seq<char> },
}

impl View for Bind {
    type V = BindView;

    open spec fn view(&self) -> BindView {
        match *self {
            Bind::Inet { addr, sock_type, backlog, v6_only } => BindView::Inet {
                addr: addr@,
                sock_type,
                backlog,
                v6_only,
            },
            Bind::Unix { path, sock_type, backlog, mode } => BindView::Unix {
                path: path@,
                sock_type,
                backlog,
                mode,
            },
            Bind::Fifo { path, mode } => BindView::Fifo { path: path@, mode },
            Bind::Special { path } => BindView::Special { path: path@ },
        }
    }
}

/// A listener to make.
#[derive(Debug, PartialEq, Eq)]
pub struct Listener {
    /// How it is made.
    pub bind: Bind,
    /// Filesystem cleanup target (for Unix sockets / FIFOs).
    pub remove_on_stop: Option<String>,
    /// Friendly name for `LISTEN_FDNAMES=`.
    pub name: String,
}

/// A [`Listener`] by its characters.
pub struct ListenerView {
    pub bind: BindView,
    pub remove_on_stop: Option<Seq<char>>,
    pub name: Seq<char>,
}

impl View for Listener {
    type V = ListenerView;

    open spec fn view(&self) -> ListenerView {
        ListenerView {
            bind: self.bind@,
            remove_on_stop: text::opt_text(self.remove_on_stop),
            name: self.name@,
        }
    }
}

/// The views of a list of listeners.
pub open spec fn listeners_view(v: Seq<Listener>) -> Seq<ListenerView> {
    v.map_values(|l: Listener| l@)
}

/// The options of a unit that its listeners are made with.
#[derive(Debug, Clone, Copy, PartialEq, Eq)]
pub struct BindOptions {
    /// How many connections may wait.
    pub backlog: u32,
    /// `SocketMode=`.
    pub mode: Option<u32>,
    /// `RemoveOnStop=`.
    pub remove_on_stop: bool,
}

/// The options of a unit.
pub open spec fn options_of(u: SocketView) -> BindOptions {
    BindOptions {
        backlog: if u.backlog == 0 {
            128
        } else {
            u.backlog
        },
        mode: u.socket_mode,
        remove_on_stop: u.remove_on_stop,
    }
}

fn bind_options(u: &SocketUnit) -> (r: BindOptions)
    ensures
        r == options_of(u@),
{
    BindOptions {
        backlog: if u.backlog == 0 {
            128
        } else {
            u.backlog
        },
        mode: u.socket_mode,
        remove_on_stop: u.remove_on_stop,
    }
}

/// How many connections may wait at a socket of a kind.
pub open spec fn backlog_of(t: SockType, backlog: u32) -> Option<u32> {
    match t {
        SockType::Datagram => None,
        _ => Some(backlog),
    }
}

/// An internet listener.
pub open spec fn inet_listener(
    addr: InetView,
    t: SockType,
    o: BindOptions,
    v6_only: bool,
) -> ListenerView {
    ListenerView {
        bind: BindView::Inet { addr, sock_type: t, backlog: backlog_of(t, o.backlog), v6_only },
        remove_on_stop: None,
        name: inet::endpoint_text(addr),
    }
}

/// The listeners of a bare port: on every address, of IPv4 and of IPv6.
pub open spec fn port_listeners(p: u16, t: SockType, o: BindOptions) -> Seq<ListenerView> {
    seq![
        inet_listener(InetView::V4 { octets: (0, 0, 0, 0), port: p }, t, o, false),
        inet_listener(
            InetView::V6 {
                segments: seq![0u16, 0u16, 0u16, 0u16, 0u16, 0u16, 0u16, 0u16],
                port: p,
                scope_id: 0,
            },
            t,
            o,
            true,
        ),
    ]
}

/// A listener at a path.
pub open spec fn unix_listener(path: Seq<char>, t: SockType, o: BindOptions) -> ListenerView {
    ListenerView {
        bind: BindView::Unix { path, sock_type: t, backlog: backlog_of(t, o.backlog), mode: o.mode },
        remove_on_stop: if o.remove_on_stop {
            Some(path)
        } else {
            None
        },
        name: path,
    }
}

/// The listeners of an address: sequential packets come only on paths, and a
/// name in the abstract namespace stands for a path in `/tmp`, for streams
/// alone.
pub open spec fn addr_listeners(a: AddrView, t: SockType, o: BindOptions) -> Result<
    Seq<ListenerView>,
    Seq<char>,
> {
    match a {
        AddrView::UnixPath(p) => Ok(seq![unix_listener(p, t, o)]),
        _ if t is SeqPacket => Err("SOCK_SEQPACKET only supported on unix paths"@),
        AddrView::Inet(i) => Ok(seq![inet_listener(i, t, o, false)]),
        AddrView::Port(p) => Ok(port_listeners(p, t, o)),
        AddrView::UnixAbstract(n) => if t is Stream {
            Ok(seq![unix_listener("/tmp/"@ + n, t, o)])
        } else {
            Err("abstract namespace unsupported"@)
        },
        AddrView::Vsock(_) | AddrView::Netlink(_) => Err("address family not supported on macOS"@),
    }
}

/// The listeners of a `Listen*=` directive.
pub open spec fn listeners_of(l: ListenView, o: BindOptions) -> Result<
    Seq<ListenerView>,
    Seq<char>,
> {
    match l {
        ListenView::Stream(a) => addr_listeners(a, SockType::Stream, o),
        ListenView::Datagram(a) => addr_listeners(a, SockType::Datagram, o),
        ListenView::SequentialPacket(a) => addr_listeners(a, SockType::SeqPacket, o),
        ListenView::Fifo(p) => Ok(
            seq![
                ListenerView {
                    bind: BindView::Fifo {
                        path: p,
                        mode: match o.mode {
                            Some(m) => m,
                            None => 0o660,
                        },
                    },
                    remove_on_stop: if o.remove_on_stop {
                        Some(p)
                    } else {
                        None
                    },
                    name: p,
                },
            ],
        ),
        ListenView::Special(p) => Ok(
            seq![
                ListenerView {
                    bind: BindView::Special { path: p },
                    remove_on_stop: None,
                    name: p,
                },
            ],
        ),
        ListenView::Netlink(_) | ListenView::MessageQueue(_) | ListenView::UsbFunction(_) => Err(
            "Linux-only Listen* directive"@,
        ),
    }
}

/// The name of a listener: that of the unit where it has one, else its own,
/// else one by its position.
pub open spec fn named(l: ListenerView, unit_name: Option<Seq<char>>, i: int) -> ListenerView {
    match unit_name {
        Some(n) => ListenerView { name: n, ..l },
        None => if l.name.len() == 0 {
            ListenerView { name: "fd"@ + number::decimal(i as nat), ..l }
        } else {
            l
        },
    }
}

/// Listeners with their names.
pub open spec fn all_named(
    ls: Seq<ListenerView>,
    unit_name: Option<Seq<char>>,
    i: int,
) -> Seq<ListenerView> {
    ls.map_values(|l: ListenerView| named(l, unit_name, i))
}

/// The listeners of some directives, in declared order; the first that cannot
/// be bound gives the error.
pub open spec fn all_listeners(
    ls: Seq<ListenView>,
    o: BindOptions,
    unit_name: Option<Seq<char>>,
) -> Result<Seq<ListenerView>, Seq<char>>
    decreases ls.len(),
{
    if ls.len() == 0 {
        Ok(seq![])
    } else {
        match all_listeners(ls.drop_last(), o, unit_name) {
            Err(e) => Err(e),
            Ok(before) => match listeners_of(ls.last(), o) {
                Err(e) => Err(e),
                Ok(more) => Ok(before + all_named(more, unit_name, ls.len() - 1)),
            },
        }
    }
}

/// The views of a result with listeners.
pub open spec fn listeners_result(r: Result<Vec<Listener>, String>) -> Result<
    Seq<ListenerView>,
    Seq<char>,
> {
    match r {
        Ok(v) => Ok(listeners_view(v@)),
        Err(e) => Err(e@),
    }
}

fn listen_backlog(t: SockType, backlog: u32) -> (r: Option<u32>)
    ensures
        r == backlog_of(t, backlog),
{
    match t {
        SockType::Datagram => None,
        _ => Some(backlog),
    }
}

fn bind_inet(addr: InetAddr, t: SockType, o: BindOptions, v6_only: bool) -> (r: Listener)
    ensures
        r@ == inet_listener(addr@, t, o, v6_only),
{
    let name = addr.to_text();
    Listener {
        bind: Bind::Inet { addr, sock_type: t, backlog: listen_backlog(t, o.backlog), v6_only },
        remove_on_stop: None,
        name,
    }
}

fn bind_unix(path: &str, t: SockType, o: BindOptions) -> (r: Listener)
    ensures
        r@ == unix_listener(path@, t, o),
{
    Listener {
        bind: Bind::Unix {
            path: path.to_owned(),
            sock_type: t,
            backlog: listen_backlog(t, o.backlog),
            mode: o.mode,
        },
        remove_on_stop: if o.remove_on_stop {
            Some(path.to_owned())
        } else {
            None
        },
        name: path.to_owned(),
    }
}

fn bind_port(p: u16, t: SockType, o: BindOptions) -> (r: Vec<Listener>)
    ensures
        listeners_view(r@) == port_listeners(p, t, o),
{
    let mut segments: Vec<u16> = Vec::new();
    let mut i: usize = 0;
    while i < 8
        invariant
            i <= 8,
            segments@.len() == i,
            forall|j: int| 0 <= j < i ==> segments@[j] == 0u16,
        decreases 8 - i,
    {
        segments.push(0);
        i = i + 1;
    }
    proof {
        assert(segments@ =~= seq![0u16, 0u16, 0u16, 0u16, 0u16, 0u16, 0u16, 0u16]);
    }
    let mut out: Vec<Listener> = Vec::new();
    out.push(bind_inet(InetAddr::V4 { octets: (0, 0, 0, 0), port: p }, t, o, false));
    out.push(bind_inet(InetAddr::V6 { segments, port: p, scope_id: 0 }, t, o, true));
    proof {
        assert(listeners_view(out@) =~= port_listeners(p, t, o));
    }
    out
}

fn only(l: Listener) -> (r: Vec<Listener>)
    ensures
        listeners_view(r@) == seq![l@],
{
    let mut out: Vec<Listener> = Vec::new();
    out.push(l);
    proof {
        assert(listeners_view(out@) =~= seq![l@]);
    }
    out
}

fn bind_addr(a: &SocketAddrSpec, t: SockType, o: BindOptions) -> (r: Result<Vec<Listener>, String>)
    ensures
        listeners_result(r) == addr_listeners(a@, t, o),
{
    if let SocketAddrSpec::UnixPath(p) = a {
        return Ok(only(bind_unix(p.as_str(), t, o)));
    }
    if t == SockType::SeqPacket {
        return Err("SOCK_SEQPACKET only supported on unix paths".to_owned());
    }
    match a {
        SocketAddrSpec::UnixPath(p) => Ok(only(bind_unix(p.as_str(), t, o))),
        SocketAddrSpec::Inet(i) => Ok(only(bind_inet(i.clone(), t, o, false))),
        SocketAddrSpec::Port(p) => Ok(bind_port(*p, t, o)),
        SocketAddrSpec::UnixAbstract(n) => if t == SockType::Stream {
            let mut path = "/tmp/".to_owned();
            path.append(n.as_str());
            Ok(only(bind_unix(path.as_str(), t, o)))
        } else {
            Err("abstract namespace unsupported".to_owned())
        },
        SocketAddrSpec::Vsock(_) | SocketAddrSpec::Netlink(_) => Err(
            "address family not supported on macOS".to_owned(),
        ),
    }
}

fn bind_one(l: &ListenSpec, o: BindOptions) -> (r: Result<Vec<Listener>, String>)
    ensures
        listeners_result(r) == listeners_of(l@, o),
{
    match l {
        ListenSpec::Stream(a) => bind_addr(a, SockType::Stream, o),
        ListenSpec::Datagram(a) => bind_addr(a, SockType::Datagram, o),
        ListenSpec::SequentialPacket(a) => bind_addr(a, SockType::SeqPacket, o),
        ListenSpec::Fifo(p) => {
            let mode: u32 = match o.mode {
                Some(m) => m,
                None => 0o660,
            };
            Ok(
                only(
                    Listener {
                        bind: Bind::Fifo { path: p.clone(), mode },
                        remove_on_stop: if o.remove_on_stop {
                            Some(p.clone())
                        } else {
                            None
                        },
                        name: p.clone(),
                    },
                ),
            )
        },
        ListenSpec::Special(p) => Ok(
            only(
                Listener {
                    bind: Bind::Special { path: p.clone() },
                    remove_on_stop: None,
                    name: p.clone(),
                },
            ),
        ),
        ListenSpec::Netlink(_) | ListenSpec::MessageQueue(_) | ListenSpec::UsbFunction(_) => Err(
            "Linux-only Listen* directive".to_owned(),
        ),
    }
}

fn give_name(l: Listener, unit_name: &Option<String>, i: usize) -> (r: Listener)
    ensures
        r@ == named(l@, text::opt_text(*unit_name), i as int),
{
    let Listener { bind, remove_on_stop, name } = l;
    let name = match unit_name {
        Some(n) => n.clone(),
        None => {
            if text::chars_of(name.as_str()).len() == 0 {
                let mut n = "fd".to_owned();
                n.append(decimal_string(i as u64).as_str());
                n
            } else {
                name
            }
        },
    };
    Listener { bind, remove_on_stop, name }
}

fn push_named(out: &mut Vec<Listener>, more: Vec<Listener>, unit_name: &Option<String>, i: usize)
    ensures
        listeners_view(final(out)@) == listeners_view(old(out)@) + all_named(
            listeners_view(more@),
            text::opt_text(*unit_name),
            i as int,
        ),
{
    let ghost all = all_named(listeners_view(more@), text::opt_text(*unit_name), i as int);
    let ghost given = listeners_view(more@);
    let ghost first = listeners_view(out@);
    let ghost mut k: int = 0;
    let mut more = more;
    proof {
        assert(first + all.take(0) =~= first);
        assert(given.skip(0) =~= given);
    }
    while more.len() > 0
        invariant
            0 <= k,
            k + more.len() == given.len(),
            all == all_named(given, text::opt_text(*unit_name), i as int),
            listeners_view(more@) == given.skip(k),
            listeners_view(out@) =~= first + all.take(k),
        decreases more.len(),
    {
        let ghost rest = more@;
        let ghost before = out@;
        let l = more.remove(0);
        proof {
            assert(listeners_view(rest)[0] == l@);
            assert(given.skip(k)[0] == given[k]);
            assert(listeners_view(more@) =~= listeners_view(rest).skip(1));
            assert(given.skip(k).skip(1) =~= given.skip(k + 1));
        }
        let l = give_name(l, unit_name, i);
        out.push(l);
        proof {
            assert(all[k] == l@);
            assert(listeners_view(out@) =~= listeners_view(before).push(l@));
            k = k + 1;
        }
    }
    proof {
        assert(all.take(all.len() as int) =~= all);
    }
}

/// What to bind for every `Listen*=` in `unit`, in declared order.
pub fn bind_all(unit: &SocketUnit) -> (r: Result<Vec<Listener>, String>)
    ensures
        listeners_result(r) == all_listeners(
            unit@.listen,
            options_of(unit@),
            unit@.file_descriptor_name,
        ),
{
    bind_each(&unit.listen, bind_options(unit), &unit.file_descriptor_name)
}

proof fn lemma_first_error(
    ls: Seq<ListenView>,
    o: BindOptions,
    unit_name: Option<Seq<char>>,
    n: int,
)
    requires
        0 <= n <= ls.len(),
        all_listeners(ls.take(n), o, unit_name) is Err,
    ensures
        all_listeners(ls, o, unit_name) == all_listeners(ls.take(n), o, unit_name),
    decreases ls.len(),
{
    if n == ls.len() {
        assert(ls.take(n) =~= ls);
    } else {
        assert(ls.drop_last().take(n) =~= ls.take(n));
        lemma_first_error(ls.drop_last(), o, unit_name, n);
    }
}

fn bind_each(ls: &Vec<ListenSpec>, o: BindOptions, unit_name: &Option<String>) -> (r: Result<
    Vec<Listener>,
    String,
>)
    ensures
        listeners_result(r) == all_listeners(
            socket::listens_view(ls@),
            o,
            text::opt_text(*unit_name),
        ),
{
    let ghost all = socket::listens_view(ls@);
    let mut out: Vec<Listener> = Vec::new();
    let mut i: usize = 0;
    proof {
        reveal(socket::listens_view);
        assert(listeners_view(out@) =~= seq![]);
    }
    while i < ls.len()
        invariant
            i <= ls.len(),
            all == socket::listens_view(ls@),
            all.len() == ls@.len(),
            all_listeners(all.take(i as int), o, text::opt_text(*unit_name)) == Ok::<
                Seq<ListenerView>,
                Seq<char>,
            >(listeners_view(out@)),
        decreases ls.len() - i,
    {
        proof {
            reveal(socket::listens_view);
            assert(all.take(i + 1).drop_last() =~= all.take(i as int));
            assert(all.take(i + 1).last() == ls@[i as int]@);
        }
        match bind_one(&ls[i], o) {
            Ok(more) => push_named(&mut out, more, unit_name, i),
            Err(e) => {
                proof {
                    lemma_first_error(all, o, text::opt_text(*unit_name), i + 1);
                }
                return Err(e);
            },
        }
        i = i + 1;
    }
    proof {
        assert(all.take(all.len() as int) =~= all);
    }
    Ok(out)
}

// ---------------------------------------------------------------------
// Passing fds
// ---------------------------------------------------------------------

/// What a service is told of its fds, by their names.
pub open spec fn fd_environment(names: Seq<Seq<char>>) -> Seq<(Seq<char>, Seq<char>)> {
    if names.len() == 0 {
        seq![]
    } else {
        seq![
            ("LISTEN_FDS"@, number::decimal(names.len())),
            ("LISTEN_FDNAMES"@, text::joined_by(names, ":"@)),
        ]
    }
}

/// The `LISTEN_FDS=` env vars of a service, given the names of its fds; none
/// where it has no fds.
pub fn install(names: &Vec<String>) -> (r: Vec<(String, String)>)
    ensures
        env::pairs_view(r@) == fd_environment(text::texts(names@)),
{
    let mut out: Vec<(String, String)> = Vec::new();
    if names.len() > 0 {
        out.push(("LISTEN_FDS".to_owned(), decimal_string(names.len() as u64)));
        out.push(("LISTEN_FDNAMES".to_owned(), join_by(names, ":")));
    }
    proof {
        assert(env::pairs_view(out@) =~= fd_environment(text::texts(names@)));
    }
    out
}

/// The fd under which a service finds its fd of this position: the first is
/// the third.
pub fn fd_of(i: usize) -> (r: i32)
    requires
        i <= 0x7fff_fffc,
    ensures
        r == 3 + i,
{
    3 + i as i32
}

/// The bytes of decimal digits.
pub open spec fn digit_bytes(n: nat) -> Seq<u8>
    decreases n,
{
    if n < 10 {
        seq![(48 + n) as u8]
    } else {
        digit_bytes(n / 10).push((48 + n % 10) as u8)
    }
}

proof fn lemma_digit_count(n: nat, k: nat)
    requires
        n < duration::pow10(k),
        k >= 1,
    ensures
        1 <= digit_bytes(n).len() <= k,
    decreases n,
{
    if n >= 10 {
        reveal_with_fuel(duration::pow10, 2);
        assert(k >= 2);
        lemma_digit_count(n / 10, (k - 1) as nat);
    }
}

fn put_digits(n: u32, out: &mut [u8; 16]) -> (r: usize)
    requires
        digit_bytes(n as nat).len() <= 15,
    ensures
        r == digit_bytes(n as nat).len(),
        final(out)@.take(r as int) == digit_bytes(n as nat),
    decreases n,
{
    if n < 10 {
        out.set(0, (48 + n) as u8);
        proof {
            assert(out@.take(1) =~= seq![(48 + n) as u8]);
        }
        1
    } else {
        let k = put_digits(n / 10, out);
        let ghost before = out@;
        out.set(k, (48 + n % 10) as u8);
        proof {
            assert(out@.take(k + 1) =~= before.take(k as int).push((48 + n % 10) as u8));
        }
        k + 1
    }
}

/// Writes the value of `LISTEN_PID=`, with a zero byte behind it, without
/// allocating: it is set between fork and exec. Gives its length.
pub fn listen_pid(pid: i32, out: &mut [u8; 16]) -> (r: usize)
    ensures
        r < 16,
        final(out)@.take(r as int) == digit_bytes(
            if pid < 0 {
                0
            } else {
                pid as nat
            },
        ),
        final(out)@[r as int] == 0,
{
    let n: u32 = if pid < 0 {
        0
    } else {
        pid as u32
    };
    proof {
        assert(duration::pow10(10) == 10_000_000_000) by {
            reveal_with_fuel(duration::pow10, 11);
        }
        lemma_digit_count(n as nat, 10);
    }
    let k = put_digits(n, out);
    let ghost before = out@;
    out.set(k, 0);
    proof {
        assert(out@.take(k as int) =~= before.take(k as int));
    }
    k
}

/// The digits of a number are the bytes of its decimal form.
pub proof fn digits_are_decimal(n: nat)
    ensures
        digit_bytes(n).len() == number::decimal(n).len(),
        forall|i: int|
            0 <= i < digit_bytes(n).len() ==> digit_bytes(n)[i] as char == #[trigger] number::decimal(
                n,
            )[i],
    decreases n,
{
    if n >= 10 {
        digits_are_decimal(n / 10);
    }
}

} // verus!
