//! `[Socket]` section: typed view + listen-spec parsing.
//!
//! See `man systemd.socket`.

use crate::number;
use crate::number::parse_u16;
use crate::text;
use crate::text::{chars_of, debug_text, same, starts_with, string_of, strip_prefix, trim};
use crate::unit::duration::SdDuration;
use crate::unit::env;
use crate::unit::inet;
use crate::unit::inet::{InetAddr, InetView};
use crate::unit::name;
use crate::unit::name::{NameView, UnitName};
use vstd::prelude::*;

verus! {

/// Address-family + payload for a `Listen*=` value.
#[derive(Debug, PartialEq, Eq)]
pub enum SocketAddrSpec {
    /// `0.0.0.0:80`, `[::]:80`, etc.
    Inet(InetAddr),
    /// Bare port number — listen on both v4 and v6.
    Port(u16),
    /// Filesystem-bound unix socket: `/tmp/foo.sock`.
    UnixPath(String),
    /// Linux abstract namespace `@foo`. Unsupported on macOS — kept for
    /// round-trip and emits a warning at activation time.
    UnixAbstract(String),
    /// `vsock:CID:PORT` — Linux/QEMU only.
    Vsock(String),
    /// `netlink ROUTE 0` etc. — Linux-only.
    Netlink(String),
}

/// A [`SocketAddrSpec`] by its characters.
pub enum AddrView {
    Inet(InetView),
    Port(u16),
    UnixPath(Seq<char>),
    UnixAbstract(Seq<char>),
    Vsock(Seq<char>),
    Netlink(Seq<char>),
}

impl View for SocketAddrSpec {
    type V = AddrView;

    open spec fn view(&self) -> AddrView {
        match *self {
            SocketAddrSpec::Inet(a) => AddrView::Inet(a@),
            SocketAddrSpec::Port(p) => AddrView::Port(p),
            SocketAddrSpec::UnixPath(s) => AddrView::UnixPath(s@),
            SocketAddrSpec::UnixAbstract(s) => AddrView::UnixAbstract(s@),
            SocketAddrSpec::Vsock(s) => AddrView::Vsock(s@),
            SocketAddrSpec::Netlink(s) => AddrView::Netlink(s@),
        }
    }
}

/// Whether the text begins with the keyword of a netlink family.
pub open spec fn netlink_keyword(v: Seq<char>) -> bool {
    text::begins_with(v, "ROUTE"@) || text::begins_with(v, "FIREWALL"@) || text::begins_with(
        v,
        "INET"@,
    ) || text::begins_with(v, "XFRM"@) || text::begins_with(v, "NETFILTER"@)
}

/// The address that a `ListenStream=` / `ListenDatagram=` value stands for.
pub open spec fn addr_of(value: Seq<char>) -> Result<AddrView, Seq<char>> {
    let v = text::trimmed(value);
    if v.len() == 0 {
        Err("empty listen spec"@)
    } else if number::uint_of(v, 10, 0xffff) is Ok {
        Ok(AddrView::Port(number::uint_of(v, 10, 0xffff)->Ok_0 as u16))
    } else if text::begins_with(v, "/"@) {
        Ok(AddrView::UnixPath(v))
    } else if text::begins_with(v, "@"@) {
        Ok(AddrView::UnixAbstract(v.skip("@"@.len() as int)))
    } else if text::begins_with(v, "vsock:"@) {
        Ok(AddrView::Vsock(v.skip("vsock:"@.len() as int)))
    } else if netlink_keyword(v) {
        Ok(AddrView::Netlink(v))
    } else {
        match inet::inet_of(v) {
            Some(a) => Ok(AddrView::Inet(a)),
            None => Err("cannot parse listen spec "@ + text::debug_form(v)),
        }
    }
}

/// The view of a parsed address.
pub open spec fn addr_result(r: Result<SocketAddrSpec, String>) -> Result<AddrView, Seq<char>> {
    match r {
        Ok(a) => Ok(a@),
        Err(e) => Err(e@),
    }
}

impl SocketAddrSpec {
    /// Parse a `ListenStream=` / `ListenDatagram=` value.
    pub fn parse(value: &str) -> (r: Result<Self, String>)
        ensures
            addr_result(r) == addr_of(value@),
    {
        let chars = chars_of(value);
        let v = trim(chars.as_slice());
        if v.len() == 0 {
            return Err("empty listen spec".to_owned());
        }
        if let Ok(port) = parse_u16(v) {
            return Ok(SocketAddrSpec::Port(port));
        }
        if starts_with(v, "/") {
            return Ok(SocketAddrSpec::UnixPath(string_of(v)));
        }
        if let Some(rest) = strip_prefix(v, "@") {
            return Ok(SocketAddrSpec::UnixAbstract(string_of(rest)));
        }
        if let Some(rest) = strip_prefix(v, "vsock:") {
            return Ok(SocketAddrSpec::Vsock(string_of(rest)));
        }
        if starts_with(v, "ROUTE") || starts_with(v, "FIREWALL") || starts_with(v, "INET")
            || starts_with(v, "XFRM") || starts_with(v, "NETFILTER") {
            return Ok(SocketAddrSpec::Netlink(string_of(v)));
        }
        match InetAddr::parse(v) {
            Some(a) => Ok(SocketAddrSpec::Inet(a)),
            None => {
                let mut m = "cannot parse listen spec ".to_owned();
                m.append(debug_text(string_of(v).as_str()).as_str());
                Err(m)
            },
        }
    }
}

/// Concrete socket-listen entry: the kind plus its address.
#[derive(Debug, PartialEq, Eq)]
pub enum ListenSpec {
    /// `ListenStream=` (SOCK_STREAM).
    Stream(SocketAddrSpec),
    /// `ListenDatagram=` (SOCK_DGRAM).
    Datagram(SocketAddrSpec),
    /// `ListenSequentialPacket=` (SOCK_SEQPACKET; rare on macOS but supported via unix).
    SequentialPacket(SocketAddrSpec),
    /// `ListenFIFO=` — named pipe.
    Fifo(String),
    /// `ListenSpecial=` — character device.
    Special(String),
    /// `ListenNetlink=` — Linux-only.
    Netlink(String),
    /// `ListenMessageQueue=` — Linux POSIX MQ — unsupported.
    MessageQueue(String),
    /// `ListenUSBFunction=` — Linux-only.
    UsbFunction(String),
}

/// A [`ListenSpec`] by its characters.
pub enum ListenView {
    Stream(AddrView),
    Datagram(AddrView),
    SequentialPacket(AddrView),
    Fifo(Seq<char>),
    Special(Seq<char>),
    Netlink(Seq<char>),
    MessageQueue(Seq<char>),
    UsbFunction(Seq<char>),
}

impl View for ListenSpec {
    type V = ListenView;

    open spec fn view(&self) -> ListenView {
        match *self {
            ListenSpec::Stream(a) => ListenView::Stream(a@),
            ListenSpec::Datagram(a) => ListenView::Datagram(a@),
            ListenSpec::SequentialPacket(a) => ListenView::SequentialPacket(a@),
            ListenSpec::Fifo(s) => ListenView::Fifo(s@),
            ListenSpec::Special(s) => ListenView::Special(s@),
            ListenSpec::Netlink(s) => ListenView::Netlink(s@),
            ListenSpec::MessageQueue(s) => ListenView::MessageQueue(s@),
            ListenSpec::UsbFunction(s) => ListenView::UsbFunction(s@),
        }
    }
}

/// The views of a list of listen entries.
#[verifier::opaque]
pub open spec fn listens_view(v: Seq<ListenSpec>) -> Seq<ListenView> {
    v.map_values(|l: ListenSpec| l@)
}

pub proof fn lemma_listens_push(v: Seq<ListenSpec>, l: ListenSpec)
    ensures
        listens_view(v.push(l)) == listens_view(v).push(l@),
        listens_view(Seq::<ListenSpec>::empty()) == Seq::<ListenView>::empty(),
{
    reveal(listens_view);
    assert(listens_view(v.push(l)) =~= listens_view(v).push(l@));
    assert(listens_view(Seq::<ListenSpec>::empty()) =~= Seq::<ListenView>::empty());
}

/// `BindIPv6Only=`.
#[derive(Debug, Clone, Copy, PartialEq, Eq, Structural)]
pub enum BindIPv6Only {
    /// Default per kernel.
    Default,
    /// `both`.
    Both,
    /// `ipv6-only`.
    Ipv6Only,
}

/// The mode that a `BindIPv6Only=` value stands for.
pub open spec fn bind_ipv6_only_of(s: Seq<char>) -> Result<BindIPv6Only, Seq<char>> {
    if s == "default"@ {
        Ok(BindIPv6Only::Default)
    } else if s == "both"@ {
        Ok(BindIPv6Only::Both)
    } else if s == "ipv6-only"@ {
        Ok(BindIPv6Only::Ipv6Only)
    } else {
        Err("unknown BindIPv6Only= "@ + text::debug_form(s))
    }
}

impl BindIPv6Only {
    /// Parse from a directive value.
    pub fn parse(s: &str) -> (r: Result<Self, String>)
        ensures
            match r {
                Ok(v) => bind_ipv6_only_of(s@) == Ok::<BindIPv6Only, Seq<char>>(v),
                Err(e) => bind_ipv6_only_of(s@) == Err::<BindIPv6Only, Seq<char>>(e@),
            },
    {
        if same(s, "default") {
            Ok(BindIPv6Only::Default)
        } else if same(s, "both") {
            Ok(BindIPv6Only::Both)
        } else if same(s, "ipv6-only") {
            Ok(BindIPv6Only::Ipv6Only)
        } else {
            let mut m = "unknown BindIPv6Only= ".to_owned();
            m.append(debug_text(s).as_str());
            Err(m)
        }
    }
}

/// Fully-typed `[Socket]` section.
#[derive(Debug, PartialEq, Eq)]
pub struct SocketUnit {
    /// All `Listen*=` directives in declaration order.
    pub listen: Vec<ListenSpec>,
    /// `Accept=` (default `no`).
    pub accept: bool,
    /// `Service=` — explicit target service. Default is the matching
    /// `<name>.service` (or template `<name>@.service` if `Accept=yes`).
    pub service: Option<UnitName>,
    /// `MaxConnections=`.
    pub max_connections: u32,
    /// `MaxConnectionsPerSource=`.
    pub max_connections_per_source: u32,
    /// `Backlog=`.
    pub backlog: u32,
    /// `KeepAlive=`.
    pub keep_alive: bool,
    /// `KeepAliveTimeSec=`.
    pub keep_alive_time_sec: Option<SdDuration>,
    /// `KeepAliveIntervalSec=`.
    pub keep_alive_interval_sec: Option<SdDuration>,
    /// `KeepAliveProbes=`.
    pub keep_alive_probes: Option<u32>,
    /// `NoDelay=` (TCP_NODELAY).
    pub no_delay: bool,
    /// `Priority=` — SO_PRIORITY.
    pub priority: Option<i32>,
    /// `DeferAcceptSec=`.
    pub defer_accept_sec: Option<SdDuration>,
    /// `ReceiveBuffer=`.
    pub receive_buffer: Option<u64>,
    /// `SendBuffer=`.
    pub send_buffer: Option<u64>,
    /// `IPTOS=`.
    pub ip_tos: Option<String>,
    /// `IPTTL=`.
    pub ip_ttl: Option<u32>,
    /// `Mark=`.
    pub mark: Option<i32>,
    /// `ReusePort=`.
    pub reuse_port: bool,
    /// `Transparent=`.
    pub transparent: bool,
    /// `Broadcast=`.
    pub broadcast: bool,
    /// `PassCredentials=` — Linux-only.
    pub pass_credentials: bool,
    /// `PassSecurity=` — Linux-only.
    pub pass_security: bool,
    /// `PassPacketInfo=`.
    pub pass_packet_info: bool,
    /// `BindIPv6Only=`.
    pub bind_ipv6_only: BindIPv6Only,
    /// `BindToDevice=` — Linux-only.
    pub bind_to_device: Option<String>,
    /// `SocketUser=`.
    pub socket_user: Option<String>,
    /// `SocketGroup=`.
    pub socket_group: Option<String>,
    /// `SocketMode=` — octal.
    pub socket_mode: Option<u32>,
    /// `DirectoryMode=` — octal.
    pub directory_mode: Option<u32>,
    /// `RemoveOnStop=`.
    pub remove_on_stop: bool,
    /// `Symlinks=`.
    pub symlinks: Vec<String>,
    /// `FileDescriptorName=`.
    pub file_descriptor_name: Option<String>,
    /// `TriggerLimitIntervalSec=`.
    pub trigger_limit_interval_sec: Option<SdDuration>,
    /// `TriggerLimitBurst=`.
    pub trigger_limit_burst: Option<u32>,
    /// `MessageQueueMaxMessages=`.
    pub mq_max_messages: Option<i64>,
    /// `MessageQueueMessageSize=`.
    pub mq_message_size: Option<i64>,
    /// Anything we accepted but didn't model, or that has no effect without a
    /// Linux kernel: `(key, value)`.
    pub passthrough: Vec<(String, String)>,
}

/// A [`SocketUnit`] by its characters.
pub struct SocketView {
    pub listen: Seq<ListenView>,
    pub accept: bool,
    pub service: Option<NameView>,
    pub max_connections: u32,
    pub max_connections_per_source: u32,
    pub backlog: u32,
    pub keep_alive: bool,
    pub keep_alive_time_sec: Option<SdDuration>,
    pub keep_alive_interval_sec: Option<SdDuration>,
    pub keep_alive_probes: Option<u32>,
    pub no_delay: bool,
    pub priority: Option<i32>,
    pub defer_accept_sec: Option<SdDuration>,
    pub receive_buffer: Option<u64>,
    pub send_buffer: Option<u64>,
    pub ip_tos: Option<Seq<char>>,
    pub ip_ttl: Option<u32>,
    pub mark: Option<i32>,
    pub reuse_port: bool,
    pub transparent: bool,
    pub broadcast: bool,
    pub pass_credentials: bool,
    pub pass_security: bool,
    pub pass_packet_info: bool,
    pub bind_ipv6_only: BindIPv6Only,
    pub bind_to_device: Option<Seq<char>>,
    pub socket_user: Option<Seq<char>>,
    pub socket_group: Option<Seq<char>>,
    pub socket_mode: Option<u32>,
    pub directory_mode: Option<u32>,
    pub remove_on_stop: bool,
    pub symlinks: Seq<Seq<char>>,
    pub file_descriptor_name: Option<Seq<char>>,
    pub trigger_limit_interval_sec: Option<SdDuration>,
    pub trigger_limit_burst: Option<u32>,
    pub mq_max_messages: Option<i64>,
    pub mq_message_size: Option<i64>,
    pub passthrough: Seq<(Seq<char>, Seq<char>)>,
}

impl View for SocketUnit {
    type V = SocketView;

    open spec fn view(&self) -> SocketView {
        SocketView {
            listen: listens_view(self.listen@),
            accept: self.accept,
            service: name::opt_name(self.service),
            max_connections: self.max_connections,
            max_connections_per_source: self.max_connections_per_source,
            backlog: self.backlog,
            keep_alive: self.keep_alive,
            keep_alive_time_sec: self.keep_alive_time_sec,
            keep_alive_interval_sec: self.keep_alive_interval_sec,
            keep_alive_probes: self.keep_alive_probes,
            no_delay: self.no_delay,
            priority: self.priority,
            defer_accept_sec: self.defer_accept_sec,
            receive_buffer: self.receive_buffer,
            send_buffer: self.send_buffer,
            ip_tos: text::opt_text(self.ip_tos),
            ip_ttl: self.ip_ttl,
            mark: self.mark,
            reuse_port: self.reuse_port,
            transparent: self.transparent,
            broadcast: self.broadcast,
            pass_credentials: self.pass_credentials,
            pass_security: self.pass_security,
            pass_packet_info: self.pass_packet_info,
            bind_ipv6_only: self.bind_ipv6_only,
            bind_to_device: text::opt_text(self.bind_to_device),
            socket_user: text::opt_text(self.socket_user),
            socket_group: text::opt_text(self.socket_group),
            socket_mode: self.socket_mode,
            directory_mode: self.directory_mode,
            remove_on_stop: self.remove_on_stop,
            symlinks: text::texts(self.symlinks@),
            file_descriptor_name: text::opt_text(self.file_descriptor_name),
            trigger_limit_interval_sec: self.trigger_limit_interval_sec,
            trigger_limit_burst: self.trigger_limit_burst,
            mq_max_messages: self.mq_max_messages,
            mq_message_size: self.mq_message_size,
            passthrough: env::pairs_view(self.passthrough@),
        }
    }
}

/// The section in which nothing is set.
pub open spec fn empty_socket() -> SocketView {
    SocketView {
        listen: seq![],
        accept: false,
        service: None,
        max_connections: 0,
        max_connections_per_source: 0,
        backlog: 0,
        keep_alive: false,
        keep_alive_time_sec: None,
        keep_alive_interval_sec: None,
        keep_alive_probes: None,
        no_delay: false,
        priority: None,
        defer_accept_sec: None,
        receive_buffer: None,
        send_buffer: None,
        ip_tos: None,
        ip_ttl: None,
        mark: None,
        reuse_port: false,
        transparent: false,
        broadcast: false,
        pass_credentials: false,
        pass_security: false,
        pass_packet_info: false,
        bind_ipv6_only: BindIPv6Only::Default,
        bind_to_device: None,
        socket_user: None,
        socket_group: None,
        socket_mode: None,
        directory_mode: None,
        remove_on_stop: false,
        symlinks: seq![],
        file_descriptor_name: None,
        trigger_limit_interval_sec: None,
        trigger_limit_burst: None,
        mq_max_messages: None,
        mq_message_size: None,
        passthrough: seq![],
    }
}

impl Default for SocketUnit {
    fn default() -> (r: Self)
        ensures
            r@ == empty_socket(),
    {
        let r = SocketUnit {
            listen: Vec::new(),
            accept: false,
            service: None,
            max_connections: 0,
            max_connections_per_source: 0,
            backlog: 0,
            keep_alive: false,
            keep_alive_time_sec: None,
            keep_alive_interval_sec: None,
            keep_alive_probes: None,
            no_delay: false,
            priority: None,
            defer_accept_sec: None,
            receive_buffer: None,
            send_buffer: None,
            ip_tos: None,
            ip_ttl: None,
            mark: None,
            reuse_port: false,
            transparent: false,
            broadcast: false,
            pass_credentials: false,
            pass_security: false,
            pass_packet_info: false,
            bind_ipv6_only: BindIPv6Only::Default,
            bind_to_device: None,
            socket_user: None,
            socket_group: None,
            socket_mode: None,
            directory_mode: None,
            remove_on_stop: false,
            symlinks: Vec::new(),
            file_descriptor_name: None,
            trigger_limit_interval_sec: None,
            trigger_limit_burst: None,
            mq_max_messages: None,
            mq_message_size: None,
            passthrough: Vec::new(),
        };
        proof {
            reveal(listens_view);
            assert(r@.listen =~= seq![]);
            assert(r@.symlinks =~= seq![]);
            assert(r@.passthrough =~= seq![]);
        }
        r
    }
}

} // verus!
