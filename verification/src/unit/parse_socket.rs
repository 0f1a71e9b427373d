//! The parser of the `[Socket]` section.

use crate::number;
use crate::number::{parse_i32, parse_i64, parse_octal, parse_u32, parse_u64};
use crate::text;
use crate::text::{chars_of, same};
use crate::unit::condition;
use crate::unit::condition::parse_bool;
use crate::unit::duration;
use crate::unit::duration::parse_duration;
use crate::unit::env;
use crate::unit::error;
use crate::unit::error::{ParseError, ParseErrorView, ParseWarning, ParseWarningView};
use crate::unit::ini;
use crate::unit::ini::{Entry, EntryView, Ini};
use crate::unit::name;
use crate::unit::name::UnitName;
use crate::unit::socket;
use crate::unit::socket::{
    BindIPv6Only, ListenSpec, ListenView, SocketAddrSpec, SocketUnit, SocketView,
};
use crate::unit::values;
use crate::unit::values::{bad, parse_list};
use vstd::prelude::*;

verus! {

/// The section with a directive kept verbatim.
pub open spec fn keep_verbatim(m: SocketView, e: EntryView) -> SocketView {
    SocketView { passthrough: m.passthrough.push((e.key, e.value)), ..m }
}

fn keep_socket_entry(sock: &mut SocketUnit, e: &Entry)
    ensures
        final(sock)@ == keep_verbatim(old(sock)@, e@),
{
    let ghost before = sock.passthrough@;
    sock.passthrough.push((e.key.clone(), e.value.clone()));
    proof {
        assert(env::pairs_view(sock.passthrough@) =~= env::pairs_view(before).push(
            (e@.key, e@.value),
        ));
    }
}

/// Directives that add something to listen on.
pub open spec fn socket_listen(m: SocketView, key: Seq<char>, v: Seq<char>) -> Option<
    Result<SocketView, Seq<char>>,
> {
    if key == "ListenStream"@ {
        Some(
            match socket::addr_of(v) {
                Ok(c) => Ok(SocketView { listen: m.listen.push(ListenView::Stream(c)), ..m }),
                Err(reason) => Err(reason),
            },
        )
    } else if key == "ListenDatagram"@ {
        Some(
            match socket::addr_of(v) {
                Ok(c) => Ok(SocketView { listen: m.listen.push(ListenView::Datagram(c)), ..m }),
                Err(reason) => Err(reason),
            },
        )
    } else if key == "ListenSequentialPacket"@ {
        Some(
            match socket::addr_of(v) {
                Ok(c) => Ok(SocketView { listen: m.listen.push(ListenView::SequentialPacket(c)), ..m }),
                Err(reason) => Err(reason),
            },
        )
    } else if key == "ListenFIFO"@ {
        Some(Ok(SocketView { listen: m.listen.push(ListenView::Fifo(v)), ..m }))
    } else if key == "ListenSpecial"@ {
        Some(Ok(SocketView { listen: m.listen.push(ListenView::Special(v)), ..m }))
    } else {
        None
    }
}

/// Adds something to listen on.
#[verifier::rlimit(60)]
fn add_listen(sock: &mut SocketUnit, key: &str, v: &str) -> (r: Result<bool, String>)
    ensures
        match r {
            Ok(true) => socket_listen(old(sock)@, key@, v@) == Some(
                Ok::<SocketView, Seq<char>>(final(sock)@),
            ),
            Ok(false) => socket_listen(old(sock)@, key@, v@) is None && final(sock)@ == old(sock)@,
            Err(reason) => socket_listen(old(sock)@, key@, v@) == Some(
                Err::<SocketView, Seq<char>>(reason@),
            ),
        },
{
    if same(key, "ListenStream") {
        match SocketAddrSpec::parse(v) {
            Ok(c) => {
                let ghost before = sock.listen@;
                let item = ListenSpec::Stream(c);
                sock.listen.push(item);
                proof {
                    socket::lemma_listens_push(before, item);
                }
            },
            Err(reason) => {
                return Err(reason);
            },
        }
    } else if same(key, "ListenDatagram") {
        match SocketAddrSpec::parse(v) {
            Ok(c) => {
                let ghost before = sock.listen@;
                let item = ListenSpec::Datagram(c);
                sock.listen.push(item);
                proof {
                    socket::lemma_listens_push(before, item);
                }
            },
            Err(reason) => {
                return Err(reason);
            },
        }
    } else if same(key, "ListenSequentialPacket") {
        match SocketAddrSpec::parse(v) {
            Ok(c) => {
                let ghost before = sock.listen@;
                let item = ListenSpec::SequentialPacket(c);
                sock.listen.push(item);
                proof {
                    socket::lemma_listens_push(before, item);
                }
            },
            Err(reason) => {
                return Err(reason);
            },
        }
    } else if same(key, "ListenFIFO") {
        let ghost before = sock.listen@;
        let item = ListenSpec::Fifo(v.to_owned());
        sock.listen.push(item);
        proof {
            socket::lemma_listens_push(before, item);
        }
    } else if same(key, "ListenSpecial") {
        let ghost before = sock.listen@;
        let item = ListenSpec::Special(v.to_owned());
        sock.listen.push(item);
        proof {
            socket::lemma_listens_push(before, item);
        }
    } else {
        return Ok(false);
    }
    Ok(true)
}

/// Directives that are a boolean, on the transport.
pub open spec fn socket_switch(m: SocketView, key: Seq<char>, v: Seq<char>) -> Option<
    Result<SocketView, Seq<char>>,
> {
    if key == "Accept"@ {
        Some(
            match condition::bool_of(v) {
                Some(b) => Ok(SocketView { accept: b, ..m }),
                None => Err("bool"@),
            },
        )
    } else if key == "KeepAlive"@ {
        Some(
            match condition::bool_of(v) {
                Some(b) => Ok(SocketView { keep_alive: b, ..m }),
                None => Err("bool"@),
            },
        )
    } else if key == "NoDelay"@ {
        Some(
            match condition::bool_of(v) {
                Some(b) => Ok(SocketView { no_delay: b, ..m }),
                None => Err("bool"@),
            },
        )
    } else if key == "ReusePort"@ {
        Some(
            match condition::bool_of(v) {
                Some(b) => Ok(SocketView { reuse_port: b, ..m }),
                None => Err("bool"@),
            },
        )
    } else {
        None
    }
}

/// Sets a boolean of the transport.
#[verifier::rlimit(60)]
fn set_socket_switch(sock: &mut SocketUnit, key: &str, v: &str) -> (r: Result<bool, String>)
    ensures
        match r {
            Ok(true) => socket_switch(old(sock)@, key@, v@) == Some(
                Ok::<SocketView, Seq<char>>(final(sock)@),
            ),
            Ok(false) => socket_switch(old(sock)@, key@, v@) is None && final(sock)@ == old(sock)@,
            Err(reason) => socket_switch(old(sock)@, key@, v@) == Some(
                Err::<SocketView, Seq<char>>(reason@),
            ),
        },
{
    if same(key, "Accept") {
        match parse_bool(v) {
            Some(b) => {
                sock.accept = b;
            },
            None => {
                return Err("bool".to_owned());
            },
        }
    } else if same(key, "KeepAlive") {
        match parse_bool(v) {
            Some(b) => {
                sock.keep_alive = b;
            },
            None => {
                return Err("bool".to_owned());
            },
        }
    } else if same(key, "NoDelay") {
        match parse_bool(v) {
            Some(b) => {
                sock.no_delay = b;
            },
            None => {
                return Err("bool".to_owned());
            },
        }
    } else if same(key, "ReusePort") {
        match parse_bool(v) {
            Some(b) => {
                sock.reuse_port = b;
            },
            None => {
                return Err("bool".to_owned());
            },
        }
    } else {
        return Ok(false);
    }
    Ok(true)
}

/// Directives that are a boolean.
pub open spec fn socket_permission(m: SocketView, key: Seq<char>, v: Seq<char>) -> Option<
    Result<SocketView, Seq<char>>,
> {
    if key == "Transparent"@ {
        Some(
            match condition::bool_of(v) {
                Some(b) => Ok(SocketView { transparent: b, ..m }),
                None => Err("bool"@),
            },
        )
    } else if key == "Broadcast"@ {
        Some(
            match condition::bool_of(v) {
                Some(b) => Ok(SocketView { broadcast: b, ..m }),
                None => Err("bool"@),
            },
        )
    } else if key == "PassPacketInfo"@ {
        Some(
            match condition::bool_of(v) {
                Some(b) => Ok(SocketView { pass_packet_info: b, ..m }),
                None => Err("bool"@),
            },
        )
    } else if key == "RemoveOnStop"@ {
        Some(
            match condition::bool_of(v) {
                Some(b) => Ok(SocketView { remove_on_stop: b, ..m }),
                None => Err("bool"@),
            },
        )
    } else {
        None
    }
}

/// Sets a boolean.
#[verifier::rlimit(60)]
fn set_socket_permission(sock: &mut SocketUnit, key: &str, v: &str) -> (r: Result<bool, String>)
    ensures
        match r {
            Ok(true) => socket_permission(old(sock)@, key@, v@) == Some(
                Ok::<SocketView, Seq<char>>(final(sock)@),
            ),
            Ok(false) => socket_permission(old(sock)@, key@, v@) is None && final(sock)@ == old(sock)@,
            Err(reason) => socket_permission(old(sock)@, key@, v@) == Some(
                Err::<SocketView, Seq<char>>(reason@),
            ),
        },
{
    if same(key, "Transparent") {
        match parse_bool(v) {
            Some(b) => {
                sock.transparent = b;
            },
            None => {
                return Err("bool".to_owned());
            },
        }
    } else if same(key, "Broadcast") {
        match parse_bool(v) {
            Some(b) => {
                sock.broadcast = b;
            },
            None => {
                return Err("bool".to_owned());
            },
        }
    } else if same(key, "PassPacketInfo") {
        match parse_bool(v) {
            Some(b) => {
                sock.pass_packet_info = b;
            },
            None => {
                return Err("bool".to_owned());
            },
        }
    } else if same(key, "RemoveOnStop") {
        match parse_bool(v) {
            Some(b) => {
                sock.remove_on_stop = b;
            },
            None => {
                return Err("bool".to_owned());
            },
        }
    } else {
        return Ok(false);
    }
    Ok(true)
}

/// Directives that are a number, on the transport.
pub open spec fn socket_number(m: SocketView, key: Seq<char>, v: Seq<char>) -> Option<
    Result<SocketView, Seq<char>>,
> {
    if key == "MaxConnections"@ {
        Some(
            match number::uint_of(v, 10, 0xffff_ffff) {
                Ok(n) => Ok(SocketView { max_connections: n as u32, ..m }),
                Err(_) => Err("u32"@),
            },
        )
    } else if key == "MaxConnectionsPerSource"@ {
        Some(
            match number::uint_of(v, 10, 0xffff_ffff) {
                Ok(n) => Ok(SocketView { max_connections_per_source: n as u32, ..m }),
                Err(_) => Err("u32"@),
            },
        )
    } else if key == "Backlog"@ {
        Some(
            match number::uint_of(v, 10, 0xffff_ffff) {
                Ok(n) => Ok(SocketView { backlog: n as u32, ..m }),
                Err(_) => Err("u32"@),
            },
        )
    } else if key == "KeepAliveProbes"@ {
        Some(
            match number::uint_of(v, 10, 0xffff_ffff) {
                Ok(n) => Ok(SocketView { keep_alive_probes: Some(n as u32), ..m }),
                Err(_) => Err("u32"@),
            },
        )
    } else if key == "Priority"@ {
        Some(
            match number::int_of(v, 0x7fff_ffff) {
                Ok(n) => Ok(SocketView { priority: Some(n as i32), ..m }),
                Err(_) => Err("i32"@),
            },
        )
    } else if key == "ReceiveBuffer"@ {
        Some(
            match number::uint_of(v, 10, 0xffff_ffff_ffff_ffff) {
                Ok(n) => Ok(SocketView { receive_buffer: Some(n as u64), ..m }),
                Err(_) => Err("u64"@),
            },
        )
    } else if key == "SendBuffer"@ {
        Some(
            match number::uint_of(v, 10, 0xffff_ffff_ffff_ffff) {
                Ok(n) => Ok(SocketView { send_buffer: Some(n as u64), ..m }),
                Err(_) => Err("u64"@),
            },
        )
    } else {
        None
    }
}

/// Sets a number of the transport.
#[verifier::rlimit(60)]
fn set_socket_number(sock: &mut SocketUnit, key: &str, v: &str) -> (r: Result<bool, String>)
    ensures
        match r {
            Ok(true) => socket_number(old(sock)@, key@, v@) == Some(
                Ok::<SocketView, Seq<char>>(final(sock)@),
            ),
            Ok(false) => socket_number(old(sock)@, key@, v@) is None && final(sock)@ == old(sock)@,
            Err(reason) => socket_number(old(sock)@, key@, v@) == Some(
                Err::<SocketView, Seq<char>>(reason@),
            ),
        },
{
    if same(key, "MaxConnections") {
        match parse_u32(chars_of(v).as_slice()) {
            Ok(n) => {
                sock.max_connections = n;
            },
            Err(_) => {
                return Err("u32".to_owned());
            },
        }
    } else if same(key, "MaxConnectionsPerSource") {
        match parse_u32(chars_of(v).as_slice()) {
            Ok(n) => {
                sock.max_connections_per_source = n;
            },
            Err(_) => {
                return Err("u32".to_owned());
            },
        }
    } else if same(key, "Backlog") {
        match parse_u32(chars_of(v).as_slice()) {
            Ok(n) => {
                sock.backlog = n;
            },
            Err(_) => {
                return Err("u32".to_owned());
            },
        }
    } else if same(key, "KeepAliveProbes") {
        match parse_u32(chars_of(v).as_slice()) {
            Ok(n) => {
                sock.keep_alive_probes = Some(n);
            },
            Err(_) => {
                return Err("u32".to_owned());
            },
        }
    } else if same(key, "Priority") {
        match parse_i32(chars_of(v).as_slice()) {
            Ok(n) => {
                sock.priority = Some(n);
            },
            Err(_) => {
                return Err("i32".to_owned());
            },
        }
    } else if same(key, "ReceiveBuffer") {
        match parse_u64(chars_of(v).as_slice()) {
            Ok(n) => {
                sock.receive_buffer = Some(n);
            },
            Err(_) => {
                return Err("u64".to_owned());
            },
        }
    } else if same(key, "SendBuffer") {
        match parse_u64(chars_of(v).as_slice()) {
            Ok(n) => {
                sock.send_buffer = Some(n);
            },
            Err(_) => {
                return Err("u64".to_owned());
            },
        }
    } else {
        return Ok(false);
    }
    Ok(true)
}

/// Directives that are a number.
pub open spec fn socket_limit(m: SocketView, key: Seq<char>, v: Seq<char>) -> Option<
    Result<SocketView, Seq<char>>,
> {
    if key == "IPTTL"@ {
        Some(
            match number::uint_of(v, 10, 0xffff_ffff) {
                Ok(n) => Ok(SocketView { ip_ttl: Some(n as u32), ..m }),
                Err(_) => Err("u32"@),
            },
        )
    } else if key == "Mark"@ {
        Some(
            match number::int_of(v, 0x7fff_ffff) {
                Ok(n) => Ok(SocketView { mark: Some(n as i32), ..m }),
                Err(_) => Err("i32"@),
            },
        )
    } else if key == "SocketMode"@ {
        Some(
            match number::uint_of(v, 8, 0xffff_ffff) {
                Ok(n) => Ok(SocketView { socket_mode: Some(n as u32), ..m }),
                Err(_) => Err("octal mode"@),
            },
        )
    } else if key == "DirectoryMode"@ {
        Some(
            match number::uint_of(v, 8, 0xffff_ffff) {
                Ok(n) => Ok(SocketView { directory_mode: Some(n as u32), ..m }),
                Err(_) => Err("octal mode"@),
            },
        )
    } else if key == "TriggerLimitBurst"@ {
        Some(
            match number::uint_of(v, 10, 0xffff_ffff) {
                Ok(n) => Ok(SocketView { trigger_limit_burst: Some(n as u32), ..m }),
                Err(_) => Err("u32"@),
            },
        )
    } else if key == "MessageQueueMaxMessages"@ {
        Some(
            match number::int_of(v, 0x7fff_ffff_ffff_ffff) {
                Ok(n) => Ok(SocketView { mq_max_messages: Some(n as i64), ..m }),
                Err(_) => Err("i64"@),
            },
        )
    } else if key == "MessageQueueMessageSize"@ {
        Some(
            match number::int_of(v, 0x7fff_ffff_ffff_ffff) {
                Ok(n) => Ok(SocketView { mq_message_size: Some(n as i64), ..m }),
                Err(_) => Err("i64"@),
            },
        )
    } else {
        None
    }
}

/// Sets a number.
#[verifier::rlimit(60)]
fn set_socket_limit(sock: &mut SocketUnit, key: &str, v: &str) -> (r: Result<bool, String>)
    ensures
        match r {
            Ok(true) => socket_limit(old(sock)@, key@, v@) == Some(
                Ok::<SocketView, Seq<char>>(final(sock)@),
            ),
            Ok(false) => socket_limit(old(sock)@, key@, v@) is None && final(sock)@ == old(sock)@,
            Err(reason) => socket_limit(old(sock)@, key@, v@) == Some(
                Err::<SocketView, Seq<char>>(reason@),
            ),
        },
{
    if same(key, "IPTTL") {
        match parse_u32(chars_of(v).as_slice()) {
            Ok(n) => {
                sock.ip_ttl = Some(n);
            },
            Err(_) => {
                return Err("u32".to_owned());
            },
        }
    } else if same(key, "Mark") {
        match parse_i32(chars_of(v).as_slice()) {
            Ok(n) => {
                sock.mark = Some(n);
            },
            Err(_) => {
                return Err("i32".to_owned());
            },
        }
    } else if same(key, "SocketMode") {
        match parse_octal(chars_of(v).as_slice()) {
            Ok(n) => {
                sock.socket_mode = Some(n);
            },
            Err(_) => {
                return Err("octal mode".to_owned());
            },
        }
    } else if same(key, "DirectoryMode") {
        match parse_octal(chars_of(v).as_slice()) {
            Ok(n) => {
                sock.directory_mode = Some(n);
            },
            Err(_) => {
                return Err("octal mode".to_owned());
            },
        }
    } else if same(key, "TriggerLimitBurst") {
        match parse_u32(chars_of(v).as_slice()) {
            Ok(n) => {
                sock.trigger_limit_burst = Some(n);
            },
            Err(_) => {
                return Err("u32".to_owned());
            },
        }
    } else if same(key, "MessageQueueMaxMessages") {
        match parse_i64(chars_of(v).as_slice()) {
            Ok(n) => {
                sock.mq_max_messages = Some(n);
            },
            Err(_) => {
                return Err("i64".to_owned());
            },
        }
    } else if same(key, "MessageQueueMessageSize") {
        match parse_i64(chars_of(v).as_slice()) {
            Ok(n) => {
                sock.mq_message_size = Some(n);
            },
            Err(_) => {
                return Err("i64".to_owned());
            },
        }
    } else {
        return Ok(false);
    }
    Ok(true)
}

/// Directives that are a duration.
pub open spec fn socket_duration(m: SocketView, key: Seq<char>, v: Seq<char>) -> Option<
    Result<SocketView, Seq<char>>,
> {
    if key == "KeepAliveTimeSec"@ {
        Some(
            match duration::duration_of(v, 1) {
                Ok(d) => Ok(SocketView { keep_alive_time_sec: Some(d), ..m }),
                Err(reason) => Err(reason),
            },
        )
    } else if key == "KeepAliveIntervalSec"@ {
        Some(
            match duration::duration_of(v, 1) {
                Ok(d) => Ok(SocketView { keep_alive_interval_sec: Some(d), ..m }),
                Err(reason) => Err(reason),
            },
        )
    } else if key == "DeferAcceptSec"@ {
        Some(
            match duration::duration_of(v, 1) {
                Ok(d) => Ok(SocketView { defer_accept_sec: Some(d), ..m }),
                Err(reason) => Err(reason),
            },
        )
    } else if key == "TriggerLimitIntervalSec"@ {
        Some(
            match duration::duration_of(v, 1) {
                Ok(d) => Ok(SocketView { trigger_limit_interval_sec: Some(d), ..m }),
                Err(reason) => Err(reason),
            },
        )
    } else {
        None
    }
}

/// Sets a duration.
#[verifier::rlimit(60)]
fn set_socket_duration(sock: &mut SocketUnit, key: &str, v: &str) -> (r: Result<bool, String>)
    ensures
        match r {
            Ok(true) => socket_duration(old(sock)@, key@, v@) == Some(
                Ok::<SocketView, Seq<char>>(final(sock)@),
            ),
            Ok(false) => socket_duration(old(sock)@, key@, v@) is None && final(sock)@ == old(sock)@,
            Err(reason) => socket_duration(old(sock)@, key@, v@) == Some(
                Err::<SocketView, Seq<char>>(reason@),
            ),
        },
{
    if same(key, "KeepAliveTimeSec") {
        match parse_duration(v, 1) {
            Ok(d) => {
                sock.keep_alive_time_sec = Some(d);
            },
            Err(reason) => {
                return Err(reason);
            },
        }
    } else if same(key, "KeepAliveIntervalSec") {
        match parse_duration(v, 1) {
            Ok(d) => {
                sock.keep_alive_interval_sec = Some(d);
            },
            Err(reason) => {
                return Err(reason);
            },
        }
    } else if same(key, "DeferAcceptSec") {
        match parse_duration(v, 1) {
            Ok(d) => {
                sock.defer_accept_sec = Some(d);
            },
            Err(reason) => {
                return Err(reason);
            },
        }
    } else if same(key, "TriggerLimitIntervalSec") {
        match parse_duration(v, 1) {
            Ok(d) => {
                sock.trigger_limit_interval_sec = Some(d);
            },
            Err(reason) => {
                return Err(reason);
            },
        }
    } else {
        return Ok(false);
    }
    Ok(true)
}

/// Directives that are a text, a list, a unit or a choice.
pub open spec fn socket_text(m: SocketView, key: Seq<char>, v: Seq<char>) -> Option<
    Result<SocketView, Seq<char>>,
> {
    if key == "IPTOS"@ {
        Some(Ok(SocketView { ip_tos: Some(v), ..m }))
    } else if key == "SocketUser"@ {
        Some(Ok(SocketView { socket_user: Some(v), ..m }))
    } else if key == "SocketGroup"@ {
        Some(Ok(SocketView { socket_group: Some(v), ..m }))
    } else if key == "FileDescriptorName"@ {
        Some(Ok(SocketView { file_descriptor_name: Some(v), ..m }))
    } else if key == "Symlinks"@ {
        Some(Ok(SocketView { symlinks: m.symlinks + text::items(v, true), ..m }))
    } else if key == "Service"@ {
        Some(
            match name::parse_name(v) {
                Ok(n) => Ok(SocketView { service: Some(n), ..m }),
                Err(_) => Err("unit name"@),
            },
        )
    } else if key == "BindIPv6Only"@ {
        Some(
            match socket::bind_ipv6_only_of(v) {
                Ok(x) => Ok(SocketView { bind_ipv6_only: x, ..m }),
                Err(reason) => Err(reason),
            },
        )
    } else {
        None
    }
}

/// Sets a text, a list, a unit or a choice.
#[verifier::rlimit(60)]
fn set_socket_text(sock: &mut SocketUnit, key: &str, v: &str) -> (r: Result<bool, String>)
    ensures
        match r {
            Ok(true) => socket_text(old(sock)@, key@, v@) == Some(
                Ok::<SocketView, Seq<char>>(final(sock)@),
            ),
            Ok(false) => socket_text(old(sock)@, key@, v@) is None && final(sock)@ == old(sock)@,
            Err(reason) => socket_text(old(sock)@, key@, v@) == Some(
                Err::<SocketView, Seq<char>>(reason@),
            ),
        },
{
    if same(key, "IPTOS") {
        sock.ip_tos = Some(v.to_owned());
    } else if same(key, "SocketUser") {
        sock.socket_user = Some(v.to_owned());
    } else if same(key, "SocketGroup") {
        sock.socket_group = Some(v.to_owned());
    } else if same(key, "FileDescriptorName") {
        sock.file_descriptor_name = Some(v.to_owned());
    } else if same(key, "Symlinks") {
        let ghost before = sock.symlinks@;
        let mut more = parse_list(v);
        let ghost added = more@;
        sock.symlinks.append(&mut more);
        proof {
            assert(text::texts(sock.symlinks@) =~= text::texts(before) + text::texts(added));
        }
    } else if same(key, "Service") {
        match UnitName::from_str(v) {
            Ok(n) => {
                sock.service = Some(n);
            },
            Err(_) => {
                return Err("unit name".to_owned());
            },
        }
    } else if same(key, "BindIPv6Only") {
        match BindIPv6Only::parse(v) {
            Ok(x) => {
                sock.bind_ipv6_only = x;
            },
            Err(reason) => {
                return Err(reason);
            },
        }
    } else {
        return Ok(false);
    }
    Ok(true)
}

/// What a directive does to the section; `None` where it is not known.
pub open spec fn socket_directive(m: SocketView, key: Seq<char>, v: Seq<char>) -> Option<
    Result<SocketView, Seq<char>>,
> {
    if socket_listen(m, key, v) is Some {
        socket_listen(m, key, v)
    } else if socket_switch(m, key, v) is Some {
        socket_switch(m, key, v)
    } else if socket_permission(m, key, v) is Some {
        socket_permission(m, key, v)
    } else if socket_number(m, key, v) is Some {
        socket_number(m, key, v)
    } else if socket_limit(m, key, v) is Some {
        socket_limit(m, key, v)
    } else if socket_duration(m, key, v) is Some {
        socket_duration(m, key, v)
    } else {
        socket_text(m, key, v)
    }
}

/// Applies a directive; false where it is not known.
fn set_socket_directive(sock: &mut SocketUnit, key: &str, v: &str) -> (r: Result<bool, String>)
    ensures
        match r {
            Ok(true) => socket_directive(old(sock)@, key@, v@) == Some(
                Ok::<SocketView, Seq<char>>(final(sock)@),
            ),
            Ok(false) => socket_directive(old(sock)@, key@, v@) is None && final(sock)@ == old(sock)@,
            Err(reason) => socket_directive(old(sock)@, key@, v@) == Some(
                Err::<SocketView, Seq<char>>(reason@),
            ),
        },
{
    match add_listen(sock, key, v) {
        Ok(true) => {
            return Ok(true);
        },
        Ok(false) => {},
        Err(reason) => {
            return Err(reason);
        },
    }
    match set_socket_switch(sock, key, v) {
        Ok(true) => {
            return Ok(true);
        },
        Ok(false) => {},
        Err(reason) => {
            return Err(reason);
        },
    }
    match set_socket_permission(sock, key, v) {
        Ok(true) => {
            return Ok(true);
        },
        Ok(false) => {},
        Err(reason) => {
            return Err(reason);
        },
    }
    match set_socket_number(sock, key, v) {
        Ok(true) => {
            return Ok(true);
        },
        Ok(false) => {},
        Err(reason) => {
            return Err(reason);
        },
    }
    match set_socket_limit(sock, key, v) {
        Ok(true) => {
            return Ok(true);
        },
        Ok(false) => {},
        Err(reason) => {
            return Err(reason);
        },
    }
    match set_socket_duration(sock, key, v) {
        Ok(true) => {
            return Ok(true);
        },
        Ok(false) => {},
        Err(reason) => {
            return Err(reason);
        },
    }
    set_socket_text(sock, key, v)
}

/// Directives that are kept but need a Linux kernel to have an effect.
pub open spec fn socket_linux_key(key: Seq<char>) -> bool {
    ||| key == "PassCredentials"@
    ||| key == "PassSecurity"@
    ||| key == "BindToDevice"@
    ||| key == "ListenNetlink"@
    ||| key == "ListenMessageQueue"@
    ||| key == "ListenUSBFunction"@
}

/// What such a directive does to the section. It is passed over where its
/// value cannot be read, since it never stops the parser.
pub open spec fn socket_linux_setting(m: SocketView, key: Seq<char>, v: Seq<char>) -> SocketView {
    if key == "PassCredentials"@ {
        match condition::bool_of(v) {
            Some(b) => SocketView { pass_credentials: b, ..m },
            None => m,
        }
    } else if key == "PassSecurity"@ {
        match condition::bool_of(v) {
            Some(b) => SocketView { pass_security: b, ..m },
            None => m,
        }
    } else if key == "BindToDevice"@ {
        SocketView { bind_to_device: Some(v), ..m }
    } else if key == "ListenNetlink"@ {
        SocketView { listen: m.listen.push(ListenView::Netlink(v)), ..m }
    } else if key == "ListenMessageQueue"@ {
        SocketView { listen: m.listen.push(ListenView::MessageQueue(v)), ..m }
    } else {
        SocketView { listen: m.listen.push(ListenView::UsbFunction(v)), ..m }
    }
}

/// Applies a directive that needs a Linux kernel; false where it does not.
fn set_socket_linux(sock: &mut SocketUnit, key: &str, v: &str) -> (r: bool)
    ensures
        r == socket_linux_key(key@),
        final(sock)@ == if r {
            socket_linux_setting(old(sock)@, key@, v@)
        } else {
            old(sock)@
        },
{
    if same(key, "PassCredentials") {
        if let Some(b) = parse_bool(v) {
            sock.pass_credentials = b;
        }
    } else if same(key, "PassSecurity") {
        if let Some(b) = parse_bool(v) {
            sock.pass_security = b;
        }
    } else if same(key, "BindToDevice") {
        sock.bind_to_device = Some(v.to_owned());
    } else if same(key, "ListenNetlink") {
        let ghost before = sock.listen@;
        let item = ListenSpec::Netlink(v.to_owned());
        sock.listen.push(item);
        proof {
            socket::lemma_listens_push(before, item);
        }
    } else if same(key, "ListenMessageQueue") {
        let ghost before = sock.listen@;
        let item = ListenSpec::MessageQueue(v.to_owned());
        sock.listen.push(item);
        proof {
            socket::lemma_listens_push(before, item);
        }
    } else if same(key, "ListenUSBFunction") {
        let ghost before = sock.listen@;
        let item = ListenSpec::UsbFunction(v.to_owned());
        sock.listen.push(item);
        proof {
            socket::lemma_listens_push(before, item);
        }
    } else {
        return false;
    }
    true
}

/// The section before any directive.
pub open spec fn fresh_socket() -> SocketView {
    socket::empty_socket()
}

/// What one entry adds to the section and to the warnings.
pub open spec fn socket_step(
    path: Seq<char>,
    m: SocketView,
    ws: Seq<ParseWarningView>,
    e: EntryView,
) -> Result<(SocketView, Seq<ParseWarningView>), ParseErrorView> {
    if socket_linux_key(e.key) {
        Ok(
            (
                keep_verbatim(socket_linux_setting(m, e.key, e.value), e),
                ws.push(error::linux_only_warning(Some(path), e.line, "Socket"@, e.key)),
            ),
        )
    } else {
        match socket_directive(m, e.key, e.value) {
            Some(Ok(n)) => Ok((n, ws)),
            Some(Err(reason)) => Err(values::bad_directive(path, "Socket"@, e, reason)),
            None => Ok(
                (
                    keep_verbatim(m, e),
                    ws.push(error::unknown_warning(Some(path), e.line, "Socket"@, e.key)),
                ),
            ),
        }
    }
}

/// What entries add to the section and to the warnings, up to the first that
/// is wrong.
pub open spec fn socket_entries(
    path: Seq<char>,
    es: Seq<EntryView>,
    m: SocketView,
    ws: Seq<ParseWarningView>,
) -> Result<(SocketView, Seq<ParseWarningView>), ParseErrorView>
    decreases es.len(),
{
    if es.len() == 0 {
        Ok((m, ws))
    } else {
        match socket_step(path, m, ws, es[0]) {
            Err(e) => Err(e),
            Ok((n, vs)) => socket_entries(path, es.skip(1), n, vs),
        }
    }
}

fn apply_socket_entry(
    path: &str,
    sock: &mut SocketUnit,
    e: &Entry,
    warnings: &mut Vec<ParseWarning>,
) -> (r: Result<(), ParseError>)
    ensures
        match r {
            Ok(()) => socket_step(
                path@,
                old(sock)@,
                values::warnings_view(old(warnings)@),
                e@,
            ) == Ok::<(SocketView, Seq<ParseWarningView>), ParseErrorView>(
                (final(sock)@, values::warnings_view(final(warnings)@)),
            ),
            Err(x) => socket_step(
                path@,
                old(sock)@,
                values::warnings_view(old(warnings)@),
                e@,
            ) == Err::<(SocketView, Seq<ParseWarningView>), ParseErrorView>(x@),
        },
{
    let key = e.key.as_str();
    let ghost before = warnings@;
    if set_socket_linux(sock, key, e.value.as_str()) {
        let w = ParseWarning::linux_only(Some(path.to_owned()), e.line, "Socket", key);
        warnings.push(w);
        proof {
            values::lemma_warnings_push(before, w);
        }
        keep_socket_entry(sock, e);
        return Ok(());
    }
    match set_socket_directive(sock, key, e.value.as_str()) {
        Ok(true) => Ok(()),
        Ok(false) => {
            let w = ParseWarning::unknown(Some(path.to_owned()), e.line, "Socket", key);
            warnings.push(w);
            proof {
                values::lemma_warnings_push(before, w);
            }
            keep_socket_entry(sock, e);
            Ok(())
        },
        Err(reason) => Err(bad(path, "Socket", e, reason.as_str())),
    }
}

/// Parses the `[Socket]` section.
pub fn parse_socket(ini: &Ini, path: &str, warnings: &mut Vec<ParseWarning>) -> (r: Result<
    SocketUnit,
    ParseError,
>)
    ensures
        match r {
            Ok(sock) => socket_entries(
                path@,
                ini::entries_or_none(ini@, "Socket"@),
                fresh_socket(),
                values::warnings_view(old(warnings)@),
            ) == Ok::<(SocketView, Seq<ParseWarningView>), ParseErrorView>(
                (sock@, values::warnings_view(final(warnings)@)),
            ),
            Err(x) => socket_entries(
                path@,
                ini::entries_or_none(ini@, "Socket"@),
                fresh_socket(),
                values::warnings_view(old(warnings)@),
            ) == Err::<(SocketView, Seq<ParseWarningView>), ParseErrorView>(x@),
        },
{
    let mut sock = SocketUnit::default();
    match ini.get("Socket") {
        None => Ok(sock),
        Some(entries) => {
            let mut i: usize = 0;
            let ghost all = ini::entries_view(entries@);
            let ghost ws = values::warnings_view(warnings@);
            proof {
                assert(all.skip(0) =~= all);
            }
            while i < entries.len()
                invariant
                    i <= entries.len(),
                    all == ini::entries_view(entries@),
                    all == ini::entries_or_none(ini@, "Socket"@),
                    ws == values::warnings_view(old(warnings)@),
                    socket_entries(path@, all, fresh_socket(), ws) == socket_entries(
                        path@,
                        all.skip(i as int),
                        sock@,
                        values::warnings_view(warnings@),
                    ),
                decreases entries.len() - i,
            {
                proof {
                    assert(all.skip(i as int)[0] == entries@[i as int]@);
                    assert(all.skip(i as int).skip(1) =~= all.skip(i + 1));
                }
                if let Err(x) = apply_socket_entry(path, &mut sock, &entries[i], warnings) {
                    return Err(x);
                }
                i = i + 1;
            }
            Ok(sock)
        },
    }
}

} // verus!
