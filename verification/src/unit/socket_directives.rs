//! What a socket has from the entries of its `[Socket]` section.

use crate::number;
use crate::text;
use crate::unit::condition;
use crate::unit::duration;
use crate::unit::entries;
use crate::unit::error::ParseWarningView;
use crate::unit::ini;
use crate::unit::ini::{EntryView, SectionView};
use crate::unit::name;
use crate::unit::name::NameView;
use crate::unit::parse_socket;
use crate::unit::socket;
use crate::unit::socket::{BindIPv6Only, ListenView, SocketView};
use crate::unit::spec;
use crate::unit::spec::UnitView;
use crate::unit::spelling;
use vstd::prelude::*;

verus! {

/// What an entry asks to listen on.
pub open spec fn listen_of(key: Seq<char>, v: Seq<char>) -> Option<ListenView> {
    if key == "ListenStream"@ {
        Some(ListenView::Stream(socket::addr_of(v)->Ok_0))
    } else if key == "ListenDatagram"@ {
        Some(ListenView::Datagram(socket::addr_of(v)->Ok_0))
    } else if key == "ListenSequentialPacket"@ {
        Some(ListenView::SequentialPacket(socket::addr_of(v)->Ok_0))
    } else if key == "ListenFIFO"@ {
        Some(ListenView::Fifo(v))
    } else if key == "ListenSpecial"@ {
        Some(ListenView::Special(v))
    } else if key == "ListenNetlink"@ {
        Some(ListenView::Netlink(v))
    } else if key == "ListenMessageQueue"@ {
        Some(ListenView::MessageQueue(v))
    } else if key == "ListenUSBFunction"@ {
        Some(ListenView::UsbFunction(v))
    } else {
        None
    }
}

/// What the entries ask to listen on, in order.
pub open spec fn listens_of(es: Seq<EntryView>) -> Seq<ListenView>
    decreases es.len(),
{
    if es.len() == 0 {
        seq![]
    } else {
        match listen_of(es.last().key, es.last().value) {
            Some(x) => listens_of(es.drop_last()).push(x),
            None => listens_of(es.drop_last()),
        }
    }
}

/// The names of the directives of addresses.
spec fn in_listen(k: Seq<char>) -> bool {
    ||| k == "ListenStream"@
    ||| k == "ListenDatagram"@
    ||| k == "ListenSequentialPacket"@
    ||| k == "ListenFIFO"@
    ||| k == "ListenSpecial"@
}

proof fn lemma_listen(m: SocketView, k: Seq<char>, v: Seq<char>)
    ensures
        parse_socket::socket_listen(m, k, v) is Some <==> in_listen(k),
        parse_socket::socket_listen(m, k, v) matches Some(Ok(n)) ==> {
            &&& n == (SocketView { listen: n.listen, ..m })
            &&& (n.listen == match listen_of(k, v) {
Some(x) => m.listen.push(x),
None => m.listen,
})
        },
{
    spelling::lemma_socket_marks();
}

/// The names of the directives of switches.
spec fn in_switch(k: Seq<char>) -> bool {
    ||| k == "Accept"@
    ||| k == "KeepAlive"@
    ||| k == "NoDelay"@
    ||| k == "ReusePort"@
}

proof fn lemma_switch(m: SocketView, k: Seq<char>, v: Seq<char>)
    ensures
        parse_socket::socket_switch(m, k, v) is Some <==> in_switch(k),
        parse_socket::socket_switch(m, k, v) matches Some(Ok(n)) ==> {
            &&& listen_of(k, v) is None
            &&& n == (SocketView { accept: n.accept, keep_alive: n.keep_alive, no_delay: n.no_delay, reuse_port: n.reuse_port, ..m })
            &&& (n.accept == if k == "Accept"@ {
condition::bool_of(v)->Some_0
} else {
m.accept
}) && (k == "Accept"@ ==> condition::bool_of(v) is Some)
            &&& (n.keep_alive == if k == "KeepAlive"@ {
condition::bool_of(v)->Some_0
} else {
m.keep_alive
}) && (k == "KeepAlive"@ ==> condition::bool_of(v) is Some)
            &&& (n.no_delay == if k == "NoDelay"@ {
condition::bool_of(v)->Some_0
} else {
m.no_delay
}) && (k == "NoDelay"@ ==> condition::bool_of(v) is Some)
            &&& (n.reuse_port == if k == "ReusePort"@ {
condition::bool_of(v)->Some_0
} else {
m.reuse_port
}) && (k == "ReusePort"@ ==> condition::bool_of(v) is Some)
        },
{
    spelling::lemma_socket_marks();
}

/// The names of the directives of permissions.
spec fn in_permission(k: Seq<char>) -> bool {
    ||| k == "Transparent"@
    ||| k == "Broadcast"@
    ||| k == "PassPacketInfo"@
    ||| k == "RemoveOnStop"@
}

proof fn lemma_permission(m: SocketView, k: Seq<char>, v: Seq<char>)
    ensures
        parse_socket::socket_permission(m, k, v) is Some <==> in_permission(k),
        parse_socket::socket_permission(m, k, v) matches Some(Ok(n)) ==> {
            &&& listen_of(k, v) is None
            &&& n == (SocketView { transparent: n.transparent, broadcast: n.broadcast, pass_packet_info: n.pass_packet_info, remove_on_stop: n.remove_on_stop, ..m })
            &&& (n.transparent == if k == "Transparent"@ {
condition::bool_of(v)->Some_0
} else {
m.transparent
}) && (k == "Transparent"@ ==> condition::bool_of(v) is Some)
            &&& (n.broadcast == if k == "Broadcast"@ {
condition::bool_of(v)->Some_0
} else {
m.broadcast
}) && (k == "Broadcast"@ ==> condition::bool_of(v) is Some)
            &&& (n.pass_packet_info == if k == "PassPacketInfo"@ {
condition::bool_of(v)->Some_0
} else {
m.pass_packet_info
}) && (k == "PassPacketInfo"@ ==> condition::bool_of(v) is Some)
            &&& (n.remove_on_stop == if k == "RemoveOnStop"@ {
condition::bool_of(v)->Some_0
} else {
m.remove_on_stop
}) && (k == "RemoveOnStop"@ ==> condition::bool_of(v) is Some)
        },
{
    spelling::lemma_socket_marks();
}

/// The names of the directives of numbers.
spec fn in_number(k: Seq<char>) -> bool {
    ||| k == "MaxConnections"@
    ||| k == "MaxConnectionsPerSource"@
    ||| k == "Backlog"@
    ||| k == "KeepAliveProbes"@
    ||| k == "Priority"@
    ||| k == "ReceiveBuffer"@
    ||| k == "SendBuffer"@
}

proof fn lemma_number(m: SocketView, k: Seq<char>, v: Seq<char>)
    ensures
        parse_socket::socket_number(m, k, v) is Some <==> in_number(k),
        parse_socket::socket_number(m, k, v) matches Some(Ok(n)) ==> {
            &&& listen_of(k, v) is None
            &&& n == (SocketView { max_connections: n.max_connections, max_connections_per_source: n.max_connections_per_source, backlog: n.backlog, keep_alive_probes: n.keep_alive_probes, priority: n.priority, receive_buffer: n.receive_buffer, send_buffer: n.send_buffer, ..m })
            &&& (n.max_connections == if k == "MaxConnections"@ {
number::uint_of(v, 10, 0xffff_ffff)->Ok_0 as u32
} else {
m.max_connections
}) && (k == "MaxConnections"@ ==> number::uint_of(v, 10, 0xffff_ffff) is Ok)
            &&& (n.max_connections_per_source == if k == "MaxConnectionsPerSource"@ {
number::uint_of(v, 10, 0xffff_ffff)->Ok_0 as u32
} else {
m.max_connections_per_source
}) && (k == "MaxConnectionsPerSource"@ ==> number::uint_of(v, 10, 0xffff_ffff) is Ok)
            &&& (n.backlog == if k == "Backlog"@ {
number::uint_of(v, 10, 0xffff_ffff)->Ok_0 as u32
} else {
m.backlog
}) && (k == "Backlog"@ ==> number::uint_of(v, 10, 0xffff_ffff) is Ok)
            &&& (n.keep_alive_probes == if k == "KeepAliveProbes"@ {
Some(number::uint_of(v, 10, 0xffff_ffff)->Ok_0 as u32)
} else {
m.keep_alive_probes
}) && (k == "KeepAliveProbes"@ ==> number::uint_of(v, 10, 0xffff_ffff) is Ok)
            &&& (n.priority == if k == "Priority"@ {
Some(number::int_of(v, 0x7fff_ffff)->Ok_0 as i32)
} else {
m.priority
}) && (k == "Priority"@ ==> number::int_of(v, 0x7fff_ffff) is Ok)
            &&& (n.receive_buffer == if k == "ReceiveBuffer"@ {
Some(number::uint_of(v, 10, 0xffff_ffff_ffff_ffff)->Ok_0 as u64)
} else {
m.receive_buffer
}) && (k == "ReceiveBuffer"@ ==> number::uint_of(v, 10, 0xffff_ffff_ffff_ffff) is Ok)
            &&& (n.send_buffer == if k == "SendBuffer"@ {
Some(number::uint_of(v, 10, 0xffff_ffff_ffff_ffff)->Ok_0 as u64)
} else {
m.send_buffer
}) && (k == "SendBuffer"@ ==> number::uint_of(v, 10, 0xffff_ffff_ffff_ffff) is Ok)
        },
{
    spelling::lemma_socket_marks();
}

/// The names of the directives of limits.
spec fn in_limit(k: Seq<char>) -> bool {
    ||| k == "IPTTL"@
    ||| k == "Mark"@
    ||| k == "SocketMode"@
    ||| k == "DirectoryMode"@
    ||| k == "TriggerLimitBurst"@
    ||| k == "MessageQueueMaxMessages"@
    ||| k == "MessageQueueMessageSize"@
}

proof fn lemma_limit(m: SocketView, k: Seq<char>, v: Seq<char>)
    ensures
        parse_socket::socket_limit(m, k, v) is Some <==> in_limit(k),
        parse_socket::socket_limit(m, k, v) matches Some(Ok(n)) ==> {
            &&& listen_of(k, v) is None
            &&& n == (SocketView { ip_ttl: n.ip_ttl, mark: n.mark, socket_mode: n.socket_mode, directory_mode: n.directory_mode, trigger_limit_burst: n.trigger_limit_burst, mq_max_messages: n.mq_max_messages, mq_message_size: n.mq_message_size, ..m })
            &&& (n.ip_ttl == if k == "IPTTL"@ {
Some(number::uint_of(v, 10, 0xffff_ffff)->Ok_0 as u32)
} else {
m.ip_ttl
}) && (k == "IPTTL"@ ==> number::uint_of(v, 10, 0xffff_ffff) is Ok)
            &&& (n.mark == if k == "Mark"@ {
Some(number::int_of(v, 0x7fff_ffff)->Ok_0 as i32)
} else {
m.mark
}) && (k == "Mark"@ ==> number::int_of(v, 0x7fff_ffff) is Ok)
            &&& (n.socket_mode == if k == "SocketMode"@ {
Some(number::uint_of(v, 8, 0xffff_ffff)->Ok_0 as u32)
} else {
m.socket_mode
}) && (k == "SocketMode"@ ==> number::uint_of(v, 8, 0xffff_ffff) is Ok)
            &&& (n.directory_mode == if k == "DirectoryMode"@ {
Some(number::uint_of(v, 8, 0xffff_ffff)->Ok_0 as u32)
} else {
m.directory_mode
}) && (k == "DirectoryMode"@ ==> number::uint_of(v, 8, 0xffff_ffff) is Ok)
            &&& (n.trigger_limit_burst == if k == "TriggerLimitBurst"@ {
Some(number::uint_of(v, 10, 0xffff_ffff)->Ok_0 as u32)
} else {
m.trigger_limit_burst
}) && (k == "TriggerLimitBurst"@ ==> number::uint_of(v, 10, 0xffff_ffff) is Ok)
            &&& (n.mq_max_messages == if k == "MessageQueueMaxMessages"@ {
Some(number::int_of(v, 0x7fff_ffff_ffff_ffff)->Ok_0 as i64)
} else {
m.mq_max_messages
}) && (k == "MessageQueueMaxMessages"@ ==> number::int_of(v, 0x7fff_ffff_ffff_ffff) is Ok)
            &&& (n.mq_message_size == if k == "MessageQueueMessageSize"@ {
Some(number::int_of(v, 0x7fff_ffff_ffff_ffff)->Ok_0 as i64)
} else {
m.mq_message_size
}) && (k == "MessageQueueMessageSize"@ ==> number::int_of(v, 0x7fff_ffff_ffff_ffff) is Ok)
        },
{
    spelling::lemma_socket_marks();
}

/// The names of the directives of durations.
spec fn in_duration(k: Seq<char>) -> bool {
    ||| k == "KeepAliveTimeSec"@
    ||| k == "KeepAliveIntervalSec"@
    ||| k == "DeferAcceptSec"@
    ||| k == "TriggerLimitIntervalSec"@
}

proof fn lemma_duration(m: SocketView, k: Seq<char>, v: Seq<char>)
    ensures
        parse_socket::socket_duration(m, k, v) is Some <==> in_duration(k),
        parse_socket::socket_duration(m, k, v) matches Some(Ok(n)) ==> {
            &&& listen_of(k, v) is None
            &&& n == (SocketView { keep_alive_time_sec: n.keep_alive_time_sec, keep_alive_interval_sec: n.keep_alive_interval_sec, defer_accept_sec: n.defer_accept_sec, trigger_limit_interval_sec: n.trigger_limit_interval_sec, ..m })
            &&& (n.keep_alive_time_sec == if k == "KeepAliveTimeSec"@ {
Some(duration::duration_of(v, 1)->Ok_0)
} else {
m.keep_alive_time_sec
}) && (k == "KeepAliveTimeSec"@ ==> duration::duration_of(v, 1) is Ok)
            &&& (n.keep_alive_interval_sec == if k == "KeepAliveIntervalSec"@ {
Some(duration::duration_of(v, 1)->Ok_0)
} else {
m.keep_alive_interval_sec
}) && (k == "KeepAliveIntervalSec"@ ==> duration::duration_of(v, 1) is Ok)
            &&& (n.defer_accept_sec == if k == "DeferAcceptSec"@ {
Some(duration::duration_of(v, 1)->Ok_0)
} else {
m.defer_accept_sec
}) && (k == "DeferAcceptSec"@ ==> duration::duration_of(v, 1) is Ok)
            &&& (n.trigger_limit_interval_sec == if k == "TriggerLimitIntervalSec"@ {
Some(duration::duration_of(v, 1)->Ok_0)
} else {
m.trigger_limit_interval_sec
}) && (k == "TriggerLimitIntervalSec"@ ==> duration::duration_of(v, 1) is Ok)
        },
{
    spelling::lemma_socket_marks();
}

/// The names of the directives of texts.
spec fn in_text(k: Seq<char>) -> bool {
    ||| k == "IPTOS"@
    ||| k == "SocketUser"@
    ||| k == "SocketGroup"@
    ||| k == "FileDescriptorName"@
    ||| k == "Symlinks"@
    ||| k == "Service"@
    ||| k == "BindIPv6Only"@
}

proof fn lemma_text(m: SocketView, k: Seq<char>, v: Seq<char>)
    ensures
        parse_socket::socket_text(m, k, v) is Some <==> in_text(k),
        parse_socket::socket_text(m, k, v) matches Some(Ok(n)) ==> {
            &&& listen_of(k, v) is None
            &&& n == (SocketView { ip_tos: n.ip_tos, socket_user: n.socket_user, socket_group: n.socket_group, file_descriptor_name: n.file_descriptor_name, symlinks: n.symlinks, service: n.service, bind_ipv6_only: n.bind_ipv6_only, ..m })
            &&& (n.ip_tos == if k == "IPTOS"@ {
Some(v)
} else {
m.ip_tos
})
            &&& (n.socket_user == if k == "SocketUser"@ {
Some(v)
} else {
m.socket_user
})
            &&& (n.socket_group == if k == "SocketGroup"@ {
Some(v)
} else {
m.socket_group
})
            &&& (n.file_descriptor_name == if k == "FileDescriptorName"@ {
Some(v)
} else {
m.file_descriptor_name
})
            &&& (n.symlinks == if k == "Symlinks"@ {
m.symlinks + text::items(v, true)
} else {
m.symlinks
})
            &&& (n.service == if k == "Service"@ {
Some(name::parse_name(v)->Ok_0)
} else {
m.service
}) && (k == "Service"@ ==> name::parse_name(v) is Ok)
            &&& (n.bind_ipv6_only == if k == "BindIPv6Only"@ {
socket::bind_ipv6_only_of(v)->Ok_0
} else {
m.bind_ipv6_only
}) && (k == "BindIPv6Only"@ ==> socket::bind_ipv6_only_of(v) is Ok)
        },
{
    spelling::lemma_socket_marks();
}

/// The names of the directives that need a Linux kernel.
spec fn in_linux(k: Seq<char>) -> bool {
    parse_socket::socket_linux_key(k)
}

proof fn lemma_linux(m: SocketView, k: Seq<char>, v: Seq<char>)
    requires
        in_linux(k),
    ensures
        ({
            let n = parse_socket::socket_linux_setting(m, k, v);
            &&& n == (SocketView {
                listen: n.listen,
                pass_credentials: n.pass_credentials,
                pass_security: n.pass_security,
                bind_to_device: n.bind_to_device,
                ..m
            })
            &&& (n.listen == match listen_of(k, v) {
Some(x) => m.listen.push(x),
None => m.listen,
})
            &&& (n.pass_credentials == if k == "PassCredentials"@ && condition::bool_of(v) is Some {
condition::bool_of(v)->Some_0
} else {
m.pass_credentials
})
            &&& (n.pass_security == if k == "PassSecurity"@ && condition::bool_of(v) is Some {
condition::bool_of(v)->Some_0
} else {
m.pass_security
})
            &&& (n.bind_to_device == if k == "BindToDevice"@ {
Some(v)
} else {
m.bind_to_device
})
        }),
{
    spelling::lemma_socket_marks();
}

proof fn lemma_one_place(k: Seq<char>)
    ensures
        in_listen(k) ==> !in_switch(k) && !in_permission(k) && !in_number(k) && !in_limit(k) && !in_duration(k) && !in_text(k) && !in_linux(k),
        in_switch(k) ==> !in_listen(k) && !in_permission(k) && !in_number(k) && !in_limit(k) && !in_duration(k) && !in_text(k) && !in_linux(k),
        in_permission(k) ==> !in_listen(k) && !in_switch(k) && !in_number(k) && !in_limit(k) && !in_duration(k) && !in_text(k) && !in_linux(k),
        in_number(k) ==> !in_listen(k) && !in_switch(k) && !in_permission(k) && !in_limit(k) && !in_duration(k) && !in_text(k) && !in_linux(k),
        in_limit(k) ==> !in_listen(k) && !in_switch(k) && !in_permission(k) && !in_number(k) && !in_duration(k) && !in_text(k) && !in_linux(k),
        in_duration(k) ==> !in_listen(k) && !in_switch(k) && !in_permission(k) && !in_number(k) && !in_limit(k) && !in_text(k) && !in_linux(k),
        in_text(k) ==> !in_listen(k) && !in_switch(k) && !in_permission(k) && !in_number(k) && !in_limit(k) && !in_duration(k) && !in_linux(k),
        in_linux(k) ==> !in_listen(k) && !in_switch(k) && !in_permission(k) && !in_number(k) && !in_limit(k) && !in_duration(k) && !in_text(k),
{
    spelling::lemma_socket_marks();
}

proof fn lemma_last(path: Seq<char>, es: Seq<EntryView>, m: SocketView, ws: Seq<ParseWarningView>)
    requires
        es.len() > 0,
        parse_socket::socket_entries(path, es, m, ws) is Ok,
    ensures
        parse_socket::socket_entries(path, es.drop_last(), m, ws) matches Ok((n, vs)) && parse_socket::socket_entries(
            path,
            es,
            m,
            ws,
        ) == parse_socket::socket_step(path, n, vs, es.last()),
    decreases es.len(),
{
    let (n, vs) = parse_socket::socket_step(path, m, ws, es[0])->Ok_0;
    let rest = es.skip(1);
    if rest.len() == 0 {
        assert(es.drop_last() =~= seq![]);
    } else {
        lemma_last(path, rest, n, vs);
        assert(rest.last() == es.last());
        assert(es.drop_last().skip(1) =~= rest.drop_last());
        assert(es.drop_last()[0] == es[0]);
    }
}

proof fn lemma_listen_step(path: Seq<char>, m: SocketView, ws: Seq<ParseWarningView>, e: EntryView)
    requires
        parse_socket::socket_step(path, m, ws, e) is Ok,
    ensures
        ({
            let n = parse_socket::socket_step(path, m, ws, e)->Ok_0.0;
            &&& (n.listen == match listen_of(e.key, e.value) {
Some(x) => m.listen.push(x),
None => m.listen,
})
        }),
{
    lemma_one_place(e.key);
    lemma_listen(m, e.key, e.value);
    lemma_switch(m, e.key, e.value);
    lemma_permission(m, e.key, e.value);
    lemma_number(m, e.key, e.value);
    lemma_limit(m, e.key, e.value);
    lemma_duration(m, e.key, e.value);
    lemma_text(m, e.key, e.value);
    if in_linux(e.key) {
        lemma_linux(m, e.key, e.value);
    }
}

/// The addresses of a socket are those that their own directives give.
pub open spec fn addresses_are_given(s: SocketView, es: Seq<EntryView>) -> bool {
    &&& s.listen == listens_of(es)
}

proof fn lemma_listen_fold(path: Seq<char>, es: Seq<EntryView>, ws: Seq<ParseWarningView>)
    requires
        parse_socket::socket_entries(path, es, parse_socket::fresh_socket(), ws) is Ok,
    ensures
        addresses_are_given(parse_socket::socket_entries(path, es, parse_socket::fresh_socket(), ws)->Ok_0.0, es),
    decreases es.len(),
{
    if es.len() > 0 {
        let m = parse_socket::fresh_socket();
        lemma_last(path, es, m, ws);
        let before = es.drop_last();
        let (n, vs) = parse_socket::socket_entries(path, before, m, ws)->Ok_0;
        lemma_listen_fold(path, before, ws);
        lemma_listen_step(path, n, vs, es.last());
    }
}

proof fn lemma_switch_step(path: Seq<char>, m: SocketView, ws: Seq<ParseWarningView>, e: EntryView)
    requires
        parse_socket::socket_step(path, m, ws, e) is Ok,
    ensures
        ({
            let n = parse_socket::socket_step(path, m, ws, e)->Ok_0.0;
            &&& (n.accept == if e.key == "Accept"@ {
condition::bool_of(e.value)->Some_0
} else {
m.accept
}) && (e.key == "Accept"@ ==> condition::bool_of(e.value) is Some)
            &&& (n.keep_alive == if e.key == "KeepAlive"@ {
condition::bool_of(e.value)->Some_0
} else {
m.keep_alive
}) && (e.key == "KeepAlive"@ ==> condition::bool_of(e.value) is Some)
            &&& (n.no_delay == if e.key == "NoDelay"@ {
condition::bool_of(e.value)->Some_0
} else {
m.no_delay
}) && (e.key == "NoDelay"@ ==> condition::bool_of(e.value) is Some)
            &&& (n.reuse_port == if e.key == "ReusePort"@ {
condition::bool_of(e.value)->Some_0
} else {
m.reuse_port
}) && (e.key == "ReusePort"@ ==> condition::bool_of(e.value) is Some)
        }),
{
    lemma_one_place(e.key);
    lemma_listen(m, e.key, e.value);
    lemma_switch(m, e.key, e.value);
    lemma_permission(m, e.key, e.value);
    lemma_number(m, e.key, e.value);
    lemma_limit(m, e.key, e.value);
    lemma_duration(m, e.key, e.value);
    lemma_text(m, e.key, e.value);
    if in_linux(e.key) {
        lemma_linux(m, e.key, e.value);
    }
}

/// The switches of a socket are those that their own directives give.
pub open spec fn switches_are_given(s: SocketView, es: Seq<EntryView>) -> bool {
    &&& s.accept == match entries::last_of(es, "Accept"@) {
        Some(v) => condition::bool_of(v)->Some_0,
        None => false,
    }
    &&& s.keep_alive == match entries::last_of(es, "KeepAlive"@) {
        Some(v) => condition::bool_of(v)->Some_0,
        None => false,
    }
    &&& s.no_delay == match entries::last_of(es, "NoDelay"@) {
        Some(v) => condition::bool_of(v)->Some_0,
        None => false,
    }
    &&& s.reuse_port == match entries::last_of(es, "ReusePort"@) {
        Some(v) => condition::bool_of(v)->Some_0,
        None => false,
    }
}

proof fn lemma_switch_fold(path: Seq<char>, es: Seq<EntryView>, ws: Seq<ParseWarningView>)
    requires
        parse_socket::socket_entries(path, es, parse_socket::fresh_socket(), ws) is Ok,
    ensures
        switches_are_given(parse_socket::socket_entries(path, es, parse_socket::fresh_socket(), ws)->Ok_0.0, es),
    decreases es.len(),
{
    if es.len() > 0 {
        let m = parse_socket::fresh_socket();
        lemma_last(path, es, m, ws);
        let before = es.drop_last();
        let (n, vs) = parse_socket::socket_entries(path, before, m, ws)->Ok_0;
        lemma_switch_fold(path, before, ws);
        lemma_switch_step(path, n, vs, es.last());
    }
}

proof fn lemma_permission_step(path: Seq<char>, m: SocketView, ws: Seq<ParseWarningView>, e: EntryView)
    requires
        parse_socket::socket_step(path, m, ws, e) is Ok,
    ensures
        ({
            let n = parse_socket::socket_step(path, m, ws, e)->Ok_0.0;
            &&& (n.transparent == if e.key == "Transparent"@ {
condition::bool_of(e.value)->Some_0
} else {
m.transparent
}) && (e.key == "Transparent"@ ==> condition::bool_of(e.value) is Some)
            &&& (n.broadcast == if e.key == "Broadcast"@ {
condition::bool_of(e.value)->Some_0
} else {
m.broadcast
}) && (e.key == "Broadcast"@ ==> condition::bool_of(e.value) is Some)
            &&& (n.pass_packet_info == if e.key == "PassPacketInfo"@ {
condition::bool_of(e.value)->Some_0
} else {
m.pass_packet_info
}) && (e.key == "PassPacketInfo"@ ==> condition::bool_of(e.value) is Some)
            &&& (n.remove_on_stop == if e.key == "RemoveOnStop"@ {
condition::bool_of(e.value)->Some_0
} else {
m.remove_on_stop
}) && (e.key == "RemoveOnStop"@ ==> condition::bool_of(e.value) is Some)
        }),
{
    lemma_one_place(e.key);
    lemma_listen(m, e.key, e.value);
    lemma_switch(m, e.key, e.value);
    lemma_permission(m, e.key, e.value);
    lemma_number(m, e.key, e.value);
    lemma_limit(m, e.key, e.value);
    lemma_duration(m, e.key, e.value);
    lemma_text(m, e.key, e.value);
    if in_linux(e.key) {
        lemma_linux(m, e.key, e.value);
    }
}

/// The permissions of a socket are those that their own directives give.
pub open spec fn permissions_are_given(s: SocketView, es: Seq<EntryView>) -> bool {
    &&& s.transparent == match entries::last_of(es, "Transparent"@) {
        Some(v) => condition::bool_of(v)->Some_0,
        None => false,
    }
    &&& s.broadcast == match entries::last_of(es, "Broadcast"@) {
        Some(v) => condition::bool_of(v)->Some_0,
        None => false,
    }
    &&& s.pass_packet_info == match entries::last_of(es, "PassPacketInfo"@) {
        Some(v) => condition::bool_of(v)->Some_0,
        None => false,
    }
    &&& s.remove_on_stop == match entries::last_of(es, "RemoveOnStop"@) {
        Some(v) => condition::bool_of(v)->Some_0,
        None => false,
    }
}

proof fn lemma_permission_fold(path: Seq<char>, es: Seq<EntryView>, ws: Seq<ParseWarningView>)
    requires
        parse_socket::socket_entries(path, es, parse_socket::fresh_socket(), ws) is Ok,
    ensures
        permissions_are_given(parse_socket::socket_entries(path, es, parse_socket::fresh_socket(), ws)->Ok_0.0, es),
    decreases es.len(),
{
    if es.len() > 0 {
        let m = parse_socket::fresh_socket();
        lemma_last(path, es, m, ws);
        let before = es.drop_last();
        let (n, vs) = parse_socket::socket_entries(path, before, m, ws)->Ok_0;
        lemma_permission_fold(path, before, ws);
        lemma_permission_step(path, n, vs, es.last());
    }
}

proof fn lemma_number_step(path: Seq<char>, m: SocketView, ws: Seq<ParseWarningView>, e: EntryView)
    requires
        parse_socket::socket_step(path, m, ws, e) is Ok,
    ensures
        ({
            let n = parse_socket::socket_step(path, m, ws, e)->Ok_0.0;
            &&& (n.max_connections == if e.key == "MaxConnections"@ {
number::uint_of(e.value, 10, 0xffff_ffff)->Ok_0 as u32
} else {
m.max_connections
}) && (e.key == "MaxConnections"@ ==> number::uint_of(e.value, 10, 0xffff_ffff) is Ok)
            &&& (n.max_connections_per_source == if e.key == "MaxConnectionsPerSource"@ {
number::uint_of(e.value, 10, 0xffff_ffff)->Ok_0 as u32
} else {
m.max_connections_per_source
}) && (e.key == "MaxConnectionsPerSource"@ ==> number::uint_of(e.value, 10, 0xffff_ffff) is Ok)
            &&& (n.backlog == if e.key == "Backlog"@ {
number::uint_of(e.value, 10, 0xffff_ffff)->Ok_0 as u32
} else {
m.backlog
}) && (e.key == "Backlog"@ ==> number::uint_of(e.value, 10, 0xffff_ffff) is Ok)
            &&& (n.keep_alive_probes == if e.key == "KeepAliveProbes"@ {
Some(number::uint_of(e.value, 10, 0xffff_ffff)->Ok_0 as u32)
} else {
m.keep_alive_probes
}) && (e.key == "KeepAliveProbes"@ ==> number::uint_of(e.value, 10, 0xffff_ffff) is Ok)
            &&& (n.priority == if e.key == "Priority"@ {
Some(number::int_of(e.value, 0x7fff_ffff)->Ok_0 as i32)
} else {
m.priority
}) && (e.key == "Priority"@ ==> number::int_of(e.value, 0x7fff_ffff) is Ok)
            &&& (n.receive_buffer == if e.key == "ReceiveBuffer"@ {
Some(number::uint_of(e.value, 10, 0xffff_ffff_ffff_ffff)->Ok_0 as u64)
} else {
m.receive_buffer
}) && (e.key == "ReceiveBuffer"@ ==> number::uint_of(e.value, 10, 0xffff_ffff_ffff_ffff) is Ok)
            &&& (n.send_buffer == if e.key == "SendBuffer"@ {
Some(number::uint_of(e.value, 10, 0xffff_ffff_ffff_ffff)->Ok_0 as u64)
} else {
m.send_buffer
}) && (e.key == "SendBuffer"@ ==> number::uint_of(e.value, 10, 0xffff_ffff_ffff_ffff) is Ok)
        }),
{
    lemma_one_place(e.key);
    lemma_listen(m, e.key, e.value);
    lemma_switch(m, e.key, e.value);
    lemma_permission(m, e.key, e.value);
    lemma_number(m, e.key, e.value);
    lemma_limit(m, e.key, e.value);
    lemma_duration(m, e.key, e.value);
    lemma_text(m, e.key, e.value);
    if in_linux(e.key) {
        lemma_linux(m, e.key, e.value);
    }
}

/// The numbers of a socket are those that their own directives give.
pub open spec fn numbers_are_given(s: SocketView, es: Seq<EntryView>) -> bool {
    &&& s.max_connections == match entries::last_of(es, "MaxConnections"@) {
        Some(v) => number::uint_of(v, 10, 0xffff_ffff)->Ok_0 as u32,
        None => 0,
    }
    &&& s.max_connections_per_source == match entries::last_of(es, "MaxConnectionsPerSource"@) {
        Some(v) => number::uint_of(v, 10, 0xffff_ffff)->Ok_0 as u32,
        None => 0,
    }
    &&& s.backlog == match entries::last_of(es, "Backlog"@) {
        Some(v) => number::uint_of(v, 10, 0xffff_ffff)->Ok_0 as u32,
        None => 0,
    }
    &&& s.keep_alive_probes == match entries::last_of(es, "KeepAliveProbes"@) {
        Some(v) => Some(number::uint_of(v, 10, 0xffff_ffff)->Ok_0 as u32),
        None => None,
    }
    &&& s.priority == match entries::last_of(es, "Priority"@) {
        Some(v) => Some(number::int_of(v, 0x7fff_ffff)->Ok_0 as i32),
        None => None,
    }
    &&& s.receive_buffer == match entries::last_of(es, "ReceiveBuffer"@) {
        Some(v) => Some(number::uint_of(v, 10, 0xffff_ffff_ffff_ffff)->Ok_0 as u64),
        None => None,
    }
    &&& s.send_buffer == match entries::last_of(es, "SendBuffer"@) {
        Some(v) => Some(number::uint_of(v, 10, 0xffff_ffff_ffff_ffff)->Ok_0 as u64),
        None => None,
    }
}

proof fn lemma_number_fold(path: Seq<char>, es: Seq<EntryView>, ws: Seq<ParseWarningView>)
    requires
        parse_socket::socket_entries(path, es, parse_socket::fresh_socket(), ws) is Ok,
    ensures
        numbers_are_given(parse_socket::socket_entries(path, es, parse_socket::fresh_socket(), ws)->Ok_0.0, es),
    decreases es.len(),
{
    if es.len() > 0 {
        let m = parse_socket::fresh_socket();
        lemma_last(path, es, m, ws);
        let before = es.drop_last();
        let (n, vs) = parse_socket::socket_entries(path, before, m, ws)->Ok_0;
        lemma_number_fold(path, before, ws);
        lemma_number_step(path, n, vs, es.last());
    }
}

proof fn lemma_limit_step(path: Seq<char>, m: SocketView, ws: Seq<ParseWarningView>, e: EntryView)
    requires
        parse_socket::socket_step(path, m, ws, e) is Ok,
    ensures
        ({
            let n = parse_socket::socket_step(path, m, ws, e)->Ok_0.0;
            &&& (n.ip_ttl == if e.key == "IPTTL"@ {
Some(number::uint_of(e.value, 10, 0xffff_ffff)->Ok_0 as u32)
} else {
m.ip_ttl
}) && (e.key == "IPTTL"@ ==> number::uint_of(e.value, 10, 0xffff_ffff) is Ok)
            &&& (n.mark == if e.key == "Mark"@ {
Some(number::int_of(e.value, 0x7fff_ffff)->Ok_0 as i32)
} else {
m.mark
}) && (e.key == "Mark"@ ==> number::int_of(e.value, 0x7fff_ffff) is Ok)
            &&& (n.socket_mode == if e.key == "SocketMode"@ {
Some(number::uint_of(e.value, 8, 0xffff_ffff)->Ok_0 as u32)
} else {
m.socket_mode
}) && (e.key == "SocketMode"@ ==> number::uint_of(e.value, 8, 0xffff_ffff) is Ok)
            &&& (n.directory_mode == if e.key == "DirectoryMode"@ {
Some(number::uint_of(e.value, 8, 0xffff_ffff)->Ok_0 as u32)
} else {
m.directory_mode
}) && (e.key == "DirectoryMode"@ ==> number::uint_of(e.value, 8, 0xffff_ffff) is Ok)
            &&& (n.trigger_limit_burst == if e.key == "TriggerLimitBurst"@ {
Some(number::uint_of(e.value, 10, 0xffff_ffff)->Ok_0 as u32)
} else {
m.trigger_limit_burst
}) && (e.key == "TriggerLimitBurst"@ ==> number::uint_of(e.value, 10, 0xffff_ffff) is Ok)
            &&& (n.mq_max_messages == if e.key == "MessageQueueMaxMessages"@ {
Some(number::int_of(e.value, 0x7fff_ffff_ffff_ffff)->Ok_0 as i64)
} else {
m.mq_max_messages
}) && (e.key == "MessageQueueMaxMessages"@ ==> number::int_of(e.value, 0x7fff_ffff_ffff_ffff) is Ok)
            &&& (n.mq_message_size == if e.key == "MessageQueueMessageSize"@ {
Some(number::int_of(e.value, 0x7fff_ffff_ffff_ffff)->Ok_0 as i64)
} else {
m.mq_message_size
}) && (e.key == "MessageQueueMessageSize"@ ==> number::int_of(e.value, 0x7fff_ffff_ffff_ffff) is Ok)
        }),
{
    lemma_one_place(e.key);
    lemma_listen(m, e.key, e.value);
    lemma_switch(m, e.key, e.value);
    lemma_permission(m, e.key, e.value);
    lemma_number(m, e.key, e.value);
    lemma_limit(m, e.key, e.value);
    lemma_duration(m, e.key, e.value);
    lemma_text(m, e.key, e.value);
    if in_linux(e.key) {
        lemma_linux(m, e.key, e.value);
    }
}

/// The limits of a socket are those that their own directives give.
pub open spec fn limits_are_given(s: SocketView, es: Seq<EntryView>) -> bool {
    &&& s.ip_ttl == match entries::last_of(es, "IPTTL"@) {
        Some(v) => Some(number::uint_of(v, 10, 0xffff_ffff)->Ok_0 as u32),
        None => None,
    }
    &&& s.mark == match entries::last_of(es, "Mark"@) {
        Some(v) => Some(number::int_of(v, 0x7fff_ffff)->Ok_0 as i32),
        None => None,
    }
    &&& s.socket_mode == match entries::last_of(es, "SocketMode"@) {
        Some(v) => Some(number::uint_of(v, 8, 0xffff_ffff)->Ok_0 as u32),
        None => None,
    }
    &&& s.directory_mode == match entries::last_of(es, "DirectoryMode"@) {
        Some(v) => Some(number::uint_of(v, 8, 0xffff_ffff)->Ok_0 as u32),
        None => None,
    }
    &&& s.trigger_limit_burst == match entries::last_of(es, "TriggerLimitBurst"@) {
        Some(v) => Some(number::uint_of(v, 10, 0xffff_ffff)->Ok_0 as u32),
        None => None,
    }
    &&& s.mq_max_messages == match entries::last_of(es, "MessageQueueMaxMessages"@) {
        Some(v) => Some(number::int_of(v, 0x7fff_ffff_ffff_ffff)->Ok_0 as i64),
        None => None,
    }
    &&& s.mq_message_size == match entries::last_of(es, "MessageQueueMessageSize"@) {
        Some(v) => Some(number::int_of(v, 0x7fff_ffff_ffff_ffff)->Ok_0 as i64),
        None => None,
    }
}

proof fn lemma_limit_fold(path: Seq<char>, es: Seq<EntryView>, ws: Seq<ParseWarningView>)
    requires
        parse_socket::socket_entries(path, es, parse_socket::fresh_socket(), ws) is Ok,
    ensures
        limits_are_given(parse_socket::socket_entries(path, es, parse_socket::fresh_socket(), ws)->Ok_0.0, es),
    decreases es.len(),
{
    if es.len() > 0 {
        let m = parse_socket::fresh_socket();
        lemma_last(path, es, m, ws);
        let before = es.drop_last();
        let (n, vs) = parse_socket::socket_entries(path, before, m, ws)->Ok_0;
        lemma_limit_fold(path, before, ws);
        lemma_limit_step(path, n, vs, es.last());
    }
}

proof fn lemma_duration_step(path: Seq<char>, m: SocketView, ws: Seq<ParseWarningView>, e: EntryView)
    requires
        parse_socket::socket_step(path, m, ws, e) is Ok,
    ensures
        ({
            let n = parse_socket::socket_step(path, m, ws, e)->Ok_0.0;
            &&& (n.keep_alive_time_sec == if e.key == "KeepAliveTimeSec"@ {
Some(duration::duration_of(e.value, 1)->Ok_0)
} else {
m.keep_alive_time_sec
}) && (e.key == "KeepAliveTimeSec"@ ==> duration::duration_of(e.value, 1) is Ok)
            &&& (n.keep_alive_interval_sec == if e.key == "KeepAliveIntervalSec"@ {
Some(duration::duration_of(e.value, 1)->Ok_0)
} else {
m.keep_alive_interval_sec
}) && (e.key == "KeepAliveIntervalSec"@ ==> duration::duration_of(e.value, 1) is Ok)
            &&& (n.defer_accept_sec == if e.key == "DeferAcceptSec"@ {
Some(duration::duration_of(e.value, 1)->Ok_0)
} else {
m.defer_accept_sec
}) && (e.key == "DeferAcceptSec"@ ==> duration::duration_of(e.value, 1) is Ok)
            &&& (n.trigger_limit_interval_sec == if e.key == "TriggerLimitIntervalSec"@ {
Some(duration::duration_of(e.value, 1)->Ok_0)
} else {
m.trigger_limit_interval_sec
}) && (e.key == "TriggerLimitIntervalSec"@ ==> duration::duration_of(e.value, 1) is Ok)
        }),
{
    lemma_one_place(e.key);
    lemma_listen(m, e.key, e.value);
    lemma_switch(m, e.key, e.value);
    lemma_permission(m, e.key, e.value);
    lemma_number(m, e.key, e.value);
    lemma_limit(m, e.key, e.value);
    lemma_duration(m, e.key, e.value);
    lemma_text(m, e.key, e.value);
    if in_linux(e.key) {
        lemma_linux(m, e.key, e.value);
    }
}

/// The durations of a socket are those that their own directives give.
pub open spec fn durations_are_given(s: SocketView, es: Seq<EntryView>) -> bool {
    &&& s.keep_alive_time_sec == match entries::last_of(es, "KeepAliveTimeSec"@) {
        Some(v) => Some(duration::duration_of(v, 1)->Ok_0),
        None => None,
    }
    &&& s.keep_alive_interval_sec == match entries::last_of(es, "KeepAliveIntervalSec"@) {
        Some(v) => Some(duration::duration_of(v, 1)->Ok_0),
        None => None,
    }
    &&& s.defer_accept_sec == match entries::last_of(es, "DeferAcceptSec"@) {
        Some(v) => Some(duration::duration_of(v, 1)->Ok_0),
        None => None,
    }
    &&& s.trigger_limit_interval_sec == match entries::last_of(es, "TriggerLimitIntervalSec"@) {
        Some(v) => Some(duration::duration_of(v, 1)->Ok_0),
        None => None,
    }
}

proof fn lemma_duration_fold(path: Seq<char>, es: Seq<EntryView>, ws: Seq<ParseWarningView>)
    requires
        parse_socket::socket_entries(path, es, parse_socket::fresh_socket(), ws) is Ok,
    ensures
        durations_are_given(parse_socket::socket_entries(path, es, parse_socket::fresh_socket(), ws)->Ok_0.0, es),
    decreases es.len(),
{
    if es.len() > 0 {
        let m = parse_socket::fresh_socket();
        lemma_last(path, es, m, ws);
        let before = es.drop_last();
        let (n, vs) = parse_socket::socket_entries(path, before, m, ws)->Ok_0;
        lemma_duration_fold(path, before, ws);
        lemma_duration_step(path, n, vs, es.last());
    }
}

proof fn lemma_text_step(path: Seq<char>, m: SocketView, ws: Seq<ParseWarningView>, e: EntryView)
    requires
        parse_socket::socket_step(path, m, ws, e) is Ok,
    ensures
        ({
            let n = parse_socket::socket_step(path, m, ws, e)->Ok_0.0;
            &&& (n.ip_tos == if e.key == "IPTOS"@ {
Some(e.value)
} else {
m.ip_tos
})
            &&& (n.socket_user == if e.key == "SocketUser"@ {
Some(e.value)
} else {
m.socket_user
})
            &&& (n.socket_group == if e.key == "SocketGroup"@ {
Some(e.value)
} else {
m.socket_group
})
            &&& (n.file_descriptor_name == if e.key == "FileDescriptorName"@ {
Some(e.value)
} else {
m.file_descriptor_name
})
            &&& (n.symlinks == if e.key == "Symlinks"@ {
m.symlinks + text::items(e.value, true)
} else {
m.symlinks
})
            &&& (n.service == if e.key == "Service"@ {
Some(name::parse_name(e.value)->Ok_0)
} else {
m.service
}) && (e.key == "Service"@ ==> name::parse_name(e.value) is Ok)
            &&& (n.bind_ipv6_only == if e.key == "BindIPv6Only"@ {
socket::bind_ipv6_only_of(e.value)->Ok_0
} else {
m.bind_ipv6_only
}) && (e.key == "BindIPv6Only"@ ==> socket::bind_ipv6_only_of(e.value) is Ok)
        }),
{
    lemma_one_place(e.key);
    lemma_listen(m, e.key, e.value);
    lemma_switch(m, e.key, e.value);
    lemma_permission(m, e.key, e.value);
    lemma_number(m, e.key, e.value);
    lemma_limit(m, e.key, e.value);
    lemma_duration(m, e.key, e.value);
    lemma_text(m, e.key, e.value);
    if in_linux(e.key) {
        lemma_linux(m, e.key, e.value);
    }
}

/// The texts of a socket are those that their own directives give.
pub open spec fn texts_are_given(s: SocketView, es: Seq<EntryView>) -> bool {
    &&& s.ip_tos == entries::last_of(es, "IPTOS"@)
    &&& s.socket_user == entries::last_of(es, "SocketUser"@)
    &&& s.socket_group == entries::last_of(es, "SocketGroup"@)
    &&& s.file_descriptor_name == entries::last_of(es, "FileDescriptorName"@)
    &&& s.symlinks == entries::words_of(entries::values_of(es, "Symlinks"@))
    &&& s.service == match entries::last_of(es, "Service"@) {
        Some(v) => Some(name::parse_name(v)->Ok_0),
        None => None,
    }
    &&& s.bind_ipv6_only == match entries::last_of(es, "BindIPv6Only"@) {
        Some(v) => socket::bind_ipv6_only_of(v)->Ok_0,
        None => BindIPv6Only::Default,
    }
}

proof fn lemma_text_fold(path: Seq<char>, es: Seq<EntryView>, ws: Seq<ParseWarningView>)
    requires
        parse_socket::socket_entries(path, es, parse_socket::fresh_socket(), ws) is Ok,
    ensures
        texts_are_given(parse_socket::socket_entries(path, es, parse_socket::fresh_socket(), ws)->Ok_0.0, es),
    decreases es.len(),
{
    if es.len() > 0 {
        let m = parse_socket::fresh_socket();
        lemma_last(path, es, m, ws);
        let before = es.drop_last();
        let (n, vs) = parse_socket::socket_entries(path, before, m, ws)->Ok_0;
        lemma_text_fold(path, before, ws);
        lemma_text_step(path, n, vs, es.last());
        entries::lemma_one_more(entries::values_of(before, "Symlinks"@), es.last().value);
    }
}

proof fn lemma_linux_step(path: Seq<char>, m: SocketView, ws: Seq<ParseWarningView>, e: EntryView)
    requires
        parse_socket::socket_step(path, m, ws, e) is Ok,
    ensures
        ({
            let n = parse_socket::socket_step(path, m, ws, e)->Ok_0.0;
            &&& (n.pass_credentials == if e.key == "PassCredentials"@ && condition::bool_of(e.value) is Some {
condition::bool_of(e.value)->Some_0
} else {
m.pass_credentials
})
            &&& (n.pass_security == if e.key == "PassSecurity"@ && condition::bool_of(e.value) is Some {
condition::bool_of(e.value)->Some_0
} else {
m.pass_security
})
            &&& (n.bind_to_device == if e.key == "BindToDevice"@ {
Some(e.value)
} else {
m.bind_to_device
})
        }),
{
    lemma_one_place(e.key);
    lemma_listen(m, e.key, e.value);
    lemma_switch(m, e.key, e.value);
    lemma_permission(m, e.key, e.value);
    lemma_number(m, e.key, e.value);
    lemma_limit(m, e.key, e.value);
    lemma_duration(m, e.key, e.value);
    lemma_text(m, e.key, e.value);
    if in_linux(e.key) {
        lemma_linux(m, e.key, e.value);
    }
}

/// The settings that need a Linux kernel are those that their own directives give.
pub open spec fn kernel_settings_are_given(s: SocketView, es: Seq<EntryView>) -> bool {
    &&& s.pass_credentials == entries::switch_of(es, "PassCredentials"@)
    &&& s.pass_security == entries::switch_of(es, "PassSecurity"@)
    &&& s.bind_to_device == entries::last_of(es, "BindToDevice"@)
}

proof fn lemma_linux_fold(path: Seq<char>, es: Seq<EntryView>, ws: Seq<ParseWarningView>)
    requires
        parse_socket::socket_entries(path, es, parse_socket::fresh_socket(), ws) is Ok,
    ensures
        kernel_settings_are_given(parse_socket::socket_entries(path, es, parse_socket::fresh_socket(), ws)->Ok_0.0, es),
    decreases es.len(),
{
    if es.len() > 0 {
        let m = parse_socket::fresh_socket();
        lemma_last(path, es, m, ws);
        let before = es.drop_last();
        let (n, vs) = parse_socket::socket_entries(path, before, m, ws)->Ok_0;
        lemma_linux_fold(path, before, ws);
        lemma_linux_step(path, n, vs, es.last());
    }
}

/// The socket that a file makes.
pub open spec fn socket_of_file(
    name: NameView,
    path: Seq<char>,
    source: Seq<char>,
    sections: Seq<SectionView>,
) -> SocketView {
    spec::unit_of_sections(name, path, source, sections)->Ok_0.0.kind->Socket_0
}

proof fn lemma_of_file(
    name: NameView,
    path: Seq<char>,
    source: Seq<char>,
    sections: Seq<SectionView>,
) -> (ws: Seq<ParseWarningView>)
    requires
        spec::unit_of_sections(name, path, source, sections) is Ok,
        name.kind is Socket,
    ensures
        ({
            let r = parse_socket::socket_entries(
                path,
                ini::entries_or_none(sections, "Socket"@),
                parse_socket::fresh_socket(),
                ws,
            );
            &&& r is Ok
            &&& spec::unit_of_sections(name, path, source, sections)->Ok_0.0.kind is Socket
            &&& socket_of_file(name, path, source, sections) == r->Ok_0.0
        }),
{
    let m0 = UnitView { raw: sections, source, ..spec::empty_unit(name) };
    let es = ini::entries_or_none(sections, "Unit"@);
    let (m, ws) = spec::unit_entries(path, es, m0, seq![])->Ok_0;
    spec::lemma_entries_keep_name(path, es, m0, seq![]);
    let is = ini::entries_or_none(sections, "Install"@);
    spec::lemma_install_keeps_name(path, is, m, ws);
    spec::install_entries(path, is, m, ws).1
}

/// What a socket listens on is, in order, what its `Listen` entries say, each of the
/// kind that its name says.
pub proof fn socket_addresses_are_those_given(
    name: NameView,
    path: Seq<char>,
    source: Seq<char>,
    sections: Seq<SectionView>,
)
    requires
        spec::unit_of_sections(name, path, source, sections) is Ok,
        name.kind is Socket,
    ensures
        spec::unit_of_sections(name, path, source, sections)->Ok_0.0.kind is Socket,
        addresses_are_given(
            socket_of_file(name, path, source, sections),
            ini::entries_or_none(sections, "Socket"@),
        ),
{
    let ws = lemma_of_file(name, path, source, sections);
    lemma_listen_fold(path, ini::entries_or_none(sections, "Socket"@), ws);
}

/// Each switch of a socket is the parsed value of the
/// last entry of `[Socket]` with that very name, and has its default where there
/// is none.
pub proof fn socket_switches_are_those_given(
    name: NameView,
    path: Seq<char>,
    source: Seq<char>,
    sections: Seq<SectionView>,
)
    requires
        spec::unit_of_sections(name, path, source, sections) is Ok,
        name.kind is Socket,
    ensures
        spec::unit_of_sections(name, path, source, sections)->Ok_0.0.kind is Socket,
        switches_are_given(
            socket_of_file(name, path, source, sections),
            ini::entries_or_none(sections, "Socket"@),
        ),
{
    let ws = lemma_of_file(name, path, source, sections);
    lemma_switch_fold(path, ini::entries_or_none(sections, "Socket"@), ws);
}

/// Each permission of a socket is the parsed value of the
/// last entry of `[Socket]` with that very name, and has its default where there
/// is none.
pub proof fn socket_permissions_are_those_given(
    name: NameView,
    path: Seq<char>,
    source: Seq<char>,
    sections: Seq<SectionView>,
)
    requires
        spec::unit_of_sections(name, path, source, sections) is Ok,
        name.kind is Socket,
    ensures
        spec::unit_of_sections(name, path, source, sections)->Ok_0.0.kind is Socket,
        permissions_are_given(
            socket_of_file(name, path, source, sections),
            ini::entries_or_none(sections, "Socket"@),
        ),
{
    let ws = lemma_of_file(name, path, source, sections);
    lemma_permission_fold(path, ini::entries_or_none(sections, "Socket"@), ws);
}

/// Each number of a socket is the parsed value of the
/// last entry of `[Socket]` with that very name, and has its default where there
/// is none.
pub proof fn socket_numbers_are_those_given(
    name: NameView,
    path: Seq<char>,
    source: Seq<char>,
    sections: Seq<SectionView>,
)
    requires
        spec::unit_of_sections(name, path, source, sections) is Ok,
        name.kind is Socket,
    ensures
        spec::unit_of_sections(name, path, source, sections)->Ok_0.0.kind is Socket,
        numbers_are_given(
            socket_of_file(name, path, source, sections),
            ini::entries_or_none(sections, "Socket"@),
        ),
{
    let ws = lemma_of_file(name, path, source, sections);
    lemma_number_fold(path, ini::entries_or_none(sections, "Socket"@), ws);
}

/// Each limit of a socket is the parsed value of the
/// last entry of `[Socket]` with that very name, and has its default where there
/// is none.
pub proof fn socket_limits_are_those_given(
    name: NameView,
    path: Seq<char>,
    source: Seq<char>,
    sections: Seq<SectionView>,
)
    requires
        spec::unit_of_sections(name, path, source, sections) is Ok,
        name.kind is Socket,
    ensures
        spec::unit_of_sections(name, path, source, sections)->Ok_0.0.kind is Socket,
        limits_are_given(
            socket_of_file(name, path, source, sections),
            ini::entries_or_none(sections, "Socket"@),
        ),
{
    let ws = lemma_of_file(name, path, source, sections);
    lemma_limit_fold(path, ini::entries_or_none(sections, "Socket"@), ws);
}

/// Each duration of a socket is the parsed value of the
/// last entry of `[Socket]` with that very name, and has its default where there
/// is none.
pub proof fn socket_durations_are_those_given(
    name: NameView,
    path: Seq<char>,
    source: Seq<char>,
    sections: Seq<SectionView>,
)
    requires
        spec::unit_of_sections(name, path, source, sections) is Ok,
        name.kind is Socket,
    ensures
        spec::unit_of_sections(name, path, source, sections)->Ok_0.0.kind is Socket,
        durations_are_given(
            socket_of_file(name, path, source, sections),
            ini::entries_or_none(sections, "Socket"@),
        ),
{
    let ws = lemma_of_file(name, path, source, sections);
    lemma_duration_fold(path, ini::entries_or_none(sections, "Socket"@), ws);
}

/// Each text of a socket is the parsed value of the
/// last entry of `[Socket]` with that very name, and has its default where there
/// is none.
pub proof fn socket_texts_are_those_given(
    name: NameView,
    path: Seq<char>,
    source: Seq<char>,
    sections: Seq<SectionView>,
)
    requires
        spec::unit_of_sections(name, path, source, sections) is Ok,
        name.kind is Socket,
    ensures
        spec::unit_of_sections(name, path, source, sections)->Ok_0.0.kind is Socket,
        texts_are_given(
            socket_of_file(name, path, source, sections),
            ini::entries_or_none(sections, "Socket"@),
        ),
{
    let ws = lemma_of_file(name, path, source, sections);
    lemma_text_fold(path, ini::entries_or_none(sections, "Socket"@), ws);
}

/// What a socket asks of a Linux kernel is what the last readable entry of `[Socket]`
/// with that very name says.
pub proof fn socket_kernel_settings_are_those_given(
    name: NameView,
    path: Seq<char>,
    source: Seq<char>,
    sections: Seq<SectionView>,
)
    requires
        spec::unit_of_sections(name, path, source, sections) is Ok,
        name.kind is Socket,
    ensures
        spec::unit_of_sections(name, path, source, sections)->Ok_0.0.kind is Socket,
        kernel_settings_are_given(
            socket_of_file(name, path, source, sections),
            ini::entries_or_none(sections, "Socket"@),
        ),
{
    let ws = lemma_of_file(name, path, source, sections);
    lemma_linux_fold(path, ini::entries_or_none(sections, "Socket"@), ws);
}

} // verus!
