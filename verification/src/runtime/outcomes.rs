//! What notifications, sockets, watches, timers and links come to.

use crate::civil;
use crate::civil::DateTimeView;
use crate::number;
use crate::paths;
use crate::runtime::install;
use crate::runtime::install::{ChangeView, EnableView, LinkView};
use crate::runtime::notify;
use crate::runtime::path;
use crate::runtime::path::{ProbeView, TriggerLimiter};
use crate::runtime::recurrence;
use crate::runtime::schedule;
use crate::runtime::socket;
use crate::runtime::socket::{BindOptions, BindView, SockType};
use crate::runtime::timer;
use crate::runtime::timer::{ScheduledView, TimerClock, TriggersView};
use crate::text;
use crate::unit::duration::{SdDuration, TimeSpan};
use crate::unit::inet;
use crate::unit::inet::InetView;
use crate::unit::install::InstallView;
use crate::unit::name;
use crate::unit::name::{NameView, UnitKind};
use crate::unit::path_unit::{PathView, WatchView};
use crate::unit::socket::{AddrView, ListenView, SocketView};
use crate::unit::spelling;
use crate::unit::timer::TimerView;
use vstd::prelude::*;

verus! {

// ---------------------------------------------------------------------
// Notifications
// ---------------------------------------------------------------------

/// The values that the lines of a message give a key, in order.
pub open spec fn told(ls: Seq<Seq<char>>, key: Seq<char>) -> Seq<Seq<char>>
    decreases ls.len(),
{
    if ls.len() == 0 {
        seq![]
    } else {
        let before = told(ls.drop_last(), key);
        match text::split_at_first(ls.last(), '=') {
            Some((k, v)) => if k == key {
                before.push(v)
            } else {
                before
            },
            None => before,
        }
    }
}

/// A message says what its lines say: a flag is on where a line with that very key
/// has the value 1, and a number or a text is that of the last line with that key,
/// none where it cannot be read.
pub proof fn a_message_says_what_its_lines_say(ls: Seq<Seq<char>>)
    ensures
        ({
            let m = notify::message_of(ls);
            &&& m.ready <==> told(ls, "READY"@).contains("1"@)
            &&& m.stopping <==> told(ls, "STOPPING"@).contains("1"@)
            &&& m.reloading <==> told(ls, "RELOADING"@).contains("1"@)
            &&& m.watchdog <==> told(ls, "WATCHDOG"@).contains("1"@)
            &&& m.barrier <==> told(ls, "BARRIER"@).contains("1"@)
            &&& m.main_pid == if told(ls, "MAINPID"@).len() == 0 {
                None
            } else {
                notify::small_int(told(ls, "MAINPID"@).last())
            }
            &&& m.status == if told(ls, "STATUS"@).len() == 0 {
                None
            } else {
                Some(told(ls, "STATUS"@).last())
            }
            &&& m.watchdog_usec == if told(ls, "WATCHDOG_USEC"@).len() == 0 {
                None
            } else {
                notify::large_uint(told(ls, "WATCHDOG_USEC"@).last())
            }
            &&& m.errno == if told(ls, "ERRNO"@).len() == 0 {
                None
            } else {
                notify::small_int(told(ls, "ERRNO"@).last())
            }
        }),
    decreases ls.len(),
{
    spelling::lemma_notify_word_marks();
    if ls.len() > 0 {
        let before = ls.drop_last();
        a_message_says_what_its_lines_say(before);
        match text::split_at_first(ls.last(), '=') {
            Some((k, v)) => {
                lemma_one_more(told(before, k), v, "1"@);
            },
            None => {},
        }
    }
}

proof fn lemma_one_more(s: Seq<Seq<char>>, v: Seq<char>, x: Seq<char>)
    ensures
        s.push(v).contains(x) <==> s.contains(x) || v == x,
{
    assert(s.push(v)[s.len() as int] == v);
    if s.contains(x) {
        let i = choose|i: int| 0 <= i < s.len() && s[i] == x;
        assert(s.push(v)[i] == x);
    }
    if s.push(v).contains(x) && v != x {
        let i = choose|i: int| 0 <= i < s.push(v).len() && s.push(v)[i] == x;
        assert(s[i] == x);
    }
}

// ---------------------------------------------------------------------
// Sockets
// ---------------------------------------------------------------------

/// A port alone is bound on both families, and on the sixth without the fourth;
/// other addresses are bound once. Datagrams have no queue, and only paths carry a
/// mode and are removed.
pub proof fn addresses_are_bound_as_given(
    p: u16,
    path: Seq<char>,
    a: InetView,
    t: SockType,
    o: BindOptions,
)
    ensures
        !(t is SeqPacket) ==> {
            let r = socket::addr_listeners(AddrView::Port(p), t, o);
            &&& r is Ok && r->Ok_0.len() == 2
            &&& r->Ok_0[0].bind matches BindView::Inet { addr, sock_type, backlog, v6_only } && addr
                == (InetView::V4 { octets: (0, 0, 0, 0), port: p }) && sock_type == t && !v6_only
                && (backlog is None <==> t is Datagram) && (backlog is Some ==> backlog == Some(
                o.backlog,
            ))
            &&& r->Ok_0[1].bind matches BindView::Inet { addr, sock_type, backlog, v6_only } && (addr
                matches InetView::V6 { segments, port, scope_id } && port == p && scope_id == 0
                && segments.len() == 8 && forall|i: int| 0 <= i < 8 ==> segments[i] == 0)
                && sock_type == t && v6_only && (backlog is None <==> t is Datagram)
        },
        !(t is SeqPacket) ==> {
            let r = socket::addr_listeners(AddrView::Inet(a), t, o);
            &&& r is Ok && r->Ok_0.len() == 1
            &&& r->Ok_0[0].bind matches BindView::Inet { addr, sock_type, backlog, v6_only } && addr
                == a && sock_type == t && !v6_only
            &&& r->Ok_0[0].remove_on_stop is None
        },
        ({
            let r = socket::addr_listeners(AddrView::UnixPath(path), t, o);
            &&& r is Ok && r->Ok_0.len() == 1
            &&& r->Ok_0[0].bind matches BindView::Unix { path: q, sock_type, backlog, mode } && q
                == path && sock_type == t && mode == o.mode && (backlog is None <==> t is Datagram)
            &&& r->Ok_0[0].remove_on_stop == if o.remove_on_stop {
                Some(path)
            } else {
                None
            }
            &&& r->Ok_0[0].name == path
        }),
        socket::addr_listeners(AddrView::Port(p), SockType::SeqPacket, o) is Err,
        socket::addr_listeners(AddrView::Inet(a), SockType::SeqPacket, o) is Err,
{
    let r = socket::port_listeners(p, t, o);
    assert(r.len() == 2);
}

/// `ListenStream=`, `ListenDatagram=` and `ListenSequentialPacket=` bind that type of
/// socket; what needs a Linux kernel is refused.
pub proof fn listening_binds_the_type_named(a: AddrView, s: Seq<char>, o: BindOptions)
    ensures
        socket::listeners_of(ListenView::Stream(a), o) == socket::addr_listeners(
            a,
            SockType::Stream,
            o,
        ),
        socket::listeners_of(ListenView::Datagram(a), o) == socket::addr_listeners(
            a,
            SockType::Datagram,
            o,
        ),
        socket::listeners_of(ListenView::SequentialPacket(a), o) == socket::addr_listeners(
            a,
            SockType::SeqPacket,
            o,
        ),
        socket::listeners_of(ListenView::Netlink(s), o) is Err,
        socket::listeners_of(ListenView::MessageQueue(s), o) is Err,
        socket::listeners_of(ListenView::UsbFunction(s), o) is Err,
        socket::listeners_of(ListenView::Fifo(s), o) matches Ok(ls) && ls.len() == 1 && (
        ls[0].bind matches BindView::Fifo { path, mode } && path == s && mode == match o.mode {
            Some(m) => m,
            None => 0o660,
        }),
{
}

/// The queue of a socket is that of `Backlog=`, or 128 where it gives none; its mode
/// and whether it goes are its own.
pub proof fn binding_options_are_those_of_the_unit(u: SocketView)
    ensures
        socket::options_of(u).backlog == if u.backlog > 0 {
            u.backlog
        } else {
            128
        },
        socket::options_of(u).mode == u.socket_mode,
        socket::options_of(u).remove_on_stop == u.remove_on_stop,
{
}

/// A service is told how many descriptors it gets and their names, with colons
/// between them; with none it is told nothing.
pub proof fn descriptors_are_announced(names: Seq<Seq<char>>)
    ensures
        names.len() == 0 ==> socket::fd_environment(names).len() == 0,
        names.len() > 0 ==> {
            let ps = socket::fd_environment(names);
            &&& ps.len() == 2
            &&& ps[0].0 == "LISTEN_FDS"@ && number::uint_of(ps[0].1, 10, names.len()) == Ok::<
                nat,
                number::IntError,
            >(names.len())
            &&& ps[1].0 == "LISTEN_FDNAMES"@
        },
        names.len() > 0 && (forall|i: int, j: int|
            0 <= i < names.len() && 0 <= j < names[i].len() ==> #[trigger] names[i][j] != ':')
            ==> text::split_parts(socket::fd_environment(names)[1].1, ':') == names,
{
    number::decimal_reads_back(names.len(), names.len());
    if names.len() > 0 && (forall|i: int, j: int|
        0 <= i < names.len() && 0 <= j < names[i].len() ==> #[trigger] names[i][j] != ':') {
        reveal_strlit(":");
        lemma_joined_back(names);
    }
}

proof fn lemma_parts_grow(s: Seq<char>, w: Seq<char>, c: char)
    requires
        forall|j: int| 0 <= j < w.len() ==> #[trigger] w[j] != c,
    ensures
        text::split_parts(s + seq![c] + w, c) == text::split_parts(s, c).push(w),
    decreases s.len(),
{
    let t = s + seq![c] + w;
    let i = text::first_index(s, c);
    text::lemma_first_index(s, c);
    if i < s.len() {
        assert(t[i] == c);
        assert forall|j: int| 0 <= j < i implies t[j] != c by {
            assert(t[j] == s[j]);
        }
        text::lemma_first_index_is(t, c, i);
        assert(t.take(i) =~= s.take(i));
        assert(t.skip(i + 1) =~= s.skip(i + 1) + seq![c] + w);
        lemma_parts_grow(s.skip(i + 1), w, c);
        assert(seq![s.take(i)] + text::split_parts(s.skip(i + 1), c).push(w) =~= (seq![s.take(i)]
            + text::split_parts(s.skip(i + 1), c)).push(w));
    } else {
        let n = s.len() as int;
        assert(t[n] == c);
        assert forall|j: int| 0 <= j < n implies t[j] != c by {
            assert(t[j] == s[j]);
        }
        text::lemma_first_index_is(t, c, n);
        assert(t.take(n) =~= s);
        assert(t.skip(n + 1) =~= w);
        text::lemma_first_index_is(w, c, w.len() as int);
        assert(text::split_parts(w, c) == seq![w]);
        assert(text::split_parts(s, c) == seq![s]);
        assert(text::split_parts(t, c) == seq![s] + seq![w]);
        assert(seq![s] + seq![w] =~= seq![s].push(w));
    }
}

proof fn lemma_joined_back(names: Seq<Seq<char>>)
    requires
        names.len() > 0,
        forall|i: int, j: int|
            0 <= i < names.len() && 0 <= j < names[i].len() ==> #[trigger] names[i][j] != ':',
    ensures
        text::split_parts(text::joined_by(names, ":"@), ':') == names,
    decreases names.len(),
{
    reveal_strlit(":");
    let w = names.last();
    assert forall|j: int| 0 <= j < w.len() implies #[trigger] w[j] != ':' by {
        assert(names[names.len() - 1][j] != ':');
    }
    if names.len() == 1 {
        text::lemma_first_index_is(w, ':', w.len() as int);
        assert(names =~= seq![w]);
    } else {
        let before = names.drop_last();
        assert forall|i: int, j: int| 0 <= i < before.len() && 0 <= j < before[i].len() implies
            #[trigger] before[i][j] != ':' by {
            assert(names[i][j] != ':');
        }
        lemma_joined_back(before);
        assert(":"@ =~= seq![':']);
        lemma_parts_grow(text::joined_by(before, ":"@), w, ':');
        assert(names =~= before.push(w));
    }
}

// ---------------------------------------------------------------------
// Watches
// ---------------------------------------------------------------------

/// A glob is probed before and behind its star, and without one as a plain path; a
/// directory is probed for what is in it, and every other path for being there.
pub proof fn watches_probe_what_they_name(a: Seq<char>, b: Seq<char>, p: Seq<char>)
    requires
        forall|i: int| 0 <= i < a.len() ==> #[trigger] a[i] != '*',
    ensures
        path::probe_of(WatchView::ExistsGlob(a + seq!['*'] + b)) == (ProbeView::Glob {
            prefix: a,
            suffix: b,
        }),
        path::probe_of(WatchView::ExistsGlob(a)) == ProbeView::Exists(a),
        path::probe_of(WatchView::Exists(p)) == ProbeView::Exists(p),
        path::probe_of(WatchView::Changed(p)) == ProbeView::Exists(p),
        path::probe_of(WatchView::Modified(p)) == ProbeView::Exists(p),
        path::probe_of(WatchView::DirectoryNotEmpty(p)) == ProbeView::NotEmpty(p),
{
    let s = a + seq!['*'] + b;
    let n = a.len() as int;
    assert(s[n] == '*');
    assert forall|j: int| 0 <= j < n implies s[j] != '*' by {
        assert(s[j] == a[j]);
    }
    text::lemma_first_index_is(s, '*', n);
    assert(s.take(n) =~= a);
    assert(s.skip(n + 1) =~= b);
    text::lemma_first_index_is(a, '*', n);
}

/// The limit on triggers is that of the unit: 200 triggers where it gives no number,
/// two seconds where it gives a number but no time, and none where it gives neither.
pub proof fn the_limit_is_that_of_the_unit(p: PathView)
    ensures
        ({
            let l = path::limiter_of(p);
            &&& p.trigger_limit_burst matches Some(b) ==> l.burst == b
            &&& p.trigger_limit_burst is None ==> l.burst == 200
            &&& p.trigger_limit_interval_sec matches Some(SdDuration::Finite(d)) ==> l.interval
                == Some(d)
            &&& p.trigger_limit_interval_sec is None && p.trigger_limit_burst is Some
                ==> l.interval == Some(TimeSpan { secs: 2, nanos: 0 })
            &&& l.interval is None <==> p.trigger_limit_interval_sec is None
                && p.trigger_limit_burst is None
            &&& l.count == 0 && l.window_started is None
        }),
{
}

/// Once the window is over the next trigger is allowed and opens a new one.
pub proof fn a_new_window_starts_afresh(l: TriggerLimiter, now: TimeSpan, start: TimeSpan)
    requires
        l.interval is Some,
        l.window_started == Some(start),
        now.total() > start.total() + l.interval->Some_0.total(),
    ensures
        path::allows(l, now),
        path::asked(l, now).window_started == Some(now),
        path::asked(l, now).count == 1,
{
}

/// The watch that holds is the first of those that do.
pub proof fn the_first_watch_that_holds(answers: Seq<bool>)
    requires
        answers.contains(true),
    ensures
        0 <= path::first_held(answers) < answers.len(),
        answers[path::first_held(answers)],
        forall|i: int| 0 <= i < path::first_held(answers) ==> !answers[i],
    decreases answers.len(),
{
    let before = answers.drop_last();
    if before.contains(true) {
        the_first_watch_that_holds(before);
        let k = path::first_held(before);
        assert(before[k] == answers[k]);
        assert forall|i: int| 0 <= i < k implies !answers[i] by {
            assert(before[i] == answers[i]);
        }
    } else {
        let j = choose|j: int| 0 <= j < answers.len() && answers[j];
        if j < answers.len() - 1 {
            assert(before[j]);
        }
        assert(answers.last());
        assert forall|i: int| 0 <= i < answers.len() - 1 implies !answers[i] by {
            if answers[i] {
                assert(before[i]);
            }
        }
    }
}

// ---------------------------------------------------------------------
// Timers
// ---------------------------------------------------------------------

/// A span after an instant is due where that is still ahead, just so much later.
pub proof fn a_span_elapses_so_much_later(
    now: DateTimeView,
    from: Option<DateTimeView>,
    d: Option<SdDuration>,
)
    ensures
        timer::elapses(now, from, d) matches Some(x) ==> {
            &&& from is Some
            &&& civil::earlier(now, x)
            &&& d matches Some(SdDuration::Finite(span)) && x == civil::plus(from->Some_0, span)
        },
        from is None || d is None || d == Some(SdDuration::Infinity) ==> timer::elapses(
            now,
            from,
            d,
        ) is None,
{
}

proof fn lemma_earliest_is_one(a: Option<DateTimeView>, b: Option<DateTimeView>)
    ensures
        timer::earliest(a, b) == a || timer::earliest(a, b) == b,
        timer::earliest(a, b) is Some <==> a is Some || b is Some,
{
}

proof fn lemma_calendar_is_one(
    specs: Seq<crate::unit::calendar::CalendarView>,
    base: DateTimeView,
)
    ensures
        timer::next_calendar(specs, base) matches Some(x) ==> exists|i: int|
            0 <= i < specs.len() && schedule::next_after(#[trigger] specs[i], base) == Some(x),
    decreases specs.len(),
{
    if specs.len() > 0 {
        let before = specs.drop_last();
        lemma_calendar_is_one(before, base);
        lemma_earliest_is_one(
            timer::next_calendar(before, base),
            schedule::next_after(specs.last(), base),
        );
        if timer::next_calendar(specs, base) is Some {
            let x = timer::next_calendar(specs, base)->Some_0;
            if timer::next_calendar(before, base) == Some(x) {
                let i = choose|i: int|
                    0 <= i < before.len() && schedule::next_after(#[trigger] before[i], base)
                        == Some(x);
                assert(specs[i] == before[i]);
            } else {
                assert(schedule::next_after(specs[specs.len() - 1], base) == Some(x));
            }
        }
    }
}

/// A timer fires next at one of the instants that its own triggers give, each
/// counted from what it names.
pub proof fn a_timer_fires_at_a_trigger_of_its_own(c: TimerClock, t: TimerView)
    ensures
        timer::next_of(c, t) matches Some(x) ==> {
            let now = c.now@;
            let base = schedule::baseline(now, civil::opt_instant(c.last_fire));
            ||| exists|i: int|
                0 <= i < t.on_calendar.len() && schedule::next_after(
                    #[trigger] t.on_calendar[i],
                    base,
                ) == Some(x)
            ||| timer::elapses(now, civil::opt_instant(c.activated_at), t.on_active_sec) == Some(x)
            ||| timer::elapses(now, Some(c.manager_start@), t.on_startup_sec) == Some(x)
            ||| timer::elapses(now, Some(c.manager_start@), t.on_boot_sec) == Some(x)
            ||| timer::elapses(now, civil::opt_instant(c.last_unit_active), t.on_unit_active_sec)
                == Some(x)
            ||| timer::elapses(
                now,
                civil::opt_instant(c.last_unit_inactive),
                t.on_unit_inactive_sec,
            ) == Some(x)
        },
{
    let base = schedule::baseline(c.now@, civil::opt_instant(c.last_fire));
    lemma_calendar_is_one(t.on_calendar, base);
}

/// The next deadline is that of an active timer, and no active timer has an earlier
/// one; there is one just where an active timer has one.
pub proof fn the_next_deadline_is_the_earliest(ts: Seq<ScheduledView>)
    ensures
        timer::next_deadline(ts) is Some <==> exists|i: int|
            0 <= i < ts.len() && (#[trigger] ts[i]).active is Active && ts[i].next is Some,
        timer::next_deadline(ts) matches Some((at, n)) ==> exists|i: int|
            0 <= i < ts.len() && (#[trigger] ts[i]).active is Active && ts[i].next == Some(at)
                && ts[i].name == n,
        timer::next_deadline(ts) matches Some((at, n)) ==> forall|i: int|
            0 <= i < ts.len() && (#[trigger] ts[i]).active is Active && ts[i].next is Some
                ==> !civil::earlier(ts[i].next->Some_0, at),
    decreases ts.len(),
{
    if ts.len() > 0 {
        let before = ts.drop_last();
        the_next_deadline_is_the_earliest(before);
        let best = timer::next_deadline(before);
        let k = ts.len() - 1;
        assert(ts[k] == ts.last());
        assert forall|i: int| 0 <= i < k implies #[trigger] ts[i] == before[i] by {}
        if best is Some {
            let at = best->Some_0.0;
            let n = best->Some_0.1;
            let i = choose|i: int|
                0 <= i < before.len() && (#[trigger] before[i]).active is Active && before[i].next
                    == Some(at) && before[i].name == n;
            assert(ts[i] == before[i]);
        }
        if exists|i: int|
            0 <= i < ts.len() && (#[trigger] ts[i]).active is Active && ts[i].next is Some {
            let i = choose|i: int|
                0 <= i < ts.len() && (#[trigger] ts[i]).active is Active && ts[i].next is Some;
            if i < k {
                assert(before[i].active is Active);
            }
        }
    }
}

/// A timer without `Unit=` starts the service of its own name.
pub proof fn a_timer_starts_its_namesake(n: NameView, u: NameView)
    ensures
        timer::linked_unit(n, Some(u)) == u,
        timer::linked_unit(n, None).kind is Service,
        timer::linked_unit(n, None) == (NameView { kind: UnitKind::Service, ..n }),
{
}

/// What is remembered of who triggered a unit is found again, is the last that was
/// said, and touches no other unit.
pub proof fn triggers_read_back(t: TriggersView, n: NameView, x: NameView, m: NameView)
    requires
        t.units.len() == t.timers.len(),
        t.units.no_duplicates(),
    ensures
        timer::trigger_of(timer::with_trigger(t, n, x), n) == Some(x),
        m != n ==> timer::trigger_of(timer::with_trigger(t, n, x), m) == timer::trigger_of(t, m),
        timer::trigger_of(timer::without_trigger(t, n), n) is None,
{
    let w = timer::with_trigger(t, n, x);
    if t.units.contains(n) {
        let i = t.units.index_of(n);
        if t.units.contains(m) && m != n {
            let j = t.units.index_of(m);
            assert(t.units[j] == m && t.units[i] == n);
        }
        let r = t.units.remove(i);
        assert forall|j: int| 0 <= j < r.len() implies r[j] != n by {
            if j < i {
                assert(r[j] == t.units[j]);
            } else {
                assert(r[j] == t.units[j + 1]);
            }
        }
    } else {
        let k = t.units.len() as int;
        assert(w.units[k] == n);
        assert(w.units.contains(n));
        let j = w.units.index_of(n);
        assert(w.units[j] == n);
        if j < k {
            assert(t.units[j] == n);
        }
        if m != n {
            if t.units.contains(m) {
                let a = t.units.index_of(m);
                assert(w.units[a] == m);
                let b = w.units.index_of(m);
                assert(w.units[b] == m);
                assert(b < k);
                assert(t.units[b] == m);
            } else if w.units.contains(m) {
                let b = choose|b: int| 0 <= b < w.units.len() && w.units[b] == m;
                assert(b < k);
                assert(t.units[b] == m);
            }
        }
    }
}

// ---------------------------------------------------------------------
// Links
// ---------------------------------------------------------------------

/// Enabling links a unit into the directory of each target that it names, under the
/// ending that its directive stands for, and under each of its other names; nothing
/// else is linked.
pub proof fn enabling_links_what_install_names(
    n: NameView,
    i: InstallView,
    base: Seq<char>,
    source: Seq<char>,
    l: LinkView,
)
    ensures
        install::enable_links(n, i, base, source).contains(l) <==> l.target == source && {
            ||| l.link_name == name::name_text(n) && exists|t: NameView|
                i.wanted_by.contains(t) && l.dir == paths::joined(
                    base,
                    #[trigger] name::name_text(t) + ".wants"@,
                )
            ||| l.link_name == name::name_text(n) && exists|t: NameView|
                i.required_by.contains(t) && l.dir == paths::joined(
                    base,
                    #[trigger] name::name_text(t) + ".requires"@,
                )
            ||| l.link_name == name::name_text(n) && exists|t: NameView|
                i.upheld_by.contains(t) && l.dir == paths::joined(
                    base,
                    #[trigger] name::name_text(t) + ".upholds"@,
                )
            ||| l.dir == base && exists|a: NameView|
                i.alias.contains(a) && l.link_name == #[trigger] name::name_text(a)
        },
{
    let file = name::name_text(n);
    let a = install::target_links(base, i.wanted_by, ".wants"@, file, source);
    let b = install::target_links(base, i.required_by, ".requires"@, file, source);
    let c = install::target_links(base, i.upheld_by, ".upholds"@, file, source);
    let d = install::alias_links(base, i.alias, source);
    lemma_target_links(base, i.wanted_by, ".wants"@, file, source, l);
    lemma_target_links(base, i.required_by, ".requires"@, file, source, l);
    lemma_target_links(base, i.upheld_by, ".upholds"@, file, source, l);
    lemma_alias_links(base, i.alias, source, l);
    lemma_links_join(a, b, l);
    lemma_links_join(a + b, c, l);
    lemma_links_join(a + b + c, d, l);
}

proof fn lemma_links_join(a: Seq<LinkView>, b: Seq<LinkView>, l: LinkView)
    ensures
        (a + b).contains(l) <==> a.contains(l) || b.contains(l),
{
    if a.contains(l) {
        let i = choose|i: int| 0 <= i < a.len() && a[i] == l;
        assert((a + b)[i] == l);
    }
    if b.contains(l) {
        let i = choose|i: int| 0 <= i < b.len() && b[i] == l;
        assert((a + b)[a.len() + i] == l);
    }
    if (a + b).contains(l) {
        let i = choose|i: int| 0 <= i < (a + b).len() && (a + b)[i] == l;
        if i < a.len() {
            assert(a[i] == l);
        } else {
            assert(b[i - a.len()] == l);
        }
    }
}

proof fn lemma_target_links(
    base: Seq<char>,
    ts: Seq<NameView>,
    ending: Seq<char>,
    file: Seq<char>,
    source: Seq<char>,
    l: LinkView,
)
    ensures
        install::target_links(base, ts, ending, file, source).contains(l) <==> l.link_name == file
            && l.target == source && exists|t: NameView|
            ts.contains(t) && l.dir == paths::joined(base, #[trigger] name::name_text(t) + ending),
{
    let s = install::target_links(base, ts, ending, file, source);
    if s.contains(l) {
        let i = choose|i: int| 0 <= i < s.len() && s[i] == l;
        assert(ts.contains(ts[i]));
        assert(l.dir == paths::joined(base, name::name_text(ts[i]) + ending));
    }
    if l.link_name == file && l.target == source && exists|t: NameView|
        ts.contains(t) && l.dir == paths::joined(base, #[trigger] name::name_text(t) + ending) {
        let t = choose|t: NameView|
            ts.contains(t) && l.dir == paths::joined(base, #[trigger] name::name_text(t) + ending);
        let i = choose|i: int| 0 <= i < ts.len() && ts[i] == t;
        assert(s[i] == l);
    }
}

proof fn lemma_alias_links(base: Seq<char>, ts: Seq<NameView>, source: Seq<char>, l: LinkView)
    ensures
        install::alias_links(base, ts, source).contains(l) <==> l.dir == base && l.target == source
            && exists|a: NameView| ts.contains(a) && l.link_name == #[trigger] name::name_text(a),
{
    let s = install::alias_links(base, ts, source);
    if s.contains(l) {
        let i = choose|i: int| 0 <= i < s.len() && s[i] == l;
        assert(ts.contains(ts[i]));
        assert(l.link_name == name::name_text(ts[i]));
    }
    if l.dir == base && l.target == source && exists|a: NameView|
        ts.contains(a) && l.link_name == #[trigger] name::name_text(a) {
        let t = choose|a: NameView|
            ts.contains(a) && l.link_name == #[trigger] name::name_text(a);
        let i = choose|i: int| 0 <= i < ts.len() && ts[i] == t;
        assert(s[i] == l);
    }
}

/// A link is made where there is nothing, and put in the place of what is there only
/// by force; what is done is told, and what is left is not.
pub proof fn links_replace_only_by_force(c: EnableView, l: LinkView, occupied: bool, force: bool)
    ensures
        install::link_action(occupied, force) is Create <==> !occupied,
        install::link_action(occupied, force) is Replace <==> occupied && force,
        install::link_action(occupied, force) is Keep <==> occupied && !force,
        occupied && !force ==> install::after_link(c, l, occupied, force).changes == c.changes,
        !occupied || force ==> install::after_link(c, l, occupied, force).changes
            == c.changes.push(
            ChangeView {
                change_type: "symlink"@,
                target: paths::joined(l.dir, l.link_name),
                source: l.target,
            },
        ),
{
}

/// What the state of a unit file says: masked where the unit's own link leads to
/// `/dev/null`, linked where it leads out of the search path, enabled where some
/// target links it; else it is disabled where it could be enabled, and static where
/// not.
pub proof fn file_states_mean_what_they_say(
    own: Option<Seq<char>>,
    dirs: Seq<Seq<char>>,
    has_link: bool,
    has_fragment: bool,
    i: Option<InstallView>,
)
    ensures
        ({
            let s = install::file_state(own, dirs, has_link, has_fragment, i);
            let masked = own == Some("/dev/null"@);
            let out = own is Some && !install::in_search_path(own->Some_0, dirs);
            let installs = i is Some && (i->Some_0.wanted_by.len() > 0
                || i->Some_0.required_by.len() > 0 || i->Some_0.upheld_by.len() > 0
                || i->Some_0.also.len() > 0 || i->Some_0.alias.len() > 0
                || i->Some_0.default_instance is Some);
            &&& s == "masked"@ <==> masked
            &&& s == "linked"@ <==> !masked && out
            &&& s == "enabled"@ <==> !masked && !out && has_link
            &&& s == "not-found"@ <==> !masked && !out && !has_link && !has_fragment
            &&& s == "disabled"@ <==> !masked && !out && !has_link && has_fragment && installs
            &&& s == "static"@ <==> !masked && !out && !has_link && has_fragment && !installs
        }),
{
    reveal_strlit("masked");
    reveal_strlit("linked");
    reveal_strlit("enabled");
    reveal_strlit("not-found");
    reveal_strlit("disabled");
    reveal_strlit("static");
    assert("masked"@[0] == 'm' && "linked"@[0] == 'l' && "enabled"@[0] == 'e' && "not-found"@[0]
        == 'n' && "disabled"@[0] == 'd' && "static"@[0] == 's');
}

// ---------------------------------------------------------------------
// Addresses and instants
// ---------------------------------------------------------------------

proof fn lemma_octet(n: u8)
    ensures
        inet::octet_of(number::decimal(n as nat)) == Some(n),
        recurrence::is_free(number::decimal(n as nat), '.'),
        recurrence::is_free(number::decimal(n as nat), ':'),
{
    let x = number::decimal(n as nat);
    number::decimal_reads_back(n as nat, 255);
    number::lemma_decimal_digits(n as nat);
    reveal_with_fuel(number::decimal, 4);
    assert(number::digit_in(x[0], 10));
    assert forall|i: int| 0 <= i < x.len() implies #[trigger] x[i] != '.' && x[i] != ':' by {
        assert(number::digit_in(x[i], 10));
    }
}

proof fn lemma_dotted(a: Seq<char>, b: Seq<char>, c: Seq<char>, d: Seq<char>, s: Seq<char>)
    requires
        recurrence::is_free(a, '.') && recurrence::is_free(a, ':'),
        recurrence::is_free(b, '.') && recurrence::is_free(b, ':'),
        recurrence::is_free(c, '.') && recurrence::is_free(c, ':'),
        recurrence::is_free(d, '.') && recurrence::is_free(d, ':'),
        s == a + "."@ + b + "."@ + c + "."@ + d,
    ensures
        text::split_parts(s, '.') == seq![a, b, c, d],
        recurrence::is_free(s, ':'),
{
    reveal_strlit(".");
    let cd = recurrence::joined(c, '.', d);
    let bcd = recurrence::joined(b, '.', cd);
    assert(s == recurrence::joined(a, '.', bcd)) by {
        reveal(recurrence::joined);
        assert(s =~= recurrence::joined(a, '.', bcd));
    }
    recurrence::lemma_more_parts(a, '.', bcd);
    recurrence::lemma_more_parts(b, '.', cd);
    recurrence::lemma_more_parts(c, '.', d);
    recurrence::lemma_one_part(d, '.');
    assert(seq![a] + (seq![b] + (seq![c] + seq![d])) =~= seq![a, b, c, d]);
    let (i, j, k) = (a.len() as int, b.len() as int, c.len() as int);
    assert forall|x: int| 0 <= x < s.len() implies #[trigger] s[x] != ':' by {
        if x < i {
            assert(s[x] == a[x]);
        } else if i < x < i + 1 + j {
            assert(s[x] == b[x - i - 1]);
        } else if i + 1 + j < x < i + j + k + 2 {
            assert(s[x] == c[x - i - j - 2]);
        } else if x > i + j + k + 2 {
            assert(s[x] == d[x - i - j - k - 3]);
        }
    }
}

proof fn lemma_port(port: u16)
    ensures
        inet::plain_number(number::decimal(port as nat), 0xffff) == Some(port as nat),
{
    let p = number::decimal(port as nat);
    number::decimal_reads_back(port as nat, 0xffff);
    number::lemma_decimal_digits(port as nat);
    assert(number::digit_in(p[0], 10));
}

/// The text of an address of the fourth version with its port reads back.
#[verifier::spinoff_prover]
#[verifier::rlimit(40)]
pub proof fn v4_endpoints_read_back(o: (u8, u8, u8, u8), port: u16)
    ensures
        inet::inet_of(inet::endpoint_text(InetView::V4 { octets: o, port })) == Some(
            InetView::V4 { octets: o, port },
        ),
{
    let s = inet::octets_text(o);
    let p = number::decimal(port as nat);
    lemma_octet(o.0);
    lemma_octet(o.1);
    lemma_octet(o.2);
    lemma_octet(o.3);
    lemma_port(port);
    lemma_dotted(
        number::decimal(o.0 as nat),
        number::decimal(o.1 as nat),
        number::decimal(o.2 as nat),
        number::decimal(o.3 as nat),
        s,
    );
    let t = s + ":"@ + p;
    assert(t == recurrence::joined(s, ':', p)) by {
        reveal(recurrence::joined);
        reveal_strlit(":");
        assert(t =~= recurrence::joined(s, ':', p));
    }
    recurrence::lemma_more_parts(s, ':', p);
    assert(inet::v4_of(s) == Some(o));
    assert(inet::v4_socket(t) == Some(InetView::V4 { octets: o, port }));
}

/// Calendar events are counted from now, or from the last time the timer fired where
/// that is later.
pub proof fn events_count_from_the_later_instant(now: DateTimeView, last: DateTimeView)
    ensures
        schedule::baseline(now, None) == now,
        schedule::baseline(now, Some(last)) == now || schedule::baseline(now, Some(last)) == last,
        !civil::earlier(schedule::baseline(now, Some(last)), now),
        !civil::earlier(schedule::baseline(now, Some(last)), last),
{
}

/// A unit is installed by a link in a directory that ends in `.wants`, `.requires` or
/// `.upholds`, and by no other.
pub proof fn links_lie_in_directories_of_targets(d: Seq<char>)
    ensures
        install::is_link_dir(d + ".wants"@),
        install::is_link_dir(d + ".requires"@),
        install::is_link_dir(d + ".upholds"@),
        install::is_link_dir(d) ==> text::finishes_with(d, ".wants"@) || text::finishes_with(
            d,
            ".requires"@,
        ) || text::finishes_with(d, ".upholds"@),
{
    lemma_ending(d, ".wants"@);
    lemma_ending(d, ".requires"@);
    lemma_ending(d, ".upholds"@);
}

proof fn lemma_ending(d: Seq<char>, e: Seq<char>)
    ensures
        text::finishes_with(d + e, e),
{
    let s = d + e;
    assert(s.skip(s.len() - e.len()) =~= e);
}

} // verus!
