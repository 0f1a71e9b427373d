//! What the words of values mean.

use crate::number;
use crate::text;
use crate::unit::calendar;
use crate::unit::condition;
use crate::unit::condition::CheckView;
use crate::unit::env;
use crate::unit::service;
use crate::unit::service::{
    ExitStatusView, KillMode, NotifyAccess, RLimit, Restart, ServiceType, StreamView,
};
use crate::unit::socket;
use crate::unit::socket::{AddrView, BindIPv6Only};
use crate::unit::spelling;
use vstd::prelude::*;

verus! {

// ---------------------------------------------------------------------
// Choices
// ---------------------------------------------------------------------

/// The word for a type of service.
pub open spec fn type_word(t: ServiceType) -> Seq<char> {
    match t {
        ServiceType::Simple => "simple"@,
        ServiceType::Exec => "exec"@,
        ServiceType::Forking => "forking"@,
        ServiceType::Oneshot => "oneshot"@,
        ServiceType::Notify => "notify"@,
        ServiceType::NotifyReload => "notify-reload"@,
        ServiceType::Dbus => "dbus"@,
        ServiceType::Idle => "idle"@,
    }
}

/// `Type=` reads the word for a type, and no other, as that type.
pub proof fn types_are_read_by_their_words(s: Seq<char>, t: ServiceType)
    ensures
        service::service_type_of(s) == Ok::<ServiceType, Seq<char>>(t) <==> s == type_word(t),
{
    spelling::lemma_type_word_marks();
}

/// The word for a restart policy.
pub open spec fn restart_word(r: Restart) -> Seq<char> {
    match r {
        Restart::No => "no"@,
        Restart::Always => "always"@,
        Restart::OnSuccess => "on-success"@,
        Restart::OnFailure => "on-failure"@,
        Restart::OnAbnormal => "on-abnormal"@,
        Restart::OnWatchdog => "on-watchdog"@,
        Restart::OnAbort => "on-abort"@,
    }
}

/// `Restart=` reads the word for a policy, and no other, as that policy.
pub proof fn restarts_are_read_by_their_words(s: Seq<char>, r: Restart)
    ensures
        service::restart_of(s) == Ok::<Restart, Seq<char>>(r) <==> s == restart_word(r),
{
    spelling::lemma_restart_word_marks();
}

/// The word for who may notify.
pub open spec fn access_word(a: NotifyAccess) -> Seq<char> {
    match a {
        NotifyAccess::Nobody => "none"@,
        NotifyAccess::Main => "main"@,
        NotifyAccess::Exec => "exec"@,
        NotifyAccess::All => "all"@,
    }
}

/// `NotifyAccess=` reads the word for each choice, and no other, as that choice.
pub proof fn accesses_are_read_by_their_words(s: Seq<char>, a: NotifyAccess)
    ensures
        service::notify_access_of(s) == Ok::<NotifyAccess, Seq<char>>(a) <==> s == access_word(a),
{
    spelling::lemma_access_word_marks();
}

/// The word for whom to kill.
pub open spec fn kill_word(k: KillMode) -> Seq<char> {
    match k {
        KillMode::ControlGroup => "control-group"@,
        KillMode::Process => "process"@,
        KillMode::Mixed => "mixed"@,
        KillMode::Nothing => "none"@,
    }
}

/// `KillMode=` reads the word for each choice, and no other, as that choice, but
/// `cgroup` is short for `control-group`.
pub proof fn kill_modes_are_read_by_their_words(s: Seq<char>, k: KillMode)
    ensures
        service::kill_mode_of(s) == Ok::<KillMode, Seq<char>>(k) <==> s == kill_word(k) || (s
            == "cgroup"@ && k is ControlGroup),
{
    spelling::lemma_kill_mode_word_marks();
}

/// The word for how a socket is bound.
pub open spec fn bind_word(b: BindIPv6Only) -> Seq<char> {
    match b {
        BindIPv6Only::Default => "default"@,
        BindIPv6Only::Both => "both"@,
        BindIPv6Only::Ipv6Only => "ipv6-only"@,
    }
}

/// `BindIPv6Only=` reads the word for each choice, and no other, as that choice.
pub proof fn bindings_are_read_by_their_words(s: Seq<char>, b: BindIPv6Only)
    ensures
        socket::bind_ipv6_only_of(s) == Ok::<BindIPv6Only, Seq<char>>(b) <==> s == bind_word(b),
{
    spelling::lemma_bind_word_marks();
}

/// A switch is on at `1`, `yes`, `true` and `on`, off at `0`, `no`, `false` and
/// `off`, in any case, and nothing else is one.
pub proof fn switches_are_read_by_their_words(s: Seq<char>)
    ensures
        ({
            let l = text::lowered(s);
            &&& condition::bool_of(s) == Some(true) <==> l == "1"@ || l == "yes"@ || l == "true"@
                || l == "on"@
            &&& condition::bool_of(s) == Some(false) <==> l == "0"@ || l == "no"@ || l == "false"@
                || l == "off"@
        }),
{
    spelling::lemma_switch_word_marks();
}

/// Lower case touches the letters from `A` to `Z` alone, one by one.
pub proof fn lower_case_letter_by_letter(s: Seq<char>, i: int)
    requires
        0 <= i < s.len(),
    ensures
        text::lowered(s).len() == s.len(),
        65 <= s[i] as u32 <= 90 ==> text::lowered(s)[i] as u32 == s[i] as u32 + 32,
        !(65 <= s[i] as u32 <= 90) ==> text::lowered(s)[i] == s[i],
        text::lowered(text::lowered(s)) =~= text::lowered(s),
{
}

/// The days of the week are Monday to Sunday, from 1 to 7.
pub proof fn days_count_from_monday()
    ensures
        calendar::weekday_of("Mon"@) == Ok::<u32, Seq<char>>(1),
        calendar::weekday_of("Tue"@) == Ok::<u32, Seq<char>>(2),
        calendar::weekday_of("Wed"@) == Ok::<u32, Seq<char>>(3),
        calendar::weekday_of("Thu"@) == Ok::<u32, Seq<char>>(4),
        calendar::weekday_of("Fri"@) == Ok::<u32, Seq<char>>(5),
        calendar::weekday_of("Sat"@) == Ok::<u32, Seq<char>>(6),
        calendar::weekday_of("Sun"@) == Ok::<u32, Seq<char>>(7),
{
    spelling::lemma_day_word_marks();
}

// ---------------------------------------------------------------------
// Conditions
// ---------------------------------------------------------------------

/// Each kind of condition is the one that its name says, of the value it has; two
/// want a switch, and any other name is kept with its value.
pub proof fn conditions_are_of_the_kind_named(v: Seq<char>)
    ensures
        condition::check_of("PathExists"@, v) == Ok::<CheckView, Seq<char>>(
            CheckView::PathExists(v),
        ),
        condition::check_of("PathExistsGlob"@, v) == Ok::<CheckView, Seq<char>>(
            CheckView::PathExistsGlob(v),
        ),
        condition::check_of("PathIsDirectory"@, v) == Ok::<CheckView, Seq<char>>(
            CheckView::PathIsDirectory(v),
        ),
        condition::check_of("PathIsSymbolicLink"@, v) == Ok::<CheckView, Seq<char>>(
            CheckView::PathIsSymbolicLink(v),
        ),
        condition::check_of("PathIsMountPoint"@, v) == Ok::<CheckView, Seq<char>>(
            CheckView::PathIsMountPoint(v),
        ),
        condition::check_of("PathIsReadWrite"@, v) == Ok::<CheckView, Seq<char>>(
            CheckView::PathIsReadWrite(v),
        ),
        condition::check_of("PathIsEncrypted"@, v) == Ok::<CheckView, Seq<char>>(
            CheckView::PathIsEncrypted(v),
        ),
        condition::check_of("DirectoryNotEmpty"@, v) == Ok::<CheckView, Seq<char>>(
            CheckView::DirectoryNotEmpty(v),
        ),
        condition::check_of("FileNotEmpty"@, v) == Ok::<CheckView, Seq<char>>(
            CheckView::FileNotEmpty(v),
        ),
        condition::check_of("FileIsExecutable"@, v) == Ok::<CheckView, Seq<char>>(
            CheckView::FileIsExecutable(v),
        ),
        condition::check_of("User"@, v) == Ok::<CheckView, Seq<char>>(CheckView::User(v)),
        condition::check_of("Group"@, v) == Ok::<CheckView, Seq<char>>(CheckView::Group(v)),
        condition::check_of("Host"@, v) == Ok::<CheckView, Seq<char>>(CheckView::Host(v)),
        condition::check_of("Architecture"@, v) == Ok::<CheckView, Seq<char>>(
            CheckView::Architecture(v),
        ),
        condition::check_of("Virtualization"@, v) == Ok::<CheckView, Seq<char>>(
            CheckView::Virtualization(v),
        ),
        condition::check_of("Environment"@, v) == Ok::<CheckView, Seq<char>>(
            CheckView::Environment(v),
        ),
        condition::check_of("KernelCommandLine"@, v) == Ok::<CheckView, Seq<char>>(
            CheckView::KernelCommandLine(v),
        ),
        condition::check_of("KernelVersion"@, v) == Ok::<CheckView, Seq<char>>(
            CheckView::KernelVersion(v),
        ),
        condition::check_of("NeedsUpdate"@, v) == Ok::<CheckView, Seq<char>>(
            CheckView::NeedsUpdate(v),
        ),
        condition::check_of("Memory"@, v) == Ok::<CheckView, Seq<char>>(CheckView::Memory(v)),
        condition::check_of("CPUs"@, v) == Ok::<CheckView, Seq<char>>(CheckView::Cpus(v)),
        condition::check_of("ControlGroupController"@, v) == Ok::<CheckView, Seq<char>>(
            CheckView::ControlGroupController(v),
        ),
        condition::check_of("Security"@, v) == Ok::<CheckView, Seq<char>>(CheckView::Security(v)),
        condition::check_of("Capability"@, v) == Ok::<CheckView, Seq<char>>(
            CheckView::Capability(v),
        ),
        condition::bool_of(v) matches Some(b) ==> condition::check_of("FirstBoot"@, v) == Ok::<
            CheckView,
            Seq<char>,
        >(CheckView::FirstBoot(b)) && condition::check_of("ACPower"@, v) == Ok::<
            CheckView,
            Seq<char>,
        >(CheckView::AcPower(b)),
        condition::bool_of(v) is None ==> condition::check_of("FirstBoot"@, v) is Err
            && condition::check_of("ACPower"@, v) is Err,
{
    spelling::lemma_check_word_marks();
}

/// A mark before a condition changes just that of it: `!` turns it round, and `|`
/// makes it one of several of which one is enough.
pub proof fn marks_of_a_condition(key: Seq<char>, v: Seq<char>)
    requires
        v.len() > 0,
        text::trimmed(v) == v,
        condition::condition_of(key, v) is Ok,
    ensures
        ({
            let c = condition::condition_of(key, v)->Ok_0;
            let r = condition::condition_of(key, seq!['!'] + v);
            let t = condition::condition_of(key, seq!['|'] + v);
            &&& r matches Ok(x) && x.check == c.check && x.negate == !c.negate && x.trigger
                == c.trigger
            &&& t matches Ok(x) && x.check == c.check && x.negate == c.negate && x.trigger
        }),
        v[0] != '!' && v[0] != '|' ==> {
            let c = condition::condition_of(key, v)->Ok_0;
            !c.negate && !c.trigger && condition::check_of(key, v) == Ok::<CheckView, Seq<char>>(
                c.check,
            )
        },
{
    let (a, b) = (seq!['!'] + v, seq!['|'] + v);
    lemma_ends(v);
    text::lemma_trimmed_same(a);
    text::lemma_trimmed_same(b);
    assert(a.skip(1) =~= v);
    assert(b.skip(1) =~= v);
    lemma_marks(v, false, false, true, false);
    lemma_marks(v, false, false, false, true);
}

proof fn lemma_ends(v: Seq<char>)
    requires
        v.len() > 0,
        text::trimmed(v) == v,
    ensures
        !text::is_space(v[0]),
        !text::is_space(v.last()),
{
    text::lemma_trimmed_ends(v);
    text::lemma_trimmed_ends(text::trimmed_start(v));
    if text::is_space(v[0]) {
        text::lemma_trimmed_ends(v.skip(1));
    }
}

proof fn lemma_marks(v: Seq<char>, n: bool, t: bool, n2: bool, t2: bool)
    ensures
        ({
            let a = condition::condition_marks(v, n, t);
            let b = condition::condition_marks(v, n ^ n2, t || t2);
            &&& b.0 == a.0 ^ n2
            &&& b.1 == (a.1 || t2)
            &&& b.2 == a.2
        }),
    decreases v.len(),
{
    if v.len() > 0 && (v[0] == '|' || v[0] == '!') {
        text::lemma_trimmed_ends(v.skip(1));
        text::lemma_trimmed_ends(text::trimmed_start(v.skip(1)));
        let w = text::trimmed(v.skip(1));
        if v[0] == '|' {
            lemma_marks(w, n, true, n2, t2);
        } else {
            lemma_marks(w, !n, t, n2, t2);
        }
    }
}

// ---------------------------------------------------------------------
// Streams, statuses and limits
// ---------------------------------------------------------------------

/// A stream with a colon goes where the word before it says, to just what stands
/// behind it.
pub proof fn streams_go_where_they_say(p: Seq<char>)
    ensures
        service::stream_of("file:"@ + p) == Ok::<StreamView, Seq<char>>(StreamView::File(p)),
        service::stream_of("append:"@ + p) == Ok::<StreamView, Seq<char>>(StreamView::Append(p)),
        service::stream_of("truncate:"@ + p) == Ok::<StreamView, Seq<char>>(
            StreamView::Truncate(p),
        ),
        service::stream_of("fd:"@ + p) == Ok::<StreamView, Seq<char>>(StreamView::Fd(p)),
        service::stream_of("journal"@ + p) == Ok::<StreamView, Seq<char>>(
            StreamView::Journal("journal"@ + p),
        ),
        service::stream_of("kmsg"@ + p) == Ok::<StreamView, Seq<char>>(
            StreamView::LinuxOnly("kmsg"@ + p),
        ),
        service::stream_of("syslog"@ + p) == Ok::<StreamView, Seq<char>>(
            StreamView::LinuxOnly("syslog"@ + p),
        ),
        service::stream_of("inherit"@) == Ok::<StreamView, Seq<char>>(StreamView::Inherit),
        service::stream_of("null"@) == Ok::<StreamView, Seq<char>>(StreamView::Null),
        service::stream_of("tty"@) == Ok::<StreamView, Seq<char>>(StreamView::Tty),
        service::stream_of("socket"@) == Ok::<StreamView, Seq<char>>(StreamView::Socket),
{
    lemma_stream_heads("file:"@ + p);
    lemma_stream_heads("append:"@ + p);
    lemma_stream_heads("truncate:"@ + p);
    lemma_stream_heads("fd:"@ + p);
    lemma_stream_heads("journal"@ + p);
    lemma_stream_heads("kmsg"@ + p);
    lemma_stream_heads("syslog"@ + p);
    lemma_stream_heads("inherit"@);
    lemma_stream_heads("null"@);
    lemma_stream_heads("tty"@);
    lemma_stream_heads("socket"@);
    lemma_cut("file:"@, p);
    lemma_cut("append:"@, p);
    lemma_cut("truncate:"@, p);
    lemma_cut("fd:"@, p);
    lemma_cut("journal"@, p);
    lemma_cut("kmsg"@, p);
    lemma_cut("syslog"@, p);
    reveal_strlit("file:");
    reveal_strlit("append:");
    reveal_strlit("truncate:");
    reveal_strlit("fd:");
    reveal_strlit("journal");
    reveal_strlit("kmsg");
    reveal_strlit("syslog");
    reveal_strlit("inherit");
    reveal_strlit("null");
    reveal_strlit("tty");
    reveal_strlit("socket");
}

proof fn lemma_cut(a: Seq<char>, p: Seq<char>)
    ensures
        text::begins_with(a + p, a),
        (a + p).skip(a.len() as int) == p,
{
    assert((a + p).take(a.len() as int) =~= a);
    assert((a + p).skip(a.len() as int) =~= p);
}

proof fn lemma_stream_heads(s: Seq<char>)
    ensures
        text::begins_with(s, "file:"@) ==> s[0] == 'f' && s[1] == 'i',
        text::begins_with(s, "append:"@) ==> s[0] == 'a',
        text::begins_with(s, "truncate:"@) ==> s[0] == 't' && s[1] == 'r',
        text::begins_with(s, "fd:"@) ==> s[0] == 'f' && s[1] == 'd',
        text::begins_with(s, "journal"@) ==> s[0] == 'j',
        text::begins_with(s, "kmsg"@) ==> s[0] == 'k',
        text::begins_with(s, "syslog"@) ==> s[0] == 's' && s[1] == 'y',
        s == "inherit"@ ==> s[0] == 'i',
        s == "null"@ ==> s[0] == 'n',
        s == "tty"@ ==> s[0] == 't' && s[1] == 't',
        s == "socket"@ ==> s[0] == 's' && s[1] == 'o',
{
    reveal_strlit("file:");
    reveal_strlit("append:");
    reveal_strlit("truncate:");
    reveal_strlit("fd:");
    reveal_strlit("journal");
    reveal_strlit("kmsg");
    reveal_strlit("syslog");
    reveal_strlit("inherit");
    reveal_strlit("null");
    reveal_strlit("tty");
    reveal_strlit("socket");
    assert(forall|n: int| 2 <= n <= s.len() ==> (#[trigger] s.take(n))[0] == s[0] && s.take(n)[1]
        == s[1]);
}

/// An exit status is a code of one byte, or the name of a signal.
pub proof fn statuses_are_codes_or_signals(c: u8, p: Seq<char>)
    ensures
        service::exit_status_of(number::decimal(c as nat)) == Ok::<ExitStatusView, Seq<char>>(
            ExitStatusView::Code(c),
        ),
        service::exit_status_of("SIG"@ + p) == Ok::<ExitStatusView, Seq<char>>(
            ExitStatusView::Signal("SIG"@ + p),
        ),
{
    number::decimal_reads_back(c as nat, 0xff);
    lemma_cut("SIG"@, p);
    reveal_strlit("SIG");
    let s = "SIG"@ + p;
    assert(s[0] == 'S');
    number::lemma_digits_run(s, 10);
}

/// A resource limit is one number for both bounds, or a soft and a hard one with
/// a colon between them; `infinity`, in any case, is no limit.
pub proof fn limits_are_soft_and_hard(a: u64, b: u64, w: Seq<char>)
    requires
        text::lowered(w) == "infinity"@,
    ensures
        service::rlimit_of(number::decimal(a as nat)) == Ok::<RLimit, Seq<char>>(
            RLimit { soft: Some(a), hard: Some(a) },
        ),
        service::rlimit_of(number::decimal(a as nat) + seq![':'] + number::decimal(b as nat)) == Ok::<
            RLimit,
            Seq<char>,
        >(RLimit { soft: Some(a), hard: Some(b) }),
        service::rlimit_of(number::decimal(a as nat) + seq![':'] + w) == Ok::<RLimit, Seq<char>>(
            RLimit { soft: Some(a), hard: None },
        ),
        service::rlimit_of(w) == Ok::<RLimit, Seq<char>>(RLimit { soft: None, hard: None }),
{
    let (x, y) = (number::decimal(a as nat), number::decimal(b as nat));
    lemma_one_limit(a);
    lemma_one_limit(b);
    lemma_two(x, y);
    lemma_two(x, w);
    text::lemma_first_index_is(x, ':', x.len() as int);
    reveal_strlit("infinity");
    let l = "infinity"@;
    assert(l.len() == 8 && l[0] == 'i' && l[1] == 'n' && l[2] == 'f' && l[3] == 'i' && l[4] == 'n'
        && l[5] == 'i' && l[6] == 't' && l[7] == 'y');
    assert forall|i: int| 0 <= i < w.len() implies w[i] != ':' by {
        assert(text::lowered(w)[i] == text::lower_char(w[i]));
        assert(text::lowered(w)[i] != ':');
    }
    text::lemma_first_index_is(w, ':', w.len() as int);
}

proof fn lemma_two(x: Seq<char>, y: Seq<char>)
    requires
        forall|i: int| 0 <= i < x.len() ==> #[trigger] x[i] != ':',
    ensures
        text::split_at_first(x + seq![':'] + y, ':') == Some((x, y)),
{
    let s = x + seq![':'] + y;
    assert forall|j: int| 0 <= j < x.len() implies s[j] != ':' by {
        assert(s[j] == x[j]);
    }
    text::lemma_first_index_is(s, ':', x.len() as int);
    assert(s.take(x.len() as int) =~= x);
    assert(s.skip(x.len() as int + 1) =~= y);
}

proof fn lemma_one_limit(a: u64)
    ensures
        service::one_limit(number::decimal(a as nat)) == Ok::<Option<u64>, Seq<char>>(Some(a)),
        forall|i: int|
            0 <= i < number::decimal(a as nat).len() ==> #[trigger] number::decimal(a as nat)[i]
                != ':',
{
    let x = number::decimal(a as nat);
    number::decimal_reads_back(a as nat, 0xffff_ffff_ffff_ffff);
    number::lemma_decimal_digits(a as nat);
    reveal_strlit("infinity");
    assert(number::digit_in(x[0], 10));
    assert(text::lowered(x)[0] == text::lower_char(x[0]));
    assert("infinity"@[0] == 'i');
    assert forall|i: int| 0 <= i < x.len() implies #[trigger] x[i] != ':' by {
        assert(number::digit_in(x[i], 10));
    }
}

/// An address to listen on is a port where it is a number, a path where it begins
/// with a slash, and an abstract name behind `@`.
pub proof fn addresses_are_told_by_their_start(n: u16, p: Seq<char>)
    requires
        p.len() > 0,
        !text::is_space(p.last()),
    ensures
        socket::addr_of(number::decimal(n as nat)) == Ok::<AddrView, Seq<char>>(AddrView::Port(n)),
        socket::addr_of(seq!['/'] + p) == Ok::<AddrView, Seq<char>>(
            AddrView::UnixPath(seq!['/'] + p),
        ),
        socket::addr_of(seq!['@'] + p) == Ok::<AddrView, Seq<char>>(AddrView::UnixAbstract(p)),
        socket::addr_of("vsock:"@ + p) == Ok::<AddrView, Seq<char>>(AddrView::Vsock(p)),
{
    let d = number::decimal(n as nat);
    number::decimal_reads_back(n as nat, 0xffff);
    number::lemma_decimal_digits(n as nat);
    assert(number::digit_in(d[0], 10) && number::digit_in(d[d.len() - 1], 10));
    text::lemma_trimmed_same(d);
    reveal_strlit("/");
    reveal_strlit("@");
    reveal_strlit("vsock:");
    let (a, b, c) = (seq!['/'] + p, seq!['@'] + p, "vsock:"@ + p);
    text::lemma_trimmed_same(a);
    text::lemma_trimmed_same(b);
    text::lemma_trimmed_same(c);
    number::lemma_digits_run(a, 10);
    number::lemma_digits_run(b, 10);
    number::lemma_digits_run(c, 10);
    assert(seq!['/'] =~= "/"@);
    assert(seq!['@'] =~= "@"@);
    lemma_cut("/"@, p);
    lemma_cut("@"@, p);
    lemma_cut("vsock:"@, p);
    assert(forall|s: Seq<char>, n: int| 1 <= n <= s.len() ==> (#[trigger] s.take(n))[0] == s[0]);
}

/// An environment file behind a `-` may be missing; any other may not.
pub proof fn a_dash_makes_a_file_optional(p: Seq<char>)
    requires
        p.len() > 0,
        !text::is_space(p[0]),
        !text::is_space(p.last()),
        p[0] != '-',
    ensures
        ({
            let f = env::environment_file_of(p);
            f.path == p && !f.optional
        }),
        ({
            let f = env::environment_file_of(seq!['-'] + p);
            f.path == p && f.optional
        }),
{
    reveal_strlit("-");
    let a = seq!['-'] + p;
    text::lemma_trimmed_same(p);
    text::lemma_trimmed_same(a);
    assert(seq!['-'] =~= "-"@);
    lemma_cut("-"@, p);
    assert(p.take(1)[0] == p[0]);
}

} // verus!
