//! The parser of the `[Service]` section.

use crate::number;
use crate::number::{parse_i32, parse_octal, parse_u32};
use crate::text;
use crate::text::{chars_of, same};
use crate::unit::condition;
use crate::unit::condition::parse_bool;
use crate::unit::duration;
use crate::unit::duration::{parse_duration, SdDuration, TimeSpan};
use crate::unit::env;
use crate::unit::env::{parse_environment_line, EnvironmentFile};
use crate::unit::error;
use crate::unit::error::{ParseError, ParseErrorView, ParseWarning, ParseWarningView};
use crate::unit::exec;
use crate::unit::exec::ExecCommand;
use crate::unit::ini;
use crate::unit::ini::{Entry, EntryView, Ini};
use crate::unit::linux_only;
use crate::unit::linux_only::{is_known_passthrough, is_linux_only};
use crate::unit::service;
use crate::unit::service::{
    ExitStatus, ExitStatusView, KillMode, NotifyAccess, RLimit, Restart, ServiceType, ServiceUnit,
    ServiceView, StandardStream,
};
use crate::unit::values;
use crate::unit::values::{bad, parse_list};
use vstd::prelude::*;
use vstd::slice::slice_subrange;

verus! {

/// The text without the `0o` marks and then the zeros at its start.
pub open spec fn without_octal_marks(s: Seq<char>) -> Seq<char>
    decreases s.len(),
{
    if s.len() >= 2 && s[0] == '0' && s[1] == 'o' {
        without_octal_marks(s.skip(2))
    } else {
        without_zeros(s)
    }
}

/// The text without the zeros at its start.
pub open spec fn without_zeros(s: Seq<char>) -> Seq<char>
    decreases s.len(),
{
    if s.len() >= 1 && s[0] == '0' {
        without_zeros(s.skip(1))
    } else {
        s
    }
}

/// An octal mode, with or without `0o` and leading zeros.
pub open spec fn umask_of(v: Seq<char>) -> Option<u32> {
    match number::uint_of(without_octal_marks(v), 8, 0xffff_ffff) {
        Ok(n) => Some(n as u32),
        Err(_) => match number::uint_of(v, 8, 0xffff_ffff) {
            Ok(n) => Some(n as u32),
            Err(_) => None,
        },
    }
}

fn parse_umask(v: &str) -> (r: Option<u32>)
    ensures
        r == umask_of(v@),
{
    let chars = chars_of(v);
    let c = chars.as_slice();
    let mut i: usize = 0;
    proof {
        assert(c@.skip(0) =~= c@);
    }
    while c.len() - i >= 2 && c[i] == '0' && c[i + 1] == 'o'
        invariant
            i <= c.len(),
            without_octal_marks(c@) == without_octal_marks(c@.skip(i as int)),
        decreases c.len() - i,
    {
        proof {
            assert(c@.skip(i as int).skip(2) =~= c@.skip(i + 2));
        }
        i = i + 2;
    }
    while i < c.len() && c[i] == '0'
        invariant
            i <= c.len(),
            without_octal_marks(c@) == without_zeros(c@.skip(i as int)),
        decreases c.len() - i,
    {
        proof {
            assert(c@.skip(i as int).skip(1) =~= c@.skip(i + 1));
        }
        i = i + 1;
    }
    let rest = slice_subrange(c, i, c.len());
    proof {
        assert(rest@ =~= c@.skip(i as int));
    }
    match parse_octal(rest) {
        Ok(n) => Some(n),
        Err(_) => match parse_octal(c) {
            Ok(n) => Some(n),
            Err(_) => None,
        },
    }
}

/// The exit statuses that words stand for, up to the first that is wrong.
pub open spec fn exit_list_of(words: Seq<Seq<char>>) -> Result<Seq<ExitStatusView>, Seq<char>>
    decreases words.len(),
{
    if words.len() == 0 {
        Ok(seq![])
    } else {
        match exit_list_of(words.drop_last()) {
            Err(e) => Err(e),
            Ok(before) => match service::exit_status_of(words.last()) {
                Err(e) => Err(e),
                Ok(x) => Ok(before.push(x)),
            },
        }
    }
}

proof fn lemma_exit_list_error(words: Seq<Seq<char>>, n: int)
    requires
        0 <= n <= words.len(),
        exit_list_of(words.take(n)) is Err,
    ensures
        exit_list_of(words) == exit_list_of(words.take(n)),
    decreases words.len() - n,
{
    if n == words.len() {
        assert(words.take(n) =~= words);
    } else {
        assert(words.take(n + 1).drop_last() =~= words.take(n));
        lemma_exit_list_error(words, n + 1);
    }
}

fn parse_exit_list(v: &str) -> (r: Result<Vec<ExitStatus>, String>)
    ensures
        match r {
            Ok(x) => exit_list_of(text::items(v@, true)) == Ok::<Seq<ExitStatusView>, Seq<char>>(
                service::exit_statuses_view(x@),
            ),
            Err(e) => exit_list_of(text::items(v@, true)) == Err::<
                Seq<ExitStatusView>,
                Seq<char>,
            >(e@),
        },
{
    let words = parse_list(v);
    let mut out: Vec<ExitStatus> = Vec::new();
    let mut i: usize = 0;
    let ghost all = text::texts(words@);
    proof {
        assert(service::exit_statuses_view(out@) =~= seq![]);
    }
    while i < words.len()
        invariant
            i <= words.len(),
            all == text::texts(words@),
            all == text::items(v@, true),
            exit_list_of(all.take(i as int)) == Ok::<Seq<ExitStatusView>, Seq<char>>(
                service::exit_statuses_view(out@),
            ),
        decreases words.len() - i,
    {
        proof {
            assert(all.take(i + 1).drop_last() =~= all.take(i as int));
            assert(all.take(i + 1).last() == words@[i as int]@);
        }
        match ExitStatus::parse(words[i].as_str()) {
            Ok(x) => {
                let ghost before = out@;
                out.push(x);
                proof {
                    assert(service::exit_statuses_view(out@) =~= service::exit_statuses_view(
                        before,
                    ).push(x@));
                }
            },
            Err(e) => {
                proof {
                    lemma_exit_list_error(all, i + 1);
                }
                return Err(e);
            },
        }
        i = i + 1;
    }
    proof {
        assert(all.take(all.len() as int) =~= all);
    }
    Ok(out)
}

/// Directives whose value is kept as it is.
pub open spec fn service_text(m: ServiceView, key: Seq<char>, v: Seq<char>) -> Option<
    Result<ServiceView, Seq<char>>,
> {
    if key == "PIDFile"@ {
        Some(Ok(ServiceView { pid_file: Some(v), ..m }))
    } else if key == "BusName"@ {
        Some(Ok(ServiceView { bus_name: Some(v), ..m }))
    } else if key == "StartLimitAction"@ {
        Some(Ok(ServiceView { start_limit_action: Some(v), ..m }))
    } else if key == "WorkingDirectory"@ {
        Some(Ok(ServiceView { working_directory: Some(v), ..m }))
    } else if key == "RootDirectory"@ {
        Some(Ok(ServiceView { root_directory: Some(v), ..m }))
    } else if key == "User"@ {
        Some(Ok(ServiceView { user: Some(v), ..m }))
    } else if key == "Group"@ {
        Some(Ok(ServiceView { group: Some(v), ..m }))
    } else if key == "KillSignal"@ {
        Some(Ok(ServiceView { kill_signal: Some(v), ..m }))
    } else if key == "RestartKillSignal"@ {
        Some(Ok(ServiceView { restart_kill_signal: Some(v), ..m }))
    } else if key == "FinalKillSignal"@ {
        Some(Ok(ServiceView { final_kill_signal: Some(v), ..m }))
    } else if key == "WatchdogSignal"@ {
        Some(Ok(ServiceView { watchdog_signal: Some(v), ..m }))
    } else if key == "FileDescriptorStorePreserve"@ {
        Some(Ok(ServiceView { fd_store_preserve: Some(v), ..m }))
    } else {
        None
    }
}

/// Sets a directive whose value is kept as it is.
fn set_service_text(svc: &mut ServiceUnit, key: &str, v: &str) -> (r: Result<bool, String>)
    ensures
        match r {
            Ok(true) => service_text(old(svc)@, key@, v@) == Some(
                Ok::<ServiceView, Seq<char>>(final(svc)@),
            ),
            Ok(false) => service_text(old(svc)@, key@, v@) is None && final(svc)@ == old(svc)@,
            Err(reason) => service_text(old(svc)@, key@, v@) == Some(
                Err::<ServiceView, Seq<char>>(reason@),
            ),
        },
{
    if same(key, "PIDFile") {
        svc.pid_file = Some(v.to_owned());
    } else if same(key, "BusName") {
        svc.bus_name = Some(v.to_owned());
    } else if same(key, "StartLimitAction") {
        svc.start_limit_action = Some(v.to_owned());
    } else if same(key, "WorkingDirectory") {
        svc.working_directory = Some(v.to_owned());
    } else if same(key, "RootDirectory") {
        svc.root_directory = Some(v.to_owned());
    } else if same(key, "User") {
        svc.user = Some(v.to_owned());
    } else if same(key, "Group") {
        svc.group = Some(v.to_owned());
    } else if same(key, "KillSignal") {
        svc.kill_signal = Some(v.to_owned());
    } else if same(key, "RestartKillSignal") {
        svc.restart_kill_signal = Some(v.to_owned());
    } else if same(key, "FinalKillSignal") {
        svc.final_kill_signal = Some(v.to_owned());
    } else if same(key, "WatchdogSignal") {
        svc.watchdog_signal = Some(v.to_owned());
    } else if same(key, "FileDescriptorStorePreserve") {
        svc.fd_store_preserve = Some(v.to_owned());
    } else {
        return Ok(false);
    }
    Ok(true)
}

/// Directives that add to a list.
pub open spec fn service_list(m: ServiceView, key: Seq<char>, v: Seq<char>) -> Option<
    Result<ServiceView, Seq<char>>,
> {
    if key == "PassEnvironment"@ {
        Some(Ok(ServiceView { pass_environment: m.pass_environment + text::items(v, true), ..m }))
    } else if key == "UnsetEnvironment"@ {
        Some(Ok(ServiceView { unset_environment: m.unset_environment + text::items(v, true), ..m }))
    } else if key == "SupplementaryGroups"@ {
        Some(Ok(ServiceView { supplementary_groups: m.supplementary_groups + text::items(v, true), ..m }))
    } else if key == "Sockets"@ {
        Some(Ok(ServiceView { sockets: m.sockets + text::items(v, true), ..m }))
    } else if key == "EnvironmentFile"@ {
        Some(Ok(ServiceView { environment_files: m.environment_files.push(env::environment_file_of(v)), ..m }))
    } else if key == "Environment"@ {
        Some(
            match env::environment_of(v) {
                Ok(x) => Ok(ServiceView { environment: m.environment + x, ..m }),
                Err(reason) => Err(reason),
            },
        )
    } else if key == "SuccessExitStatus"@ {
        Some(
            match exit_list_of(text::items(v, true)) {
                Ok(x) => Ok(ServiceView { success_exit_status: m.success_exit_status + x, ..m }),
                Err(reason) => Err(reason),
            },
        )
    } else if key == "RestartPreventExitStatus"@ {
        Some(
            match exit_list_of(text::items(v, true)) {
                Ok(x) => Ok(ServiceView { restart_prevent_exit_status: m.restart_prevent_exit_status + x, ..m }),
                Err(reason) => Err(reason),
            },
        )
    } else if key == "RestartForceExitStatus"@ {
        Some(
            match exit_list_of(text::items(v, true)) {
                Ok(x) => Ok(ServiceView { restart_force_exit_status: m.restart_force_exit_status + x, ..m }),
                Err(reason) => Err(reason),
            },
        )
    } else {
        None
    }
}

/// Adds to a list.
fn set_service_list(svc: &mut ServiceUnit, key: &str, v: &str) -> (r: Result<bool, String>)
    ensures
        match r {
            Ok(true) => service_list(old(svc)@, key@, v@) == Some(
                Ok::<ServiceView, Seq<char>>(final(svc)@),
            ),
            Ok(false) => service_list(old(svc)@, key@, v@) is None && final(svc)@ == old(svc)@,
            Err(reason) => service_list(old(svc)@, key@, v@) == Some(
                Err::<ServiceView, Seq<char>>(reason@),
            ),
        },
{
    if same(key, "PassEnvironment") {
        let ghost before = svc.pass_environment@;
        let mut more = parse_list(v);
        let ghost added = more@;
        svc.pass_environment.append(&mut more);
        proof {
            assert(text::texts(svc.pass_environment@) =~= text::texts(before) + text::texts(added));
        }
    } else if same(key, "UnsetEnvironment") {
        let ghost before = svc.unset_environment@;
        let mut more = parse_list(v);
        let ghost added = more@;
        svc.unset_environment.append(&mut more);
        proof {
            assert(text::texts(svc.unset_environment@) =~= text::texts(before) + text::texts(added));
        }
    } else if same(key, "SupplementaryGroups") {
        let ghost before = svc.supplementary_groups@;
        let mut more = parse_list(v);
        let ghost added = more@;
        svc.supplementary_groups.append(&mut more);
        proof {
            assert(text::texts(svc.supplementary_groups@) =~= text::texts(before) + text::texts(added));
        }
    } else if same(key, "Sockets") {
        let ghost before = svc.sockets@;
        let mut more = parse_list(v);
        let ghost added = more@;
        svc.sockets.append(&mut more);
        proof {
            assert(text::texts(svc.sockets@) =~= text::texts(before) + text::texts(added));
        }
    } else if same(key, "EnvironmentFile") {
        let ghost before = svc.environment_files@;
        svc.environment_files.push(EnvironmentFile::parse(v));
        proof {
            assert(env::environment_files_view(svc.environment_files@) =~= env::environment_files_view(
                before,
            ).push(env::environment_file_of(v@)));
        }
    } else if same(key, "Environment") {
        match parse_environment_line(v) {
            Ok(mut more) => {
                let ghost before = svc.environment@;
                let ghost added = more@;
                svc.environment.append(&mut more);
                proof {
                    assert(env::pairs_view(svc.environment@) =~= env::pairs_view(before)
                        + env::pairs_view(added));
                }
            },
            Err(reason) => {
                return Err(reason);
            },
        }
    } else if same(key, "SuccessExitStatus") {
        match parse_exit_list(v) {
            Ok(mut more) => {
                let ghost before = svc.success_exit_status@;
                let ghost added = more@;
                svc.success_exit_status.append(&mut more);
                proof {
                    assert(service::exit_statuses_view(svc.success_exit_status@) =~= service::exit_statuses_view(
                        before,
                    ) + service::exit_statuses_view(added));
                }
            },
            Err(reason) => {
                return Err(reason);
            },
        }
    } else if same(key, "RestartPreventExitStatus") {
        match parse_exit_list(v) {
            Ok(mut more) => {
                let ghost before = svc.restart_prevent_exit_status@;
                let ghost added = more@;
                svc.restart_prevent_exit_status.append(&mut more);
                proof {
                    assert(service::exit_statuses_view(svc.restart_prevent_exit_status@) =~= service::exit_statuses_view(
                        before,
                    ) + service::exit_statuses_view(added));
                }
            },
            Err(reason) => {
                return Err(reason);
            },
        }
    } else if same(key, "RestartForceExitStatus") {
        match parse_exit_list(v) {
            Ok(mut more) => {
                let ghost before = svc.restart_force_exit_status@;
                let ghost added = more@;
                svc.restart_force_exit_status.append(&mut more);
                proof {
                    assert(service::exit_statuses_view(svc.restart_force_exit_status@) =~= service::exit_statuses_view(
                        before,
                    ) + service::exit_statuses_view(added));
                }
            },
            Err(reason) => {
                return Err(reason);
            },
        }
    } else {
        return Ok(false);
    }
    Ok(true)
}

/// Directives that add a command.
pub open spec fn service_command(m: ServiceView, key: Seq<char>, v: Seq<char>) -> Option<
    Result<ServiceView, Seq<char>>,
> {
    if key == "ExecStartPre"@ {
        Some(
            match exec::command_of(v) {
                Ok(c) => Ok(ServiceView { exec_start_pre: m.exec_start_pre.push(c), ..m }),
                Err(reason) => Err(reason),
            },
        )
    } else if key == "ExecStart"@ {
        Some(
            match exec::command_of(v) {
                Ok(c) => Ok(ServiceView { exec_start: m.exec_start.push(c), ..m }),
                Err(reason) => Err(reason),
            },
        )
    } else if key == "ExecStartPost"@ {
        Some(
            match exec::command_of(v) {
                Ok(c) => Ok(ServiceView { exec_start_post: m.exec_start_post.push(c), ..m }),
                Err(reason) => Err(reason),
            },
        )
    } else if key == "ExecCondition"@ {
        Some(
            match exec::command_of(v) {
                Ok(c) => Ok(ServiceView { exec_condition: m.exec_condition.push(c), ..m }),
                Err(reason) => Err(reason),
            },
        )
    } else if key == "ExecReload"@ {
        Some(
            match exec::command_of(v) {
                Ok(c) => Ok(ServiceView { exec_reload: m.exec_reload.push(c), ..m }),
                Err(reason) => Err(reason),
            },
        )
    } else if key == "ExecStop"@ {
        Some(
            match exec::command_of(v) {
                Ok(c) => Ok(ServiceView { exec_stop: m.exec_stop.push(c), ..m }),
                Err(reason) => Err(reason),
            },
        )
    } else if key == "ExecStopPost"@ {
        Some(
            match exec::command_of(v) {
                Ok(c) => Ok(ServiceView { exec_stop_post: m.exec_stop_post.push(c), ..m }),
                Err(reason) => Err(reason),
            },
        )
    } else {
        None
    }
}

/// Adds a command.
fn add_service_command(svc: &mut ServiceUnit, key: &str, v: &str) -> (r: Result<bool, String>)
    ensures
        match r {
            Ok(true) => service_command(old(svc)@, key@, v@) == Some(
                Ok::<ServiceView, Seq<char>>(final(svc)@),
            ),
            Ok(false) => service_command(old(svc)@, key@, v@) is None && final(svc)@ == old(svc)@,
            Err(reason) => service_command(old(svc)@, key@, v@) == Some(
                Err::<ServiceView, Seq<char>>(reason@),
            ),
        },
{
    if same(key, "ExecStartPre") {
        match ExecCommand::parse(v) {
            Ok(c) => {
                let ghost before = svc.exec_start_pre@;
                let item = c;
                svc.exec_start_pre.push(item);
                proof {
                    assert(exec::commands_view(svc.exec_start_pre@) =~= exec::commands_view(before).push(item@));
                }
            },
            Err(reason) => {
                return Err(reason);
            },
        }
    } else if same(key, "ExecStart") {
        match ExecCommand::parse(v) {
            Ok(c) => {
                let ghost before = svc.exec_start@;
                let item = c;
                svc.exec_start.push(item);
                proof {
                    assert(exec::commands_view(svc.exec_start@) =~= exec::commands_view(before).push(item@));
                }
            },
            Err(reason) => {
                return Err(reason);
            },
        }
    } else if same(key, "ExecStartPost") {
        match ExecCommand::parse(v) {
            Ok(c) => {
                let ghost before = svc.exec_start_post@;
                let item = c;
                svc.exec_start_post.push(item);
                proof {
                    assert(exec::commands_view(svc.exec_start_post@) =~= exec::commands_view(before).push(item@));
                }
            },
            Err(reason) => {
                return Err(reason);
            },
        }
    } else if same(key, "ExecCondition") {
        match ExecCommand::parse(v) {
            Ok(c) => {
                let ghost before = svc.exec_condition@;
                let item = c;
                svc.exec_condition.push(item);
                proof {
                    assert(exec::commands_view(svc.exec_condition@) =~= exec::commands_view(before).push(item@));
                }
            },
            Err(reason) => {
                return Err(reason);
            },
        }
    } else if same(key, "ExecReload") {
        match ExecCommand::parse(v) {
            Ok(c) => {
                let ghost before = svc.exec_reload@;
                let item = c;
                svc.exec_reload.push(item);
                proof {
                    assert(exec::commands_view(svc.exec_reload@) =~= exec::commands_view(before).push(item@));
                }
            },
            Err(reason) => {
                return Err(reason);
            },
        }
    } else if same(key, "ExecStop") {
        match ExecCommand::parse(v) {
            Ok(c) => {
                let ghost before = svc.exec_stop@;
                let item = c;
                svc.exec_stop.push(item);
                proof {
                    assert(exec::commands_view(svc.exec_stop@) =~= exec::commands_view(before).push(item@));
                }
            },
            Err(reason) => {
                return Err(reason);
            },
        }
    } else if same(key, "ExecStopPost") {
        match ExecCommand::parse(v) {
            Ok(c) => {
                let ghost before = svc.exec_stop_post@;
                let item = c;
                svc.exec_stop_post.push(item);
                proof {
                    assert(exec::commands_view(svc.exec_stop_post@) =~= exec::commands_view(before).push(item@));
                }
            },
            Err(reason) => {
                return Err(reason);
            },
        }
    } else {
        return Ok(false);
    }
    Ok(true)
}

/// Directives that are a boolean or a number.
pub open spec fn service_switch(m: ServiceView, key: Seq<char>, v: Seq<char>) -> Option<
    Result<ServiceView, Seq<char>>,
> {
    if key == "RemainAfterExit"@ {
        Some(
            match condition::bool_of(v) {
                Some(b) => Ok(ServiceView { remain_after_exit: b, ..m }),
                None => Err("expected bool"@),
            },
        )
    } else if key == "GuessMainPID"@ {
        Some(
            match condition::bool_of(v) {
                Some(b) => Ok(ServiceView { guess_main_pid: b, ..m }),
                None => Err("expected bool"@),
            },
        )
    } else if key == "SendSIGKILL"@ {
        Some(
            match condition::bool_of(v) {
                Some(b) => Ok(ServiceView { send_sigkill: b, ..m }),
                None => Err("expected bool"@),
            },
        )
    } else if key == "SendSIGHUP"@ {
        Some(
            match condition::bool_of(v) {
                Some(b) => Ok(ServiceView { send_sighup: b, ..m }),
                None => Err("expected bool"@),
            },
        )
    } else if key == "RestartSteps"@ {
        Some(
            match number::uint_of(v, 10, 0xffff_ffff) {
                Ok(n) => Ok(ServiceView { restart_steps: n as u32, ..m }),
                Err(_) => Err("u32"@),
            },
        )
    } else if key == "StartLimitBurst"@ {
        Some(
            match number::uint_of(v, 10, 0xffff_ffff) {
                Ok(n) => Ok(ServiceView { start_limit_burst: n as u32, ..m }),
                Err(_) => Err("u32"@),
            },
        )
    } else if key == "FileDescriptorStoreMax"@ {
        Some(
            match number::uint_of(v, 10, 0xffff_ffff) {
                Ok(n) => Ok(ServiceView { fd_store_max: n as u32, ..m }),
                Err(_) => Err("u32"@),
            },
        )
    } else if key == "Nice"@ {
        Some(
            match number::int_of(v, 0x7fff_ffff) {
                Ok(n) => Ok(ServiceView { nice: Some(n as i32), ..m }),
                Err(_) => Err("i32"@),
            },
        )
    } else if key == "UMask"@ {
        Some(
            match umask_of(v) {
                Some(n) => Ok(ServiceView { umask: Some(n), ..m }),
                None => Err("octal mode"@),
            },
        )
    } else {
        None
    }
}

/// Sets a boolean or a number.
fn set_service_switch(svc: &mut ServiceUnit, key: &str, v: &str) -> (r: Result<bool, String>)
    ensures
        match r {
            Ok(true) => service_switch(old(svc)@, key@, v@) == Some(
                Ok::<ServiceView, Seq<char>>(final(svc)@),
            ),
            Ok(false) => service_switch(old(svc)@, key@, v@) is None && final(svc)@ == old(svc)@,
            Err(reason) => service_switch(old(svc)@, key@, v@) == Some(
                Err::<ServiceView, Seq<char>>(reason@),
            ),
        },
{
    if same(key, "RemainAfterExit") {
        match parse_bool(v) {
            Some(b) => {
                svc.remain_after_exit = b;
            },
            None => {
                return Err("expected bool".to_owned());
            },
        }
    } else if same(key, "GuessMainPID") {
        match parse_bool(v) {
            Some(b) => {
                svc.guess_main_pid = b;
            },
            None => {
                return Err("expected bool".to_owned());
            },
        }
    } else if same(key, "SendSIGKILL") {
        match parse_bool(v) {
            Some(b) => {
                svc.send_sigkill = b;
            },
            None => {
                return Err("expected bool".to_owned());
            },
        }
    } else if same(key, "SendSIGHUP") {
        match parse_bool(v) {
            Some(b) => {
                svc.send_sighup = b;
            },
            None => {
                return Err("expected bool".to_owned());
            },
        }
    } else if same(key, "RestartSteps") {
        match parse_u32(chars_of(v).as_slice()) {
            Ok(n) => {
                svc.restart_steps = n;
            },
            Err(_) => {
                return Err("u32".to_owned());
            },
        }
    } else if same(key, "StartLimitBurst") {
        match parse_u32(chars_of(v).as_slice()) {
            Ok(n) => {
                svc.start_limit_burst = n;
            },
            Err(_) => {
                return Err("u32".to_owned());
            },
        }
    } else if same(key, "FileDescriptorStoreMax") {
        match parse_u32(chars_of(v).as_slice()) {
            Ok(n) => {
                svc.fd_store_max = n;
            },
            Err(_) => {
                return Err("u32".to_owned());
            },
        }
    } else if same(key, "Nice") {
        match parse_i32(chars_of(v).as_slice()) {
            Ok(n) => {
                svc.nice = Some(n);
            },
            Err(_) => {
                return Err("i32".to_owned());
            },
        }
    } else if same(key, "UMask") {
        match parse_umask(v) {
            Some(n) => {
                svc.umask = Some(n);
            },
            None => {
                return Err("octal mode".to_owned());
            },
        }
    } else {
        return Ok(false);
    }
    Ok(true)
}

/// Directives that are a duration.
pub open spec fn service_duration(m: ServiceView, key: Seq<char>, v: Seq<char>) -> Option<
    Result<ServiceView, Seq<char>>,
> {
    if key == "RestartSec"@ {
        Some(
            match duration::duration_of(v, 1) {
                Ok(d) => Ok(ServiceView { restart_sec: d, ..m }),
                Err(reason) => Err(reason),
            },
        )
    } else if key == "RestartMaxDelaySec"@ {
        Some(
            match duration::duration_of(v, 1) {
                Ok(d) => Ok(ServiceView { restart_max_delay_sec: Some(d), ..m }),
                Err(reason) => Err(reason),
            },
        )
    } else if key == "TimeoutStartSec"@ {
        Some(
            match duration::duration_of(v, 1) {
                Ok(d) => Ok(ServiceView { timeout_start_sec: Some(d), ..m }),
                Err(reason) => Err(reason),
            },
        )
    } else if key == "TimeoutStopSec"@ {
        Some(
            match duration::duration_of(v, 1) {
                Ok(d) => Ok(ServiceView { timeout_stop_sec: Some(d), ..m }),
                Err(reason) => Err(reason),
            },
        )
    } else if key == "TimeoutAbortSec"@ {
        Some(
            match duration::duration_of(v, 1) {
                Ok(d) => Ok(ServiceView { timeout_abort_sec: Some(d), ..m }),
                Err(reason) => Err(reason),
            },
        )
    } else if key == "TimeoutSec"@ {
        Some(
            match duration::duration_of(v, 1) {
                Ok(d) => Ok(ServiceView { timeout_start_sec: Some(d), timeout_stop_sec: Some(d), ..m }),
                Err(reason) => Err(reason),
            },
        )
    } else if key == "RuntimeMaxSec"@ {
        Some(
            match duration::duration_of(v, 1) {
                Ok(d) => Ok(ServiceView { runtime_max_sec: Some(d), ..m }),
                Err(reason) => Err(reason),
            },
        )
    } else if key == "RuntimeRandomizedExtraSec"@ {
        Some(
            match duration::duration_of(v, 1) {
                Ok(d) => Ok(ServiceView { runtime_random_extra_sec: Some(d), ..m }),
                Err(reason) => Err(reason),
            },
        )
    } else if key == "WatchdogSec"@ {
        Some(
            match duration::duration_of(v, 1) {
                Ok(d) => Ok(ServiceView { watchdog_sec: Some(d), ..m }),
                Err(reason) => Err(reason),
            },
        )
    } else if key == "StartLimitIntervalSec"@ || key == "StartLimitInterval"@ {
        Some(
            match duration::duration_of(v, 1) {
                Ok(d) => Ok(ServiceView { start_limit_interval_sec: Some(d), ..m }),
                Err(reason) => Err(reason),
            },
        )
    } else {
        None
    }
}

/// Sets a duration.
fn set_service_duration(svc: &mut ServiceUnit, key: &str, v: &str) -> (r: Result<bool, String>)
    ensures
        match r {
            Ok(true) => service_duration(old(svc)@, key@, v@) == Some(
                Ok::<ServiceView, Seq<char>>(final(svc)@),
            ),
            Ok(false) => service_duration(old(svc)@, key@, v@) is None && final(svc)@ == old(svc)@,
            Err(reason) => service_duration(old(svc)@, key@, v@) == Some(
                Err::<ServiceView, Seq<char>>(reason@),
            ),
        },
{
    if same(key, "RestartSec") {
        match parse_duration(v, 1) {
            Ok(d) => {
                svc.restart_sec = d;
            },
            Err(reason) => {
                return Err(reason);
            },
        }
    } else if same(key, "RestartMaxDelaySec") {
        match parse_duration(v, 1) {
            Ok(d) => {
                svc.restart_max_delay_sec = Some(d);
            },
            Err(reason) => {
                return Err(reason);
            },
        }
    } else if same(key, "TimeoutStartSec") {
        match parse_duration(v, 1) {
            Ok(d) => {
                svc.timeout_start_sec = Some(d);
            },
            Err(reason) => {
                return Err(reason);
            },
        }
    } else if same(key, "TimeoutStopSec") {
        match parse_duration(v, 1) {
            Ok(d) => {
                svc.timeout_stop_sec = Some(d);
            },
            Err(reason) => {
                return Err(reason);
            },
        }
    } else if same(key, "TimeoutAbortSec") {
        match parse_duration(v, 1) {
            Ok(d) => {
                svc.timeout_abort_sec = Some(d);
            },
            Err(reason) => {
                return Err(reason);
            },
        }
    } else if same(key, "TimeoutSec") {
        match parse_duration(v, 1) {
            Ok(d) => {
                svc.timeout_start_sec = Some(d);
                svc.timeout_stop_sec = Some(d);
            },
            Err(reason) => {
                return Err(reason);
            },
        }
    } else if same(key, "RuntimeMaxSec") {
        match parse_duration(v, 1) {
            Ok(d) => {
                svc.runtime_max_sec = Some(d);
            },
            Err(reason) => {
                return Err(reason);
            },
        }
    } else if same(key, "RuntimeRandomizedExtraSec") {
        match parse_duration(v, 1) {
            Ok(d) => {
                svc.runtime_random_extra_sec = Some(d);
            },
            Err(reason) => {
                return Err(reason);
            },
        }
    } else if same(key, "WatchdogSec") {
        match parse_duration(v, 1) {
            Ok(d) => {
                svc.watchdog_sec = Some(d);
            },
            Err(reason) => {
                return Err(reason);
            },
        }
    } else if same(key, "StartLimitIntervalSec") || same(key, "StartLimitInterval") {
        match parse_duration(v, 1) {
            Ok(d) => {
                svc.start_limit_interval_sec = Some(d);
            },
            Err(reason) => {
                return Err(reason);
            },
        }
    } else {
        return Ok(false);
    }
    Ok(true)
}

/// Directives that are a resource limit.
pub open spec fn service_limit(m: ServiceView, key: Seq<char>, v: Seq<char>) -> Option<
    Result<ServiceView, Seq<char>>,
> {
    if key == "LimitNOFILE"@ {
        Some(
            match service::rlimit_of(v) {
                Ok(x) => Ok(ServiceView { limit_nofile: Some(x), ..m }),
                Err(reason) => Err(reason),
            },
        )
    } else if key == "LimitNPROC"@ {
        Some(
            match service::rlimit_of(v) {
                Ok(x) => Ok(ServiceView { limit_nproc: Some(x), ..m }),
                Err(reason) => Err(reason),
            },
        )
    } else if key == "LimitCORE"@ {
        Some(
            match service::rlimit_of(v) {
                Ok(x) => Ok(ServiceView { limit_core: Some(x), ..m }),
                Err(reason) => Err(reason),
            },
        )
    } else if key == "LimitAS"@ {
        Some(
            match service::rlimit_of(v) {
                Ok(x) => Ok(ServiceView { limit_as: Some(x), ..m }),
                Err(reason) => Err(reason),
            },
        )
    } else if key == "LimitDATA"@ {
        Some(
            match service::rlimit_of(v) {
                Ok(x) => Ok(ServiceView { limit_data: Some(x), ..m }),
                Err(reason) => Err(reason),
            },
        )
    } else if key == "LimitSTACK"@ {
        Some(
            match service::rlimit_of(v) {
                Ok(x) => Ok(ServiceView { limit_stack: Some(x), ..m }),
                Err(reason) => Err(reason),
            },
        )
    } else if key == "LimitFSIZE"@ {
        Some(
            match service::rlimit_of(v) {
                Ok(x) => Ok(ServiceView { limit_fsize: Some(x), ..m }),
                Err(reason) => Err(reason),
            },
        )
    } else if key == "LimitCPU"@ {
        Some(
            match service::rlimit_of(v) {
                Ok(x) => Ok(ServiceView { limit_cpu: Some(x), ..m }),
                Err(reason) => Err(reason),
            },
        )
    } else if key == "LimitRSS"@ {
        Some(
            match service::rlimit_of(v) {
                Ok(x) => Ok(ServiceView { limit_rss: Some(x), ..m }),
                Err(reason) => Err(reason),
            },
        )
    } else if key == "LimitMEMLOCK"@ {
        Some(
            match service::rlimit_of(v) {
                Ok(x) => Ok(ServiceView { limit_memlock: Some(x), ..m }),
                Err(reason) => Err(reason),
            },
        )
    } else if key == "LimitMSGQUEUE"@ {
        Some(
            match service::rlimit_of(v) {
                Ok(x) => Ok(ServiceView { limit_msgqueue: Some(x), ..m }),
                Err(reason) => Err(reason),
            },
        )
    } else if key == "LimitNICE"@ {
        Some(
            match service::rlimit_of(v) {
                Ok(x) => Ok(ServiceView { limit_nice: Some(x), ..m }),
                Err(reason) => Err(reason),
            },
        )
    } else if key == "LimitRTPRIO"@ {
        Some(
            match service::rlimit_of(v) {
                Ok(x) => Ok(ServiceView { limit_rtprio: Some(x), ..m }),
                Err(reason) => Err(reason),
            },
        )
    } else if key == "LimitRTTIME"@ {
        Some(
            match service::rlimit_of(v) {
                Ok(x) => Ok(ServiceView { limit_rttime: Some(x), ..m }),
                Err(reason) => Err(reason),
            },
        )
    } else if key == "LimitSIGPENDING"@ {
        Some(
            match service::rlimit_of(v) {
                Ok(x) => Ok(ServiceView { limit_sigpending: Some(x), ..m }),
                Err(reason) => Err(reason),
            },
        )
    } else if key == "LimitLOCKS"@ {
        Some(
            match service::rlimit_of(v) {
                Ok(x) => Ok(ServiceView { limit_locks: Some(x), ..m }),
                Err(reason) => Err(reason),
            },
        )
    } else {
        None
    }
}

/// Sets a resource limit.
fn set_service_limit(svc: &mut ServiceUnit, key: &str, v: &str) -> (r: Result<bool, String>)
    ensures
        match r {
            Ok(true) => service_limit(old(svc)@, key@, v@) == Some(
                Ok::<ServiceView, Seq<char>>(final(svc)@),
            ),
            Ok(false) => service_limit(old(svc)@, key@, v@) is None && final(svc)@ == old(svc)@,
            Err(reason) => service_limit(old(svc)@, key@, v@) == Some(
                Err::<ServiceView, Seq<char>>(reason@),
            ),
        },
{
    if same(key, "LimitNOFILE") {
        match RLimit::parse(v) {
            Ok(x) => {
                svc.limit_nofile = Some(x);
            },
            Err(reason) => {
                return Err(reason);
            },
        }
    } else if same(key, "LimitNPROC") {
        match RLimit::parse(v) {
            Ok(x) => {
                svc.limit_nproc = Some(x);
            },
            Err(reason) => {
                return Err(reason);
            },
        }
    } else if same(key, "LimitCORE") {
        match RLimit::parse(v) {
            Ok(x) => {
                svc.limit_core = Some(x);
            },
            Err(reason) => {
                return Err(reason);
            },
        }
    } else if same(key, "LimitAS") {
        match RLimit::parse(v) {
            Ok(x) => {
                svc.limit_as = Some(x);
            },
            Err(reason) => {
                return Err(reason);
            },
        }
    } else if same(key, "LimitDATA") {
        match RLimit::parse(v) {
            Ok(x) => {
                svc.limit_data = Some(x);
            },
            Err(reason) => {
                return Err(reason);
            },
        }
    } else if same(key, "LimitSTACK") {
        match RLimit::parse(v) {
            Ok(x) => {
                svc.limit_stack = Some(x);
            },
            Err(reason) => {
                return Err(reason);
            },
        }
    } else if same(key, "LimitFSIZE") {
        match RLimit::parse(v) {
            Ok(x) => {
                svc.limit_fsize = Some(x);
            },
            Err(reason) => {
                return Err(reason);
            },
        }
    } else if same(key, "LimitCPU") {
        match RLimit::parse(v) {
            Ok(x) => {
                svc.limit_cpu = Some(x);
            },
            Err(reason) => {
                return Err(reason);
            },
        }
    } else if same(key, "LimitRSS") {
        match RLimit::parse(v) {
            Ok(x) => {
                svc.limit_rss = Some(x);
            },
            Err(reason) => {
                return Err(reason);
            },
        }
    } else if same(key, "LimitMEMLOCK") {
        match RLimit::parse(v) {
            Ok(x) => {
                svc.limit_memlock = Some(x);
            },
            Err(reason) => {
                return Err(reason);
            },
        }
    } else if same(key, "LimitMSGQUEUE") {
        match RLimit::parse(v) {
            Ok(x) => {
                svc.limit_msgqueue = Some(x);
            },
            Err(reason) => {
                return Err(reason);
            },
        }
    } else if same(key, "LimitNICE") {
        match RLimit::parse(v) {
            Ok(x) => {
                svc.limit_nice = Some(x);
            },
            Err(reason) => {
                return Err(reason);
            },
        }
    } else if same(key, "LimitRTPRIO") {
        match RLimit::parse(v) {
            Ok(x) => {
                svc.limit_rtprio = Some(x);
            },
            Err(reason) => {
                return Err(reason);
            },
        }
    } else if same(key, "LimitRTTIME") {
        match RLimit::parse(v) {
            Ok(x) => {
                svc.limit_rttime = Some(x);
            },
            Err(reason) => {
                return Err(reason);
            },
        }
    } else if same(key, "LimitSIGPENDING") {
        match RLimit::parse(v) {
            Ok(x) => {
                svc.limit_sigpending = Some(x);
            },
            Err(reason) => {
                return Err(reason);
            },
        }
    } else if same(key, "LimitLOCKS") {
        match RLimit::parse(v) {
            Ok(x) => {
                svc.limit_locks = Some(x);
            },
            Err(reason) => {
                return Err(reason);
            },
        }
    } else {
        return Ok(false);
    }
    Ok(true)
}

/// Directives that choose from a list of words.
pub open spec fn service_choice(m: ServiceView, key: Seq<char>, v: Seq<char>) -> Option<
    Result<ServiceView, Seq<char>>,
> {
    if key == "Type"@ {
        Some(
            match service::service_type_of(v) {
                Ok(x) => Ok(ServiceView { service_type: x, ..m }),
                Err(reason) => Err(reason),
            },
        )
    } else if key == "NotifyAccess"@ {
        Some(
            match service::notify_access_of(v) {
                Ok(x) => Ok(ServiceView { notify_access: x, ..m }),
                Err(reason) => Err(reason),
            },
        )
    } else if key == "Restart"@ {
        Some(
            match service::restart_of(v) {
                Ok(x) => Ok(ServiceView { restart: x, ..m }),
                Err(reason) => Err(reason),
            },
        )
    } else if key == "KillMode"@ {
        Some(
            match service::kill_mode_of(v) {
                Ok(x) => Ok(ServiceView { kill_mode: x, ..m }),
                Err(reason) => Err(reason),
            },
        )
    } else if key == "StandardInput"@ {
        Some(
            match service::stream_of(v) {
                Ok(x) => Ok(ServiceView { standard_input: x, ..m }),
                Err(reason) => Err(reason),
            },
        )
    } else if key == "StandardOutput"@ {
        Some(
            match service::stream_of(v) {
                Ok(x) => Ok(ServiceView { standard_output: x, ..m }),
                Err(reason) => Err(reason),
            },
        )
    } else if key == "StandardError"@ {
        Some(
            match service::stream_of(v) {
                Ok(x) => Ok(ServiceView { standard_error: x, ..m }),
                Err(reason) => Err(reason),
            },
        )
    } else {
        None
    }
}

/// Sets a choice.
fn set_service_choice(svc: &mut ServiceUnit, key: &str, v: &str) -> (r: Result<bool, String>)
    ensures
        match r {
            Ok(true) => service_choice(old(svc)@, key@, v@) == Some(
                Ok::<ServiceView, Seq<char>>(final(svc)@),
            ),
            Ok(false) => service_choice(old(svc)@, key@, v@) is None && final(svc)@ == old(svc)@,
            Err(reason) => service_choice(old(svc)@, key@, v@) == Some(
                Err::<ServiceView, Seq<char>>(reason@),
            ),
        },
{
    if same(key, "Type") {
        match ServiceType::parse(v) {
            Ok(x) => {
                svc.service_type = x;
            },
            Err(reason) => {
                return Err(reason);
            },
        }
    } else if same(key, "NotifyAccess") {
        match NotifyAccess::parse(v) {
            Ok(x) => {
                svc.notify_access = x;
            },
            Err(reason) => {
                return Err(reason);
            },
        }
    } else if same(key, "Restart") {
        match Restart::parse(v) {
            Ok(x) => {
                svc.restart = x;
            },
            Err(reason) => {
                return Err(reason);
            },
        }
    } else if same(key, "KillMode") {
        match KillMode::parse(v) {
            Ok(x) => {
                svc.kill_mode = x;
            },
            Err(reason) => {
                return Err(reason);
            },
        }
    } else if same(key, "StandardInput") {
        match StandardStream::parse(v) {
            Ok(x) => {
                svc.standard_input = x;
            },
            Err(reason) => {
                return Err(reason);
            },
        }
    } else if same(key, "StandardOutput") {
        match StandardStream::parse(v) {
            Ok(x) => {
                svc.standard_output = x;
            },
            Err(reason) => {
                return Err(reason);
            },
        }
    } else if same(key, "StandardError") {
        match StandardStream::parse(v) {
            Ok(x) => {
                svc.standard_error = x;
            },
            Err(reason) => {
                return Err(reason);
            },
        }
    } else {
        return Ok(false);
    }
    Ok(true)
}

/// What a directive does to the section; `None` where it is not known.
pub open spec fn service_directive(m: ServiceView, key: Seq<char>, v: Seq<char>) -> Option<
    Result<ServiceView, Seq<char>>,
> {
    if service_text(m, key, v) is Some {
        service_text(m, key, v)
    } else if service_list(m, key, v) is Some {
        service_list(m, key, v)
    } else if service_command(m, key, v) is Some {
        service_command(m, key, v)
    } else if service_switch(m, key, v) is Some {
        service_switch(m, key, v)
    } else if service_duration(m, key, v) is Some {
        service_duration(m, key, v)
    } else if service_limit(m, key, v) is Some {
        service_limit(m, key, v)
    } else {
        service_choice(m, key, v)
    }
}

/// Applies a directive; false where it is not known.
fn set_service_directive(svc: &mut ServiceUnit, key: &str, v: &str) -> (r: Result<bool, String>)
    ensures
        match r {
            Ok(true) => service_directive(old(svc)@, key@, v@) == Some(
                Ok::<ServiceView, Seq<char>>(final(svc)@),
            ),
            Ok(false) => service_directive(old(svc)@, key@, v@) is None && final(svc)@ == old(svc)@,
            Err(reason) => service_directive(old(svc)@, key@, v@) == Some(
                Err::<ServiceView, Seq<char>>(reason@),
            ),
        },
{
    match set_service_text(svc, key, v) {
        Ok(true) => {
            return Ok(true);
        },
        Ok(false) => {},
        Err(reason) => {
            return Err(reason);
        },
    }
    match set_service_list(svc, key, v) {
        Ok(true) => {
            return Ok(true);
        },
        Ok(false) => {},
        Err(reason) => {
            return Err(reason);
        },
    }
    match add_service_command(svc, key, v) {
        Ok(true) => {
            return Ok(true);
        },
        Ok(false) => {},
        Err(reason) => {
            return Err(reason);
        },
    }
    match set_service_switch(svc, key, v) {
        Ok(true) => {
            return Ok(true);
        },
        Ok(false) => {},
        Err(reason) => {
            return Err(reason);
        },
    }
    match set_service_duration(svc, key, v) {
        Ok(true) => {
            return Ok(true);
        },
        Ok(false) => {},
        Err(reason) => {
            return Err(reason);
        },
    }
    match set_service_limit(svc, key, v) {
        Ok(true) => {
            return Ok(true);
        },
        Ok(false) => {},
        Err(reason) => {
            return Err(reason);
        },
    }
    set_service_choice(svc, key, v)
}

/// The section before any directive.
pub open spec fn fresh_service() -> ServiceView {
    ServiceView {
        restart_sec: SdDuration::Finite(TimeSpan { secs: 0, nanos: 100_000_000 }),
        guess_main_pid: true,
        ..service::empty_service()
    }
}

/// The section with a directive kept verbatim.
pub open spec fn keep_verbatim(m: ServiceView, e: EntryView) -> ServiceView {
    ServiceView { passthrough: m.passthrough.push(("Service"@, e.key, e.value)), ..m }
}

/// What one entry adds to the section and to the warnings.
pub open spec fn service_step(
    path: Seq<char>,
    m: ServiceView,
    ws: Seq<ParseWarningView>,
    e: EntryView,
) -> Result<(ServiceView, Seq<ParseWarningView>), ParseErrorView> {
    if linux_only::linux_only_key("Service"@, e.key) {
        Ok(
            (
                keep_verbatim(m, e),
                ws.push(error::linux_only_warning(Some(path), e.line, "Service"@, e.key)),
            ),
        )
    } else if linux_only::passthrough_key("Service"@, e.key) {
        Ok((keep_verbatim(m, e), ws))
    } else {
        match service_directive(m, e.key, e.value) {
            Some(Ok(n)) => Ok((n, ws)),
            Some(Err(reason)) => Err(values::bad_directive(path, "Service"@, e, reason)),
            None => Ok(
                (
                    keep_verbatim(m, e),
                    ws.push(error::unknown_warning(Some(path), e.line, "Service"@, e.key)),
                ),
            ),
        }
    }
}

/// What entries add to the section and to the warnings, up to the first that
/// is wrong.
pub open spec fn service_entries(
    path: Seq<char>,
    es: Seq<EntryView>,
    m: ServiceView,
    ws: Seq<ParseWarningView>,
) -> Result<(ServiceView, Seq<ParseWarningView>), ParseErrorView>
    decreases es.len(),
{
    if es.len() == 0 {
        Ok((m, ws))
    } else {
        match service_step(path, m, ws, es[0]) {
            Err(e) => Err(e),
            Ok((n, vs)) => service_entries(path, es.skip(1), n, vs),
        }
    }
}

fn keep_entry(svc: &mut ServiceUnit, e: &Entry)
    ensures
        final(svc)@ == keep_verbatim(old(svc)@, e@),
{
    let ghost before = svc.passthrough@;
    svc.passthrough.push(("Service".to_owned(), e.key.clone(), e.value.clone()));
    proof {
        assert(service::triples_view(svc.passthrough@) =~= service::triples_view(before).push(
            ("Service"@, e@.key, e@.value),
        ));
    }
}

fn apply_service_entry(
    path: &str,
    svc: &mut ServiceUnit,
    e: &Entry,
    warnings: &mut Vec<ParseWarning>,
) -> (r: Result<(), ParseError>)
    ensures
        match r {
            Ok(()) => service_step(
                path@,
                old(svc)@,
                values::warnings_view(old(warnings)@),
                e@,
            ) == Ok::<(ServiceView, Seq<ParseWarningView>), ParseErrorView>(
                (final(svc)@, values::warnings_view(final(warnings)@)),
            ),
            Err(x) => service_step(
                path@,
                old(svc)@,
                values::warnings_view(old(warnings)@),
                e@,
            ) == Err::<(ServiceView, Seq<ParseWarningView>), ParseErrorView>(x@),
        },
{
    let key = e.key.as_str();
    let ghost before = warnings@;
    if is_linux_only("Service", key) {
        let w = ParseWarning::linux_only(Some(path.to_owned()), e.line, "Service", key);
        warnings.push(w);
        proof {
            values::lemma_warnings_push(before, w);
        }
        keep_entry(svc, e);
        return Ok(());
    }
    if is_known_passthrough("Service", key) {
        keep_entry(svc, e);
        return Ok(());
    }
    match set_service_directive(svc, key, e.value.as_str()) {
        Ok(true) => Ok(()),
        Ok(false) => {
            let w = ParseWarning::unknown(Some(path.to_owned()), e.line, "Service", key);
            warnings.push(w);
            proof {
                values::lemma_warnings_push(before, w);
            }
            keep_entry(svc, e);
            Ok(())
        },
        Err(reason) => Err(bad(path, "Service", e, reason.as_str())),
    }
}

/// Parses the `[Service]` section.
pub fn parse_service(ini: &Ini, path: &str, warnings: &mut Vec<ParseWarning>) -> (r: Result<
    ServiceUnit,
    ParseError,
>)
    ensures
        match r {
            Ok(svc) => service_entries(
                path@,
                ini::entries_or_none(ini@, "Service"@),
                fresh_service(),
                values::warnings_view(old(warnings)@),
            ) == Ok::<(ServiceView, Seq<ParseWarningView>), ParseErrorView>(
                (svc@, values::warnings_view(final(warnings)@)),
            ),
            Err(x) => service_entries(
                path@,
                ini::entries_or_none(ini@, "Service"@),
                fresh_service(),
                values::warnings_view(old(warnings)@),
            ) == Err::<(ServiceView, Seq<ParseWarningView>), ParseErrorView>(x@),
        },
{
    let mut svc = ServiceUnit::default();
    svc.restart_sec = ServiceUnit::default_restart_sec();
    svc.guess_main_pid = true;
    match ini.get("Service") {
        None => Ok(svc),
        Some(entries) => {
            let mut i: usize = 0;
            let ghost all = ini::entries_view(entries@);
            let ghost ws = values::warnings_view(warnings@);
            proof {
                assert(all.skip(0) =~= all);
            }
            while i < entries.len()
                invariant
                    i <= entries.len(),
                    all == ini::entries_view(entries@),
                    all == ini::entries_or_none(ini@, "Service"@),
                    ws == values::warnings_view(old(warnings)@),
                    service_entries(path@, all, fresh_service(), ws) == service_entries(
                        path@,
                        all.skip(i as int),
                        svc@,
                        values::warnings_view(warnings@),
                    ),
                decreases entries.len() - i,
            {
                proof {
                    assert(all.skip(i as int)[0] == entries@[i as int]@);
                    assert(all.skip(i as int).skip(1) =~= all.skip(i + 1));
                }
                if let Err(x) = apply_service_entry(path, &mut svc, &entries[i], warnings) {
                    return Err(x);
                }
                i = i + 1;
            }
            Ok(svc)
        },
    }
}

} // verus!
