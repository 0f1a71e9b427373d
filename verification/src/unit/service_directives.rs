//! What a service has from the entries of its `[Service]` section.

use crate::number;
use crate::text;
use crate::unit::condition;
use crate::unit::duration;
use crate::unit::duration::{SdDuration, TimeSpan};
use crate::unit::entries;
use crate::unit::env;
use crate::unit::error::ParseWarningView;
use crate::unit::exec;
use crate::unit::ini;
use crate::unit::ini::{EntryView, SectionView};
use crate::unit::linux_only;
use crate::unit::name::NameView;
use crate::unit::parse_service;
use crate::unit::service;
use crate::unit::service::{
    KillMode, NotifyAccess, Restart, ServiceType, ServiceView, StreamView,
};
use crate::unit::spec;
use crate::unit::spec::UnitView;
use crate::unit::spelling;
use vstd::prelude::*;

verus! {

/// The names of the directives of texts.
spec fn in_text(k: Seq<char>) -> bool {
    ||| k == "PIDFile"@
    ||| k == "BusName"@
    ||| k == "StartLimitAction"@
    ||| k == "WorkingDirectory"@
    ||| k == "RootDirectory"@
    ||| k == "User"@
    ||| k == "Group"@
    ||| k == "KillSignal"@
    ||| k == "RestartKillSignal"@
    ||| k == "FinalKillSignal"@
    ||| k == "WatchdogSignal"@
    ||| k == "FileDescriptorStorePreserve"@
}

proof fn lemma_text(m: ServiceView, k: Seq<char>, v: Seq<char>)
    ensures
        parse_service::service_text(m, k, v) is Some <==> in_text(k),
        parse_service::service_text(m, k, v) matches Some(Ok(n)) ==> {
            &&& n == (ServiceView { pid_file: n.pid_file, bus_name: n.bus_name, start_limit_action: n.start_limit_action, working_directory: n.working_directory, root_directory: n.root_directory, user: n.user, group: n.group, kill_signal: n.kill_signal, restart_kill_signal: n.restart_kill_signal, final_kill_signal: n.final_kill_signal, watchdog_signal: n.watchdog_signal, fd_store_preserve: n.fd_store_preserve, ..m })
            &&& (n.pid_file == if k == "PIDFile"@ {
Some(v)
} else {
m.pid_file
})
            &&& (n.bus_name == if k == "BusName"@ {
Some(v)
} else {
m.bus_name
})
            &&& (n.start_limit_action == if k == "StartLimitAction"@ {
Some(v)
} else {
m.start_limit_action
})
            &&& (n.working_directory == if k == "WorkingDirectory"@ {
Some(v)
} else {
m.working_directory
})
            &&& (n.root_directory == if k == "RootDirectory"@ {
Some(v)
} else {
m.root_directory
})
            &&& (n.user == if k == "User"@ {
Some(v)
} else {
m.user
})
            &&& (n.group == if k == "Group"@ {
Some(v)
} else {
m.group
})
            &&& (n.kill_signal == if k == "KillSignal"@ {
Some(v)
} else {
m.kill_signal
})
            &&& (n.restart_kill_signal == if k == "RestartKillSignal"@ {
Some(v)
} else {
m.restart_kill_signal
})
            &&& (n.final_kill_signal == if k == "FinalKillSignal"@ {
Some(v)
} else {
m.final_kill_signal
})
            &&& (n.watchdog_signal == if k == "WatchdogSignal"@ {
Some(v)
} else {
m.watchdog_signal
})
            &&& (n.fd_store_preserve == if k == "FileDescriptorStorePreserve"@ {
Some(v)
} else {
m.fd_store_preserve
})
        },
{
    spelling::lemma_service_text_marks();
}

/// The names of the directives of lists.
spec fn in_list(k: Seq<char>) -> bool {
    ||| k == "PassEnvironment"@
    ||| k == "UnsetEnvironment"@
    ||| k == "SupplementaryGroups"@
    ||| k == "Sockets"@
    ||| k == "EnvironmentFile"@
    ||| k == "Environment"@
    ||| k == "SuccessExitStatus"@
    ||| k == "RestartPreventExitStatus"@
    ||| k == "RestartForceExitStatus"@
}

proof fn lemma_list(m: ServiceView, k: Seq<char>, v: Seq<char>)
    ensures
        parse_service::service_list(m, k, v) is Some <==> in_list(k),
        parse_service::service_list(m, k, v) matches Some(Ok(n)) ==> {
            &&& n == (ServiceView { pass_environment: n.pass_environment, unset_environment: n.unset_environment, supplementary_groups: n.supplementary_groups, sockets: n.sockets, environment_files: n.environment_files, environment: n.environment, success_exit_status: n.success_exit_status, restart_prevent_exit_status: n.restart_prevent_exit_status, restart_force_exit_status: n.restart_force_exit_status, ..m })
            &&& (n.pass_environment == if k == "PassEnvironment"@ {
m.pass_environment + text::items(v, true)
} else {
m.pass_environment
})
            &&& (n.unset_environment == if k == "UnsetEnvironment"@ {
m.unset_environment + text::items(v, true)
} else {
m.unset_environment
})
            &&& (n.supplementary_groups == if k == "SupplementaryGroups"@ {
m.supplementary_groups + text::items(v, true)
} else {
m.supplementary_groups
})
            &&& (n.sockets == if k == "Sockets"@ {
m.sockets + text::items(v, true)
} else {
m.sockets
})
            &&& (n.environment_files == if k == "EnvironmentFile"@ {
m.environment_files.push(env::environment_file_of(v))
} else {
m.environment_files
})
            &&& (n.environment == if k == "Environment"@ {
m.environment + env::environment_of(v)->Ok_0
} else {
m.environment
}) && (k == "Environment"@ ==> env::environment_of(v) is Ok)
            &&& (n.success_exit_status == if k == "SuccessExitStatus"@ {
m.success_exit_status + parse_service::exit_list_of(text::items(v, true))->Ok_0
} else {
m.success_exit_status
}) && (k == "SuccessExitStatus"@ ==> parse_service::exit_list_of(text::items(v, true)) is Ok)
            &&& (n.restart_prevent_exit_status == if k == "RestartPreventExitStatus"@ {
m.restart_prevent_exit_status + parse_service::exit_list_of(text::items(v, true))->Ok_0
} else {
m.restart_prevent_exit_status
}) && (k == "RestartPreventExitStatus"@ ==> parse_service::exit_list_of(text::items(v, true)) is Ok)
            &&& (n.restart_force_exit_status == if k == "RestartForceExitStatus"@ {
m.restart_force_exit_status + parse_service::exit_list_of(text::items(v, true))->Ok_0
} else {
m.restart_force_exit_status
}) && (k == "RestartForceExitStatus"@ ==> parse_service::exit_list_of(text::items(v, true)) is Ok)
        },
{
    spelling::lemma_service_list_marks();
}

/// The names of the directives of commands.
spec fn in_command(k: Seq<char>) -> bool {
    ||| k == "ExecStartPre"@
    ||| k == "ExecStart"@
    ||| k == "ExecStartPost"@
    ||| k == "ExecCondition"@
    ||| k == "ExecReload"@
    ||| k == "ExecStop"@
    ||| k == "ExecStopPost"@
}

proof fn lemma_command(m: ServiceView, k: Seq<char>, v: Seq<char>)
    ensures
        parse_service::service_command(m, k, v) is Some <==> in_command(k),
        parse_service::service_command(m, k, v) matches Some(Ok(n)) ==> {
            &&& n == (ServiceView { exec_condition: n.exec_condition, exec_start_pre: n.exec_start_pre, exec_start: n.exec_start, exec_start_post: n.exec_start_post, exec_reload: n.exec_reload, exec_stop: n.exec_stop, exec_stop_post: n.exec_stop_post, ..m })
            &&& (n.exec_condition == if k == "ExecCondition"@ {
m.exec_condition.push(exec::command_of(v)->Ok_0)
} else {
m.exec_condition
}) && (k == "ExecCondition"@ ==> exec::command_of(v) is Ok)
            &&& (n.exec_start_pre == if k == "ExecStartPre"@ {
m.exec_start_pre.push(exec::command_of(v)->Ok_0)
} else {
m.exec_start_pre
}) && (k == "ExecStartPre"@ ==> exec::command_of(v) is Ok)
            &&& (n.exec_start == if k == "ExecStart"@ {
m.exec_start.push(exec::command_of(v)->Ok_0)
} else {
m.exec_start
}) && (k == "ExecStart"@ ==> exec::command_of(v) is Ok)
            &&& (n.exec_start_post == if k == "ExecStartPost"@ {
m.exec_start_post.push(exec::command_of(v)->Ok_0)
} else {
m.exec_start_post
}) && (k == "ExecStartPost"@ ==> exec::command_of(v) is Ok)
            &&& (n.exec_reload == if k == "ExecReload"@ {
m.exec_reload.push(exec::command_of(v)->Ok_0)
} else {
m.exec_reload
}) && (k == "ExecReload"@ ==> exec::command_of(v) is Ok)
            &&& (n.exec_stop == if k == "ExecStop"@ {
m.exec_stop.push(exec::command_of(v)->Ok_0)
} else {
m.exec_stop
}) && (k == "ExecStop"@ ==> exec::command_of(v) is Ok)
            &&& (n.exec_stop_post == if k == "ExecStopPost"@ {
m.exec_stop_post.push(exec::command_of(v)->Ok_0)
} else {
m.exec_stop_post
}) && (k == "ExecStopPost"@ ==> exec::command_of(v) is Ok)
        },
{
    spelling::lemma_service_command_marks();
}

/// The names of the directives of switches and numbers.
spec fn in_switch(k: Seq<char>) -> bool {
    ||| k == "RemainAfterExit"@
    ||| k == "GuessMainPID"@
    ||| k == "SendSIGKILL"@
    ||| k == "SendSIGHUP"@
    ||| k == "RestartSteps"@
    ||| k == "StartLimitBurst"@
    ||| k == "FileDescriptorStoreMax"@
    ||| k == "Nice"@
    ||| k == "UMask"@
}

proof fn lemma_switch(m: ServiceView, k: Seq<char>, v: Seq<char>)
    ensures
        parse_service::service_switch(m, k, v) is Some <==> in_switch(k),
        parse_service::service_switch(m, k, v) matches Some(Ok(n)) ==> {
            &&& n == (ServiceView { remain_after_exit: n.remain_after_exit, guess_main_pid: n.guess_main_pid, send_sigkill: n.send_sigkill, send_sighup: n.send_sighup, restart_steps: n.restart_steps, start_limit_burst: n.start_limit_burst, fd_store_max: n.fd_store_max, nice: n.nice, umask: n.umask, ..m })
            &&& (n.remain_after_exit == if k == "RemainAfterExit"@ {
condition::bool_of(v)->Some_0
} else {
m.remain_after_exit
}) && (k == "RemainAfterExit"@ ==> condition::bool_of(v) is Some)
            &&& (n.guess_main_pid == if k == "GuessMainPID"@ {
condition::bool_of(v)->Some_0
} else {
m.guess_main_pid
}) && (k == "GuessMainPID"@ ==> condition::bool_of(v) is Some)
            &&& (n.send_sigkill == if k == "SendSIGKILL"@ {
condition::bool_of(v)->Some_0
} else {
m.send_sigkill
}) && (k == "SendSIGKILL"@ ==> condition::bool_of(v) is Some)
            &&& (n.send_sighup == if k == "SendSIGHUP"@ {
condition::bool_of(v)->Some_0
} else {
m.send_sighup
}) && (k == "SendSIGHUP"@ ==> condition::bool_of(v) is Some)
            &&& (n.restart_steps == if k == "RestartSteps"@ {
number::uint_of(v, 10, 0xffff_ffff)->Ok_0 as u32
} else {
m.restart_steps
}) && (k == "RestartSteps"@ ==> number::uint_of(v, 10, 0xffff_ffff) is Ok)
            &&& (n.start_limit_burst == if k == "StartLimitBurst"@ {
number::uint_of(v, 10, 0xffff_ffff)->Ok_0 as u32
} else {
m.start_limit_burst
}) && (k == "StartLimitBurst"@ ==> number::uint_of(v, 10, 0xffff_ffff) is Ok)
            &&& (n.fd_store_max == if k == "FileDescriptorStoreMax"@ {
number::uint_of(v, 10, 0xffff_ffff)->Ok_0 as u32
} else {
m.fd_store_max
}) && (k == "FileDescriptorStoreMax"@ ==> number::uint_of(v, 10, 0xffff_ffff) is Ok)
            &&& (n.nice == if k == "Nice"@ {
Some(number::int_of(v, 0x7fff_ffff)->Ok_0 as i32)
} else {
m.nice
}) && (k == "Nice"@ ==> number::int_of(v, 0x7fff_ffff) is Ok)
            &&& (n.umask == if k == "UMask"@ {
Some(parse_service::umask_of(v)->Some_0)
} else {
m.umask
}) && (k == "UMask"@ ==> parse_service::umask_of(v) is Some)
        },
{
    spelling::lemma_service_switch_marks();
}

/// The names of the directives of durations.
spec fn in_duration(k: Seq<char>) -> bool {
    ||| k == "RestartSec"@
    ||| k == "RestartMaxDelaySec"@
    ||| k == "TimeoutStartSec"@
    ||| k == "TimeoutStopSec"@
    ||| k == "TimeoutAbortSec"@
    ||| k == "TimeoutSec"@
    ||| k == "RuntimeMaxSec"@
    ||| k == "RuntimeRandomizedExtraSec"@
    ||| k == "WatchdogSec"@
    ||| k == "StartLimitIntervalSec"@
    ||| k == "StartLimitInterval"@
}

proof fn lemma_duration(m: ServiceView, k: Seq<char>, v: Seq<char>)
    ensures
        parse_service::service_duration(m, k, v) is Some <==> in_duration(k),
        parse_service::service_duration(m, k, v) matches Some(Ok(n)) ==> {
            &&& n == (ServiceView { restart_sec: n.restart_sec, restart_max_delay_sec: n.restart_max_delay_sec, timeout_start_sec: n.timeout_start_sec, timeout_stop_sec: n.timeout_stop_sec, timeout_abort_sec: n.timeout_abort_sec, runtime_max_sec: n.runtime_max_sec, runtime_random_extra_sec: n.runtime_random_extra_sec, watchdog_sec: n.watchdog_sec, start_limit_interval_sec: n.start_limit_interval_sec, ..m })
            &&& (n.restart_sec == if k == "RestartSec"@ {
duration::duration_of(v, 1)->Ok_0
} else {
m.restart_sec
}) && (k == "RestartSec"@ ==> duration::duration_of(v, 1) is Ok)
            &&& (n.restart_max_delay_sec == if k == "RestartMaxDelaySec"@ {
Some(duration::duration_of(v, 1)->Ok_0)
} else {
m.restart_max_delay_sec
}) && (k == "RestartMaxDelaySec"@ ==> duration::duration_of(v, 1) is Ok)
            &&& (n.timeout_start_sec == if k == "TimeoutStartSec"@ || k == "TimeoutSec"@ {
Some(duration::duration_of(v, 1)->Ok_0)
} else {
m.timeout_start_sec
}) && ((k == "TimeoutStartSec"@ || k == "TimeoutSec"@) ==> duration::duration_of(v, 1) is Ok)
            &&& (n.timeout_stop_sec == if k == "TimeoutStopSec"@ || k == "TimeoutSec"@ {
Some(duration::duration_of(v, 1)->Ok_0)
} else {
m.timeout_stop_sec
}) && ((k == "TimeoutStopSec"@ || k == "TimeoutSec"@) ==> duration::duration_of(v, 1) is Ok)
            &&& (n.timeout_abort_sec == if k == "TimeoutAbortSec"@ {
Some(duration::duration_of(v, 1)->Ok_0)
} else {
m.timeout_abort_sec
}) && (k == "TimeoutAbortSec"@ ==> duration::duration_of(v, 1) is Ok)
            &&& (n.runtime_max_sec == if k == "RuntimeMaxSec"@ {
Some(duration::duration_of(v, 1)->Ok_0)
} else {
m.runtime_max_sec
}) && (k == "RuntimeMaxSec"@ ==> duration::duration_of(v, 1) is Ok)
            &&& (n.runtime_random_extra_sec == if k == "RuntimeRandomizedExtraSec"@ {
Some(duration::duration_of(v, 1)->Ok_0)
} else {
m.runtime_random_extra_sec
}) && (k == "RuntimeRandomizedExtraSec"@ ==> duration::duration_of(v, 1) is Ok)
            &&& (n.watchdog_sec == if k == "WatchdogSec"@ {
Some(duration::duration_of(v, 1)->Ok_0)
} else {
m.watchdog_sec
}) && (k == "WatchdogSec"@ ==> duration::duration_of(v, 1) is Ok)
            &&& (n.start_limit_interval_sec == if k == "StartLimitIntervalSec"@ || k == "StartLimitInterval"@ {
Some(duration::duration_of(v, 1)->Ok_0)
} else {
m.start_limit_interval_sec
}) && ((k == "StartLimitIntervalSec"@ || k == "StartLimitInterval"@) ==> duration::duration_of(v, 1) is Ok)
        },
{
    spelling::lemma_service_duration_marks();
}

/// The names of the directives of resource limits.
spec fn in_limit(k: Seq<char>) -> bool {
    ||| k == "LimitNOFILE"@
    ||| k == "LimitNPROC"@
    ||| k == "LimitCORE"@
    ||| k == "LimitAS"@
    ||| k == "LimitDATA"@
    ||| k == "LimitSTACK"@
    ||| k == "LimitFSIZE"@
    ||| k == "LimitCPU"@
    ||| k == "LimitRSS"@
    ||| k == "LimitMEMLOCK"@
    ||| k == "LimitMSGQUEUE"@
    ||| k == "LimitNICE"@
    ||| k == "LimitRTPRIO"@
    ||| k == "LimitRTTIME"@
    ||| k == "LimitSIGPENDING"@
    ||| k == "LimitLOCKS"@
}

proof fn lemma_limit(m: ServiceView, k: Seq<char>, v: Seq<char>)
    ensures
        parse_service::service_limit(m, k, v) is Some <==> in_limit(k),
        parse_service::service_limit(m, k, v) matches Some(Ok(n)) ==> {
            &&& n == (ServiceView { limit_nofile: n.limit_nofile, limit_nproc: n.limit_nproc, limit_core: n.limit_core, limit_as: n.limit_as, limit_data: n.limit_data, limit_stack: n.limit_stack, limit_fsize: n.limit_fsize, limit_cpu: n.limit_cpu, limit_rss: n.limit_rss, limit_memlock: n.limit_memlock, limit_msgqueue: n.limit_msgqueue, limit_nice: n.limit_nice, limit_rtprio: n.limit_rtprio, limit_rttime: n.limit_rttime, limit_sigpending: n.limit_sigpending, limit_locks: n.limit_locks, ..m })
            &&& (n.limit_nofile == if k == "LimitNOFILE"@ {
Some(service::rlimit_of(v)->Ok_0)
} else {
m.limit_nofile
}) && (k == "LimitNOFILE"@ ==> service::rlimit_of(v) is Ok)
            &&& (n.limit_nproc == if k == "LimitNPROC"@ {
Some(service::rlimit_of(v)->Ok_0)
} else {
m.limit_nproc
}) && (k == "LimitNPROC"@ ==> service::rlimit_of(v) is Ok)
            &&& (n.limit_core == if k == "LimitCORE"@ {
Some(service::rlimit_of(v)->Ok_0)
} else {
m.limit_core
}) && (k == "LimitCORE"@ ==> service::rlimit_of(v) is Ok)
            &&& (n.limit_as == if k == "LimitAS"@ {
Some(service::rlimit_of(v)->Ok_0)
} else {
m.limit_as
}) && (k == "LimitAS"@ ==> service::rlimit_of(v) is Ok)
            &&& (n.limit_data == if k == "LimitDATA"@ {
Some(service::rlimit_of(v)->Ok_0)
} else {
m.limit_data
}) && (k == "LimitDATA"@ ==> service::rlimit_of(v) is Ok)
            &&& (n.limit_stack == if k == "LimitSTACK"@ {
Some(service::rlimit_of(v)->Ok_0)
} else {
m.limit_stack
}) && (k == "LimitSTACK"@ ==> service::rlimit_of(v) is Ok)
            &&& (n.limit_fsize == if k == "LimitFSIZE"@ {
Some(service::rlimit_of(v)->Ok_0)
} else {
m.limit_fsize
}) && (k == "LimitFSIZE"@ ==> service::rlimit_of(v) is Ok)
            &&& (n.limit_cpu == if k == "LimitCPU"@ {
Some(service::rlimit_of(v)->Ok_0)
} else {
m.limit_cpu
}) && (k == "LimitCPU"@ ==> service::rlimit_of(v) is Ok)
            &&& (n.limit_rss == if k == "LimitRSS"@ {
Some(service::rlimit_of(v)->Ok_0)
} else {
m.limit_rss
}) && (k == "LimitRSS"@ ==> service::rlimit_of(v) is Ok)
            &&& (n.limit_memlock == if k == "LimitMEMLOCK"@ {
Some(service::rlimit_of(v)->Ok_0)
} else {
m.limit_memlock
}) && (k == "LimitMEMLOCK"@ ==> service::rlimit_of(v) is Ok)
            &&& (n.limit_msgqueue == if k == "LimitMSGQUEUE"@ {
Some(service::rlimit_of(v)->Ok_0)
} else {
m.limit_msgqueue
}) && (k == "LimitMSGQUEUE"@ ==> service::rlimit_of(v) is Ok)
            &&& (n.limit_nice == if k == "LimitNICE"@ {
Some(service::rlimit_of(v)->Ok_0)
} else {
m.limit_nice
}) && (k == "LimitNICE"@ ==> service::rlimit_of(v) is Ok)
            &&& (n.limit_rtprio == if k == "LimitRTPRIO"@ {
Some(service::rlimit_of(v)->Ok_0)
} else {
m.limit_rtprio
}) && (k == "LimitRTPRIO"@ ==> service::rlimit_of(v) is Ok)
            &&& (n.limit_rttime == if k == "LimitRTTIME"@ {
Some(service::rlimit_of(v)->Ok_0)
} else {
m.limit_rttime
}) && (k == "LimitRTTIME"@ ==> service::rlimit_of(v) is Ok)
            &&& (n.limit_sigpending == if k == "LimitSIGPENDING"@ {
Some(service::rlimit_of(v)->Ok_0)
} else {
m.limit_sigpending
}) && (k == "LimitSIGPENDING"@ ==> service::rlimit_of(v) is Ok)
            &&& (n.limit_locks == if k == "LimitLOCKS"@ {
Some(service::rlimit_of(v)->Ok_0)
} else {
m.limit_locks
}) && (k == "LimitLOCKS"@ ==> service::rlimit_of(v) is Ok)
        },
{
    spelling::lemma_service_limit_marks();
}

/// The names of the directives of choices.
spec fn in_choice(k: Seq<char>) -> bool {
    ||| k == "Type"@
    ||| k == "NotifyAccess"@
    ||| k == "Restart"@
    ||| k == "KillMode"@
    ||| k == "StandardInput"@
    ||| k == "StandardOutput"@
    ||| k == "StandardError"@
}

proof fn lemma_choice(m: ServiceView, k: Seq<char>, v: Seq<char>)
    ensures
        parse_service::service_choice(m, k, v) is Some <==> in_choice(k),
        parse_service::service_choice(m, k, v) matches Some(Ok(n)) ==> {
            &&& n == (ServiceView { service_type: n.service_type, notify_access: n.notify_access, restart: n.restart, kill_mode: n.kill_mode, standard_input: n.standard_input, standard_output: n.standard_output, standard_error: n.standard_error, ..m })
            &&& (n.service_type == if k == "Type"@ {
service::service_type_of(v)->Ok_0
} else {
m.service_type
}) && (k == "Type"@ ==> service::service_type_of(v) is Ok)
            &&& (n.notify_access == if k == "NotifyAccess"@ {
service::notify_access_of(v)->Ok_0
} else {
m.notify_access
}) && (k == "NotifyAccess"@ ==> service::notify_access_of(v) is Ok)
            &&& (n.restart == if k == "Restart"@ {
service::restart_of(v)->Ok_0
} else {
m.restart
}) && (k == "Restart"@ ==> service::restart_of(v) is Ok)
            &&& (n.kill_mode == if k == "KillMode"@ {
service::kill_mode_of(v)->Ok_0
} else {
m.kill_mode
}) && (k == "KillMode"@ ==> service::kill_mode_of(v) is Ok)
            &&& (n.standard_input == if k == "StandardInput"@ {
service::stream_of(v)->Ok_0
} else {
m.standard_input
}) && (k == "StandardInput"@ ==> service::stream_of(v) is Ok)
            &&& (n.standard_output == if k == "StandardOutput"@ {
service::stream_of(v)->Ok_0
} else {
m.standard_output
}) && (k == "StandardOutput"@ ==> service::stream_of(v) is Ok)
            &&& (n.standard_error == if k == "StandardError"@ {
service::stream_of(v)->Ok_0
} else {
m.standard_error
}) && (k == "StandardError"@ ==> service::stream_of(v) is Ok)
        },
{
    spelling::lemma_service_choice_marks();
}

proof fn lemma_one_place(k: Seq<char>)
    ensures
        in_text(k) ==> !in_list(k) && !in_command(k) && !in_switch(k) && !in_duration(k) && !in_limit(k) && !in_choice(k),
        in_list(k) ==> !in_text(k) && !in_command(k) && !in_switch(k) && !in_duration(k) && !in_limit(k) && !in_choice(k),
        in_command(k) ==> !in_text(k) && !in_list(k) && !in_switch(k) && !in_duration(k) && !in_limit(k) && !in_choice(k),
        in_switch(k) ==> !in_text(k) && !in_list(k) && !in_command(k) && !in_duration(k) && !in_limit(k) && !in_choice(k),
        in_duration(k) ==> !in_text(k) && !in_list(k) && !in_command(k) && !in_switch(k) && !in_limit(k) && !in_choice(k),
        in_limit(k) ==> !in_text(k) && !in_list(k) && !in_command(k) && !in_switch(k) && !in_duration(k) && !in_choice(k),
        in_choice(k) ==> !in_text(k) && !in_list(k) && !in_command(k) && !in_switch(k) && !in_duration(k) && !in_limit(k),
{
    spelling::lemma_service_marks();
}

/// How the names begin that the sandbox and vendors have.
proof fn lemma_heads(k: Seq<char>)
    ensures
        linux_only::sandbox_prefix(k) ==> k.len() > 2 && ((k[0] == 'P' && k[1] == 'r') || (k[0]
            == 'R' && k[2] == 'a')),
        text::begins_with(k, "X-"@) ==> k.len() > 1 && k[0] == 'X',
{
    reveal_strlit("Private");
    reveal_strlit("Protect");
    reveal_strlit("ReadOnly");
    reveal_strlit("X-");
    if text::begins_with(k, "Private"@) || text::begins_with(k, "Protect"@) {
        assert(k.take(7)[0] == k[0] && k.take(7)[1] == k[1]);
    }
    if text::begins_with(k, "ReadOnly"@) {
        assert(k.take(8)[0] == k[0] && k.take(8)[2] == k[2]);
    }
    if text::begins_with(k, "X-"@) {
        assert(k.take(2)[0] == k[0]);
    }
}

proof fn lemma_text_heads(k: Seq<char>)
    requires
        in_text(k),
    ensures
        !linux_only::sandbox_prefix(k),
        !text::begins_with(k, "X-"@),
{
    lemma_heads(k);
    reveal_strlit("PIDFile");
    reveal_strlit("BusName");
    reveal_strlit("StartLimitAction");
    reveal_strlit("WorkingDirectory");
    reveal_strlit("RootDirectory");
    reveal_strlit("User");
    reveal_strlit("Group");
    reveal_strlit("KillSignal");
    reveal_strlit("RestartKillSignal");
    reveal_strlit("FinalKillSignal");
    reveal_strlit("WatchdogSignal");
    reveal_strlit("FileDescriptorStorePreserve");
}

proof fn lemma_list_heads(k: Seq<char>)
    requires
        in_list(k),
    ensures
        !linux_only::sandbox_prefix(k),
        !text::begins_with(k, "X-"@),
{
    lemma_heads(k);
    reveal_strlit("PassEnvironment");
    reveal_strlit("UnsetEnvironment");
    reveal_strlit("SupplementaryGroups");
    reveal_strlit("Sockets");
    reveal_strlit("EnvironmentFile");
    reveal_strlit("Environment");
    reveal_strlit("SuccessExitStatus");
    reveal_strlit("RestartPreventExitStatus");
    reveal_strlit("RestartForceExitStatus");
}

proof fn lemma_command_heads(k: Seq<char>)
    requires
        in_command(k),
    ensures
        !linux_only::sandbox_prefix(k),
        !text::begins_with(k, "X-"@),
{
    lemma_heads(k);
    reveal_strlit("ExecStartPre");
    reveal_strlit("ExecStart");
    reveal_strlit("ExecStartPost");
    reveal_strlit("ExecCondition");
    reveal_strlit("ExecReload");
    reveal_strlit("ExecStop");
    reveal_strlit("ExecStopPost");
}

proof fn lemma_switch_heads(k: Seq<char>)
    requires
        in_switch(k),
    ensures
        !linux_only::sandbox_prefix(k),
        !text::begins_with(k, "X-"@),
{
    lemma_heads(k);
    reveal_strlit("RemainAfterExit");
    reveal_strlit("GuessMainPID");
    reveal_strlit("SendSIGKILL");
    reveal_strlit("SendSIGHUP");
    reveal_strlit("RestartSteps");
    reveal_strlit("StartLimitBurst");
    reveal_strlit("FileDescriptorStoreMax");
    reveal_strlit("Nice");
    reveal_strlit("UMask");
}

proof fn lemma_duration_heads(k: Seq<char>)
    requires
        in_duration(k),
    ensures
        !linux_only::sandbox_prefix(k),
        !text::begins_with(k, "X-"@),
{
    lemma_heads(k);
    reveal_strlit("RestartSec");
    reveal_strlit("RestartMaxDelaySec");
    reveal_strlit("TimeoutStartSec");
    reveal_strlit("TimeoutStopSec");
    reveal_strlit("TimeoutAbortSec");
    reveal_strlit("TimeoutSec");
    reveal_strlit("RuntimeMaxSec");
    reveal_strlit("RuntimeRandomizedExtraSec");
    reveal_strlit("WatchdogSec");
    reveal_strlit("StartLimitIntervalSec");
    reveal_strlit("StartLimitInterval");
}

proof fn lemma_limit_heads(k: Seq<char>)
    requires
        in_limit(k),
    ensures
        !linux_only::sandbox_prefix(k),
        !text::begins_with(k, "X-"@),
{
    lemma_heads(k);
    reveal_strlit("LimitNOFILE");
    reveal_strlit("LimitNPROC");
    reveal_strlit("LimitCORE");
    reveal_strlit("LimitAS");
    reveal_strlit("LimitDATA");
    reveal_strlit("LimitSTACK");
    reveal_strlit("LimitFSIZE");
    reveal_strlit("LimitCPU");
    reveal_strlit("LimitRSS");
    reveal_strlit("LimitMEMLOCK");
    reveal_strlit("LimitMSGQUEUE");
    reveal_strlit("LimitNICE");
    reveal_strlit("LimitRTPRIO");
    reveal_strlit("LimitRTTIME");
    reveal_strlit("LimitSIGPENDING");
    reveal_strlit("LimitLOCKS");
}

proof fn lemma_choice_heads(k: Seq<char>)
    requires
        in_choice(k),
    ensures
        !linux_only::sandbox_prefix(k),
        !text::begins_with(k, "X-"@),
{
    lemma_heads(k);
    reveal_strlit("Type");
    reveal_strlit("NotifyAccess");
    reveal_strlit("Restart");
    reveal_strlit("KillMode");
    reveal_strlit("StandardInput");
    reveal_strlit("StandardOutput");
    reveal_strlit("StandardError");
}

proof fn lemma_no_cgroup_key(k: Seq<char>)
    requires
        is_own(k),
    ensures
        !linux_only::cgroup_key(k),
{
    spelling::lemma_service_marks();
    spelling::lemma_cgroup_key_marks();
}

proof fn lemma_no_namespace_key(k: Seq<char>)
    requires
        is_own(k),
    ensures
        !linux_only::namespace_key(k),
{
    spelling::lemma_service_marks();
    spelling::lemma_namespace_key_marks();
}

proof fn lemma_no_seccomp_key(k: Seq<char>)
    requires
        is_own(k),
    ensures
        !linux_only::seccomp_key(k),
{
    spelling::lemma_service_marks();
    spelling::lemma_seccomp_key_marks();
}

proof fn lemma_no_capability_key(k: Seq<char>)
    requires
        is_own(k),
    ensures
        !linux_only::capability_key(k),
{
    spelling::lemma_service_marks();
    spelling::lemma_capability_key_marks();
}

proof fn lemma_no_mac_key(k: Seq<char>)
    requires
        is_own(k),
    ensures
        !linux_only::mac_key(k),
{
    spelling::lemma_service_marks();
    spelling::lemma_mac_key_marks();
}

proof fn lemma_no_other_key(k: Seq<char>)
    requires
        is_own(k),
    ensures
        !linux_only::other_key(k),
{
    spelling::lemma_service_marks();
    spelling::lemma_other_key_marks();
}

/// Whether the service knows the directive.
spec fn is_own(k: Seq<char>) -> bool {
    in_text(k) || in_list(k) || in_command(k) || in_switch(k) || in_duration(k) || in_limit(k) || in_choice(k)
}

proof fn lemma_portable(k: Seq<char>)
    requires
        is_own(k),
    ensures
        !linux_only::linux_only_key("Service"@, k),
        !linux_only::passthrough_key("Service"@, k),
{
    if in_text(k) {
        lemma_text_heads(k);
    }
    if in_list(k) {
        lemma_list_heads(k);
    }
    if in_command(k) {
        lemma_command_heads(k);
    }
    if in_switch(k) {
        lemma_switch_heads(k);
    }
    if in_duration(k) {
        lemma_duration_heads(k);
    }
    if in_limit(k) {
        lemma_limit_heads(k);
    }
    if in_choice(k) {
        lemma_choice_heads(k);
    }
    lemma_no_cgroup_key(k);
    lemma_no_namespace_key(k);
    lemma_no_seccomp_key(k);
    lemma_no_capability_key(k);
    lemma_no_mac_key(k);
    lemma_no_other_key(k);
}

proof fn lemma_last(path: Seq<char>, es: Seq<EntryView>, m: ServiceView, ws: Seq<ParseWarningView>)
    requires
        es.len() > 0,
        parse_service::service_entries(path, es, m, ws) is Ok,
    ensures
        parse_service::service_entries(path, es.drop_last(), m, ws) matches Ok((n, vs)) && parse_service::service_entries(
            path,
            es,
            m,
            ws,
        ) == parse_service::service_step(path, n, vs, es.last()),
    decreases es.len(),
{
    let (n, vs) = parse_service::service_step(path, m, ws, es[0])->Ok_0;
    let rest = es.skip(1);
    if rest.len() == 0 {
        assert(es.drop_last() =~= seq![]);
    } else {
        lemma_last(path, rest, n, vs);
        assert(rest.last() == es.last());
        assert(es.drop_last().skip(1) =~= rest.drop_last());
        assert(es.drop_last()[0] == es[0]);
    }
}

proof fn lemma_text_step(path: Seq<char>, m: ServiceView, ws: Seq<ParseWarningView>, e: EntryView)
    requires
        parse_service::service_step(path, m, ws, e) is Ok,
    ensures
        ({
            let n = parse_service::service_step(path, m, ws, e)->Ok_0.0;
            &&& (n.pid_file == if e.key == "PIDFile"@ {
Some(e.value)
} else {
m.pid_file
})
            &&& (n.bus_name == if e.key == "BusName"@ {
Some(e.value)
} else {
m.bus_name
})
            &&& (n.start_limit_action == if e.key == "StartLimitAction"@ {
Some(e.value)
} else {
m.start_limit_action
})
            &&& (n.working_directory == if e.key == "WorkingDirectory"@ {
Some(e.value)
} else {
m.working_directory
})
            &&& (n.root_directory == if e.key == "RootDirectory"@ {
Some(e.value)
} else {
m.root_directory
})
            &&& (n.user == if e.key == "User"@ {
Some(e.value)
} else {
m.user
})
            &&& (n.group == if e.key == "Group"@ {
Some(e.value)
} else {
m.group
})
            &&& (n.kill_signal == if e.key == "KillSignal"@ {
Some(e.value)
} else {
m.kill_signal
})
            &&& (n.restart_kill_signal == if e.key == "RestartKillSignal"@ {
Some(e.value)
} else {
m.restart_kill_signal
})
            &&& (n.final_kill_signal == if e.key == "FinalKillSignal"@ {
Some(e.value)
} else {
m.final_kill_signal
})
            &&& (n.watchdog_signal == if e.key == "WatchdogSignal"@ {
Some(e.value)
} else {
m.watchdog_signal
})
            &&& (n.fd_store_preserve == if e.key == "FileDescriptorStorePreserve"@ {
Some(e.value)
} else {
m.fd_store_preserve
})
        }),
{
    lemma_one_place(e.key);
    lemma_text(m, e.key, e.value);
    lemma_list(m, e.key, e.value);
    lemma_command(m, e.key, e.value);
    lemma_switch(m, e.key, e.value);
    lemma_duration(m, e.key, e.value);
    lemma_limit(m, e.key, e.value);
    lemma_choice(m, e.key, e.value);
    if is_own(e.key) {
        lemma_portable(e.key);
    }
}

/// Each text of the service is the last that its own directive gives.
pub open spec fn texts_are_given(s: ServiceView, es: Seq<EntryView>) -> bool {
    &&& s.pid_file == entries::last_of(es, "PIDFile"@)
    &&& s.bus_name == entries::last_of(es, "BusName"@)
    &&& s.start_limit_action == entries::last_of(es, "StartLimitAction"@)
    &&& s.working_directory == entries::last_of(es, "WorkingDirectory"@)
    &&& s.root_directory == entries::last_of(es, "RootDirectory"@)
    &&& s.user == entries::last_of(es, "User"@)
    &&& s.group == entries::last_of(es, "Group"@)
    &&& s.kill_signal == entries::last_of(es, "KillSignal"@)
    &&& s.restart_kill_signal == entries::last_of(es, "RestartKillSignal"@)
    &&& s.final_kill_signal == entries::last_of(es, "FinalKillSignal"@)
    &&& s.watchdog_signal == entries::last_of(es, "WatchdogSignal"@)
    &&& s.fd_store_preserve == entries::last_of(es, "FileDescriptorStorePreserve"@)
}

proof fn lemma_text_fold(path: Seq<char>, es: Seq<EntryView>, ws: Seq<ParseWarningView>)
    requires
        parse_service::service_entries(path, es, parse_service::fresh_service(), ws) is Ok,
    ensures
        texts_are_given(parse_service::service_entries(path, es, parse_service::fresh_service(), ws)->Ok_0.0, es),
    decreases es.len(),
{
    if es.len() > 0 {
        let m = parse_service::fresh_service();
        lemma_last(path, es, m, ws);
        let before = es.drop_last();
        let (n, vs) = parse_service::service_entries(path, before, m, ws)->Ok_0;
        lemma_text_fold(path, before, ws);
        lemma_text_step(path, n, vs, es.last());
    }
}

proof fn lemma_list_step(path: Seq<char>, m: ServiceView, ws: Seq<ParseWarningView>, e: EntryView)
    requires
        parse_service::service_step(path, m, ws, e) is Ok,
    ensures
        ({
            let n = parse_service::service_step(path, m, ws, e)->Ok_0.0;
            &&& (n.pass_environment == if e.key == "PassEnvironment"@ {
m.pass_environment + text::items(e.value, true)
} else {
m.pass_environment
})
            &&& (n.unset_environment == if e.key == "UnsetEnvironment"@ {
m.unset_environment + text::items(e.value, true)
} else {
m.unset_environment
})
            &&& (n.supplementary_groups == if e.key == "SupplementaryGroups"@ {
m.supplementary_groups + text::items(e.value, true)
} else {
m.supplementary_groups
})
            &&& (n.sockets == if e.key == "Sockets"@ {
m.sockets + text::items(e.value, true)
} else {
m.sockets
})
            &&& (n.environment_files == if e.key == "EnvironmentFile"@ {
m.environment_files.push(env::environment_file_of(e.value))
} else {
m.environment_files
})
            &&& (n.environment == if e.key == "Environment"@ {
m.environment + env::environment_of(e.value)->Ok_0
} else {
m.environment
}) && (e.key == "Environment"@ ==> env::environment_of(e.value) is Ok)
            &&& (n.success_exit_status == if e.key == "SuccessExitStatus"@ {
m.success_exit_status + parse_service::exit_list_of(text::items(e.value, true))->Ok_0
} else {
m.success_exit_status
}) && (e.key == "SuccessExitStatus"@ ==> parse_service::exit_list_of(text::items(e.value, true)) is Ok)
            &&& (n.restart_prevent_exit_status == if e.key == "RestartPreventExitStatus"@ {
m.restart_prevent_exit_status + parse_service::exit_list_of(text::items(e.value, true))->Ok_0
} else {
m.restart_prevent_exit_status
}) && (e.key == "RestartPreventExitStatus"@ ==> parse_service::exit_list_of(text::items(e.value, true)) is Ok)
            &&& (n.restart_force_exit_status == if e.key == "RestartForceExitStatus"@ {
m.restart_force_exit_status + parse_service::exit_list_of(text::items(e.value, true))->Ok_0
} else {
m.restart_force_exit_status
}) && (e.key == "RestartForceExitStatus"@ ==> parse_service::exit_list_of(text::items(e.value, true)) is Ok)
        }),
{
    lemma_one_place(e.key);
    lemma_text(m, e.key, e.value);
    lemma_list(m, e.key, e.value);
    lemma_command(m, e.key, e.value);
    lemma_switch(m, e.key, e.value);
    lemma_duration(m, e.key, e.value);
    lemma_limit(m, e.key, e.value);
    lemma_choice(m, e.key, e.value);
    if is_own(e.key) {
        lemma_portable(e.key);
    }
}

/// Each list of the service is what its own directive gives, in order.
pub open spec fn lists_are_given(s: ServiceView, es: Seq<EntryView>) -> bool {
    &&& s.pass_environment == entries::words_of(entries::values_of(es, "PassEnvironment"@))
    &&& s.unset_environment == entries::words_of(entries::values_of(es, "UnsetEnvironment"@))
    &&& s.supplementary_groups == entries::words_of(entries::values_of(es, "SupplementaryGroups"@))
    &&& s.sockets == entries::words_of(entries::values_of(es, "Sockets"@))
    &&& s.environment_files == entries::files_of(entries::values_of(es, "EnvironmentFile"@))
    &&& s.environment == entries::variables_of(entries::values_of(es, "Environment"@))
    &&& s.success_exit_status == entries::statuses_of(entries::values_of(es, "SuccessExitStatus"@))
    &&& s.restart_prevent_exit_status == entries::statuses_of(entries::values_of(es, "RestartPreventExitStatus"@))
    &&& s.restart_force_exit_status == entries::statuses_of(entries::values_of(es, "RestartForceExitStatus"@))
}

proof fn lemma_list_fold(path: Seq<char>, es: Seq<EntryView>, ws: Seq<ParseWarningView>)
    requires
        parse_service::service_entries(path, es, parse_service::fresh_service(), ws) is Ok,
    ensures
        lists_are_given(parse_service::service_entries(path, es, parse_service::fresh_service(), ws)->Ok_0.0, es),
    decreases es.len(),
{
    if es.len() > 0 {
        let m = parse_service::fresh_service();
        lemma_last(path, es, m, ws);
        let before = es.drop_last();
        let (n, vs) = parse_service::service_entries(path, before, m, ws)->Ok_0;
        lemma_list_fold(path, before, ws);
        lemma_list_step(path, n, vs, es.last());
        entries::lemma_one_more(entries::values_of(before, "PassEnvironment"@), es.last().value);
        entries::lemma_one_more(entries::values_of(before, "UnsetEnvironment"@), es.last().value);
        entries::lemma_one_more(entries::values_of(before, "SupplementaryGroups"@), es.last().value);
        entries::lemma_one_more(entries::values_of(before, "Sockets"@), es.last().value);
        entries::lemma_one_more(entries::values_of(before, "EnvironmentFile"@), es.last().value);
        entries::lemma_one_more(entries::values_of(before, "Environment"@), es.last().value);
        entries::lemma_one_more(entries::values_of(before, "SuccessExitStatus"@), es.last().value);
        entries::lemma_one_more(entries::values_of(before, "RestartPreventExitStatus"@), es.last().value);
        entries::lemma_one_more(entries::values_of(before, "RestartForceExitStatus"@), es.last().value);
    }
}

proof fn lemma_command_step(path: Seq<char>, m: ServiceView, ws: Seq<ParseWarningView>, e: EntryView)
    requires
        parse_service::service_step(path, m, ws, e) is Ok,
    ensures
        ({
            let n = parse_service::service_step(path, m, ws, e)->Ok_0.0;
            &&& (n.exec_condition == if e.key == "ExecCondition"@ {
m.exec_condition.push(exec::command_of(e.value)->Ok_0)
} else {
m.exec_condition
}) && (e.key == "ExecCondition"@ ==> exec::command_of(e.value) is Ok)
            &&& (n.exec_start_pre == if e.key == "ExecStartPre"@ {
m.exec_start_pre.push(exec::command_of(e.value)->Ok_0)
} else {
m.exec_start_pre
}) && (e.key == "ExecStartPre"@ ==> exec::command_of(e.value) is Ok)
            &&& (n.exec_start == if e.key == "ExecStart"@ {
m.exec_start.push(exec::command_of(e.value)->Ok_0)
} else {
m.exec_start
}) && (e.key == "ExecStart"@ ==> exec::command_of(e.value) is Ok)
            &&& (n.exec_start_post == if e.key == "ExecStartPost"@ {
m.exec_start_post.push(exec::command_of(e.value)->Ok_0)
} else {
m.exec_start_post
}) && (e.key == "ExecStartPost"@ ==> exec::command_of(e.value) is Ok)
            &&& (n.exec_reload == if e.key == "ExecReload"@ {
m.exec_reload.push(exec::command_of(e.value)->Ok_0)
} else {
m.exec_reload
}) && (e.key == "ExecReload"@ ==> exec::command_of(e.value) is Ok)
            &&& (n.exec_stop == if e.key == "ExecStop"@ {
m.exec_stop.push(exec::command_of(e.value)->Ok_0)
} else {
m.exec_stop
}) && (e.key == "ExecStop"@ ==> exec::command_of(e.value) is Ok)
            &&& (n.exec_stop_post == if e.key == "ExecStopPost"@ {
m.exec_stop_post.push(exec::command_of(e.value)->Ok_0)
} else {
m.exec_stop_post
}) && (e.key == "ExecStopPost"@ ==> exec::command_of(e.value) is Ok)
        }),
{
    lemma_one_place(e.key);
    lemma_text(m, e.key, e.value);
    lemma_list(m, e.key, e.value);
    lemma_command(m, e.key, e.value);
    lemma_switch(m, e.key, e.value);
    lemma_duration(m, e.key, e.value);
    lemma_limit(m, e.key, e.value);
    lemma_choice(m, e.key, e.value);
    if is_own(e.key) {
        lemma_portable(e.key);
    }
}

/// Each list of commands is that of its own directive, in order.
pub open spec fn commands_are_given(s: ServiceView, es: Seq<EntryView>) -> bool {
    &&& s.exec_condition == entries::commands_of(entries::values_of(es, "ExecCondition"@))
    &&& s.exec_start_pre == entries::commands_of(entries::values_of(es, "ExecStartPre"@))
    &&& s.exec_start == entries::commands_of(entries::values_of(es, "ExecStart"@))
    &&& s.exec_start_post == entries::commands_of(entries::values_of(es, "ExecStartPost"@))
    &&& s.exec_reload == entries::commands_of(entries::values_of(es, "ExecReload"@))
    &&& s.exec_stop == entries::commands_of(entries::values_of(es, "ExecStop"@))
    &&& s.exec_stop_post == entries::commands_of(entries::values_of(es, "ExecStopPost"@))
}

proof fn lemma_command_fold(path: Seq<char>, es: Seq<EntryView>, ws: Seq<ParseWarningView>)
    requires
        parse_service::service_entries(path, es, parse_service::fresh_service(), ws) is Ok,
    ensures
        commands_are_given(parse_service::service_entries(path, es, parse_service::fresh_service(), ws)->Ok_0.0, es),
    decreases es.len(),
{
    if es.len() > 0 {
        let m = parse_service::fresh_service();
        lemma_last(path, es, m, ws);
        let before = es.drop_last();
        let (n, vs) = parse_service::service_entries(path, before, m, ws)->Ok_0;
        lemma_command_fold(path, before, ws);
        lemma_command_step(path, n, vs, es.last());
        entries::lemma_one_more(entries::values_of(before, "ExecCondition"@), es.last().value);
        entries::lemma_one_more(entries::values_of(before, "ExecStartPre"@), es.last().value);
        entries::lemma_one_more(entries::values_of(before, "ExecStart"@), es.last().value);
        entries::lemma_one_more(entries::values_of(before, "ExecStartPost"@), es.last().value);
        entries::lemma_one_more(entries::values_of(before, "ExecReload"@), es.last().value);
        entries::lemma_one_more(entries::values_of(before, "ExecStop"@), es.last().value);
        entries::lemma_one_more(entries::values_of(before, "ExecStopPost"@), es.last().value);
    }
}

proof fn lemma_switch_step(path: Seq<char>, m: ServiceView, ws: Seq<ParseWarningView>, e: EntryView)
    requires
        parse_service::service_step(path, m, ws, e) is Ok,
    ensures
        ({
            let n = parse_service::service_step(path, m, ws, e)->Ok_0.0;
            &&& (n.remain_after_exit == if e.key == "RemainAfterExit"@ {
condition::bool_of(e.value)->Some_0
} else {
m.remain_after_exit
}) && (e.key == "RemainAfterExit"@ ==> condition::bool_of(e.value) is Some)
            &&& (n.guess_main_pid == if e.key == "GuessMainPID"@ {
condition::bool_of(e.value)->Some_0
} else {
m.guess_main_pid
}) && (e.key == "GuessMainPID"@ ==> condition::bool_of(e.value) is Some)
            &&& (n.send_sigkill == if e.key == "SendSIGKILL"@ {
condition::bool_of(e.value)->Some_0
} else {
m.send_sigkill
}) && (e.key == "SendSIGKILL"@ ==> condition::bool_of(e.value) is Some)
            &&& (n.send_sighup == if e.key == "SendSIGHUP"@ {
condition::bool_of(e.value)->Some_0
} else {
m.send_sighup
}) && (e.key == "SendSIGHUP"@ ==> condition::bool_of(e.value) is Some)
            &&& (n.restart_steps == if e.key == "RestartSteps"@ {
number::uint_of(e.value, 10, 0xffff_ffff)->Ok_0 as u32
} else {
m.restart_steps
}) && (e.key == "RestartSteps"@ ==> number::uint_of(e.value, 10, 0xffff_ffff) is Ok)
            &&& (n.start_limit_burst == if e.key == "StartLimitBurst"@ {
number::uint_of(e.value, 10, 0xffff_ffff)->Ok_0 as u32
} else {
m.start_limit_burst
}) && (e.key == "StartLimitBurst"@ ==> number::uint_of(e.value, 10, 0xffff_ffff) is Ok)
            &&& (n.fd_store_max == if e.key == "FileDescriptorStoreMax"@ {
number::uint_of(e.value, 10, 0xffff_ffff)->Ok_0 as u32
} else {
m.fd_store_max
}) && (e.key == "FileDescriptorStoreMax"@ ==> number::uint_of(e.value, 10, 0xffff_ffff) is Ok)
            &&& (n.nice == if e.key == "Nice"@ {
Some(number::int_of(e.value, 0x7fff_ffff)->Ok_0 as i32)
} else {
m.nice
}) && (e.key == "Nice"@ ==> number::int_of(e.value, 0x7fff_ffff) is Ok)
            &&& (n.umask == if e.key == "UMask"@ {
Some(parse_service::umask_of(e.value)->Some_0)
} else {
m.umask
}) && (e.key == "UMask"@ ==> parse_service::umask_of(e.value) is Some)
        }),
{
    lemma_one_place(e.key);
    lemma_text(m, e.key, e.value);
    lemma_list(m, e.key, e.value);
    lemma_command(m, e.key, e.value);
    lemma_switch(m, e.key, e.value);
    lemma_duration(m, e.key, e.value);
    lemma_limit(m, e.key, e.value);
    lemma_choice(m, e.key, e.value);
    if is_own(e.key) {
        lemma_portable(e.key);
    }
}

/// Each switch and number is the last that its own directive gives.
pub open spec fn switches_are_given(s: ServiceView, es: Seq<EntryView>) -> bool {
    &&& s.remain_after_exit == match entries::last_of(es, "RemainAfterExit"@) {
        Some(v) => condition::bool_of(v)->Some_0,
        None => false,
    }
    &&& s.guess_main_pid == match entries::last_of(es, "GuessMainPID"@) {
        Some(v) => condition::bool_of(v)->Some_0,
        None => true,
    }
    &&& s.send_sigkill == match entries::last_of(es, "SendSIGKILL"@) {
        Some(v) => condition::bool_of(v)->Some_0,
        None => false,
    }
    &&& s.send_sighup == match entries::last_of(es, "SendSIGHUP"@) {
        Some(v) => condition::bool_of(v)->Some_0,
        None => false,
    }
    &&& s.restart_steps == match entries::last_of(es, "RestartSteps"@) {
        Some(v) => number::uint_of(v, 10, 0xffff_ffff)->Ok_0 as u32,
        None => 0,
    }
    &&& s.start_limit_burst == match entries::last_of(es, "StartLimitBurst"@) {
        Some(v) => number::uint_of(v, 10, 0xffff_ffff)->Ok_0 as u32,
        None => 0,
    }
    &&& s.fd_store_max == match entries::last_of(es, "FileDescriptorStoreMax"@) {
        Some(v) => number::uint_of(v, 10, 0xffff_ffff)->Ok_0 as u32,
        None => 0,
    }
    &&& s.nice == match entries::last_of(es, "Nice"@) {
        Some(v) => Some(number::int_of(v, 0x7fff_ffff)->Ok_0 as i32),
        None => None,
    }
    &&& s.umask == match entries::last_of(es, "UMask"@) {
        Some(v) => Some(parse_service::umask_of(v)->Some_0),
        None => None,
    }
}

proof fn lemma_switch_fold(path: Seq<char>, es: Seq<EntryView>, ws: Seq<ParseWarningView>)
    requires
        parse_service::service_entries(path, es, parse_service::fresh_service(), ws) is Ok,
    ensures
        switches_are_given(parse_service::service_entries(path, es, parse_service::fresh_service(), ws)->Ok_0.0, es),
    decreases es.len(),
{
    if es.len() > 0 {
        let m = parse_service::fresh_service();
        lemma_last(path, es, m, ws);
        let before = es.drop_last();
        let (n, vs) = parse_service::service_entries(path, before, m, ws)->Ok_0;
        lemma_switch_fold(path, before, ws);
        lemma_switch_step(path, n, vs, es.last());
    }
}

proof fn lemma_duration_step(path: Seq<char>, m: ServiceView, ws: Seq<ParseWarningView>, e: EntryView)
    requires
        parse_service::service_step(path, m, ws, e) is Ok,
    ensures
        ({
            let n = parse_service::service_step(path, m, ws, e)->Ok_0.0;
            &&& (n.restart_sec == if e.key == "RestartSec"@ {
duration::duration_of(e.value, 1)->Ok_0
} else {
m.restart_sec
}) && (e.key == "RestartSec"@ ==> duration::duration_of(e.value, 1) is Ok)
            &&& (n.restart_max_delay_sec == if e.key == "RestartMaxDelaySec"@ {
Some(duration::duration_of(e.value, 1)->Ok_0)
} else {
m.restart_max_delay_sec
}) && (e.key == "RestartMaxDelaySec"@ ==> duration::duration_of(e.value, 1) is Ok)
            &&& (n.timeout_start_sec == if e.key == "TimeoutStartSec"@ || e.key == "TimeoutSec"@ {
Some(duration::duration_of(e.value, 1)->Ok_0)
} else {
m.timeout_start_sec
}) && ((e.key == "TimeoutStartSec"@ || e.key == "TimeoutSec"@) ==> duration::duration_of(e.value, 1) is Ok)
            &&& (n.timeout_stop_sec == if e.key == "TimeoutStopSec"@ || e.key == "TimeoutSec"@ {
Some(duration::duration_of(e.value, 1)->Ok_0)
} else {
m.timeout_stop_sec
}) && ((e.key == "TimeoutStopSec"@ || e.key == "TimeoutSec"@) ==> duration::duration_of(e.value, 1) is Ok)
            &&& (n.timeout_abort_sec == if e.key == "TimeoutAbortSec"@ {
Some(duration::duration_of(e.value, 1)->Ok_0)
} else {
m.timeout_abort_sec
}) && (e.key == "TimeoutAbortSec"@ ==> duration::duration_of(e.value, 1) is Ok)
            &&& (n.runtime_max_sec == if e.key == "RuntimeMaxSec"@ {
Some(duration::duration_of(e.value, 1)->Ok_0)
} else {
m.runtime_max_sec
}) && (e.key == "RuntimeMaxSec"@ ==> duration::duration_of(e.value, 1) is Ok)
            &&& (n.runtime_random_extra_sec == if e.key == "RuntimeRandomizedExtraSec"@ {
Some(duration::duration_of(e.value, 1)->Ok_0)
} else {
m.runtime_random_extra_sec
}) && (e.key == "RuntimeRandomizedExtraSec"@ ==> duration::duration_of(e.value, 1) is Ok)
            &&& (n.watchdog_sec == if e.key == "WatchdogSec"@ {
Some(duration::duration_of(e.value, 1)->Ok_0)
} else {
m.watchdog_sec
}) && (e.key == "WatchdogSec"@ ==> duration::duration_of(e.value, 1) is Ok)
            &&& (n.start_limit_interval_sec == if e.key == "StartLimitIntervalSec"@ || e.key == "StartLimitInterval"@ {
Some(duration::duration_of(e.value, 1)->Ok_0)
} else {
m.start_limit_interval_sec
}) && ((e.key == "StartLimitIntervalSec"@ || e.key == "StartLimitInterval"@) ==> duration::duration_of(e.value, 1) is Ok)
        }),
{
    lemma_one_place(e.key);
    lemma_text(m, e.key, e.value);
    lemma_list(m, e.key, e.value);
    lemma_command(m, e.key, e.value);
    lemma_switch(m, e.key, e.value);
    lemma_duration(m, e.key, e.value);
    lemma_limit(m, e.key, e.value);
    lemma_choice(m, e.key, e.value);
    if is_own(e.key) {
        lemma_portable(e.key);
    }
}

/// Each duration is the last that its own directive gives.
pub open spec fn durations_are_given(s: ServiceView, es: Seq<EntryView>) -> bool {
    &&& s.restart_sec == match entries::last_of(es, "RestartSec"@) {
        Some(v) => duration::duration_of(v, 1)->Ok_0,
        None => SdDuration::Finite(TimeSpan { secs: 0, nanos: 100_000_000 }),
    }
    &&& s.restart_max_delay_sec == match entries::last_of(es, "RestartMaxDelaySec"@) {
        Some(v) => Some(duration::duration_of(v, 1)->Ok_0),
        None => None,
    }
    &&& s.timeout_start_sec == match entries::last_of_either(es, "TimeoutStartSec"@, "TimeoutSec"@) {
        Some(v) => Some(duration::duration_of(v, 1)->Ok_0),
        None => None,
    }
    &&& s.timeout_stop_sec == match entries::last_of_either(es, "TimeoutStopSec"@, "TimeoutSec"@) {
        Some(v) => Some(duration::duration_of(v, 1)->Ok_0),
        None => None,
    }
    &&& s.timeout_abort_sec == match entries::last_of(es, "TimeoutAbortSec"@) {
        Some(v) => Some(duration::duration_of(v, 1)->Ok_0),
        None => None,
    }
    &&& s.runtime_max_sec == match entries::last_of(es, "RuntimeMaxSec"@) {
        Some(v) => Some(duration::duration_of(v, 1)->Ok_0),
        None => None,
    }
    &&& s.runtime_random_extra_sec == match entries::last_of(es, "RuntimeRandomizedExtraSec"@) {
        Some(v) => Some(duration::duration_of(v, 1)->Ok_0),
        None => None,
    }
    &&& s.watchdog_sec == match entries::last_of(es, "WatchdogSec"@) {
        Some(v) => Some(duration::duration_of(v, 1)->Ok_0),
        None => None,
    }
    &&& s.start_limit_interval_sec == match entries::last_of_either(es, "StartLimitIntervalSec"@, "StartLimitInterval"@) {
        Some(v) => Some(duration::duration_of(v, 1)->Ok_0),
        None => None,
    }
}

proof fn lemma_duration_fold(path: Seq<char>, es: Seq<EntryView>, ws: Seq<ParseWarningView>)
    requires
        parse_service::service_entries(path, es, parse_service::fresh_service(), ws) is Ok,
    ensures
        durations_are_given(parse_service::service_entries(path, es, parse_service::fresh_service(), ws)->Ok_0.0, es),
    decreases es.len(),
{
    if es.len() > 0 {
        let m = parse_service::fresh_service();
        lemma_last(path, es, m, ws);
        let before = es.drop_last();
        let (n, vs) = parse_service::service_entries(path, before, m, ws)->Ok_0;
        lemma_duration_fold(path, before, ws);
        lemma_duration_step(path, n, vs, es.last());
    }
}

proof fn lemma_limit_step(path: Seq<char>, m: ServiceView, ws: Seq<ParseWarningView>, e: EntryView)
    requires
        parse_service::service_step(path, m, ws, e) is Ok,
    ensures
        ({
            let n = parse_service::service_step(path, m, ws, e)->Ok_0.0;
            &&& (n.limit_nofile == if e.key == "LimitNOFILE"@ {
Some(service::rlimit_of(e.value)->Ok_0)
} else {
m.limit_nofile
}) && (e.key == "LimitNOFILE"@ ==> service::rlimit_of(e.value) is Ok)
            &&& (n.limit_nproc == if e.key == "LimitNPROC"@ {
Some(service::rlimit_of(e.value)->Ok_0)
} else {
m.limit_nproc
}) && (e.key == "LimitNPROC"@ ==> service::rlimit_of(e.value) is Ok)
            &&& (n.limit_core == if e.key == "LimitCORE"@ {
Some(service::rlimit_of(e.value)->Ok_0)
} else {
m.limit_core
}) && (e.key == "LimitCORE"@ ==> service::rlimit_of(e.value) is Ok)
            &&& (n.limit_as == if e.key == "LimitAS"@ {
Some(service::rlimit_of(e.value)->Ok_0)
} else {
m.limit_as
}) && (e.key == "LimitAS"@ ==> service::rlimit_of(e.value) is Ok)
            &&& (n.limit_data == if e.key == "LimitDATA"@ {
Some(service::rlimit_of(e.value)->Ok_0)
} else {
m.limit_data
}) && (e.key == "LimitDATA"@ ==> service::rlimit_of(e.value) is Ok)
            &&& (n.limit_stack == if e.key == "LimitSTACK"@ {
Some(service::rlimit_of(e.value)->Ok_0)
} else {
m.limit_stack
}) && (e.key == "LimitSTACK"@ ==> service::rlimit_of(e.value) is Ok)
            &&& (n.limit_fsize == if e.key == "LimitFSIZE"@ {
Some(service::rlimit_of(e.value)->Ok_0)
} else {
m.limit_fsize
}) && (e.key == "LimitFSIZE"@ ==> service::rlimit_of(e.value) is Ok)
            &&& (n.limit_cpu == if e.key == "LimitCPU"@ {
Some(service::rlimit_of(e.value)->Ok_0)
} else {
m.limit_cpu
}) && (e.key == "LimitCPU"@ ==> service::rlimit_of(e.value) is Ok)
            &&& (n.limit_rss == if e.key == "LimitRSS"@ {
Some(service::rlimit_of(e.value)->Ok_0)
} else {
m.limit_rss
}) && (e.key == "LimitRSS"@ ==> service::rlimit_of(e.value) is Ok)
            &&& (n.limit_memlock == if e.key == "LimitMEMLOCK"@ {
Some(service::rlimit_of(e.value)->Ok_0)
} else {
m.limit_memlock
}) && (e.key == "LimitMEMLOCK"@ ==> service::rlimit_of(e.value) is Ok)
            &&& (n.limit_msgqueue == if e.key == "LimitMSGQUEUE"@ {
Some(service::rlimit_of(e.value)->Ok_0)
} else {
m.limit_msgqueue
}) && (e.key == "LimitMSGQUEUE"@ ==> service::rlimit_of(e.value) is Ok)
            &&& (n.limit_nice == if e.key == "LimitNICE"@ {
Some(service::rlimit_of(e.value)->Ok_0)
} else {
m.limit_nice
}) && (e.key == "LimitNICE"@ ==> service::rlimit_of(e.value) is Ok)
            &&& (n.limit_rtprio == if e.key == "LimitRTPRIO"@ {
Some(service::rlimit_of(e.value)->Ok_0)
} else {
m.limit_rtprio
}) && (e.key == "LimitRTPRIO"@ ==> service::rlimit_of(e.value) is Ok)
            &&& (n.limit_rttime == if e.key == "LimitRTTIME"@ {
Some(service::rlimit_of(e.value)->Ok_0)
} else {
m.limit_rttime
}) && (e.key == "LimitRTTIME"@ ==> service::rlimit_of(e.value) is Ok)
            &&& (n.limit_sigpending == if e.key == "LimitSIGPENDING"@ {
Some(service::rlimit_of(e.value)->Ok_0)
} else {
m.limit_sigpending
}) && (e.key == "LimitSIGPENDING"@ ==> service::rlimit_of(e.value) is Ok)
            &&& (n.limit_locks == if e.key == "LimitLOCKS"@ {
Some(service::rlimit_of(e.value)->Ok_0)
} else {
m.limit_locks
}) && (e.key == "LimitLOCKS"@ ==> service::rlimit_of(e.value) is Ok)
        }),
{
    lemma_one_place(e.key);
    lemma_text(m, e.key, e.value);
    lemma_list(m, e.key, e.value);
    lemma_command(m, e.key, e.value);
    lemma_switch(m, e.key, e.value);
    lemma_duration(m, e.key, e.value);
    lemma_limit(m, e.key, e.value);
    lemma_choice(m, e.key, e.value);
    if is_own(e.key) {
        lemma_portable(e.key);
    }
}

/// Each resource limit is the last that its own directive gives.
pub open spec fn limits_are_given(s: ServiceView, es: Seq<EntryView>) -> bool {
    &&& s.limit_nofile == match entries::last_of(es, "LimitNOFILE"@) {
        Some(v) => Some(service::rlimit_of(v)->Ok_0),
        None => None,
    }
    &&& s.limit_nproc == match entries::last_of(es, "LimitNPROC"@) {
        Some(v) => Some(service::rlimit_of(v)->Ok_0),
        None => None,
    }
    &&& s.limit_core == match entries::last_of(es, "LimitCORE"@) {
        Some(v) => Some(service::rlimit_of(v)->Ok_0),
        None => None,
    }
    &&& s.limit_as == match entries::last_of(es, "LimitAS"@) {
        Some(v) => Some(service::rlimit_of(v)->Ok_0),
        None => None,
    }
    &&& s.limit_data == match entries::last_of(es, "LimitDATA"@) {
        Some(v) => Some(service::rlimit_of(v)->Ok_0),
        None => None,
    }
    &&& s.limit_stack == match entries::last_of(es, "LimitSTACK"@) {
        Some(v) => Some(service::rlimit_of(v)->Ok_0),
        None => None,
    }
    &&& s.limit_fsize == match entries::last_of(es, "LimitFSIZE"@) {
        Some(v) => Some(service::rlimit_of(v)->Ok_0),
        None => None,
    }
    &&& s.limit_cpu == match entries::last_of(es, "LimitCPU"@) {
        Some(v) => Some(service::rlimit_of(v)->Ok_0),
        None => None,
    }
    &&& s.limit_rss == match entries::last_of(es, "LimitRSS"@) {
        Some(v) => Some(service::rlimit_of(v)->Ok_0),
        None => None,
    }
    &&& s.limit_memlock == match entries::last_of(es, "LimitMEMLOCK"@) {
        Some(v) => Some(service::rlimit_of(v)->Ok_0),
        None => None,
    }
    &&& s.limit_msgqueue == match entries::last_of(es, "LimitMSGQUEUE"@) {
        Some(v) => Some(service::rlimit_of(v)->Ok_0),
        None => None,
    }
    &&& s.limit_nice == match entries::last_of(es, "LimitNICE"@) {
        Some(v) => Some(service::rlimit_of(v)->Ok_0),
        None => None,
    }
    &&& s.limit_rtprio == match entries::last_of(es, "LimitRTPRIO"@) {
        Some(v) => Some(service::rlimit_of(v)->Ok_0),
        None => None,
    }
    &&& s.limit_rttime == match entries::last_of(es, "LimitRTTIME"@) {
        Some(v) => Some(service::rlimit_of(v)->Ok_0),
        None => None,
    }
    &&& s.limit_sigpending == match entries::last_of(es, "LimitSIGPENDING"@) {
        Some(v) => Some(service::rlimit_of(v)->Ok_0),
        None => None,
    }
    &&& s.limit_locks == match entries::last_of(es, "LimitLOCKS"@) {
        Some(v) => Some(service::rlimit_of(v)->Ok_0),
        None => None,
    }
}

proof fn lemma_limit_fold(path: Seq<char>, es: Seq<EntryView>, ws: Seq<ParseWarningView>)
    requires
        parse_service::service_entries(path, es, parse_service::fresh_service(), ws) is Ok,
    ensures
        limits_are_given(parse_service::service_entries(path, es, parse_service::fresh_service(), ws)->Ok_0.0, es),
    decreases es.len(),
{
    if es.len() > 0 {
        let m = parse_service::fresh_service();
        lemma_last(path, es, m, ws);
        let before = es.drop_last();
        let (n, vs) = parse_service::service_entries(path, before, m, ws)->Ok_0;
        lemma_limit_fold(path, before, ws);
        lemma_limit_step(path, n, vs, es.last());
    }
}

proof fn lemma_choice_step(path: Seq<char>, m: ServiceView, ws: Seq<ParseWarningView>, e: EntryView)
    requires
        parse_service::service_step(path, m, ws, e) is Ok,
    ensures
        ({
            let n = parse_service::service_step(path, m, ws, e)->Ok_0.0;
            &&& (n.service_type == if e.key == "Type"@ {
service::service_type_of(e.value)->Ok_0
} else {
m.service_type
}) && (e.key == "Type"@ ==> service::service_type_of(e.value) is Ok)
            &&& (n.notify_access == if e.key == "NotifyAccess"@ {
service::notify_access_of(e.value)->Ok_0
} else {
m.notify_access
}) && (e.key == "NotifyAccess"@ ==> service::notify_access_of(e.value) is Ok)
            &&& (n.restart == if e.key == "Restart"@ {
service::restart_of(e.value)->Ok_0
} else {
m.restart
}) && (e.key == "Restart"@ ==> service::restart_of(e.value) is Ok)
            &&& (n.kill_mode == if e.key == "KillMode"@ {
service::kill_mode_of(e.value)->Ok_0
} else {
m.kill_mode
}) && (e.key == "KillMode"@ ==> service::kill_mode_of(e.value) is Ok)
            &&& (n.standard_input == if e.key == "StandardInput"@ {
service::stream_of(e.value)->Ok_0
} else {
m.standard_input
}) && (e.key == "StandardInput"@ ==> service::stream_of(e.value) is Ok)
            &&& (n.standard_output == if e.key == "StandardOutput"@ {
service::stream_of(e.value)->Ok_0
} else {
m.standard_output
}) && (e.key == "StandardOutput"@ ==> service::stream_of(e.value) is Ok)
            &&& (n.standard_error == if e.key == "StandardError"@ {
service::stream_of(e.value)->Ok_0
} else {
m.standard_error
}) && (e.key == "StandardError"@ ==> service::stream_of(e.value) is Ok)
        }),
{
    lemma_one_place(e.key);
    lemma_text(m, e.key, e.value);
    lemma_list(m, e.key, e.value);
    lemma_command(m, e.key, e.value);
    lemma_switch(m, e.key, e.value);
    lemma_duration(m, e.key, e.value);
    lemma_limit(m, e.key, e.value);
    lemma_choice(m, e.key, e.value);
    if is_own(e.key) {
        lemma_portable(e.key);
    }
}

/// Each choice is the last that its own directive gives.
pub open spec fn choices_are_given(s: ServiceView, es: Seq<EntryView>) -> bool {
    &&& s.service_type == match entries::last_of(es, "Type"@) {
        Some(v) => service::service_type_of(v)->Ok_0,
        None => ServiceType::Simple,
    }
    &&& s.notify_access == match entries::last_of(es, "NotifyAccess"@) {
        Some(v) => service::notify_access_of(v)->Ok_0,
        None => NotifyAccess::Nobody,
    }
    &&& s.restart == match entries::last_of(es, "Restart"@) {
        Some(v) => service::restart_of(v)->Ok_0,
        None => Restart::No,
    }
    &&& s.kill_mode == match entries::last_of(es, "KillMode"@) {
        Some(v) => service::kill_mode_of(v)->Ok_0,
        None => KillMode::ControlGroup,
    }
    &&& s.standard_input == match entries::last_of(es, "StandardInput"@) {
        Some(v) => service::stream_of(v)->Ok_0,
        None => StreamView::Inherit,
    }
    &&& s.standard_output == match entries::last_of(es, "StandardOutput"@) {
        Some(v) => service::stream_of(v)->Ok_0,
        None => StreamView::Inherit,
    }
    &&& s.standard_error == match entries::last_of(es, "StandardError"@) {
        Some(v) => service::stream_of(v)->Ok_0,
        None => StreamView::Inherit,
    }
}

proof fn lemma_choice_fold(path: Seq<char>, es: Seq<EntryView>, ws: Seq<ParseWarningView>)
    requires
        parse_service::service_entries(path, es, parse_service::fresh_service(), ws) is Ok,
    ensures
        choices_are_given(parse_service::service_entries(path, es, parse_service::fresh_service(), ws)->Ok_0.0, es),
    decreases es.len(),
{
    if es.len() > 0 {
        let m = parse_service::fresh_service();
        lemma_last(path, es, m, ws);
        let before = es.drop_last();
        let (n, vs) = parse_service::service_entries(path, before, m, ws)->Ok_0;
        lemma_choice_fold(path, before, ws);
        lemma_choice_step(path, n, vs, es.last());
    }
}

/// The service that a file makes.
pub open spec fn service_of_file(
    name: NameView,
    path: Seq<char>,
    source: Seq<char>,
    sections: Seq<SectionView>,
) -> ServiceView {
    spec::unit_of_sections(name, path, source, sections)->Ok_0.0.kind->Service_0
}

proof fn lemma_of_file(
    name: NameView,
    path: Seq<char>,
    source: Seq<char>,
    sections: Seq<SectionView>,
) -> (ws: Seq<ParseWarningView>)
    requires
        spec::unit_of_sections(name, path, source, sections) is Ok,
        name.kind is Service,
    ensures
        ({
            let r = parse_service::service_entries(
                path,
                ini::entries_or_none(sections, "Service"@),
                parse_service::fresh_service(),
                ws,
            );
            &&& r is Ok
            &&& spec::unit_of_sections(name, path, source, sections)->Ok_0.0.kind is Service
            &&& service_of_file(name, path, source, sections) == r->Ok_0.0
        }),
{
    let m0 = UnitView { raw: sections, source, ..spec::empty_unit(name) };
    let es = ini::entries_or_none(sections, "Unit"@);
    let (m, ws) = spec::unit_entries(path, es, m0, seq![])->Ok_0;
    spec::lemma_entries_keep_name(path, es, m0, seq![]);
    let is = ini::entries_or_none(sections, "Install"@);
    spec::lemma_install_keeps_name(path, is, m, ws);
    spec::install_entries(path, is, m, ws).1
}

/// Each directive of a service that is a text is the value of the last entry of
/// `[Service]` with that very name, and is not set where there is none.
pub proof fn service_texts_are_those_given(
    name: NameView,
    path: Seq<char>,
    source: Seq<char>,
    sections: Seq<SectionView>,
)
    requires
        spec::unit_of_sections(name, path, source, sections) is Ok,
        name.kind is Service,
    ensures
        spec::unit_of_sections(name, path, source, sections)->Ok_0.0.kind is Service,
        texts_are_given(
            service_of_file(name, path, source, sections),
            ini::entries_or_none(sections, "Service"@),
        ),
{
    let ws = lemma_of_file(name, path, source, sections);
    lemma_text_fold(path, ini::entries_or_none(sections, "Service"@), ws);
}

/// Each list of a service is, in order, what the values of the entries of
/// `[Service]` with that very name hold, and nothing else.
pub proof fn service_lists_are_those_given(
    name: NameView,
    path: Seq<char>,
    source: Seq<char>,
    sections: Seq<SectionView>,
)
    requires
        spec::unit_of_sections(name, path, source, sections) is Ok,
        name.kind is Service,
    ensures
        spec::unit_of_sections(name, path, source, sections)->Ok_0.0.kind is Service,
        lists_are_given(
            service_of_file(name, path, source, sections),
            ini::entries_or_none(sections, "Service"@),
        ),
{
    let ws = lemma_of_file(name, path, source, sections);
    lemma_list_fold(path, ini::entries_or_none(sections, "Service"@), ws);
}

/// Each list of commands of a service is, in order, the parsed values of just the
/// entries of `[Service]` with that very name.
pub proof fn service_commands_are_those_given(
    name: NameView,
    path: Seq<char>,
    source: Seq<char>,
    sections: Seq<SectionView>,
)
    requires
        spec::unit_of_sections(name, path, source, sections) is Ok,
        name.kind is Service,
    ensures
        spec::unit_of_sections(name, path, source, sections)->Ok_0.0.kind is Service,
        commands_are_given(
            service_of_file(name, path, source, sections),
            ini::entries_or_none(sections, "Service"@),
        ),
{
    let ws = lemma_of_file(name, path, source, sections);
    lemma_command_fold(path, ini::entries_or_none(sections, "Service"@), ws);
}

/// Each switch and each number of a service is the parsed value of the last entry
/// of `[Service]` with that very name, and has its default where there is none.
pub proof fn service_switches_are_those_given(
    name: NameView,
    path: Seq<char>,
    source: Seq<char>,
    sections: Seq<SectionView>,
)
    requires
        spec::unit_of_sections(name, path, source, sections) is Ok,
        name.kind is Service,
    ensures
        spec::unit_of_sections(name, path, source, sections)->Ok_0.0.kind is Service,
        switches_are_given(
            service_of_file(name, path, source, sections),
            ini::entries_or_none(sections, "Service"@),
        ),
{
    let ws = lemma_of_file(name, path, source, sections);
    lemma_switch_fold(path, ini::entries_or_none(sections, "Service"@), ws);
}

/// Each duration of a service is that of the last entry of `[Service]` that sets
/// it: `TimeoutSec=` sets the limits of both start and stop.
pub proof fn service_durations_are_those_given(
    name: NameView,
    path: Seq<char>,
    source: Seq<char>,
    sections: Seq<SectionView>,
)
    requires
        spec::unit_of_sections(name, path, source, sections) is Ok,
        name.kind is Service,
    ensures
        spec::unit_of_sections(name, path, source, sections)->Ok_0.0.kind is Service,
        durations_are_given(
            service_of_file(name, path, source, sections),
            ini::entries_or_none(sections, "Service"@),
        ),
{
    let ws = lemma_of_file(name, path, source, sections);
    lemma_duration_fold(path, ini::entries_or_none(sections, "Service"@), ws);
}

/// Each resource limit of a service is the parsed value of the last entry of
/// `[Service]` with that very name.
pub proof fn service_limits_are_those_given(
    name: NameView,
    path: Seq<char>,
    source: Seq<char>,
    sections: Seq<SectionView>,
)
    requires
        spec::unit_of_sections(name, path, source, sections) is Ok,
        name.kind is Service,
    ensures
        spec::unit_of_sections(name, path, source, sections)->Ok_0.0.kind is Service,
        limits_are_given(
            service_of_file(name, path, source, sections),
            ini::entries_or_none(sections, "Service"@),
        ),
{
    let ws = lemma_of_file(name, path, source, sections);
    lemma_limit_fold(path, ini::entries_or_none(sections, "Service"@), ws);
}

/// Each choice of a service is the parsed value of the last entry of `[Service]`
/// with that very name, and has its default where there is none.
pub proof fn service_choices_are_those_given(
    name: NameView,
    path: Seq<char>,
    source: Seq<char>,
    sections: Seq<SectionView>,
)
    requires
        spec::unit_of_sections(name, path, source, sections) is Ok,
        name.kind is Service,
    ensures
        spec::unit_of_sections(name, path, source, sections)->Ok_0.0.kind is Service,
        choices_are_given(
            service_of_file(name, path, source, sections),
            ini::entries_or_none(sections, "Service"@),
        ),
{
    let ws = lemma_of_file(name, path, source, sections);
    lemma_choice_fold(path, ini::entries_or_none(sections, "Service"@), ws);
}

} // verus!
