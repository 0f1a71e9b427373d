//! The names of directives and the words of values, told apart.
//!
//! Each name has a mark, a number made of its length and a few of its characters.
//! Names with different marks are different.

use vstd::prelude::*;

verus! {

/// The number of the character at an index, or 0 past the end.
spec fn letter(s: Seq<char>, i: int) -> int {
    if 0 <= i < s.len() {
        s[i] as u32 as int
    } else {
        0
    }
}

/// The mark of a name.
pub closed spec fn mark(s: Seq<char>) -> int {
    (((((((letter(s, 0) * 128 + letter(s, 1)) * 128 + letter(s, 2)) * 128 + letter(s, 3)) * 128
        + letter(s, 5)) * 128 + letter(s, 7)) * 128 + letter(s, 8)) * 128 + letter(s, 13)) * 64
        + s.len()
}

pub(crate) proof fn lemma_service_text_marks()
    ensures
        mark("PIDFile"@) == 2903002185484730375,
        mark("BusName"@) == 2411087417860685831,
        mark("StartLimitAction"@) == 3023256523949029968,
        mark("WorkingDirectory"@) == 3166001604798004176,
        mark("RootDirectory"@) == 2985851176615698445,
        mark("User"@) == 3095041428787560452,
        mark("Group"@) == 2590378837317517317,
        mark("KillSignal"@) == 2731954013123387402,
        mark("RestartKillSignal"@) == 2983045224122366417,
        mark("FinalKillSignal"@) == 2551814233067984975,
        mark("WatchdogSignal"@) == 3162065214425955086,
        mark("FileDescriptorStorePreserve"@) == 2551809907221224603,
{
    reveal_strlit("PIDFile");
    reveal_strlit("BusName");
    reveal_strlit("StartLimitAction");
    reveal_strlit("WorkingDirectory");
    reveal_strlit("RootDirectory");
    reveal_strlit("User");
    reveal_strlit("Group");
    reveal_strlit("KillSignal");
    reveal_strlit("RestartKillSignal");
    reveal_strlit("FinalKillSignal");
    reveal_strlit("WatchdogSignal");
    reveal_strlit("FileDescriptorStorePreserve");
}

pub(crate) proof fn lemma_service_list_marks()
    ensures
        mark("PassEnvironment"@) == 2909861712492387215,
        mark("UnsetEnvironment"@) == 3093664626276907344,
        mark("SupplementaryGroups"@) == 3023570953261928915,
        mark("Sockets"@) == 3021853432106450951,
        mark("EnvironmentFile"@) == 2517210545390402319,
        mark("Environment"@) == 2517210545390395403,
        mark("SuccessExitStatus"@) == 3023542144466884689,
        mark("RestartPreventExitStatus"@) == 2983045224127683864,
        mark("RestartForceExitStatus"@) == 2983045224117173782,
{
    reveal_strlit("PassEnvironment");
    reveal_strlit("UnsetEnvironment");
    reveal_strlit("SupplementaryGroups");
    reveal_strlit("Sockets");
    reveal_strlit("EnvironmentFile");
    reveal_strlit("Environment");
    reveal_strlit("SuccessExitStatus");
    reveal_strlit("RestartPreventExitStatus");
    reveal_strlit("RestartForceExitStatus");
}

pub(crate) proof fn lemma_service_command_marks()
    ensures
        mark("ExecStartPre"@) == 2519987809359396876,
        mark("ExecStart"@) == 2519987809359396873,
        mark("ExecStartPost"@) == 2519987809359396877,
        mark("ExecCondition"@) == 2519987808673538061,
        mark("ExecReload"@) == 2519987807342829578,
        mark("ExecStop"@) == 2519987809356349448,
        mark("ExecStopPost"@) == 2519987809357004812,
{
    reveal_strlit("ExecStartPre");
    reveal_strlit("ExecStart");
    reveal_strlit("ExecStartPost");
    reveal_strlit("ExecCondition");
    reveal_strlit("ExecReload");
    reveal_strlit("ExecStop");
    reveal_strlit("ExecStopPost");
}

pub(crate) proof fn lemma_service_switch_marks()
    ensures
        mark("RemainAfterExit"@) == 2983031703056849487,
        mark("GuessMainPID"@) == 2591201248101122060,
        mark("SendSIGKILL"@) == 3019062745643950091,
        mark("SendSIGHUP"@) == 3019062745640902666,
        mark("RestartSteps"@) == 2983045224130838540,
        mark("StartLimitBurst"@) == 3023256523949030607,
        mark("FileDescriptorStoreMax"@) == 2551809907221224598,
        mark("Nice"@) == 2840020478502895620,
        mark("UMask"@) == 3084336600759402501,
{
    reveal_strlit("RemainAfterExit");
    reveal_strlit("GuessMainPID");
    reveal_strlit("SendSIGKILL");
    reveal_strlit("SendSIGHUP");
    reveal_strlit("RestartSteps");
    reveal_strlit("StartLimitBurst");
    reveal_strlit("FileDescriptorStoreMax");
    reveal_strlit("Nice");
    reveal_strlit("UMask");
}

pub(crate) proof fn lemma_service_duration_marks()
    ensures
        mark("RestartSec"@) == 2983045224130715658,
        mark("RestartMaxDelaySec"@) == 2983045224124397650,
        mark("TimeoutStartSec"@) == 3056215266640697679,
        mark("TimeoutStopSec"@) == 3056215266640697550,
        mark("TimeoutAbortSec"@) == 3056215266621675855,
        mark("TimeoutSec"@) == 3056215266640568330,
        mark("RuntimeMaxSec"@) == 2987537827964395533,
        mark("RuntimeRandomizedExtraSec"@) == 2987537827969645145,
        mark("WatchdogSec"@) == 3162065214425948171,
        mark("StartLimitIntervalSec"@) == 3023256523949029717,
        mark("StartLimitInterval"@) == 3023256523949029714,
{
    reveal_strlit("RestartSec");
    reveal_strlit("RestartMaxDelaySec");
    reveal_strlit("TimeoutStartSec");
    reveal_strlit("TimeoutStopSec");
    reveal_strlit("TimeoutAbortSec");
    reveal_strlit("TimeoutSec");
    reveal_strlit("RuntimeMaxSec");
    reveal_strlit("RuntimeRandomizedExtraSec");
    reveal_strlit("WatchdogSec");
    reveal_strlit("StartLimitIntervalSec");
    reveal_strlit("StartLimitInterval");
}

pub(crate) proof fn lemma_service_limit_marks()
    ensures
        mark("LimitNOFILE"@) == 2767984953959981067,
        mark("LimitNPROC"@) == 2767984953972613130,
        mark("LimitCORE"@) == 2767984952496136201,
        mark("LimitAS"@) == 2767984952141152263,
        mark("LimitDATA"@) == 2767984952632418313,
        mark("LimitSTACK"@) == 2767984954625777674,
        mark("LimitFSIZE"@) == 2767984952889524234,
        mark("LimitCPU"@) == 2767984952498716680,
        mark("LimitRSS"@) == 2767984954509885448,
        mark("LimitMEMLOCK"@) == 2767984953833127948,
        mark("LimitMSGQUEUE"@) == 2767984953826877453,
        mark("LimitNICE"@) == 2767984953956802569,
        mark("LimitRTPRIO"@) == 2767984954507411467,
        mark("LimitRTTIME"@) == 2767984954511532043,
        mark("LimitSIGPENDING"@) == 2767984954632180623,
        mark("LimitLOCKS"@) == 2767984953688416266,
{
    reveal_strlit("LimitNOFILE");
    reveal_strlit("LimitNPROC");
    reveal_strlit("LimitCORE");
    reveal_strlit("LimitAS");
    reveal_strlit("LimitDATA");
    reveal_strlit("LimitSTACK");
    reveal_strlit("LimitFSIZE");
    reveal_strlit("LimitCPU");
    reveal_strlit("LimitRSS");
    reveal_strlit("LimitMEMLOCK");
    reveal_strlit("LimitMSGQUEUE");
    reveal_strlit("LimitNICE");
    reveal_strlit("LimitRTPRIO");
    reveal_strlit("LimitRTTIME");
    reveal_strlit("LimitSIGPENDING");
    reveal_strlit("LimitLOCKS");
}

pub(crate) proof fn lemma_service_choice_marks()
    ensures
        mark("Type"@) == 3060725447546372100,
        mark("NotifyAccess"@) == 2841746796822945804,
        mark("Restart"@) == 2983045224042856455,
        mark("KillMode"@) == 2731954013918461960,
        mark("StandardInput"@) == 3023256458038419469,
        mark("StandardOutput"@) == 3023256458038476046,
        mark("StandardError"@) == 3023256458038386701,
{
    reveal_strlit("Type");
    reveal_strlit("NotifyAccess");
    reveal_strlit("Restart");
    reveal_strlit("KillMode");
    reveal_strlit("StandardInput");
    reveal_strlit("StandardOutput");
    reveal_strlit("StandardError");
}

pub(crate) proof fn lemma_service_marks()
    ensures
        mark("PIDFile"@) == 2903002185484730375,
        mark("BusName"@) == 2411087417860685831,
        mark("StartLimitAction"@) == 3023256523949029968,
        mark("WorkingDirectory"@) == 3166001604798004176,
        mark("RootDirectory"@) == 2985851176615698445,
        mark("User"@) == 3095041428787560452,
        mark("Group"@) == 2590378837317517317,
        mark("KillSignal"@) == 2731954013123387402,
        mark("RestartKillSignal"@) == 2983045224122366417,
        mark("FinalKillSignal"@) == 2551814233067984975,
        mark("WatchdogSignal"@) == 3162065214425955086,
        mark("FileDescriptorStorePreserve"@) == 2551809907221224603,
        mark("PassEnvironment"@) == 2909861712492387215,
        mark("UnsetEnvironment"@) == 3093664626276907344,
        mark("SupplementaryGroups"@) == 3023570953261928915,
        mark("Sockets"@) == 3021853432106450951,
        mark("EnvironmentFile"@) == 2517210545390402319,
        mark("Environment"@) == 2517210545390395403,
        mark("SuccessExitStatus"@) == 3023542144466884689,
        mark("RestartPreventExitStatus"@) == 2983045224127683864,
        mark("RestartForceExitStatus"@) == 2983045224117173782,
        mark("ExecStartPre"@) == 2519987809359396876,
        mark("ExecStart"@) == 2519987809359396873,
        mark("ExecStartPost"@) == 2519987809359396877,
        mark("ExecCondition"@) == 2519987808673538061,
        mark("ExecReload"@) == 2519987807342829578,
        mark("ExecStop"@) == 2519987809356349448,
        mark("ExecStopPost"@) == 2519987809357004812,
        mark("RemainAfterExit"@) == 2983031703056849487,
        mark("GuessMainPID"@) == 2591201248101122060,
        mark("SendSIGKILL"@) == 3019062745643950091,
        mark("SendSIGHUP"@) == 3019062745640902666,
        mark("RestartSteps"@) == 2983045224130838540,
        mark("StartLimitBurst"@) == 3023256523949030607,
        mark("FileDescriptorStoreMax"@) == 2551809907221224598,
        mark("Nice"@) == 2840020478502895620,
        mark("UMask"@) == 3084336600759402501,
        mark("RestartSec"@) == 2983045224130715658,
        mark("RestartMaxDelaySec"@) == 2983045224124397650,
        mark("TimeoutStartSec"@) == 3056215266640697679,
        mark("TimeoutStopSec"@) == 3056215266640697550,
        mark("TimeoutAbortSec"@) == 3056215266621675855,
        mark("TimeoutSec"@) == 3056215266640568330,
        mark("RuntimeMaxSec"@) == 2987537827964395533,
        mark("RuntimeRandomizedExtraSec"@) == 2987537827969645145,
        mark("WatchdogSec"@) == 3162065214425948171,
        mark("StartLimitIntervalSec"@) == 3023256523949029717,
        mark("StartLimitInterval"@) == 3023256523949029714,
        mark("LimitNOFILE"@) == 2767984953959981067,
        mark("LimitNPROC"@) == 2767984953972613130,
        mark("LimitCORE"@) == 2767984952496136201,
        mark("LimitAS"@) == 2767984952141152263,
        mark("LimitDATA"@) == 2767984952632418313,
        mark("LimitSTACK"@) == 2767984954625777674,
        mark("LimitFSIZE"@) == 2767984952889524234,
        mark("LimitCPU"@) == 2767984952498716680,
        mark("LimitRSS"@) == 2767984954509885448,
        mark("LimitMEMLOCK"@) == 2767984953833127948,
        mark("LimitMSGQUEUE"@) == 2767984953826877453,
        mark("LimitNICE"@) == 2767984953956802569,
        mark("LimitRTPRIO"@) == 2767984954507411467,
        mark("LimitRTTIME"@) == 2767984954511532043,
        mark("LimitSIGPENDING"@) == 2767984954632180623,
        mark("LimitLOCKS"@) == 2767984953688416266,
        mark("Type"@) == 3060725447546372100,
        mark("NotifyAccess"@) == 2841746796822945804,
        mark("Restart"@) == 2983045224042856455,
        mark("KillMode"@) == 2731954013918461960,
        mark("StandardInput"@) == 3023256458038419469,
        mark("StandardOutput"@) == 3023256458038476046,
        mark("StandardError"@) == 3023256458038386701,
{
    lemma_service_text_marks();
    lemma_service_list_marks();
    lemma_service_command_marks();
    lemma_service_switch_marks();
    lemma_service_duration_marks();
    lemma_service_limit_marks();
    lemma_service_choice_marks();
}

pub(crate) proof fn lemma_socket_listen_marks()
    ensures
        mark("ListenStream"@) == 2767998341421613068,
        mark("ListenDatagram"@) == 2767998341401713486,
        mark("ListenSequentialPacket"@) == 2767998341405882966,
        mark("ListenFIFO"@) == 2767998341376163850,
        mark("ListenSpecial"@) == 2767998341417312269,
{
    reveal_strlit("ListenStream");
    reveal_strlit("ListenDatagram");
    reveal_strlit("ListenSequentialPacket");
    reveal_strlit("ListenFIFO");
    reveal_strlit("ListenSpecial");
}

pub(crate) proof fn lemma_socket_switch_marks()
    ensures
        mark("Accept"@) == 2369957282965356550,
        mark("KeepAlive"@) == 2730812789184307209,
        mark("NoDelay"@) == 2841641171661357063,
        mark("ReusePort"@) == 2983049600466583561,
{
    reveal_strlit("Accept");
    reveal_strlit("KeepAlive");
    reveal_strlit("NoDelay");
    reveal_strlit("ReusePort");
}

pub(crate) proof fn lemma_socket_permission_marks()
    ensures
        mark("Transparent"@) == 3058722307132137483,
        mark("Broadcast"@) == 2410234522034405385,
        mark("PassPacketInfo"@) == 2909861710749547470,
        mark("RemoveOnStop"@) == 2983031942375170060,
{
    reveal_strlit("Transparent");
    reveal_strlit("Broadcast");
    reveal_strlit("PassPacketInfo");
    reveal_strlit("RemoveOnStop");
}

pub(crate) proof fn lemma_socket_number_marks()
    ensures
        mark("MaxConnections"@) == 2801785491913735374,
        mark("MaxConnectionsPerSource"@) == 2801785491913735383,
        mark("Backlog"@) == 2405423232439025671,
        mark("KeepAliveProbes"@) == 2730812789184313679,
        mark("Priority"@) == 2914624727489183752,
        mark("ReceiveBuffer"@) == 2983009782579765261,
        mark("SendBuffer"@) == 3019062751578071050,
{
    reveal_strlit("MaxConnections");
    reveal_strlit("MaxConnectionsPerSource");
    reveal_strlit("Backlog");
    reveal_strlit("KeepAliveProbes");
    reveal_strlit("Priority");
    reveal_strlit("ReceiveBuffer");
    reveal_strlit("SendBuffer");
}

pub(crate) proof fn lemma_socket_limit_marks()
    ensures
        mark("IPTTL"@) == 2652806341583699973,
        mark("Mark"@) == 2801772970098294788,
        mark("SocketMode"@) == 3021853432223662090,
        mark("DirectoryMode"@) == 2479765509351874573,
        mark("TriggerLimitBurst"@) == 3058739777542896977,
        mark("MessageQueueMaxMessages"@) == 2802901220377671767,
        mark("MessageQueueMessageSize"@) == 2802901220377672023,
{
    reveal_strlit("IPTTL");
    reveal_strlit("Mark");
    reveal_strlit("SocketMode");
    reveal_strlit("DirectoryMode");
    reveal_strlit("TriggerLimitBurst");
    reveal_strlit("MessageQueueMaxMessages");
    reveal_strlit("MessageQueueMessageSize");
}

pub(crate) proof fn lemma_socket_duration_marks()
    ensures
        mark("KeepAliveTimeSec"@) == 2730812789184312528,
        mark("KeepAliveIntervalSec"@) == 2730812789184314516,
        mark("DeferAcceptSec"@) == 2478613214304975054,
        mark("TriggerLimitIntervalSec"@) == 3058739777542896535,
{
    reveal_strlit("KeepAliveTimeSec");
    reveal_strlit("KeepAliveIntervalSec");
    reveal_strlit("DeferAcceptSec");
    reveal_strlit("TriggerLimitIntervalSec");
}

pub(crate) proof fn lemma_socket_text_marks()
    ensures
        mark("IPTOS"@) == 2652806255684354053,
        mark("SocketUser"@) == 3021853432227864586,
        mark("SocketGroup"@) == 3021853432226897931,
        mark("FileDescriptorName"@) == 2551809907221224594,
        mark("Symlinks"@) == 3024690188601262088,
        mark("Service"@) == 3019071854385037319,
        mark("BindIPv6Only"@) == 2407699097145958412,
{
    reveal_strlit("IPTOS");
    reveal_strlit("SocketUser");
    reveal_strlit("SocketGroup");
    reveal_strlit("FileDescriptorName");
    reveal_strlit("Symlinks");
    reveal_strlit("Service");
    reveal_strlit("BindIPv6Only");
}

pub(crate) proof fn lemma_socket_linux_key_marks()
    ensures
        mark("PassCredentials"@) == 2909861713023908623,
        mark("PassSecurity"@) == 2909861711297003532,
        mark("BindToDevice"@) == 2407699101356310540,
        mark("ListenNetlink"@) == 2767998341405900813,
        mark("ListenMessageQueue"@) == 2767998341405897810,
        mark("ListenUSBFunction"@) == 2767998341386624273,
{
    reveal_strlit("PassCredentials");
    reveal_strlit("PassSecurity");
    reveal_strlit("BindToDevice");
    reveal_strlit("ListenNetlink");
    reveal_strlit("ListenMessageQueue");
    reveal_strlit("ListenUSBFunction");
}

pub(crate) proof fn lemma_socket_marks()
    ensures
        mark("ListenStream"@) == 2767998341421613068,
        mark("ListenDatagram"@) == 2767998341401713486,
        mark("ListenSequentialPacket"@) == 2767998341405882966,
        mark("ListenFIFO"@) == 2767998341376163850,
        mark("ListenSpecial"@) == 2767998341417312269,
        mark("Accept"@) == 2369957282965356550,
        mark("KeepAlive"@) == 2730812789184307209,
        mark("NoDelay"@) == 2841641171661357063,
        mark("ReusePort"@) == 2983049600466583561,
        mark("Transparent"@) == 3058722307132137483,
        mark("Broadcast"@) == 2410234522034405385,
        mark("PassPacketInfo"@) == 2909861710749547470,
        mark("RemoveOnStop"@) == 2983031942375170060,
        mark("MaxConnections"@) == 2801785491913735374,
        mark("MaxConnectionsPerSource"@) == 2801785491913735383,
        mark("Backlog"@) == 2405423232439025671,
        mark("KeepAliveProbes"@) == 2730812789184313679,
        mark("Priority"@) == 2914624727489183752,
        mark("ReceiveBuffer"@) == 2983009782579765261,
        mark("SendBuffer"@) == 3019062751578071050,
        mark("IPTTL"@) == 2652806341583699973,
        mark("Mark"@) == 2801772970098294788,
        mark("SocketMode"@) == 3021853432223662090,
        mark("DirectoryMode"@) == 2479765509351874573,
        mark("TriggerLimitBurst"@) == 3058739777542896977,
        mark("MessageQueueMaxMessages"@) == 2802901220377671767,
        mark("MessageQueueMessageSize"@) == 2802901220377672023,
        mark("KeepAliveTimeSec"@) == 2730812789184312528,
        mark("KeepAliveIntervalSec"@) == 2730812789184314516,
        mark("DeferAcceptSec"@) == 2478613214304975054,
        mark("TriggerLimitIntervalSec"@) == 3058739777542896535,
        mark("IPTOS"@) == 2652806255684354053,
        mark("SocketUser"@) == 3021853432227864586,
        mark("SocketGroup"@) == 3021853432226897931,
        mark("FileDescriptorName"@) == 2551809907221224594,
        mark("Symlinks"@) == 3024690188601262088,
        mark("Service"@) == 3019071854385037319,
        mark("BindIPv6Only"@) == 2407699097145958412,
        mark("PassCredentials"@) == 2909861713023908623,
        mark("PassSecurity"@) == 2909861711297003532,
        mark("BindToDevice"@) == 2407699101356310540,
        mark("ListenNetlink"@) == 2767998341405900813,
        mark("ListenMessageQueue"@) == 2767998341405897810,
        mark("ListenUSBFunction"@) == 2767998341386624273,
{
    lemma_socket_listen_marks();
    lemma_socket_switch_marks();
    lemma_socket_permission_marks();
    lemma_socket_number_marks();
    lemma_socket_limit_marks();
    lemma_socket_duration_marks();
    lemma_socket_text_marks();
    lemma_socket_linux_key_marks();
}

pub(crate) proof fn lemma_timer_trigger_marks()
    ensures
        mark("OnCalendar"@) == 2877386226603401226,
        mark("OnActiveSec"@) == 2877381863454433291,
        mark("OnBootSec"@) == 2877384270112645129,
        mark("OnStartupSec"@) == 2877421739155783692,
        mark("OnUnitActiveSec"@) == 2877426034372680015,
        mark("OnUnitInactiveSec"@) == 2877426034384058705,
        mark("AccuracySec"@) == 2369957555420684299,
        mark("RandomizedDelaySec"@) == 2981908053599500370,
{
    reveal_strlit("OnCalendar");
    reveal_strlit("OnActiveSec");
    reveal_strlit("OnBootSec");
    reveal_strlit("OnStartupSec");
    reveal_strlit("OnUnitActiveSec");
    reveal_strlit("OnUnitInactiveSec");
    reveal_strlit("AccuracySec");
    reveal_strlit("RandomizedDelaySec");
}

pub(crate) proof fn lemma_timer_switch_marks()
    ensures
        mark("OnClockChange"@) == 2877386415278981133,
        mark("OnTimezoneChange"@) == 2877423747449346960,
        mark("FixedRandomDelay"@) == 2551836292961573648,
        mark("Persistent"@) == 2910985414042828810,
        mark("WakeSystem"@) == 3162045460408737802,
        mark("RemainAfterElapse"@) == 2983031703056848977,
        mark("DeferReactivation"@) == 2478613216584563985,
        mark("Unit"@) == 3093642884356767748,
{
    reveal_strlit("OnClockChange");
    reveal_strlit("OnTimezoneChange");
    reveal_strlit("FixedRandomDelay");
    reveal_strlit("Persistent");
    reveal_strlit("WakeSystem");
    reveal_strlit("RemainAfterElapse");
    reveal_strlit("DeferReactivation");
    reveal_strlit("Unit");
}

pub(crate) proof fn lemma_timer_marks()
    ensures
        mark("OnCalendar"@) == 2877386226603401226,
        mark("OnActiveSec"@) == 2877381863454433291,
        mark("OnBootSec"@) == 2877384270112645129,
        mark("OnStartupSec"@) == 2877421739155783692,
        mark("OnUnitActiveSec"@) == 2877426034372680015,
        mark("OnUnitInactiveSec"@) == 2877426034384058705,
        mark("AccuracySec"@) == 2369957555420684299,
        mark("RandomizedDelaySec"@) == 2981908053599500370,
        mark("OnClockChange"@) == 2877386415278981133,
        mark("OnTimezoneChange"@) == 2877423747449346960,
        mark("FixedRandomDelay"@) == 2551836292961573648,
        mark("Persistent"@) == 2910985414042828810,
        mark("WakeSystem"@) == 3162045460408737802,
        mark("RemainAfterElapse"@) == 2983031703056848977,
        mark("DeferReactivation"@) == 2478613216584563985,
        mark("Unit"@) == 3093642884356767748,
{
    lemma_timer_trigger_marks();
    lemma_timer_switch_marks();
}

pub(crate) proof fn lemma_path_directive_marks()
    ensures
        mark("PathExists"@) == 2909863723889754122,
        mark("PathExistsGlob"@) == 2909863723889760398,
        mark("PathChanged"@) == 2909863721736921099,
        mark("PathModified"@) == 2909863722671194124,
        mark("DirectoryNotEmpty"@) == 2479765509351881553,
        mark("Unit"@) == 3093642884356767748,
        mark("MakeDirectory"@) == 2801757488055869453,
        mark("DirectoryMode"@) == 2479765509351874573,
        mark("TriggerLimitIntervalSec"@) == 3058739777542896535,
        mark("TriggerLimitBurst"@) == 3058739777542896977,
{
    reveal_strlit("PathExists");
    reveal_strlit("PathExistsGlob");
    reveal_strlit("PathChanged");
    reveal_strlit("PathModified");
    reveal_strlit("DirectoryNotEmpty");
    reveal_strlit("Unit");
    reveal_strlit("MakeDirectory");
    reveal_strlit("DirectoryMode");
    reveal_strlit("TriggerLimitIntervalSec");
    reveal_strlit("TriggerLimitBurst");
}

pub(crate) proof fn lemma_deps_directive_marks()
    ensures
        mark("After"@) == 2370839075721576453,
        mark("Before"@) == 2406555796792934406,
        mark("Wants"@) == 3162052298813734917,
        mark("Requires"@) == 2983040843296800776,
        mark("Requisite"@) == 2983040843432894473,
        mark("BindsTo"@) == 2407699097625559047,
        mark("PartOf"@) == 2909859529464217606,
        mark("Upholds"@) == 3094203562809360391,
        mark("Conflicts"@) == 2445416781805674505,
        mark("OnFailure"@) == 2877392824627404809,
        mark("OnSuccess"@) == 2877421754320314377,
        mark("PropagatesReloadTo"@) == 2914637938535742418,
        mark("ReloadPropagatedFrom"@) == 2983029743222127892,
        mark("PropagatesStopTo"@) == 2914637938535742480,
        mark("StopPropagatedFrom"@) == 3023287281018222866,
        mark("JoinsNamespaceOf"@) == 2697607499629771088,
{
    reveal_strlit("After");
    reveal_strlit("Before");
    reveal_strlit("Wants");
    reveal_strlit("Requires");
    reveal_strlit("Requisite");
    reveal_strlit("BindsTo");
    reveal_strlit("PartOf");
    reveal_strlit("Upholds");
    reveal_strlit("Conflicts");
    reveal_strlit("OnFailure");
    reveal_strlit("OnSuccess");
    reveal_strlit("PropagatesReloadTo");
    reveal_strlit("ReloadPropagatedFrom");
    reveal_strlit("PropagatesStopTo");
    reveal_strlit("StopPropagatedFrom");
    reveal_strlit("JoinsNamespaceOf");
}

pub(crate) proof fn lemma_unit_text_marks()
    ensures
        mark("Description"@) == 2478641772634120203,
        mark("Documentation"@) == 2481421646729846797,
        mark("OnFailureJobMode"@) == 2877392824627411920,
        mark("CollectMode"@) == 2445412485992144907,
        mark("FailureAction"@) == 2549551632305905677,
        mark("SuccessAction"@) == 3023542144462512141,
        mark("RebootArgument"@) == 2983007755136990478,
        mark("SourcePath"@) == 3021893132873531402,
        mark("JobTimeoutSec"@) == 2697591663953354765,
        mark("JobRunningTimeoutSec"@) == 2697591629721491796,
{
    reveal_strlit("Description");
    reveal_strlit("Documentation");
    reveal_strlit("OnFailureJobMode");
    reveal_strlit("CollectMode");
    reveal_strlit("FailureAction");
    reveal_strlit("SuccessAction");
    reveal_strlit("RebootArgument");
    reveal_strlit("SourcePath");
    reveal_strlit("JobTimeoutSec");
    reveal_strlit("JobRunningTimeoutSec");
}

pub(crate) proof fn lemma_unit_switch_marks()
    ensures
        mark("DefaultDependencies"@) == 2478613151324354899,
        mark("StopWhenUnneeded"@) == 3023287279673850128,
        mark("RefuseManualStart"@) == 2983016652278193425,
        mark("RefuseManualStop"@) == 2983016652278193424,
        mark("AllowIsolate"@) == 2372510515109658636,
        mark("IgnoreOnIsolate"@) == 2659337918181096719,
{
    reveal_strlit("DefaultDependencies");
    reveal_strlit("StopWhenUnneeded");
    reveal_strlit("RefuseManualStart");
    reveal_strlit("RefuseManualStop");
    reveal_strlit("AllowIsolate");
    reveal_strlit("IgnoreOnIsolate");
}

pub(crate) proof fn lemma_unit_marks()
    ensures
        mark("After"@) == 2370839075721576453,
        mark("Before"@) == 2406555796792934406,
        mark("Wants"@) == 3162052298813734917,
        mark("Requires"@) == 2983040843296800776,
        mark("Requisite"@) == 2983040843432894473,
        mark("BindsTo"@) == 2407699097625559047,
        mark("PartOf"@) == 2909859529464217606,
        mark("Upholds"@) == 3094203562809360391,
        mark("Conflicts"@) == 2445416781805674505,
        mark("OnFailure"@) == 2877392824627404809,
        mark("OnSuccess"@) == 2877421754320314377,
        mark("PropagatesReloadTo"@) == 2914637938535742418,
        mark("ReloadPropagatedFrom"@) == 2983029743222127892,
        mark("PropagatesStopTo"@) == 2914637938535742480,
        mark("StopPropagatedFrom"@) == 3023287281018222866,
        mark("JoinsNamespaceOf"@) == 2697607499629771088,
        mark("Description"@) == 2478641772634120203,
        mark("Documentation"@) == 2481421646729846797,
        mark("OnFailureJobMode"@) == 2877392824627411920,
        mark("CollectMode"@) == 2445412485992144907,
        mark("FailureAction"@) == 2549551632305905677,
        mark("SuccessAction"@) == 3023542144462512141,
        mark("RebootArgument"@) == 2983007755136990478,
        mark("SourcePath"@) == 3021893132873531402,
        mark("JobTimeoutSec"@) == 2697591663953354765,
        mark("JobRunningTimeoutSec"@) == 2697591629721491796,
        mark("DefaultDependencies"@) == 2478613151324354899,
        mark("StopWhenUnneeded"@) == 3023287279673850128,
        mark("RefuseManualStart"@) == 2983016652278193425,
        mark("RefuseManualStop"@) == 2983016652278193424,
        mark("AllowIsolate"@) == 2372510515109658636,
        mark("IgnoreOnIsolate"@) == 2659337918181096719,
{
    lemma_deps_directive_marks();
    lemma_unit_text_marks();
    lemma_unit_switch_marks();
}

pub(crate) proof fn lemma_install_directive_marks()
    ensures
        mark("WantedBy"@) == 3162052312362385416,
        mark("RequiredBy"@) == 2983040843281612810,
        mark("UpheldBy"@) == 3094203391137546248,
        mark("Also"@) == 2372525898357276676,
        mark("Alias"@) == 2372503667606552581,
        mark("DefaultInstance"@) == 2478613151329671375,
{
    reveal_strlit("WantedBy");
    reveal_strlit("RequiredBy");
    reveal_strlit("UpheldBy");
    reveal_strlit("Also");
    reveal_strlit("Alias");
    reveal_strlit("DefaultInstance");
}

pub(crate) proof fn lemma_cgroup_key_marks()
    ensures
        mark("CPUAccounting"@) == 2436635445486796813,
        mark("CPUWeight"@) == 2436635824235642889,
        mark("StartupCPUWeight"@) == 3023256529407711696,
        mark("CPUShares"@) == 2436635754439270409,
        mark("CPUQuota"@) == 2436635721953443848,
        mark("CPUQuotaPeriodSec"@) == 2436635721954105617,
        mark("AllowedCPUs"@) == 2372510518821388299,
        mark("AllowedMemoryNodes"@) == 2372510518832051090,
        mark("MemoryAccounting"@) == 2802887959953308240,
        mark("MemoryMin"@) == 2802887959959683081,
        mark("MemoryLow"@) == 2802887959966048265,
        mark("MemoryHigh"@) == 2802887959959625738,
        mark("MemoryMax"@) == 2802887959951376393,
        mark("MemorySwapMax"@) == 2802887959974256653,
        mark("MemoryLimit"@) == 2802887959959674891,
        mark("TasksAccounting"@) == 3053976757083175823,
        mark("TasksMax"@) == 3053976758714892296,
        mark("IOAccounting"@) == 2652483357877633036,
        mark("IOWeight"@) == 2652531769680592904,
        mark("IODeviceWeight"@) == 2652489988492164366,
        mark("IOReadBandwidthMax"@) == 2652520774142647570,
        mark("IOWriteBandwidthMax"@) == 2652531994712094995,
        mark("IOReadIOPSMax"@) == 2652520774123520013,
        mark("IOWriteIOPSMax"@) == 2652531994719288846,
        mark("BlockIOAccounting"@) == 2408545702991658257,
        mark("BlockIOWeight"@) == 2408545703014735885,
        mark("IPAccounting"@) == 2652764832854343692,
        mark("IPAddressAllow"@) == 2652764850442108366,
        mark("IPAddressDeny"@) == 2652764850442100749,
        mark("DeviceAllow"@) == 2478648472237867019,
        mark("DevicePolicy"@) == 2478648472241012748,
        mark("Slice"@) == 3021022048307642373,
        mark("Delegate"@) == 2478626412740739080,
{
    reveal_strlit("CPUAccounting");
    reveal_strlit("CPUWeight");
    reveal_strlit("StartupCPUWeight");
    reveal_strlit("CPUShares");
    reveal_strlit("CPUQuota");
    reveal_strlit("CPUQuotaPeriodSec");
    reveal_strlit("AllowedCPUs");
    reveal_strlit("AllowedMemoryNodes");
    reveal_strlit("MemoryAccounting");
    reveal_strlit("MemoryMin");
    reveal_strlit("MemoryLow");
    reveal_strlit("MemoryHigh");
    reveal_strlit("MemoryMax");
    reveal_strlit("MemorySwapMax");
    reveal_strlit("MemoryLimit");
    reveal_strlit("TasksAccounting");
    reveal_strlit("TasksMax");
    reveal_strlit("IOAccounting");
    reveal_strlit("IOWeight");
    reveal_strlit("IODeviceWeight");
    reveal_strlit("IOReadBandwidthMax");
    reveal_strlit("IOWriteBandwidthMax");
    reveal_strlit("IOReadIOPSMax");
    reveal_strlit("IOWriteIOPSMax");
    reveal_strlit("BlockIOAccounting");
    reveal_strlit("BlockIOWeight");
    reveal_strlit("IPAccounting");
    reveal_strlit("IPAddressAllow");
    reveal_strlit("IPAddressDeny");
    reveal_strlit("DeviceAllow");
    reveal_strlit("DevicePolicy");
    reveal_strlit("Slice");
    reveal_strlit("Delegate");
}

pub(crate) proof fn lemma_namespace_key_marks()
    ensures
        mark("BindPaths"@) == 2407699099480383497,
        mark("BindReadOnlyPaths"@) == 2407699100012771409,
        mark("ReadWritePaths"@) == 2983005366868819150,
        mark("InaccessiblePaths"@) == 2661279449562822737,
        mark("TemporaryFileSystem"@) == 3055089555342308563,
        mark("MountFlags"@) == 2805720277879414794,
        mark("RootImage"@) == 2985851177154682889,
        mark("NetworkNamespacePath"@) == 2838932286612453460,
        mark("ProcSubset"@) == 2914637717075435530,
        mark("RestrictNamespaces"@) == 2983045222957177874,
{
    reveal_strlit("BindPaths");
    reveal_strlit("BindReadOnlyPaths");
    reveal_strlit("ReadWritePaths");
    reveal_strlit("InaccessiblePaths");
    reveal_strlit("TemporaryFileSystem");
    reveal_strlit("MountFlags");
    reveal_strlit("RootImage");
    reveal_strlit("NetworkNamespacePath");
    reveal_strlit("ProcSubset");
    reveal_strlit("RestrictNamespaces");
}

pub(crate) proof fn lemma_seccomp_key_marks()
    ensures
        mark("SystemCallFilter"@) == 3024703520027548944,
        mark("SystemCallErrorNumber"@) == 3024703520027548629,
        mark("SystemCallArchitectures"@) == 3024703520027548183,
        mark("SystemCallLog"@) == 3024703520027541517,
        mark("RestrictAddressFamilies"@) == 2983045222957071575,
        mark("RestrictRealtime"@) == 2983045222957210192,
        mark("RestrictSUIDSGID"@) == 2983045222957216208,
        mark("MemoryDenyWriteExecute"@) == 2802887959955496214,
        mark("LockPersonality"@) == 2769651851081940239,
        mark("NoNewPrivileges"@) == 2841663159723284815,
{
    reveal_strlit("SystemCallFilter");
    reveal_strlit("SystemCallErrorNumber");
    reveal_strlit("SystemCallArchitectures");
    reveal_strlit("SystemCallLog");
    reveal_strlit("RestrictAddressFamilies");
    reveal_strlit("RestrictRealtime");
    reveal_strlit("RestrictSUIDSGID");
    reveal_strlit("MemoryDenyWriteExecute");
    reveal_strlit("LockPersonality");
    reveal_strlit("NoNewPrivileges");
}

pub(crate) proof fn lemma_capability_key_marks()
    ensures
        mark("CapabilityBoundingSet"@) == 2441480444267371413,
        mark("AmbientCapabilities"@) == 2372769901694434067,
        mark("SecureBits"@) == 3019038852235821066,
{
    reveal_strlit("CapabilityBoundingSet");
    reveal_strlit("AmbientCapabilities");
    reveal_strlit("SecureBits");
}

pub(crate) proof fn lemma_mac_key_marks()
    ensures
        mark("SELinuxContext"@) == 3009980871395376398,
        mark("AppArmorProfile"@) == 2373644425670302479,
        mark("SmackProcessLabel"@) == 3021285941952936017,
{
    reveal_strlit("SELinuxContext");
    reveal_strlit("AppArmorProfile");
    reveal_strlit("SmackProcessLabel");
}

pub(crate) proof fn lemma_other_key_marks()
    ensures
        mark("DynamicUser"@) == 2484260242659893259,
        mark("PAMName"@) == 2900770314453516295,
        mark("OOMScoreAdjust"@) == 2868682253382728974,
        mark("OOMPolicy"@) == 2868682201438822409,
        mark("KeyringMode"@) == 2730856804234682379,
{
    reveal_strlit("DynamicUser");
    reveal_strlit("PAMName");
    reveal_strlit("OOMScoreAdjust");
    reveal_strlit("OOMPolicy");
    reveal_strlit("KeyringMode");
}

pub(crate) proof fn lemma_type_word_marks()
    ensures
        mark("simple"@) == 4173108160971669510,
        mark("exec"@) == 3672909298276499460,
        mark("forking"@) == 3706433560010293255,
        mark("oneshot"@) == 4030382808475107335,
        mark("notify"@) == 3994668301325172742,
        mark("notify-reload"@) == 3994668301445537805,
        mark("dbus"@) == 3630723511019896836,
        mark("idle"@) == 3811410414340669444,
{
    reveal_strlit("simple");
    reveal_strlit("exec");
    reveal_strlit("forking");
    reveal_strlit("oneshot");
    reveal_strlit("notify");
    reveal_strlit("notify-reload");
    reveal_strlit("dbus");
    reveal_strlit("idle");
}

pub(crate) proof fn lemma_restart_word_marks()
    ensures
        mark("no"@) == 3994411394500919298,
        mark("always"@) == 3525455973974016006,
        mark("on-success"@) == 4030259661669031946,
        mark("on-failure"@) == 4030259439152807946,
        mark("on-abnormal"@) == 4030259353921363979,
        mark("on-watchdog"@) == 4030259732673232907,
        mark("on-abort"@) == 4030259354056785928,
{
    reveal_strlit("no");
    reveal_strlit("always");
    reveal_strlit("on-success");
    reveal_strlit("on-failure");
    reveal_strlit("on-abnormal");
    reveal_strlit("on-watchdog");
    reveal_strlit("on-abort");
}

pub(crate) proof fn lemma_access_word_marks()
    ensures
        mark("none"@) == 3994655022225817604,
        mark("main"@) == 3954674735035449348,
        mark("exec"@) == 3672909298276499460,
        mark("all"@) == 3525430102835855363,
{
    reveal_strlit("none");
    reveal_strlit("main");
    reveal_strlit("exec");
    reveal_strlit("all");
}

pub(crate) proof fn lemma_kill_mode_word_marks()
    ensures
        mark("control-group"@) == 3598338527661449229,
        mark("cgroup"@) == 3596095438127628294,
        mark("process"@) == 4067559221292433415,
        mark("mixed"@) == 3956959365579145221,
        mark("none"@) == 3994655022225817604,
{
    reveal_strlit("control-group");
    reveal_strlit("cgroup");
    reveal_strlit("process");
    reveal_strlit("mixed");
    reveal_strlit("none");
}

pub(crate) proof fn lemma_bind_word_marks()
    ensures
        mark("default"@) == 3631534655859064839,
        mark("both"@) == 3562322703677390852,
        mark("ipv6-only"@) == 3814809311852306441,
{
    reveal_strlit("default");
    reveal_strlit("both");
    reveal_strlit("ipv6-only");
}

pub(crate) proof fn lemma_switch_word_marks()
    ensures
        mark("1"@) == 1765411053929234433,
        mark("yes"@) == 4388166299616804867,
        mark("true"@) == 4211687622432522244,
        mark("on"@) == 4030158716543172610,
        mark("0"@) == 1729382256910270465,
        mark("no"@) == 3994411394500919298,
        mark("false"@) == 3702479838871814149,
        mark("off"@) == 4028131217101553667,
{
    reveal_strlit("1");
    reveal_strlit("yes");
    reveal_strlit("true");
    reveal_strlit("on");
    reveal_strlit("0");
    reveal_strlit("no");
    reveal_strlit("false");
    reveal_strlit("off");
}

pub(crate) proof fn lemma_time_word_marks()
    ensures
        mark("M"@) == 2774217370460225537,
        mark("ns"@) == 3995537294407761922,
        mark("nsec"@) == 3995761096563621892,
        mark("us"@) == 4247738873540509698,
        mark("usec"@) == 4247962675696369668,
        mark("ms"@) == 3959508497388797954,
        mark("msec"@) == 3959732299544657924,
        mark("s"@) == 4143311657180856321,
        mark("sec"@) == 4171958333130932227,
        mark("second"@) == 4171960253518184454,
        mark("seconds"@) == 4171960253518184455,
        mark("m"@) == 3927138875067072513,
        mark("min"@) == 3956935640179802115,
        mark("minute"@) == 3956937663780487174,
        mark("minutes"@) == 3956937663780487175,
        mark("h"@) == 3746994889972252673,
        mark("hr"@) == 3779083037317267458,
        mark("hour"@) == 3778497856613122052,
        mark("hours"@) == 3778497856613122053,
        mark("d"@) == 3602879701896396801,
        mark("day"@) == 3630448856451252227,
        mark("days"@) == 3630450832136208388,
        mark("w"@) == 4287426845256712193,
        mark("week"@) == 4316079757499301892,
        mark("weeks"@) == 4316079757499301893,
        mark("month"@) == 3958626482904891397,
        mark("months"@) == 3958626498339930118,
        mark("y"@) == 4359484439294640129,
        mark("year"@) == 4388128675703291908,
        mark("years"@) == 4388128675703291909,
{
    reveal_strlit("M");
    reveal_strlit("ns");
    reveal_strlit("nsec");
    reveal_strlit("us");
    reveal_strlit("usec");
    reveal_strlit("ms");
    reveal_strlit("msec");
    reveal_strlit("s");
    reveal_strlit("sec");
    reveal_strlit("second");
    reveal_strlit("seconds");
    reveal_strlit("m");
    reveal_strlit("min");
    reveal_strlit("minute");
    reveal_strlit("minutes");
    reveal_strlit("h");
    reveal_strlit("hr");
    reveal_strlit("hour");
    reveal_strlit("hours");
    reveal_strlit("d");
    reveal_strlit("day");
    reveal_strlit("days");
    reveal_strlit("w");
    reveal_strlit("week");
    reveal_strlit("weeks");
    reveal_strlit("month");
    reveal_strlit("months");
    reveal_strlit("y");
    reveal_strlit("year");
    reveal_strlit("years");
}

pub(crate) proof fn lemma_check_word_marks()
    ensures
        mark("PathExists"@) == 2909863723889754122,
        mark("PathExistsGlob"@) == 2909863723889760398,
        mark("PathIsDirectory"@) == 2909863723208170639,
        mark("PathIsSymbolicLink"@) == 2909863723224905938,
        mark("PathIsMountPoint"@) == 2909863723214486096,
        mark("PathIsReadWrite"@) == 2909863723203837199,
        mark("PathIsEncrypted"@) == 2909863723213289807,
        mark("DirectoryNotEmpty"@) == 2479765509351881553,
        mark("FileNotEmpty"@) == 2551809908531896332,
        mark("FileIsExecutable"@) == 2551809909122185360,
        mark("User"@) == 3095041428787560452,
        mark("Group"@) == 2590378837317517317,
        mark("Host"@) == 2625571988319502340,
        mark("Architecture"@) == 2374179459260383244,
        mark("Virtualization"@) == 3128284110831704974,
        mark("Environment"@) == 2517210545390395403,
        mark("FirstBoot"@) == 2551823337193897993,
        mark("KernelCommandLine"@) == 2730841342119621393,
        mark("KernelVersion"@) == 2730841342109171725,
        mark("ACPower"@) == 2360908472054185991,
        mark("NeedsUpdate"@) == 2838898970976854027,
        mark("Memory"@) == 2802887959848681478,
        mark("CPUs"@) == 2436636291069116420,
        mark("ControlGroupController"@) == 2445417023081962454,
        mark("Security"@) == 3019038852788518920,
        mark("Capability"@) == 2441480444267364362,
{
    reveal_strlit("PathExists");
    reveal_strlit("PathExistsGlob");
    reveal_strlit("PathIsDirectory");
    reveal_strlit("PathIsSymbolicLink");
    reveal_strlit("PathIsMountPoint");
    reveal_strlit("PathIsReadWrite");
    reveal_strlit("PathIsEncrypted");
    reveal_strlit("DirectoryNotEmpty");
    reveal_strlit("FileNotEmpty");
    reveal_strlit("FileIsExecutable");
    reveal_strlit("User");
    reveal_strlit("Group");
    reveal_strlit("Host");
    reveal_strlit("Architecture");
    reveal_strlit("Virtualization");
    reveal_strlit("Environment");
    reveal_strlit("FirstBoot");
    reveal_strlit("KernelCommandLine");
    reveal_strlit("KernelVersion");
    reveal_strlit("ACPower");
    reveal_strlit("NeedsUpdate");
    reveal_strlit("Memory");
    reveal_strlit("CPUs");
    reveal_strlit("ControlGroupController");
    reveal_strlit("Security");
    reveal_strlit("Capability");
}

pub(crate) proof fn lemma_notify_word_marks()
    ensures
        mark("READY"@) == 2973927233690796037,
        mark("STOPPING"@) == 3014209157716770824,
        mark("RELOADING"@) == 2973951621134344201,
        mark("WATCHDOG"@) == 3152987092342013960,
        mark("BARRIER"@) == 2396378214655066119,
        mark("MAINPID"@) == 2792675122471763975,
        mark("STATUS"@) == 3014178441378398214,
        mark("WATCHDOG_USEC"@) == 3152987092342792205,
        mark("ERRNO"@) == 2509249602335539205,
{
    reveal_strlit("READY");
    reveal_strlit("STOPPING");
    reveal_strlit("RELOADING");
    reveal_strlit("WATCHDOG");
    reveal_strlit("BARRIER");
    reveal_strlit("MAINPID");
    reveal_strlit("STATUS");
    reveal_strlit("WATCHDOG_USEC");
    reveal_strlit("ERRNO");
}

pub(crate) proof fn lemma_property_word_marks()
    ensures
        mark("Id"@) == 2658249680055435266,
        mark("Names"@) == 2837790668921765893,
        mark("Description"@) == 2478641772634120203,
        mark("LoadState"@) == 2769647334790569993,
        mark("ActiveState"@) == 2369994733189341195,
        mark("SubState"@) == 3023539668182368264,
        mark("FragmentPath"@) == 2554319027133087756,
        mark("DefaultDependencies"@) == 2478613151324354899,
        mark("StopWhenUnneeded"@) == 3023287279673850128,
        mark("RefuseManualStart"@) == 2983016652278193425,
        mark("RefuseManualStop"@) == 2983016652278193424,
        mark("Documentation"@) == 2481421646729846797,
        mark("Type"@) == 3060725447546372100,
        mark("Restart"@) == 2983045224042856455,
        mark("RemainAfterExit"@) == 2983031703056849487,
        mark("PIDFile"@) == 2903002185484730375,
        mark("User"@) == 3095041428787560452,
        mark("Group"@) == 2590378837317517317,
        mark("ExecStart"@) == 2519987809359396873,
        mark("ExecStop"@) == 2519987809356349448,
        mark("TimeoutStartUSec"@) == 3056215266640696528,
        mark("TimeoutStopUSec"@) == 3056215266640697679,
        mark("OnCalendar"@) == 2877386226603401226,
        mark("Persistent"@) == 2910985414042828810,
        mark("Unit"@) == 3093642884356767748,
        mark("MakeDirectory"@) == 2801757488055869453,
        mark("Accept"@) == 2369957282965356550,
        mark("Service"@) == 3019071854385037319,
        mark("WantedBy"@) == 3162052312362385416,
        mark("RequiredBy"@) == 2983040843281612810,
{
    reveal_strlit("Id");
    reveal_strlit("Names");
    reveal_strlit("Description");
    reveal_strlit("LoadState");
    reveal_strlit("ActiveState");
    reveal_strlit("SubState");
    reveal_strlit("FragmentPath");
    reveal_strlit("DefaultDependencies");
    reveal_strlit("StopWhenUnneeded");
    reveal_strlit("RefuseManualStart");
    reveal_strlit("RefuseManualStop");
    reveal_strlit("Documentation");
    reveal_strlit("Type");
    reveal_strlit("Restart");
    reveal_strlit("RemainAfterExit");
    reveal_strlit("PIDFile");
    reveal_strlit("User");
    reveal_strlit("Group");
    reveal_strlit("ExecStart");
    reveal_strlit("ExecStop");
    reveal_strlit("TimeoutStartUSec");
    reveal_strlit("TimeoutStopUSec");
    reveal_strlit("OnCalendar");
    reveal_strlit("Persistent");
    reveal_strlit("Unit");
    reveal_strlit("MakeDirectory");
    reveal_strlit("Accept");
    reveal_strlit("Service");
    reveal_strlit("WantedBy");
    reveal_strlit("RequiredBy");
}

pub(crate) proof fn lemma_state_word_marks()
    ensures
        mark("inactive"@) == 3814200954690994184,
        mark("activating"@) == 3522916237247889418,
        mark("active"@) == 3522916237673758726,
        mark("deactivating"@) == 3631523694802534412,
        mark("failed"@) == 3702473134964736006,
        mark("reloading"@) == 4135951247824707593,
        mark("maintenance"@) == 3954674748694052875,
        mark("loaded"@) == 3922568837127471110,
        mark("error"@) == 3671249241876987909,
        mark("stub"@) == 4176221723827372036,
        mark("masked"@) == 3954696687150170118,
        mark("notfound"@) == 3994668249353551880,
        mark("merged"@) == 3955820319314280454,
        mark("badsetting"@) == 3558347074290171914,
{
    reveal_strlit("inactive");
    reveal_strlit("activating");
    reveal_strlit("active");
    reveal_strlit("deactivating");
    reveal_strlit("failed");
    reveal_strlit("reloading");
    reveal_strlit("maintenance");
    reveal_strlit("loaded");
    reveal_strlit("error");
    reveal_strlit("stub");
    reveal_strlit("masked");
    reveal_strlit("notfound");
    reveal_strlit("merged");
    reveal_strlit("badsetting");
}

pub(crate) proof fn lemma_shown_word_marks()
    ensures
        mark("simple"@) == 4173108160971669510,
        mark("exec"@) == 3672909298276499460,
        mark("forking"@) == 3706433560010293255,
        mark("oneshot"@) == 4030382808475107335,
        mark("notify"@) == 3994668301325172742,
        mark("notifyreload"@) == 3994668301431963660,
        mark("dbus"@) == 3630723511019896836,
        mark("idle"@) == 3811410414340669444,
        mark("no"@) == 3994411394500919298,
        mark("onsuccess"@) == 4030413627671339017,
        mark("onfailure"@) == 4030384697978429449,
        mark("onabnormal"@) == 4030373720439398410,
        mark("onwatchdog"@) == 4030422080151216138,
        mark("onabort"@) == 4030373720726962183,
        mark("always"@) == 3525455973974016006,
{
    reveal_strlit("simple");
    reveal_strlit("exec");
    reveal_strlit("forking");
    reveal_strlit("oneshot");
    reveal_strlit("notify");
    reveal_strlit("notifyreload");
    reveal_strlit("dbus");
    reveal_strlit("idle");
    reveal_strlit("no");
    reveal_strlit("onsuccess");
    reveal_strlit("onfailure");
    reveal_strlit("onabnormal");
    reveal_strlit("onwatchdog");
    reveal_strlit("onabort");
    reveal_strlit("always");
}

pub(crate) proof fn lemma_mode_word_marks()
    ensures
        mark("fail"@) == 3702473121542963204,
        mark("replace"@) == 4135959992127717383,
        mark("replace-irreversibly"@) == 4135959992175769940,
        mark("isolate"@) == 3815639271889436679,
        mark("flush"@) == 3705595854824931333,
        mark("ignore-dependencies"@) == 3812259422777686355,
        mark("ignore-requirements"@) == 3812259422792366419,
{
    reveal_strlit("fail");
    reveal_strlit("replace");
    reveal_strlit("replace-irreversibly");
    reveal_strlit("isolate");
    reveal_strlit("flush");
    reveal_strlit("ignore-dependencies");
    reveal_strlit("ignore-requirements");
}

pub(crate) proof fn lemma_outcome_word_marks()
    ensures
        mark("done"@) == 3634367052036177924,
        mark("canceled"@) == 3594397585583898632,
        mark("timeout"@) == 4209136771159556103,
        mark("failed"@) == 3702473134964736006,
        mark("dependency"@) == 3631556713853509642,
        mark("skipped"@) == 4173662314832068615,
{
    reveal_strlit("done");
    reveal_strlit("canceled");
    reveal_strlit("timeout");
    reveal_strlit("failed");
    reveal_strlit("dependency");
    reveal_strlit("skipped");
}

pub(crate) proof fn lemma_load_word_marks()
    ensures
        mark("loaded"@) == 3922568837127471110,
        mark("error"@) == 3671249241876987909,
        mark("stub"@) == 4176221723827372036,
        mark("masked"@) == 3954696687150170118,
        mark("not-found"@) == 3994667269307006985,
        mark("merged"@) == 3955820319314280454,
        mark("bad-setting"@) == 3558345869697556491,
{
    reveal_strlit("loaded");
    reveal_strlit("error");
    reveal_strlit("stub");
    reveal_strlit("masked");
    reveal_strlit("not-found");
    reveal_strlit("merged");
    reveal_strlit("bad-setting");
}

pub(crate) proof fn lemma_month_word_marks()
    ensures
        mark("Jan"@) == 2693675944702377987,
        mark("Feb"@) == 2550660268254298115,
        mark("Mar"@) == 2801771131852292099,
        mark("Apr"@) == 2373647692275384323,
        mark("May"@) == 2801786525015080963,
        mark("Jun"@) == 2699305444236591107,
        mark("Jul"@) == 2699301046190080003,
        mark("Aug"@) == 2375030877903126531,
        mark("Sep"@) == 3019065415826407427,
        mark("Oct"@) == 2874396073890152451,
        mark("Nov"@) == 2841749374638227459,
        mark("Dec"@) == 2478604873239625731,
        mark("???"@) == 2287685674192601091,
{
    reveal_strlit("Jan");
    reveal_strlit("Feb");
    reveal_strlit("Mar");
    reveal_strlit("Apr");
    reveal_strlit("May");
    reveal_strlit("Jun");
    reveal_strlit("Jul");
    reveal_strlit("Aug");
    reveal_strlit("Sep");
    reveal_strlit("Oct");
    reveal_strlit("Nov");
    reveal_strlit("Dec");
    reveal_strlit("???");
}

pub(crate) proof fn lemma_method_word_marks()
    ensures
        mark("StartUnit"@) == 3023256525152878601,
        mark("StopUnit"@) == 3023287280484745224,
        mark("RestartUnit"@) == 2983045224132886539,
        mark("ReloadUnit"@) == 2983029743217877002,
{
    reveal_strlit("StartUnit");
    reveal_strlit("StopUnit");
    reveal_strlit("RestartUnit");
    reveal_strlit("ReloadUnit");
}

pub(crate) proof fn lemma_file_state_word_marks()
    ensures
        mark("active"@) == 3522916237673758726,
        mark("reloading"@) == 4135951247824707593,
        mark("enabled"@) == 3670085748792492039,
        mark("static"@) == 4176178065887461382,
        mark("alias"@) == 3525425172213399557,
        mark("not-found"@) == 3994667269307006985,
{
    reveal_strlit("active");
    reveal_strlit("reloading");
    reveal_strlit("enabled");
    reveal_strlit("static");
    reveal_strlit("alias");
    reveal_strlit("not-found");
}

pub(crate) proof fn lemma_format_word_marks()
    ensures
        mark("short"@) == 4172831104845217797,
        mark("short-iso"@) == 4172831111006511113,
        mark("cat"@) == 3594409064316010499,
        mark("json"@) == 3851668087698882564,
{
    reveal_strlit("short");
    reveal_strlit("short-iso");
    reveal_strlit("cat");
    reveal_strlit("json");
}

pub(crate) proof fn lemma_day_word_marks()
    ensures
        mark("Mon"@) == 2805702985433219075,
        mark("Tue"@) == 3059573623216930819,
        mark("Wed"@) == 3163154215623196675,
        mark("Thu"@) == 3055949632891781123,
        mark("Fri"@) == 2554334836114325507,
        mark("Sat"@) == 3017948312012587011,
        mark("Sun"@) == 3023564617407266819,
{
    reveal_strlit("Mon");
    reveal_strlit("Tue");
    reveal_strlit("Wed");
    reveal_strlit("Thu");
    reveal_strlit("Fri");
    reveal_strlit("Sat");
    reveal_strlit("Sun");
}

} // verus!
