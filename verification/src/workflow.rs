//! One bounded check-and-login run: detect connectivity, join the wireless network,
//! authenticate at the portal and verify, each stage under its own time limit.
use std::time::Duration;
use vstd::prelude::*;

use crate::config::{credentials_present_spec, Configuration};
use crate::coordinator::nanos_of;
use crate::text::push_str;

verus! {

/// Why a run stopped.
#[derive(Clone, Debug, PartialEq, Eq)]
pub enum CoreError {
    MissingCredentials,
    Connectivity(String),
    Wifi(String),
    InvalidPortalResponse,
    Challenge(String),
    Authentication(String),
    Portal(String),
    Timeout(&'static str),
    VerificationFailed,
}

/// The user-facing text of an error.
pub open spec fn error_message(e: CoreError) -> Seq<char> {
    match e {
        CoreError::MissingCredentials => "请先填写学号和密码"@,
        CoreError::Connectivity(s) => "公网检测失败："@ + s@,
        CoreError::Wifi(s) => "无法连接 HIT-WLAN："@ + s@,
        CoreError::InvalidPortalResponse => "认证门户返回了无法解析的数据"@,
        CoreError::Challenge(s) => "获取认证挑战值失败："@ + s@,
        CoreError::Authentication(s) => "校园网认证失败："@ + s@,
        CoreError::Portal(s) => "认证门户错误："@ + s@,
        CoreError::Timeout(s) => s@ + "超时"@,
        CoreError::VerificationFailed => "认证请求已完成，但仍无法访问互联网"@,
    }
}

/// [`CoreError`] as plain values.
pub enum CoreErrorView {
    MissingCredentials,
    Connectivity(Seq<char>),
    Wifi(Seq<char>),
    InvalidPortalResponse,
    Challenge(Seq<char>),
    Authentication(Seq<char>),
    Portal(Seq<char>),
    Timeout(Seq<char>),
    VerificationFailed,
}

impl View for CoreError {
    type V = CoreErrorView;

    open spec fn view(&self) -> CoreErrorView {
        match self {
            CoreError::MissingCredentials => CoreErrorView::MissingCredentials,
            CoreError::Connectivity(s) => CoreErrorView::Connectivity(s@),
            CoreError::Wifi(s) => CoreErrorView::Wifi(s@),
            CoreError::InvalidPortalResponse => CoreErrorView::InvalidPortalResponse,
            CoreError::Challenge(s) => CoreErrorView::Challenge(s@),
            CoreError::Authentication(s) => CoreErrorView::Authentication(s@),
            CoreError::Portal(s) => CoreErrorView::Portal(s@),
            CoreError::Timeout(s) => CoreErrorView::Timeout(s@),
            CoreError::VerificationFailed => CoreErrorView::VerificationFailed,
        }
    }
}

impl CoreError {
    /// The user-facing text of the error.
    pub fn message(&self) -> (m: String)
        ensures
            m@ == error_message(*self),
    {
        let mut m = String::new();
        match self {
            CoreError::MissingCredentials => push_str(&mut m, "请先填写学号和密码"),
            CoreError::Connectivity(s) => {
                push_str(&mut m, "公网检测失败：");
                push_str(&mut m, s.as_str());
            },
            CoreError::Wifi(s) => {
                push_str(&mut m, "无法连接 HIT-WLAN：");
                push_str(&mut m, s.as_str());
            },
            CoreError::InvalidPortalResponse => push_str(&mut m, "认证门户返回了无法解析的数据"),
            CoreError::Challenge(s) => {
                push_str(&mut m, "获取认证挑战值失败：");
                push_str(&mut m, s.as_str());
            },
            CoreError::Authentication(s) => {
                push_str(&mut m, "校园网认证失败：");
                push_str(&mut m, s.as_str());
            },
            CoreError::Portal(s) => {
                push_str(&mut m, "认证门户错误：");
                push_str(&mut m, s.as_str());
            },
            CoreError::Timeout(s) => {
                push_str(&mut m, s);
                push_str(&mut m, "超时");
            },
            CoreError::VerificationFailed => push_str(&mut m, "认证请求已完成，但仍无法访问互联网"),
        }
        m
    }
}

/// `Duration::from_secs`. Claimed: the duration holds `secs` whole seconds, so
/// `as_nanos` counts `secs * 10^9` nanoseconds.
pub assume_specification[ Duration::from_secs ](secs: u64) -> (d: Duration)
    ensures
        nanos_of(d) == secs * 1_000_000_000,
;

/// `Duration::from_millis`. Claimed: the duration holds `millis` milliseconds, so
/// `as_nanos` counts `millis * 10^6` nanoseconds.
pub assume_specification[ Duration::from_millis ](millis: u64) -> (d: Duration)
    ensures
        nanos_of(d) == millis * 1_000_000,
;

/// The default limits, in nanoseconds: 8 s per connectivity check, 20 s for Wi-Fi, 20 s
/// for the portal, and three verification checks 1.5 s apart.
pub open spec fn default_limits(l: WorkflowLimits) -> bool {
    &&& nanos_of(l.connectivity_timeout) == 8_000_000_000
    &&& nanos_of(l.wifi_timeout) == 20_000_000_000
    &&& nanos_of(l.portal_timeout) == 20_000_000_000
    &&& l.verification_attempts == 3
    &&& nanos_of(l.verification_delay) == 1_500_000_000
}

/// Time limits and verification attempts of a run.
#[derive(Clone, Copy, Debug)]
pub struct WorkflowLimits {
    pub connectivity_timeout: Duration,
    pub wifi_timeout: Duration,
    pub portal_timeout: Duration,
    pub verification_attempts: usize,
    pub verification_delay: Duration,
}

impl Default for WorkflowLimits {
    /// 8 s per connectivity check, 20 s for Wi-Fi, 20 s for the portal, and three
    /// verification checks 1.5 s apart.
    fn default() -> (l: Self)
        ensures
            default_limits(l),
    {
        WorkflowLimits {
            connectivity_timeout: Duration::from_secs(8),
            wifi_timeout: Duration::from_secs(20),
            portal_timeout: Duration::from_secs(20),
            verification_attempts: 3,
            verification_delay: Duration::from_millis(1500),
        }
    }
}

/// The outcome of a successful run.
#[derive(Clone, Debug, PartialEq, Eq)]
pub struct WorkflowResult {
    pub message: String,
}

/// The services a run uses (connectivity checker, Wi-Fi adapter, portal authenticator)
/// and its limits.
pub struct Workflow<C, W, P> {
    connectivity: C,
    wifi: W,
    portal: P,
    limits: WorkflowLimits,
}

impl<C, W, P> Workflow<C, W, P> {
    /// A workflow over the given services with the default limits.
    pub fn new(connectivity: C, wifi: W, portal: P) -> (w: Self)
        ensures
            w.connectivity() == connectivity,
            w.wifi() == wifi,
            w.portal() == portal,
            default_limits(w.limits()),
    {
        Workflow { connectivity, wifi, portal, limits: WorkflowLimits::default() }
    }

    /// The same workflow with other limits.
    pub fn with_limits(self, limits: WorkflowLimits) -> (w: Self)
        ensures
            w.connectivity() == self.connectivity(),
            w.wifi() == self.wifi(),
            w.portal() == self.portal(),
            w.limits() == limits,
    {
        Workflow { limits, ..self }
    }

    /// The connectivity checker.
    pub closed spec fn connectivity(&self) -> C {
        self.connectivity
    }

    /// The Wi-Fi adapter.
    pub closed spec fn wifi(&self) -> W {
        self.wifi
    }

    /// The portal authenticator.
    pub closed spec fn portal(&self) -> P {
        self.portal
    }

    /// The limits.
    pub closed spec fn limits(&self) -> WorkflowLimits {
        self.limits
    }

    /// The connectivity checker.
    pub fn connectivity_service(&self) -> (c: &C)
        ensures
            *c == self.connectivity(),
    {
        &self.connectivity
    }

    /// The Wi-Fi adapter.
    pub fn wifi_service(&self) -> (w: &W)
        ensures
            *w == self.wifi(),
    {
        &self.wifi
    }

    /// The portal authenticator.
    pub fn portal_service(&self) -> (p: &P)
        ensures
            *p == self.portal(),
    {
        &self.portal
    }

    /// The limits.
    pub fn limit_settings(&self) -> (l: WorkflowLimits)
        ensures
            l == self.limits(),
    {
        self.limits
    }
}

// ----- The run as a state machine -----
/// Where a run stands.
#[derive(Clone, Copy, Debug, PartialEq, Eq, Structural)]
pub enum RunPhase {
    /// The first connectivity check is under way.
    FirstCheck,
    /// The Wi-Fi connection is under way.
    ConnectingWifi,
    /// The connectivity check after joining Wi-Fi is under way.
    SecondCheck,
    /// Portal authentication is under way.
    Authenticating,
    /// Verification check number `attempt` (from 0) is under way.
    Verifying { attempt: usize },
    /// The pause before verification check number `attempt` is under way.
    Pausing { attempt: usize },
    /// The run is over.
    Done,
}

/// What the runner reports back.
pub enum WorkflowEvent {
    /// A connectivity check answered.
    Online(bool),
    /// A connectivity check failed.
    ConnectivityFailed(CoreError),
    /// A connectivity check exceeded its limit.
    ConnectivityTimedOut,
    /// The Wi-Fi adapter joined the network.
    WifiReady,
    /// The Wi-Fi adapter failed.
    WifiFailed(CoreError),
    /// The Wi-Fi adapter exceeded its limit.
    WifiTimedOut,
    /// The portal accepted the login, with its message.
    Authenticated(String),
    /// The portal login failed.
    AuthenticationFailed(CoreError),
    /// The portal login exceeded its limit.
    AuthenticationTimedOut,
    /// A pause is over.
    Slept,
}

/// What the runner is asked to do.
pub enum WorkflowCommand {
    /// Check connectivity, within the connectivity limit.
    CheckOnline,
    /// Join the named network, within the Wi-Fi limit.
    ConnectWifi(String),
    /// Log in at the portal, within the portal limit.
    Authenticate { username: String, password: String },
    /// Wait for the given time.
    Sleep(Duration),
    /// The run is over.
    Finish(Result<WorkflowResult, CoreError>),
}

/// A progress message to show, and the next command.
pub struct WorkflowStep {
    pub progress: Option<&'static str>,
    pub command: WorkflowCommand,
}

/// One run of the workflow for a configuration.
pub struct WorkflowRun {
    configuration: Configuration,
    attempts: usize,
    delay: Duration,
    portal_message: String,
    phase: RunPhase,
}

/// Whether `event` answers the command issued in `phase`.
pub open spec fn answers(phase: RunPhase, event: WorkflowEvent) -> bool {
    match phase {
        RunPhase::FirstCheck | RunPhase::SecondCheck | RunPhase::Verifying { .. } => {
            event is Online || event is ConnectivityFailed || event is ConnectivityTimedOut
        },
        RunPhase::ConnectingWifi => event is WifiReady || event is WifiFailed || event is WifiTimedOut,
        RunPhase::Authenticating => event is Authenticated || event is AuthenticationFailed
            || event is AuthenticationTimedOut,
        RunPhase::Pausing { .. } => event is Slept,
        RunPhase::Done => false,
    }
}

/// The finishing message when the network was already up.
pub open spec fn already_online_message() -> Seq<char> {
    "网络已经连通，无需重复认证"@
}

/// The finishing message after a successful login, with the portal's message if any.
pub open spec fn authenticated_message(portal_message: Seq<char>) -> Seq<char> {
    if portal_message.len() == 0 {
        "认证成功，网络已连通"@
    } else {
        "认证成功，网络已连通"@ + "（"@ + portal_message + "）"@
    }
}

/// The finishing result of a step, if the step finishes the run.
pub open spec fn finish_of(step: WorkflowStep) -> Option<Result<Seq<char>, CoreErrorView>> {
    match step.command {
        WorkflowCommand::Finish(Ok(r)) => Some(Ok(r.message@)),
        WorkflowCommand::Finish(Err(e)) => Some(Err(e@)),
        _ => None,
    }
}

/// Whether a step finishes the run with `result`.
pub open spec fn finishes_with(step: WorkflowStep, result: Result<Seq<char>, CoreErrorView>) -> bool {
    finish_of(step) == Some(result)
}

/// The error a failed or timed-out service answer stands for.
pub open spec fn failure_of(event: WorkflowEvent) -> CoreErrorView {
    match event {
        WorkflowEvent::ConnectivityFailed(e) => e@,
        WorkflowEvent::ConnectivityTimedOut => CoreErrorView::Timeout("公网检测"@),
        WorkflowEvent::WifiFailed(e) => e@,
        WorkflowEvent::WifiTimedOut => CoreErrorView::Timeout("Wi-Fi 连接"@),
        WorkflowEvent::AuthenticationFailed(e) => e@,
        WorkflowEvent::AuthenticationTimedOut => CoreErrorView::Timeout("校园网认证"@),
        _ => CoreErrorView::VerificationFailed,
    }
}

/// Whether the event reports a failed or timed-out service.
pub open spec fn is_failure(event: WorkflowEvent) -> bool {
    event is ConnectivityFailed || event is ConnectivityTimedOut || event is WifiFailed
        || event is WifiTimedOut || event is AuthenticationFailed || event is AuthenticationTimedOut
}

/// A verification phase counts within the number of checks.
pub open spec fn phase_wf(phase: RunPhase, attempts: nat) -> bool {
    match phase {
        RunPhase::Verifying { attempt } => attempt < attempts,
        RunPhase::Pausing { attempt } => attempt < attempts,
        _ => true,
    }
}

/// The rank of a phase: it falls with every step, so a run with `attempts` verification
/// checks ends after at most `2 * attempts + 5` answers.
pub open spec fn phase_rank(phase: RunPhase, attempts: nat) -> int {
    match phase {
        RunPhase::FirstCheck => 2 * (attempts as int) + 5,
        RunPhase::ConnectingWifi => 2 * (attempts as int) + 4,
        RunPhase::SecondCheck => 2 * (attempts as int) + 3,
        RunPhase::Authenticating => 2 * (attempts as int) + 2,
        RunPhase::Verifying { attempt } => 2 * (attempts - attempt),
        RunPhase::Pausing { attempt } => 2 * (attempts - attempt) + 1,
        RunPhase::Done => 0,
    }
}

impl WorkflowRun {
    /// The phase of the run.
    pub closed spec fn phase(&self) -> RunPhase {
        self.phase
    }

    /// The number of verification checks of the run.
    pub closed spec fn attempts(&self) -> nat {
        self.attempts as nat
    }

    /// The portal's message, once the login succeeded.
    pub closed spec fn portal_message(&self) -> Seq<char> {
        self.portal_message@
    }

    /// The configuration of the run.
    pub closed spec fn configuration(&self) -> Configuration {
        self.configuration
    }

    /// The pause between verification checks.
    pub closed spec fn delay(&self) -> Duration {
        self.delay
    }

    /// The phase of the run.
    pub fn current_phase(&self) -> (p: RunPhase)
        ensures
            p == self.phase(),
    {
        self.phase
    }

    /// Whether `event` answers the command the run is waiting on (see [`answers`]).
    pub fn accepts(&self, event: &WorkflowEvent) -> (b: bool)
        ensures
            b == answers(self.phase(), *event),
    {
        match self.phase {
            RunPhase::FirstCheck | RunPhase::SecondCheck | RunPhase::Verifying { .. } => match event {
                WorkflowEvent::Online(_) | WorkflowEvent::ConnectivityFailed(_)
                | WorkflowEvent::ConnectivityTimedOut => true,
                _ => false,
            },
            RunPhase::ConnectingWifi => match event {
                WorkflowEvent::WifiReady | WorkflowEvent::WifiFailed(_) | WorkflowEvent::WifiTimedOut => true,
                _ => false,
            },
            RunPhase::Authenticating => match event {
                WorkflowEvent::Authenticated(_) | WorkflowEvent::AuthenticationFailed(_)
                | WorkflowEvent::AuthenticationTimedOut => true,
                _ => false,
            },
            RunPhase::Pausing { .. } => match event {
                WorkflowEvent::Slept => true,
                _ => false,
            },
            RunPhase::Done => false,
        }
    }

    /// Well-formedness: a verification phase counts within the number of checks.
    pub open spec fn wf(&self) -> bool {
        phase_wf(self.phase(), self.attempts())
    }

    /// Starts a run: without an account name and password it ends at once with
    /// `MissingCredentials`; otherwise it checks connectivity first.
    pub fn start(configuration: &Configuration, limits: &WorkflowLimits) -> (r: (WorkflowRun, WorkflowStep))
        ensures
            r.0.wf(),
            r.0.configuration() == *configuration,
            r.0.attempts() == limits.verification_attempts,
            r.0.delay() == limits.verification_delay,
            r.0.portal_message().len() == 0,
            !credentials_present_spec(*configuration) ==> r.0.phase() == RunPhase::Done
                && r.1.progress is None && finishes_with(r.1, Err(CoreErrorView::MissingCredentials)),
            credentials_present_spec(*configuration) ==> r.0.phase() == RunPhase::FirstCheck
                && r.1.progress == Some("正在检测互联网连接…") && r.1.command is CheckOnline,
    {
        let present = configuration.credentials_present();
        let mut run = WorkflowRun {
            configuration: configuration.clone_configuration(),
            attempts: limits.verification_attempts,
            delay: limits.verification_delay,
            portal_message: String::new(),
            phase: RunPhase::FirstCheck,
        };
        if !present {
            run.phase = RunPhase::Done;
            return (run, WorkflowStep {
                progress: None,
                command: WorkflowCommand::Finish(Err(CoreError::MissingCredentials)),
            });
        }
        (run, WorkflowStep { progress: Some("正在检测互联网连接…"), command: WorkflowCommand::CheckOnline })
    }

    /// Takes the answer to the last command and says what to do next.
    pub fn step(&mut self, event: WorkflowEvent) -> (next: WorkflowStep)
        requires
            old(self).wf(),
            answers(old(self).phase(), event),
        ensures
            final(self).wf(),
            final(self).configuration() == old(self).configuration(),
            final(self).attempts() == old(self).attempts(),
            final(self).delay() == old(self).delay(),
            phase_rank(final(self).phase(), final(self).attempts()) < phase_rank(old(self).phase(), old(self).attempts()),
            next.command is ConnectWifi ==> old(self).phase() is FirstCheck,
            next.command is Authenticate ==> old(self).phase() is SecondCheck,
            is_failure(event) ==> final(self).phase() == RunPhase::Done && next.progress is None
                && finishes_with(next, Err(failure_of(event))),
            // connectivity checks
            (old(self).phase() is FirstCheck || old(self).phase() is SecondCheck) && event
                == WorkflowEvent::Online(true) ==> final(self).phase() == RunPhase::Done
                && next.progress is None && finishes_with(next, Ok(already_online_message())),
            old(self).phase() is FirstCheck && event == WorkflowEvent::Online(false) ==> final(self).phase()
                == RunPhase::ConnectingWifi && next.progress == Some("正在检查并连接 Wi-Fi…")
                && (next.command matches WorkflowCommand::ConnectWifi(ssid) && ssid@ == old(self).configuration().ssid@),
            old(self).phase() is ConnectingWifi && event is WifiReady ==> final(self).phase()
                == RunPhase::SecondCheck && next.progress == Some("Wi-Fi 已就绪，正在检测互联网…")
                && next.command is CheckOnline,
            old(self).phase() is SecondCheck && event == WorkflowEvent::Online(false) ==> final(self).phase()
                == RunPhase::Authenticating && next.progress == Some("正在向 HIT 门户认证…")
                && (next.command matches WorkflowCommand::Authenticate { username, password }
                && username@ == old(self).configuration().username@ && password@ == old(self).configuration().password@),
            // authentication and verification
            event matches WorkflowEvent::Authenticated(m) ==> final(self).portal_message() == m@
                && next.progress == Some("认证完成，正在验证网络…") && (if old(self).attempts() == 0 {
                final(self).phase() == RunPhase::Done && finishes_with(next, Err(CoreErrorView::VerificationFailed))
            } else {
                final(self).phase() == (RunPhase::Verifying { attempt: 0 }) && next.command is CheckOnline
            }),
            !(event is Authenticated) ==> final(self).portal_message() == old(self).portal_message(),
            old(self).phase() is Verifying && event == WorkflowEvent::Online(true) ==> final(self).phase()
                == RunPhase::Done && next.progress is None && finishes_with(
                next,
                Ok(authenticated_message(old(self).portal_message())),
            ),
            old(self).phase() matches RunPhase::Verifying { attempt } ==> (event == WorkflowEvent::Online(false)
                ==> next.progress is None && (if attempt + 1 < old(self).attempts() {
                final(self).phase() == (RunPhase::Pausing { attempt: (attempt + 1) as usize })
                    && next.command == WorkflowCommand::Sleep(old(self).delay())
            } else {
                final(self).phase() == RunPhase::Done && finishes_with(next, Err(CoreErrorView::VerificationFailed))
            })),
            old(self).phase() matches RunPhase::Pausing { attempt } ==> final(self).phase() == (RunPhase::Verifying { attempt })
                && next.progress is None && next.command is CheckOnline,
    {
        let phase = self.phase;
        match event {
            WorkflowEvent::ConnectivityFailed(e) => self.fail(e),
            WorkflowEvent::ConnectivityTimedOut => self.fail(CoreError::Timeout("公网检测")),
            WorkflowEvent::WifiFailed(e) => self.fail(e),
            WorkflowEvent::WifiTimedOut => self.fail(CoreError::Timeout("Wi-Fi 连接")),
            WorkflowEvent::AuthenticationFailed(e) => self.fail(e),
            WorkflowEvent::AuthenticationTimedOut => self.fail(CoreError::Timeout("校园网认证")),
            WorkflowEvent::Online(online) => match phase {
                RunPhase::FirstCheck | RunPhase::SecondCheck => {
                    if online {
                        self.phase = RunPhase::Done;
                        WorkflowStep {
                            progress: None,
                            command: WorkflowCommand::Finish(
                                Ok(WorkflowResult { message: "网络已经连通，无需重复认证".to_owned() }),
                            ),
                        }
                    } else if phase == RunPhase::FirstCheck {
                        self.phase = RunPhase::ConnectingWifi;
                        WorkflowStep {
                            progress: Some("正在检查并连接 Wi-Fi…"),
                            command: WorkflowCommand::ConnectWifi(self.configuration.ssid.clone()),
                        }
                    } else {
                        self.phase = RunPhase::Authenticating;
                        WorkflowStep {
                            progress: Some("正在向 HIT 门户认证…"),
                            command: WorkflowCommand::Authenticate {
                                username: self.configuration.username.clone(),
                                password: self.configuration.password.clone(),
                            },
                        }
                    }
                },
                RunPhase::Verifying { attempt } => {
                    if online {
                        self.phase = RunPhase::Done;
                        let mut message = "认证成功，网络已连通".to_owned();
                        if !self.portal_message.as_str().is_empty() {
                            push_str(&mut message, "（");
                            push_str(&mut message, self.portal_message.as_str());
                            push_str(&mut message, "）");
                        }
                        WorkflowStep {
                            progress: None,
                            command: WorkflowCommand::Finish(Ok(WorkflowResult { message })),
                        }
                    } else if attempt + 1 < self.attempts {
                        self.phase = RunPhase::Pausing { attempt: attempt + 1 };
                        WorkflowStep { progress: None, command: WorkflowCommand::Sleep(self.delay) }
                    } else {
                        self.phase = RunPhase::Done;
                        WorkflowStep {
                            progress: None,
                            command: WorkflowCommand::Finish(Err(CoreError::VerificationFailed)),
                        }
                    }
                },
                _ => self.fail(CoreError::VerificationFailed),
            },
            WorkflowEvent::WifiReady => {
                self.phase = RunPhase::SecondCheck;
                WorkflowStep { progress: Some("Wi-Fi 已就绪，正在检测互联网…"), command: WorkflowCommand::CheckOnline }
            },
            WorkflowEvent::Authenticated(message) => {
                self.portal_message = message;
                if self.attempts == 0 {
                    self.phase = RunPhase::Done;
                    WorkflowStep {
                        progress: Some("认证完成，正在验证网络…"),
                        command: WorkflowCommand::Finish(Err(CoreError::VerificationFailed)),
                    }
                } else {
                    self.phase = RunPhase::Verifying { attempt: 0 };
                    WorkflowStep { progress: Some("认证完成，正在验证网络…"), command: WorkflowCommand::CheckOnline }
                }
            },
            WorkflowEvent::Slept => {
                match phase {
                    RunPhase::Pausing { attempt } => {
                        self.phase = RunPhase::Verifying { attempt };
                    },
                    _ => {},
                }
                WorkflowStep { progress: None, command: WorkflowCommand::CheckOnline }
            },
        }
    }

    fn fail(&mut self, error: CoreError) -> (next: WorkflowStep)
        ensures
            final(self).phase() == RunPhase::Done,
            final(self).configuration() == old(self).configuration(),
            final(self).attempts() == old(self).attempts(),
            final(self).delay() == old(self).delay(),
            final(self).portal_message() == old(self).portal_message(),
            next.progress is None,
            finishes_with(next, Err(error@)),
    {
        self.phase = RunPhase::Done;
        WorkflowStep { progress: None, command: WorkflowCommand::Finish(Err(error)) }
    }
}

// ----- Laws -----
/// Every run is finite: a well-formed phase ranks between 0 and `2 * attempts + 5`, only the
/// finished run ranks 0, and the first check ranks highest. As every step lowers the rank
/// and a finished run takes no answers, a run ends after at most `2 * attempts + 5` answers.
pub proof fn lemma_run_is_bounded(phase: RunPhase, attempts: nat)
    requires
        phase_wf(phase, attempts),
    ensures
        0 <= phase_rank(phase, attempts) <= phase_rank(RunPhase::FirstCheck, attempts),
        phase_rank(phase, attempts) == 0 <==> phase == RunPhase::Done,
        phase_rank(RunPhase::FirstCheck, attempts) == 2 * attempts + 5,
        forall|e: WorkflowEvent| !answers(RunPhase::Done, e),
{
}

/// No two well-formed phases share a rank. As every step lowers the rank, a run passes
/// through each phase at most once: it joins the wireless network at most once (only from
/// the first check) and authenticates at the portal at most once (only from the second
/// check), and each verification check number is made at most once.
pub proof fn lemma_each_phase_at_most_once(p: RunPhase, q: RunPhase, attempts: nat)
    requires
        phase_wf(p, attempts),
        phase_wf(q, attempts),
        phase_rank(p, attempts) == phase_rank(q, attempts),
    ensures
        p == q,
{
}

} // verus!
