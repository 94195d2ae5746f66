use hit_auto_login_core::workflow::RunPhase;
use hit_auto_login_core::{
    Configuration, CoreError, WorkflowCommand, WorkflowEvent, WorkflowLimits, WorkflowResult,
    WorkflowRun,
};

fn config() -> Configuration {
    Configuration {
        username: "2024000000".into(),
        password: "test-only".into(),
        ..Default::default()
    }
}

/// How the simulated services answer.
enum Answer {
    Online(bool),
    Slow,
}

struct Counts {
    wifi: usize,
    portal: usize,
    progress: Vec<&'static str>,
}

/// Runs the workflow against simulated services: connectivity answers are taken in order,
/// the Wi-Fi adapter and the portal answer with the given events.
fn drive(
    limits: WorkflowLimits,
    mut connectivity: Vec<Answer>,
    wifi: fn() -> WorkflowEvent,
    portal: fn() -> WorkflowEvent,
) -> (Result<WorkflowResult, CoreError>, Counts) {
    let mut counts = Counts { wifi: 0, portal: 0, progress: Vec::new() };
    let (mut run, mut step) = WorkflowRun::start(&config(), &limits);
    loop {
        if let Some(message) = step.progress {
            counts.progress.push(message);
        }
        let event = match step.command {
            WorkflowCommand::Finish(result) => return (result, counts),
            WorkflowCommand::CheckOnline => match connectivity.remove(0) {
                Answer::Online(online) => WorkflowEvent::Online(online),
                Answer::Slow => WorkflowEvent::ConnectivityTimedOut,
            },
            WorkflowCommand::ConnectWifi(_) => {
                counts.wifi += 1;
                wifi()
            }
            WorkflowCommand::Authenticate { .. } => {
                counts.portal += 1;
                portal()
            }
            WorkflowCommand::Sleep(_) => WorkflowEvent::Slept,
        };
        assert!(run.accepts(&event));
        step = run.step(event);
    }
}

fn wifi_ok() -> WorkflowEvent {
    WorkflowEvent::WifiReady
}

fn portal_ok() -> WorkflowEvent {
    WorkflowEvent::Authenticated(String::new())
}

#[test]
fn online_skips_wifi_and_portal() {
    let (result, counts) = drive(WorkflowLimits::default(), vec![Answer::Online(true)], wifi_ok, portal_ok);
    assert_eq!(result.unwrap().message, "网络已经连通，无需重复认证");
    assert_eq!(counts.wifi, 0);
    assert_eq!(counts.portal, 0);
}

#[test]
fn offline_connects_authenticates_and_verifies() {
    let (result, counts) = drive(
        WorkflowLimits::default(),
        vec![Answer::Online(false), Answer::Online(false), Answer::Online(true)],
        wifi_ok,
        portal_ok,
    );
    assert!(result.unwrap().message.starts_with("认证成功"));
    assert_eq!(counts.wifi, 1);
    assert_eq!(counts.portal, 1);
}

#[test]
fn connectivity_timeout_is_finite_and_clear() {
    let (result, _) = drive(WorkflowLimits::default(), vec![Answer::Slow], wifi_ok, portal_ok);
    assert_eq!(result.unwrap_err(), CoreError::Timeout("公网检测"));
}

fn portal_refuses() -> WorkflowEvent {
    WorkflowEvent::AuthenticationFailed(CoreError::Authentication("账号或密码错误".into()))
}

#[test]
fn portal_error_is_user_friendly() {
    let (result, _) = drive(
        WorkflowLimits::default(),
        vec![Answer::Online(false), Answer::Online(false)],
        wifi_ok,
        portal_refuses,
    );
    assert_eq!(result.unwrap_err().message(), "校园网认证失败：账号或密码错误");
}

fn wifi_slow() -> WorkflowEvent {
    WorkflowEvent::WifiTimedOut
}

#[test]
fn wifi_timeout_is_finite_and_clear() {
    let (result, _) = drive(WorkflowLimits::default(), vec![Answer::Online(false)], wifi_slow, portal_ok);
    assert_eq!(result.unwrap_err(), CoreError::Timeout("Wi-Fi 连接"));
}

fn portal_slow() -> WorkflowEvent {
    WorkflowEvent::AuthenticationTimedOut
}

#[test]
fn portal_timeout_is_finite_and_clear() {
    let (result, _) = drive(
        WorkflowLimits::default(),
        vec![Answer::Online(false), Answer::Online(false)],
        wifi_ok,
        portal_slow,
    );
    assert_eq!(result.unwrap_err(), CoreError::Timeout("校园网认证"));
}

#[test]
fn missing_credentials_stop_before_any_check() {
    let limits = WorkflowLimits::default();
    let (run, step) = WorkflowRun::start(&Configuration::default(), &limits);
    assert_eq!(run.current_phase(), RunPhase::Done);
    assert!(step.progress.is_none());
    match step.command {
        WorkflowCommand::Finish(Err(error)) => {
            assert_eq!(error, CoreError::MissingCredentials);
            assert_eq!(error.message(), "请先填写学号和密码");
        }
        _ => panic!("a run without credentials must finish at once"),
    }
}

#[test]
fn verification_gives_up_after_all_attempts() {
    let (result, counts) = drive(
        WorkflowLimits::default(),
        vec![
            Answer::Online(false),
            Answer::Online(false),
            Answer::Online(false),
            Answer::Online(false),
            Answer::Online(false),
        ],
        wifi_ok,
        portal_ok,
    );
    assert_eq!(result.unwrap_err(), CoreError::VerificationFailed);
    assert_eq!(
        counts.progress,
        vec![
            "正在检测互联网连接…",
            "正在检查并连接 Wi-Fi…",
            "Wi-Fi 已就绪，正在检测互联网…",
            "正在向 HIT 门户认证…",
            "认证完成，正在验证网络…",
        ]
    );
}

#[test]
fn zero_verification_attempts_fail_after_login() {
    let limits = WorkflowLimits { verification_attempts: 0, ..WorkflowLimits::default() };
    let (result, counts) = drive(limits, vec![Answer::Online(false), Answer::Online(false)], wifi_ok, portal_ok);
    assert_eq!(result.unwrap_err(), CoreError::VerificationFailed);
    assert_eq!(counts.portal, 1);
}

fn portal_with_message() -> WorkflowEvent {
    WorkflowEvent::Authenticated("登录成功".into())
}

#[test]
fn portal_message_is_appended_to_success() {
    let (result, _) = drive(
        WorkflowLimits::default(),
        vec![Answer::Online(false), Answer::Online(false), Answer::Online(false), Answer::Online(true)],
        wifi_ok,
        portal_with_message,
    );
    assert_eq!(result.unwrap().message, "认证成功，网络已连通（登录成功）");
}

#[test]
fn online_after_wifi_skips_portal() {
    let (result, counts) = drive(
        WorkflowLimits::default(),
        vec![Answer::Online(false), Answer::Online(true)],
        wifi_ok,
        portal_ok,
    );
    assert_eq!(result.unwrap().message, "网络已经连通，无需重复认证");
    assert_eq!(counts.wifi, 1);
    assert_eq!(counts.portal, 0);
}

#[test]
fn error_messages() {
    assert_eq!(CoreError::Connectivity("x".into()).message(), "公网检测失败：x");
    assert_eq!(CoreError::Wifi("x".into()).message(), "无法连接 HIT-WLAN：x");
    assert_eq!(CoreError::InvalidPortalResponse.message(), "认证门户返回了无法解析的数据");
    assert_eq!(CoreError::Challenge("x".into()).message(), "获取认证挑战值失败：x");
    assert_eq!(CoreError::Portal("x".into()).message(), "认证门户错误：x");
    assert_eq!(CoreError::Timeout("公网检测").message(), "公网检测超时");
    assert_eq!(
        CoreError::VerificationFailed.message(),
        "认证请求已完成，但仍无法访问互联网"
    );
}

#[test]
fn a_run_accepts_only_answers_to_its_command() {
    let (mut run, _) = WorkflowRun::start(&config(), &WorkflowLimits::default());
    assert!(run.accepts(&WorkflowEvent::Online(false)));
    assert!(run.accepts(&WorkflowEvent::ConnectivityTimedOut));
    assert!(!run.accepts(&WorkflowEvent::WifiReady));
    assert!(!run.accepts(&WorkflowEvent::Slept));
    run.step(WorkflowEvent::Online(false));
    assert!(run.accepts(&WorkflowEvent::WifiReady));
    assert!(!run.accepts(&WorkflowEvent::Online(true)));
    run.step(WorkflowEvent::WifiFailed(CoreError::Wifi("x".into())));
    assert_eq!(run.current_phase(), RunPhase::Done);
    assert!(!run.accepts(&WorkflowEvent::Online(true)));
    assert!(!run.accepts(&WorkflowEvent::Slept));
}

#[test]
fn default_limits_are_the_documented_ones() {
    let l = WorkflowLimits::default();
    assert_eq!(l.connectivity_timeout, std::time::Duration::from_secs(8));
    assert_eq!(l.wifi_timeout, std::time::Duration::from_secs(20));
    assert_eq!(l.portal_timeout, std::time::Duration::from_secs(20));
    assert_eq!(l.verification_attempts, 3);
    assert_eq!(l.verification_delay, std::time::Duration::from_millis(1500));
    assert_eq!(l.verification_delay.as_nanos(), 1_500_000_000);
}
