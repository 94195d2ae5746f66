//! Status reports shown to the user while and after a run.
use vstd::prelude::*;

use crate::coordinator::{label_spec, RunTrigger};
use crate::text::push_str;
use crate::workflow::{error_message, CoreError, WorkflowResult};

verus! {

/// How a status report looks.
#[derive(Clone, Copy, Debug, PartialEq, Eq, Structural)]
pub enum StatusLevel {
    Idle,
    Working,
    Success,
    Warning,
    Failure,
}

/// A status report: headline, detail line, and whether a run is active.
#[derive(Clone, Debug)]
pub struct StatusUpdate {
    pub level: StatusLevel,
    pub message: String,
    pub detail: String,
    pub running: bool,
}

/// An event for the user interface.
#[derive(Clone, Debug)]
pub enum AppEvent {
    Status(StatusUpdate),
}

/// Why the application could not do what was asked.
#[derive(Debug)]
pub enum AppError {
    Config(String),
    Platform(String),
    AlreadyRunning,
}

/// The user-facing text of an application error.
pub open spec fn app_error_message(e: AppError) -> Seq<char> {
    match e {
        AppError::Config(s) => "配置错误："@ + s@,
        AppError::Platform(s) => "系统集成错误："@ + s@,
        AppError::AlreadyRunning => "程序已在运行"@,
    }
}

impl AppError {
    /// The user-facing text of the error.
    pub fn message(&self) -> (m: String)
        ensures
            m@ == app_error_message(*self),
    {
        let mut m = String::new();
        match self {
            AppError::Config(s) => {
                push_str(&mut m, "配置错误：");
                push_str(&mut m, s.as_str());
            },
            AppError::Platform(s) => {
                push_str(&mut m, "系统集成错误：");
                push_str(&mut m, s.as_str());
            },
            AppError::AlreadyRunning => push_str(&mut m, "程序已在运行"),
        }
        m
    }
}

/// The detail line of a report made during a run.
pub open spec fn trigger_detail(t: RunTrigger) -> Seq<char> {
    "触发原因："@ + label_spec(t)
}

fn trigger_detail_exec(t: RunTrigger) -> (d: String)
    ensures
        d@ == trigger_detail(t),
{
    let mut d = "触发原因：".to_owned();
    push_str(&mut d, t.label());
    d
}

/// The report after the settings were saved.
pub fn saved_status() -> (s: StatusUpdate)
    ensures
        s.level == StatusLevel::Idle,
        s.message@ == "设置已保存"@,
        s.detail@ == "账号密码按需求以明文配置保存；状态信息不会记录认证敏感参数"@,
        !s.running,
{
    StatusUpdate {
        level: StatusLevel::Idle,
        message: "设置已保存".to_owned(),
        detail: "账号密码按需求以明文配置保存；状态信息不会记录认证敏感参数".to_owned(),
        running: false,
    }
}

/// The report when a run cannot start for want of an account name and password.
pub fn missing_credentials_status() -> (s: StatusUpdate)
    ensures
        s.level == StatusLevel::Warning,
        s.message@ == "请先填写学号和密码"@,
        s.detail@ == "打开设置后点击“保存并立即检测”"@,
        !s.running,
{
    StatusUpdate {
        level: StatusLevel::Warning,
        message: "请先填写学号和密码".to_owned(),
        detail: "打开设置后点击“保存并立即检测”".to_owned(),
        running: false,
    }
}

/// The report when a run starts.
pub fn started_status(trigger: RunTrigger) -> (s: StatusUpdate)
    ensures
        s.level == StatusLevel::Working,
        s.message@ == "开始检测"@,
        s.detail@ == trigger_detail(trigger),
        s.running,
{
    StatusUpdate {
        level: StatusLevel::Working,
        message: "开始检测".to_owned(),
        detail: trigger_detail_exec(trigger),
        running: true,
    }
}

/// The report of a progress message during a run.
pub fn progress_status(trigger: RunTrigger, message: &str) -> (s: StatusUpdate)
    ensures
        s.level == StatusLevel::Working,
        s.message@ == message@,
        s.detail@ == trigger_detail(trigger),
        s.running,
{
    StatusUpdate {
        level: StatusLevel::Working,
        message: message.to_owned(),
        detail: trigger_detail_exec(trigger),
        running: true,
    }
}

/// The report when a run ends in success.
pub fn success_status(trigger: RunTrigger, message: String) -> (s: StatusUpdate)
    ensures
        s.level == StatusLevel::Success,
        s.message@ == message@,
        s.detail@ == label_spec(trigger) + " · 已完成"@,
        !s.running,
{
    let mut detail = trigger.label().to_owned();
    push_str(&mut detail, " · 已完成");
    StatusUpdate { level: StatusLevel::Success, message, detail, running: false }
}

/// The report when a run stops with a failure.
pub fn failure_status(trigger: RunTrigger, message: String) -> (s: StatusUpdate)
    ensures
        s.level == StatusLevel::Failure,
        s.message@ == message@,
        s.detail@ == label_spec(trigger) + " · 已停止"@,
        !s.running,
{
    let mut detail = trigger.label().to_owned();
    push_str(&mut detail, " · 已停止");
    StatusUpdate { level: StatusLevel::Failure, message, detail, running: false }
}

/// The report for the outcome of a run.
pub fn outcome_status(trigger: RunTrigger, outcome: Result<WorkflowResult, CoreError>) -> (s: StatusUpdate)
    ensures
        !s.running,
        outcome matches Ok(r) ==> s.level == StatusLevel::Success && s.message@ == r.message@
            && s.detail@ == label_spec(trigger) + " · 已完成"@,
        outcome matches Err(e) ==> s.level == StatusLevel::Failure && s.message@ == error_message(e)
            && s.detail@ == label_spec(trigger) + " · 已停止"@,
{
    match outcome {
        Ok(result) => success_status(trigger, result.message),
        Err(error) => failure_status(trigger, error.message()),
    }
}

/// Follows the reports of a one-shot check: `started` records whether a running report was
/// seen. Once a report that is not running follows one that was, the check is over, and it
/// succeeded exactly when that report is a success.
pub fn check_once_progress(started: bool, status: &StatusUpdate) -> (r: (bool, Option<bool>))
    ensures
        r.0 == (started || status.running),
        r.1 == (if r.0 && !status.running {
            Some(status.level == StatusLevel::Success)
        } else {
            None::<bool>
        }),
{
    let started = started || status.running;
    if started && !status.running {
        (started, Some(status.level == StatusLevel::Success))
    } else {
        (started, None)
    }
}

} // verus!
