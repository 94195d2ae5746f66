use hit_auto_login_core::status::{
    check_once_progress, failure_status, missing_credentials_status, outcome_status,
    progress_status, saved_status, started_status, success_status, AppError, StatusLevel,
};
use hit_auto_login_core::{CoreError, RunTrigger, WorkflowResult};

#[test]
fn run_reports() {
    let s = started_status(RunTrigger::Manual);
    assert_eq!(s.level, StatusLevel::Working);
    assert_eq!(s.message, "开始检测");
    assert_eq!(s.detail, "触发原因：手动检测");
    assert!(s.running);
    let p = progress_status(RunTrigger::Resume, "正在检测互联网连接…");
    assert_eq!(p.detail, "触发原因：系统唤醒");
    assert!(p.running);
    let ok = success_status(RunTrigger::Launch, "done".into());
    assert_eq!(ok.detail, "登录启动 · 已完成");
    assert!(!ok.running);
    let bad = failure_status(RunTrigger::Launch, "x".into());
    assert_eq!(bad.level, StatusLevel::Failure);
    assert_eq!(bad.detail, "登录启动 · 已停止");
    assert_eq!(missing_credentials_status().message, "请先填写学号和密码");
    assert_eq!(saved_status().message, "设置已保存");
}

#[test]
fn outcome_reports() {
    let s = outcome_status(RunTrigger::Manual, Ok(WorkflowResult { message: "m".into() }));
    assert_eq!(s.level, StatusLevel::Success);
    assert_eq!(s.message, "m");
    let f = outcome_status(RunTrigger::Manual, Err(CoreError::Timeout("公网检测")));
    assert_eq!(f.level, StatusLevel::Failure);
    assert_eq!(f.message, "公网检测超时");
    assert_eq!(s.detail, "手动检测 · 已完成");
    assert_eq!(f.detail, "手动检测 · 已停止");
    assert!(!s.running && !f.running);
}

#[test]
fn check_once_follows_reports() {
    let working = started_status(RunTrigger::Manual);
    let done = success_status(RunTrigger::Manual, "m".into());
    let failed = failure_status(RunTrigger::Manual, "m".into());
    assert_eq!(check_once_progress(false, &done), (false, None));
    assert_eq!(check_once_progress(false, &working), (true, None));
    assert_eq!(check_once_progress(true, &done), (true, Some(true)));
    assert_eq!(check_once_progress(true, &failed), (true, Some(false)));
}

#[test]
fn app_error_messages() {
    assert_eq!(AppError::Config("x".into()).message(), "配置错误：x");
    assert_eq!(AppError::Platform("y".into()).message(), "系统集成错误：y");
    assert_eq!(AppError::AlreadyRunning.message(), "程序已在运行");
}
