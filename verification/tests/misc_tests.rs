use keyd::config_impl::include_path;
use keyd::ipc::{dispatch_request, eval_reply, ControlCommand, IpcRequest, IpcResponse};
use keyd::schedule::{elapse_timeout, merge_timeout, poll_timeout};

#[test]
fn poll_timeouts() {
    assert_eq!(poll_timeout(-1), -1);
    assert_eq!(poll_timeout(0), 0);
    assert_eq!(poll_timeout(250), 250);
    assert_eq!(poll_timeout(i64::MAX), i32::MAX);
}

#[test]
fn merged_timeouts() {
    assert_eq!(merge_timeout(-1, 0), -1);
    assert_eq!(merge_timeout(-1, 200), 200);
    assert_eq!(merge_timeout(100, 200), 100);
    assert_eq!(merge_timeout(300, 200), 200);
    assert_eq!(merge_timeout(300, 0), 300);
}

#[test]
fn elapsed_timeouts() {
    assert_eq!(elapse_timeout(-1, 50), (-1, false));
    assert_eq!(elapse_timeout(100, 40), (60, false));
    assert_eq!(elapse_timeout(100, 100), (0, true));
    assert_eq!(elapse_timeout(100, 150), (-50, true));
}

#[test]
fn requests_dispatch() {
    let d = dispatch_request(IpcRequest::Eval("main.a = b".to_string()));
    assert_eq!(d.command, Some(ControlCommand::Eval("main.a = b".to_string())));
    assert!(d.reply.is_none());
    let d = dispatch_request(IpcRequest::Reload);
    assert_eq!(d.command, Some(ControlCommand::Reload));
    assert_eq!(d.reply, Some(IpcResponse::Success("Reloading".to_string())));
    for r in [IpcRequest::Monitor, IpcRequest::LayerListen] {
        let d = dispatch_request(r);
        assert!(d.command.is_none());
        assert_eq!(d.reply, Some(IpcResponse::Error("Not implemented".to_string())));
    }
    assert_eq!(eval_reply(), IpcResponse::Success("Evaluated".to_string()));
}

#[test]
fn include_lines() {
    assert_eq!(include_path("include /etc/keyd/common"), Some("/etc/keyd/common".to_string()));
    assert_eq!(include_path("  include   other.conf  "), Some("other.conf".to_string()));
    assert_eq!(include_path("a = b"), None);
    assert_eq!(include_path("includes"), None);
}
