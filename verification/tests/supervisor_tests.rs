use hab_sup::config::Config;
use hab_sup::sidecar::{route, Endpoint};
use hab_sup::supervisor::{
    bound_output, http_code_of, status_from_exit, HealthStatus, ProcessState, Supervisor,
    OUTPUT_LIMIT, STABLE_FOR_MS,
};

#[test]
fn exit_codes_map_to_health() {
    assert_eq!(status_from_exit(0), HealthStatus::Okay);
    assert_eq!(status_from_exit(1), HealthStatus::Warning);
    assert_eq!(status_from_exit(2), HealthStatus::Critical);
    assert_eq!(status_from_exit(3), HealthStatus::Unknown);
    assert_eq!(status_from_exit(-1), HealthStatus::Unknown);
}

#[test]
fn health_maps_to_http_codes() {
    assert_eq!(http_code_of(HealthStatus::Okay), 200);
    assert_eq!(http_code_of(HealthStatus::Warning), 200);
    assert_eq!(http_code_of(HealthStatus::Critical), 503);
    assert_eq!(http_code_of(HealthStatus::Unknown), 500);
}

#[test]
fn short_output_is_kept_verbatim() {
    let out = b"all well".to_vec();
    assert_eq!(bound_output(out.clone()), out);
}

#[test]
fn long_output_is_cut_and_marked() {
    let out = vec![b'x'; OUTPUT_LIMIT + 100];
    let bounded = bound_output(out);
    assert_eq!(bounded.len(), OUTPUT_LIMIT + b"..[truncated]".len());
    assert_eq!(&bounded[OUTPUT_LIMIT..], b"..[truncated]");
    assert!(bounded[..OUTPUT_LIMIT].iter().all(|&b| b == b'x'));
}

#[test]
fn restart_backoff_doubles_until_the_child_runs_stable() {
    let mut s = Supervisor::new();
    s.started(100, 0);
    // Crash right away: backoff starts at 100 ms and doubles.
    assert_eq!(s.child_exited(10), 100);
    s.started(101, 20);
    assert_eq!(s.child_exited(30), 200);
    s.started(102, 40);
    assert_eq!(s.child_exited(50), 400);
    // The child finally runs stable: the backoff resets.
    s.started(103, 60);
    assert_eq!(s.child_exited(60 + STABLE_FOR_MS), 100);
    assert_eq!(s.state, ProcessState::Down);
}

#[test]
fn stop_waits_for_the_grace_deadline_then_kills() {
    let mut s = Supervisor::new();
    s.started(100, 0);
    s.stop_ordered(1000, 5000);
    assert_eq!(s.state, ProcessState::Stopping);
    assert!(!s.grace_expired(5999));
    assert!(s.grace_expired(6000));
    s.stopped();
    assert_eq!(s.state, ProcessState::Down);
    assert_eq!(s.pid, None);
}

#[test]
fn status_describes_the_state() {
    let mut s = Supervisor::new();
    let (state, text) = s.status();
    assert_eq!(state, ProcessState::Down);
    assert_eq!(text, "down".to_string());
    s.started(7, 0);
    let (state, text) = s.status();
    assert_eq!(state, ProcessState::Up);
    assert_eq!(text, "up".to_string());
}

#[test]
fn sigterm_brings_the_child_down_within_grace() {
    // The supervisor receives SIGTERM, orders a stop, and the child obeys
    // before the grace deadline: an orderly exit, no force needed.
    let mut s = Supervisor::new();
    s.started(42, 0);
    s.stop_ordered(100, 8000);
    assert!(!s.grace_expired(4000));
    s.stopped();
    assert_eq!(s.state, ProcessState::Down);
}

#[test]
fn sidecar_routes_its_six_endpoints() {
    assert_eq!(route("/config"), Some(Endpoint::Config));
    assert_eq!(route("/health"), Some(Endpoint::Health));
    assert_eq!(route("/status"), Some(Endpoint::Status));
    assert_eq!(route("/gossip"), Some(Endpoint::Gossip));
    assert_eq!(route("/census"), Some(Endpoint::Census));
    assert_eq!(route("/election"), Some(Endpoint::Election));
    assert_eq!(route("/nope"), None);
    assert_eq!(route(""), None);
}

#[test]
fn default_config_serves_every_shard_locally() {
    let c = Config::default();
    assert_eq!(c.routers.len(), 1);
    assert_eq!(c.routers[0].port, 5562);
    assert_eq!(c.heartbeat_port(), 5563);
    assert_eq!(c.shards().len(), 128);
    assert_eq!(c.shards()[0], 0);
    assert_eq!(c.shards()[127], 127);
    assert!(c.worker_threads >= 1);
    assert_eq!(c.redis_url(), b"redis://127.0.0.1:6379".to_vec());
}
