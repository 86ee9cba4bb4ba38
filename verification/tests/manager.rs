use realm::addr::IpAddress;
use realm::addr::SockAddr;
use realm::conf::EndpointConf;
use realm::endpoint::RemoteAddr;
use realm::conf::Lookup;
use realm::conf::NetConf;
use realm::conf::Resolved;
use realm::instance::CreateInstanceRequest;
use realm::instance::InstanceAutoStartUpdate;
use realm::instance::InstanceStatus;
use realm::instance::PersistedInstance;
use realm::manager::build_error_text;
use realm::manager::create_checked;
use realm::manager::exit_message;
use realm::manager::after_install;
use realm::manager::after_ready;
use realm::manager::ready_failure;
use realm::manager::update_checked;
use realm::manager::InstanceManager;
use realm::manager::ReadyOutcome;
use realm::manager::StartStep;
use realm::manager::TaskExit;
use realm::manager::Transport;
use realm::manager::READY_TIMEOUT_SECS;
use realm::report::ConnectionsPageResponse;
use realm::report::ConnectionsQuery;
use realm::tcp::TcpObserver;
use std::time::Duration;
use tokio::runtime::Runtime;
use tokio::task::AbortHandle;

fn runtime() -> Runtime {
    tokio::runtime::Builder::new_current_thread().enable_all().build().unwrap()
}

/// A handle on a task that sleeps for an hour.
fn sleeper(rt: &Runtime) -> AbortHandle {
    rt.spawn(async {
        tokio::time::sleep(Duration::from_secs(3600)).await;
    })
    .abort_handle()
}

/// What an endpoint starter that always succeeds hands back.
fn ok_start(rt: &Runtime) -> Result<(Option<AbortHandle>, Option<AbortHandle>), String> {
    Ok((Some(sleeper(rt)), None))
}

fn conf(remote: &str) -> EndpointConf {
    EndpointConf {
        listen: "127.0.0.1:0".to_string(),
        remote: remote.to_string(),
        extra_remotes: vec![],
        balance: None,
        through: None,
        interface: None,
        listen_interface: None,
        listen_transport: None,
        remote_transport: None,
        network: Default::default(),
    }
}

fn resolved() -> Resolved {
    Resolved {
        listen: Lookup::Found(SockAddr { ip: IpAddress::V4(0x7f00_0001), port: 0 }),
        remote: None,
        extra_remotes: vec![],
        through: Lookup::Nothing,
        through_ip: Err("invalid IP address syntax".to_string()),
    }
}

fn now(n: u32) -> String {
    format!("2020-01-01T00:00:{:02}+00:00", n)
}

/// A manager with one instance `id`, created and started.
fn running(rt: &Runtime, id: &str) -> InstanceManager {
    let mut m = InstanceManager::new();
    let (generation, status) = m.prepare_create(id.to_string(), conf("example.com:80"), now(0));
    assert_eq!((generation, status), (1, 201));
    let started = m.finish_start(id, ok_start(rt), "creation", now(1)).unwrap();
    assert!(matches!(started.status, InstanceStatus::Running));
    m
}

#[test]
fn http_crud_and_lifecycle_flow_matches_design() {
    let rt = runtime();
    let mut global = NetConf::default();
    global.tcp_timeout = Some(5);
    let mut m = InstanceManager::new();

    // list empty
    assert!(m.list().is_empty());

    // create
    let req = CreateInstanceRequest { id: None, external_id: None, config: conf("example.com:80") };
    let admitted = create_checked(req, Some(&global), &resolved()).unwrap();
    let id = admitted.id.clone();
    assert!(!id.is_empty());
    let (generation, status) = m.prepare_create(admitted.id, admitted.config, now(0));
    assert_eq!(status, 201);
    assert_eq!(generation, 1);
    assert!(m.check_generation(&id, generation).is_ok());
    let created = m.finish_start(&id, ok_start(&rt), "creation", now(1)).unwrap();
    assert!(matches!(created.status, InstanceStatus::Running));
    assert_eq!(created.config.network.tcp_timeout, Some(5));
    assert!(created.auto_start);

    // get
    let got = m.get(&id).unwrap();
    assert_eq!(got.id, created.id);
    assert_eq!(m.list().len(), 1);

    // patch auto_start
    let patched = m.patch_auto_start(&id, InstanceAutoStartUpdate { auto_start: false }, now(2)).unwrap();
    assert!(!patched.auto_start);

    // stop
    let stopped = m.stop(&id, now(3)).unwrap();
    assert!(matches!(stopped.status, InstanceStatus::Stopped));
    {
        let data = m.data(&id).unwrap();
        assert!(data.tcp_abort.is_none());
        assert!(data.udp_abort.is_none());
    }

    // stop conflict
    let err = m.stop(&id, now(4)).unwrap_err();
    assert_eq!(err.status, 409);
    assert_eq!(err.body.error.code, "conflict");

    // start
    let config = m.effective_config(&id, Some(&global)).unwrap();
    let built = config.try_build(&resolved());
    let generation = m.prepare_start(&id, build_error_text(&built), now(5)).unwrap();
    let started = m.finish_start(&id, ok_start(&rt), "start", now(6)).unwrap();
    assert!(matches!(started.status, InstanceStatus::Running));
    assert!(m.data(&id).unwrap().tcp_abort.is_some());
    assert_eq!(m.data(&id).unwrap().generation, generation);

    // start conflict
    let err = m.prepare_start(&id, None, now(7)).unwrap_err();
    assert_eq!(err.status, 409);
    assert_eq!(err.body.error.code, "conflict");

    // update (PUT) should also inherit global defaults
    let (config, _info) = update_checked(conf("example.com:81"), Some(&global), &resolved()).unwrap();
    m.prepare_update(&id, config, now(8)).unwrap();
    let updated = m.finish_start(&id, ok_start(&rt), "update", now(9)).unwrap();
    assert_eq!(updated.config.remote, "example.com:81");
    assert_eq!(updated.config.network.tcp_timeout, Some(5));

    // restart
    let before_gen = m.data(&id).unwrap().generation;
    m.prepare_restart(&id, None, now(10)).unwrap();
    let restarted = m.finish_start(&id, ok_start(&rt), "restart", now(11)).unwrap();
    assert!(matches!(restarted.status, InstanceStatus::Running));
    let after_gen = m.data(&id).unwrap().generation;
    assert!(after_gen > before_gen);

    // delete
    assert!(m.delete(&id).is_ok());
    assert_eq!(m.len(), 0);

    // get after delete -> 404
    let err = m.get(&id).unwrap_err();
    assert_eq!(err.status, 404);
    assert_eq!(err.body.error.code, "not_found");
}

#[test]
fn http_post_instances_supports_id_upsert() {
    let rt = runtime();
    let mut m = InstanceManager::new();
    let req = CreateInstanceRequest {
        id: Some("fixed-id".to_string()),
        external_id: None,
        config: conf("example.com:80"),
    };
    let a = create_checked(req, None, &resolved()).unwrap();
    assert_eq!(a.id, "fixed-id");
    let (generation, status) = m.prepare_create(a.id, a.config, now(0));
    assert_eq!((generation, status), (1, 201));
    let created = m.finish_start("fixed-id", ok_start(&rt), "creation", now(1)).unwrap();
    assert_eq!(created.id, "fixed-id");
    assert_eq!(created.config.remote, "example.com:80");

    let req = CreateInstanceRequest {
        id: None,
        external_id: Some("fixed-id".to_string()),
        config: conf("example.com:81"),
    };
    let a = create_checked(req, None, &resolved()).unwrap();
    let (generation, status) = m.prepare_create(a.id, a.config, now(2));
    assert_eq!((generation, status), (2, 200));
    // halted for the new start
    assert!(m.data("fixed-id").unwrap().tcp_abort.is_none());
    assert!(matches!(m.get("fixed-id").unwrap().status, InstanceStatus::Stopped));
    let updated = m.finish_start("fixed-id", ok_start(&rt), "creation", now(3)).unwrap();
    assert_eq!(updated.id, "fixed-id");
    assert_eq!(updated.config.remote, "example.com:81");

    assert_eq!(m.len(), 1);
    assert!(m.data("fixed-id").is_some());
    assert_eq!(m.data("fixed-id").unwrap().created_at, now(0));
    assert_eq!(m.data("fixed-id").unwrap().updated_at, Some(now(3)));
}

#[test]
fn http_create_invalid_config_returns_400() {
    let req = CreateInstanceRequest { id: None, external_id: None, config: conf("example.com:80") };
    let unresolved = Resolved {
        listen: Lookup::Failed("invalid socket address".to_string()),
        ..resolved()
    };
    let err = create_checked(req, None, &unresolved).unwrap_err();
    assert_eq!(err.status, 400);
    assert_eq!(err.body.error.code, "invalid_config");
    assert_eq!(err.body.error.message, "invalid `listen`: invalid socket address");
    let err = update_checked(conf("nohost"), None, &resolved()).unwrap_err();
    assert_eq!(err.status, 400);
    assert_eq!(err.body.error.code, "invalid_config");
    assert_eq!(err.body.error.message, "invalid `remote`: missing host");
}

#[test]
fn create_checks_the_id() {
    let req = |id: Option<&str>, ext: Option<&str>| CreateInstanceRequest {
        id: id.map(|s| s.to_string()),
        external_id: ext.map(|s| s.to_string()),
        config: conf("example.com:80"),
    };
    let err = create_checked(req(Some("a"), Some("b")), None, &resolved()).unwrap_err();
    assert_eq!(err.status, 400);
    assert_eq!(err.body.error.code, "invalid_id");
    assert_eq!(err.body.error.message, "id and external_id must match when both are provided");
    assert_eq!(create_checked(req(Some("a"), Some("a")), None, &resolved()).unwrap().id, "a");
    assert_eq!(create_checked(req(None, Some("x")), None, &resolved()).unwrap().id, "x");
    let err = create_checked(req(Some("a/b"), None), None, &resolved()).unwrap_err();
    assert_eq!(err.body.error.code, "invalid_id");
    assert_eq!(err.body.error.message, "id must not contain path separators");
    let err = create_checked(req(Some(""), None), None, &resolved()).unwrap_err();
    assert_eq!(err.body.error.message, "id must not be empty");
    // two requests without an id get two ids
    let a = create_checked(req(None, None), None, &resolved()).unwrap();
    let b = create_checked(req(None, None), None, &resolved()).unwrap();
    assert_ne!(a.id, b.id);
    assert_eq!(a.id.len(), 36);
    // the configuration is looked at before the id
    let bad = CreateInstanceRequest {
        id: Some("a b".to_string()),
        external_id: None,
        config: conf("nohost"),
    };
    assert_eq!(create_checked(bad, None, &resolved()).unwrap_err().body.error.code, "invalid_config");
}

#[test]
fn http_start_failure_sets_failed_status() {
    let mut m = InstanceManager::new();
    m.prepare_create("i".to_string(), conf("example.com:80"), now(0));
    let created = m.finish_start("i", Err("boom".to_string()), "creation", now(1)).unwrap();
    assert!(matches!(&created.status, InstanceStatus::Failed(why) if why == "boom"));

    // start should also answer, and mark Failed(...)
    m.prepare_start("i", None, now(2)).unwrap();
    let started = m.finish_start("i", Err("boom".to_string()), "start", now(3)).unwrap();
    assert!(matches!(started.status, InstanceStatus::Failed(_)));
    let data = m.data("i").unwrap();
    assert!(data.tcp_abort.is_none());
    assert!(data.udp_abort.is_none());
}

#[test]
fn a_start_of_a_broken_configuration_fails_the_instance() {
    let mut m = InstanceManager::new();
    m.prepare_create("i".to_string(), conf("nohost"), now(0));
    let config = m.effective_config("i", None).unwrap();
    let built = config.try_build(&resolved());
    let err = m.prepare_start("i", build_error_text(&built), now(1)).unwrap_err();
    assert_eq!(err.status, 400);
    assert_eq!(err.body.error.code, "invalid_config");
    assert_eq!(err.body.error.message, "invalid `remote`: missing host");
    let i = m.get("i").unwrap();
    assert!(matches!(&i.status, InstanceStatus::Failed(why) if why == "invalid `remote`: missing host"));
    assert_eq!(m.data("i").unwrap().updated_at, Some(now(1)));
    let err = m.prepare_restart("i", Some("still broken".to_string()), now(2)).unwrap_err();
    assert_eq!(err.body.error.message, "still broken");
    assert!(matches!(&m.get("i").unwrap().status, InstanceStatus::Failed(why) if why == "still broken"));
}

#[test]
fn requests_for_what_is_not_there() {
    let mut m = InstanceManager::new();
    assert_eq!(m.get("missing").unwrap_err().status, 404);
    assert_eq!(m.stop("missing", now(0)).unwrap_err().body.error.code, "not_found");
    assert_eq!(m.delete("missing").unwrap_err().status, 404);
    assert_eq!(m.prepare_start("missing", None, now(0)).unwrap_err().status, 404);
    assert_eq!(m.prepare_restart("missing", None, now(0)).unwrap_err().status, 404);
    assert_eq!(m.prepare_update("missing", conf("a:1"), now(0)).unwrap_err().status, 404);
    assert_eq!(
        m.patch_auto_start("missing", InstanceAutoStartUpdate { auto_start: true }, now(0))
            .unwrap_err()
            .status,
        404
    );
    assert_eq!(m.effective_config("missing", None).unwrap_err().status, 404);
    assert!(m.data("missing").is_none());
    // an instance that was deleted while its endpoint started
    let err = m.finish_start("missing", Err("x".to_string()), "restart", now(0)).unwrap_err();
    assert_eq!(err.status, 500);
    assert_eq!(err.body.error.code, "internal_error");
    assert_eq!(err.body.error.message, "instance disappeared during restart");
    assert_eq!(m.len(), 0);
}

#[test]
fn put_updates_restart_cleanly() {
    let rt = runtime();
    let mut m = running(&rt, "i");
    let old = m.data("i").unwrap().tcp_abort.clone().unwrap();
    // a live connection, a live association, a last backend
    let old_generation = m.data("i").unwrap().generation;
    let (config, _) = update_checked(conf("example.com:81"), None, &resolved()).unwrap();
    let generation = m.prepare_update("i", config, now(5)).unwrap();
    assert_eq!(generation, old_generation + 1);
    rt.block_on(async { tokio::task::yield_now().await });
    assert!(old.is_finished());
    let data = m.data("i").unwrap();
    assert!(data.tcp_abort.is_none());
    assert!(matches!(data.instance.status, InstanceStatus::Stopped));
    let updated = m.finish_start("i", ok_start(&rt), "update", now(6)).unwrap();
    assert!(matches!(updated.status, InstanceStatus::Running));
    assert_eq!(updated.config.remote, "example.com:81");
    let report = m.data("i").unwrap().stats.report("i", "example.com:81");
    assert_eq!(report.current_connections, 0);
    assert!(report.connections_by_backend.is_empty());
}

#[test]
fn stop_then_start_is_idempotent_under_sequence() {
    let rt = runtime();
    let mut m = running(&rt, "i");
    assert!(m.stop("i", now(2)).is_ok());
    assert_eq!(m.stop("i", now(3)).unwrap_err().status, 409);
    assert!(m.prepare_start("i", None, now(4)).is_ok());
    assert!(m.finish_start("i", ok_start(&rt), "start", now(5)).is_ok());
    let err = m.prepare_start("i", None, now(6)).unwrap_err();
    assert_eq!(err.status, 409);
    assert_eq!(err.body.error.message, "instance already running");
    // the conflict changed nothing
    assert!(matches!(m.get("i").unwrap().status, InstanceStatus::Running));
    assert!(m.data("i").unwrap().tcp_abort.is_some());
}

#[test]
fn stop_cancels_the_tasks() {
    let rt = runtime();
    let mut m = InstanceManager::new();
    m.prepare_create("i".to_string(), conf("example.com:80"), now(0));
    let tcp = sleeper(&rt);
    let udp = sleeper(&rt);
    m.finish_start("i", Ok((Some(tcp.clone()), Some(udp.clone()))), "creation", now(1)).unwrap();
    let generation = m.data("i").unwrap().generation;
    m.stop("i", now(2)).unwrap();
    rt.block_on(async { tokio::task::yield_now().await });
    assert!(tcp.is_finished());
    assert!(udp.is_finished());
    // stopping does not raise the generation
    assert_eq!(m.data("i").unwrap().generation, generation);
    // deleting cancels them too
    let mut m = running(&rt, "j");
    let h = m.data("j").unwrap().tcp_abort.clone().unwrap();
    m.delete("j").unwrap();
    rt.block_on(async { tokio::task::yield_now().await });
    assert!(h.is_finished());
}

#[test]
fn endpoint_watcher_marks_instance_failed_and_clears_handles() {
    let rt = runtime();
    let mut m = InstanceManager::new();
    m.prepare_create("i3".to_string(), conf("example.com:80"), now(0));
    let udp = sleeper(&rt);
    m.finish_start("i3", Ok((Some(sleeper(&rt)), Some(udp.clone()))), "creation", now(1)).unwrap();
    let generation = m.data("i3").unwrap().generation;

    let changed =
        m.on_task_exit("i3", generation, Transport::Tcp, &TaskExit::Failed("boom".to_string()), now(2));
    assert!(changed);
    let data = m.data("i3").unwrap();
    assert!(matches!(&data.instance.status, InstanceStatus::Failed(why) if why == "tcp task error: boom"));
    assert!(data.tcp_abort.is_none());
    assert!(data.udp_abort.is_none());
    assert!(data.updated_at.is_some());
    // the other side of the endpoint was torn down
    rt.block_on(async { tokio::task::yield_now().await });
    assert!(udp.is_finished());
}

#[test]
fn endpoint_watcher_ignores_generation_mismatch() {
    let rt = runtime();
    let mut m = running(&rt, "i7");
    let generation = m.data("i7").unwrap().generation;
    let changed = m.on_task_exit(
        "i7",
        generation + 1,
        Transport::Tcp,
        &TaskExit::Failed("boom".to_string()),
        now(2),
    );
    assert!(!changed);
    assert!(matches!(m.data("i7").unwrap().instance.status, InstanceStatus::Running));
    // a cancelled task is silent, and so is a task of an instance that is gone
    assert!(!m.on_task_exit("i7", generation, Transport::Tcp, &TaskExit::Cancelled, now(3)));
    assert!(!m.on_task_exit("gone", generation, Transport::Udp, &TaskExit::Panicked, now(3)));
    assert!(matches!(m.data("i7").unwrap().instance.status, InstanceStatus::Running));
    assert!(m.data("i7").unwrap().tcp_abort.is_some());
}

#[test]
fn start_realm_endpoint_rejects_generation_mismatch_early() {
    let rt = runtime();
    let mut m = InstanceManager::new();
    m.prepare_create("i8".to_string(), conf("example.com:80"), now(0));
    let err = m.check_generation("i8", 2).unwrap_err();
    assert!(err.contains("generation"));
    assert_eq!(m.check_generation("nope", 1).unwrap_err(), "instance not found");
    assert!(m.check_generation("i8", 1).is_ok());
    // a handle that comes too late is not installed, and its task is cancelled
    let late = sleeper(&rt);
    let err = m.install_handle("i8", 7, Transport::Udp, late.clone()).unwrap_err();
    assert_eq!(err, "instance generation changed during start");
    assert!(m.data("i8").unwrap().udp_abort.is_none());
    rt.block_on(async { tokio::task::yield_now().await });
    assert!(late.is_finished());
    // a handle that comes in time is installed
    let h = sleeper(&rt);
    assert!(m.install_handle("i8", 1, Transport::Udp, h.clone()).is_ok());
    assert!(m.data("i8").unwrap().udp_abort.is_some());
    assert!(m.data("i8").unwrap().tcp_abort.is_none());
    assert_eq!(m.data("i8").unwrap().udp_abort.as_ref().unwrap().id(), h.id());
    assert!(!h.is_finished());
    let gone = sleeper(&rt);
    assert_eq!(m.install_handle("nope", 1, Transport::Tcp, gone.clone()).unwrap_err(), "instance not found");
}

#[test]
fn a_start_that_finds_the_instance_failed_installs_nothing() {
    let rt = runtime();
    let mut m = InstanceManager::new();
    m.prepare_create("i".to_string(), conf("example.com:80"), now(0));
    // the task exits while the start is still waiting
    assert!(m.on_task_exit("i", 1, Transport::Udp, &TaskExit::Finished, now(1)));
    let i = m.finish_start("i", ok_start(&rt), "creation", now(2)).unwrap();
    assert!(matches!(&i.status, InstanceStatus::Failed(why) if why == "udp task exited"));
    assert!(m.data("i").unwrap().tcp_abort.is_none());
    assert_eq!(m.data("i").unwrap().updated_at, Some(now(2)));
}

#[test]
fn messages_of_the_starter_and_the_watcher() {
    assert_eq!(READY_TIMEOUT_SECS, 3);
    assert_eq!(ready_failure(Transport::Tcp, &ReadyOutcome::Ready), None);
    assert_eq!(
        ready_failure(Transport::Udp, &ReadyOutcome::BindFailed("address in use".to_string())),
        Some("udp bind failed: address in use".to_string())
    );
    assert_eq!(
        ready_failure(Transport::Tcp, &ReadyOutcome::Closed),
        Some("tcp startup failed (ready channel closed)".to_string())
    );
    assert_eq!(
        ready_failure(Transport::Tcp, &ReadyOutcome::TimedOut),
        Some("tcp startup timed out".to_string())
    );
    assert_eq!(exit_message(Transport::Tcp, &TaskExit::Finished), Some("tcp task exited".to_string()));
    assert_eq!(
        exit_message(Transport::Udp, &TaskExit::Failed("e".to_string())),
        Some("udp task error: e".to_string())
    );
    assert_eq!(exit_message(Transport::Udp, &TaskExit::Cancelled), None);
    assert_eq!(exit_message(Transport::Udp, &TaskExit::Panicked), Some("udp task panicked".to_string()));
    assert_eq!(
        exit_message(Transport::Tcp, &TaskExit::JoinFailed("j".to_string())),
        Some("tcp task join error: j".to_string())
    );
    assert_eq!(Transport::Tcp.name(), "tcp");
}

fn persisted(id: &str, status: &str, auto_start: bool) -> PersistedInstance {
    PersistedInstance {
        id: id.to_string(),
        config: conf("example.com:80"),
        status: status.to_string(),
        auto_start,
        created_at: "2020-01-01T00:00:00Z".to_string(),
        updated_at: Some("2020-01-02T00:00:00Z".to_string()),
    }
}

#[test]
fn auto_start_honours_a_saved_failed_state() {
    let m = InstanceManager::restore(vec![
        persisted("failed", "Failed(bind failed: address in use)", true),
        persisted("was-running", "Running", true),
        persisted("manual", "Stopped", false),
        persisted("stopped", "Stopped", true),
    ]);
    assert_eq!(m.len(), 4);
    // auto-start skips the failed instance, and the one that does not want it
    assert_eq!(m.auto_start_ids(), vec!["was-running".to_string(), "stopped".to_string()]);
    let failed = m.get("failed").unwrap();
    assert!(matches!(&failed.status, InstanceStatus::Failed(why) if why == "bind failed: address in use"));
    // a restored instance that ran is stopped until it is started
    assert!(matches!(m.get("was-running").unwrap().status, InstanceStatus::Stopped));
    let data = m.data("was-running").unwrap();
    assert_eq!(data.generation, 0);
    assert!(data.tcp_abort.is_none());
    assert_eq!(data.created_at, "2020-01-01T00:00:00Z");
    assert_eq!(data.updated_at.as_deref(), Some("2020-01-02T00:00:00Z"));
}

#[test]
fn an_auto_start_that_fails_is_kept_as_failed() {
    let rt = runtime();
    let mut m = InstanceManager::restore(vec![persisted("a", "Running", true), persisted("b", "Stopped", true)]);
    for id in m.auto_start_ids() {
        let generation = m.prepare_restart(&id, None, now(0)).unwrap();
        assert_eq!(generation, 1);
        let result = if id == "a" { ok_start(&rt) } else { Err("tcp bind failed: in use".to_string()) };
        m.finish_start(&id, result, "auto-start", now(1)).unwrap();
    }
    assert!(matches!(m.get("a").unwrap().status, InstanceStatus::Running));
    assert!(matches!(&m.get("b").unwrap().status, InstanceStatus::Failed(w) if w == "tcp bind failed: in use"));
    // the next boot leaves `b` alone
    let next = InstanceManager::restore(m.snapshot());
    assert_eq!(next.auto_start_ids(), vec!["a".to_string()]);
}

#[test]
fn persistence_manager_saves_and_preserves_timestamps() {
    let mut m = InstanceManager::restore(vec![PersistedInstance {
        id: "x".to_string(),
        config: conf("example.com:80"),
        status: "Failed(oops)".to_string(),
        auto_start: false,
        created_at: "2020-01-01T00:00:00Z".to_string(),
        updated_at: Some("2020-01-02T00:00:00Z".to_string()),
    }]);
    let saved = m.snapshot();
    assert_eq!(saved.len(), 1);
    assert_eq!(saved[0].id, "x");
    assert_eq!(saved[0].created_at, "2020-01-01T00:00:00Z");
    assert_eq!(saved[0].updated_at.as_deref(), Some("2020-01-02T00:00:00Z"));
    assert!(saved[0].status.starts_with("Failed("));
    assert_eq!(saved[0].status, "Failed(oops)");
    assert!(!saved[0].auto_start);
    assert_eq!(saved[0].config.remote, "example.com:80");
    // what was saved after some operations is what the registry holds
    m.prepare_create("y".to_string(), conf("example.org:1"), now(7));
    m.patch_auto_start("x", InstanceAutoStartUpdate { auto_start: true }, now(8)).unwrap();
    let saved = m.snapshot();
    let ids: Vec<&str> = saved.iter().map(|p| p.id.as_str()).collect();
    assert_eq!(ids, vec!["x", "y"]);
    assert_eq!(saved[0].updated_at, Some(now(8)));
    assert!(saved[0].auto_start);
    assert_eq!(saved[1].created_at, now(7));
    assert_eq!(saved[1].updated_at, None);
    assert_eq!(saved[1].status, "Stopped");
    let again = InstanceManager::restore(saved);
    assert_eq!(again.len(), 2);
    assert_eq!(again.data("y").unwrap().created_at, now(7));
}

#[test]
fn a_later_entry_replaces_an_earlier_one_of_the_same_id() {
    let mut second = persisted("dup", "Stopped", false);
    second.config.remote = "second.example:2".to_string();
    let m = InstanceManager::restore(vec![persisted("dup", "Running", true), persisted("z", "Stopped", true), second]);
    assert_eq!(m.len(), 2);
    let dup = m.get("dup").unwrap();
    assert_eq!(dup.config.remote, "second.example:2");
    assert!(!dup.auto_start);
    assert_eq!(m.auto_start_ids(), vec!["z".to_string()]);
}

#[test]
fn creations_of_distinct_ids_and_of_the_same_id() {
    let mut m = InstanceManager::new();
    for i in 0..10 {
        let (generation, status) = m.prepare_create(format!("id-{}", i), conf("example.com:80"), now(i));
        assert_eq!((generation, status), (1, 201));
    }
    assert_eq!(m.len(), 10);
    assert_eq!(m.snapshot().len(), 10);
    // the same id again and again: one record, whose generation grows
    let mut last = 1;
    for i in 0..5 {
        let (generation, status) = m.prepare_create("id-3".to_string(), conf("example.com:81"), now(20 + i));
        assert_eq!(status, 200);
        assert!(generation > last);
        last = generation;
    }
    assert_eq!(m.len(), 10);
    assert!(m.data("id-3").unwrap().generation >= 2);
    assert_eq!(m.list().iter().filter(|i| i.id == "id-3").count(), 1);
}

#[test]
fn generations_never_fall() {
    let rt = runtime();
    let mut m = InstanceManager::new();
    let mut seen = 0;
    let mut check = |m: &InstanceManager| {
        let g = m.data("i").unwrap().generation;
        assert!(g >= seen);
        seen = g;
    };
    m.prepare_create("i".to_string(), conf("a:1"), now(0));
    check(&m);
    m.finish_start("i", ok_start(&rt), "creation", now(1)).unwrap();
    check(&m);
    m.stop("i", now(2)).unwrap();
    check(&m);
    m.prepare_start("i", None, now(3)).unwrap();
    check(&m);
    m.finish_start("i", Err("x".to_string()), "start", now(4)).unwrap();
    check(&m);
    m.prepare_restart("i", None, now(5)).unwrap();
    check(&m);
    m.on_task_exit("i", 3, Transport::Tcp, &TaskExit::Panicked, now(6));
    check(&m);
    m.prepare_update("i", conf("b:1"), now(7)).unwrap();
    check(&m);
    m.patch_auto_start("i", InstanceAutoStartUpdate { auto_start: false }, now(8)).unwrap();
    check(&m);
    m.prepare_create("i".to_string(), conf("c:1"), now(9));
    check(&m);
    assert_eq!(m.data("i").unwrap().generation, 5);
}

#[test]
fn the_pipelines_report_to_the_statistics_of_the_instance() {
    let rt = runtime();
    let mut m = running(&rt, "i");
    assert!(m.stats_mut("missing").is_none());
    let stats = m.stats_mut("i").unwrap();
    let id = stats.on_connection_open(SockAddr { ip: IpAddress::V4(1), port: 1 });
    stats.on_connection_bytes(id, 3, 4);
    let report = m.data("i").unwrap().stats.report("i", "example.com:80");
    assert_eq!(report.tcp_current_connections, 1);
    assert_eq!(report.total_inbound_bytes, 3);
    // a restart forgets the live connection, not the bytes
    m.prepare_restart("i", None, now(9)).unwrap();
    let report = m.data("i").unwrap().stats.report("i", "example.com:80");
    assert_eq!(report.tcp_current_connections, 0);
    assert_eq!(report.total_outbound_bytes, 4);
}

#[test]
fn stats_endpoint_returns_not_found() {
    let m = InstanceManager::new();
    let err = m.stats_report("missing").err().expect("expected 404");
    assert_eq!(err.status, 404);
    assert_eq!(err.body.error.code, "not_found");
}

#[test]
fn connections_endpoint_returns_not_found() {
    let m = InstanceManager::new();
    let query = ConnectionsQuery { protocol: Some("tcp".to_string()), limit: None, offset: None };
    let err = m.connections_page("missing", &query).err().expect("expected 404");
    assert_eq!(err.status, 404);
    assert_eq!(err.body.error.code, "not_found");
    // an instance that is not there is found out before a bad query
    let bad = ConnectionsQuery { protocol: Some("bad".to_string()), limit: None, offset: None };
    assert_eq!(m.connections_page("missing", &bad).unwrap_err().status, 404);
    assert_eq!(m.route_report("missing", now(0)).unwrap_err().status, 404);
}

#[test]
fn reports_of_an_instance() {
    let rt = runtime();
    let mut m = running(&rt, "i");
    let stats = m.stats_mut("i").unwrap();
    let id = stats.on_connection_open(SockAddr { ip: IpAddress::V4(0x0a00_0001), port: 1001 });
    stats.on_connection_bytes(id, 1, 2);
    let report = m.stats_report("i").unwrap();
    assert_eq!(report.id, "i");
    assert_eq!(report.tcp_current_connections, 1);
    // a connection without a backend counts under the instance's remote
    assert_eq!(report.connections_by_backend, vec![("example.com:80".to_string(), 1)]);
    let query = ConnectionsQuery { protocol: Some("TCP".to_string()), limit: None, offset: None };
    let ConnectionsPageResponse::Tcp(page) = m.connections_page("i", &query).unwrap() else {
        panic!("expected tcp response");
    };
    assert_eq!(page.total, 1);
    assert_eq!(page.limit, 100);
    assert_eq!(page.connections[0].src_ip, "10.0.0.1");
    assert_eq!(page.connections[0].backend, "example.com:80");
    let bad = ConnectionsQuery { protocol: Some("bad".to_string()), limit: None, offset: None };
    assert_eq!(m.connections_page("i", &bad).unwrap_err().body.error.code, "invalid_query");
    let route = m.route_report("i", now(5)).unwrap();
    assert_eq!(route.id, "i");
    assert_eq!(route.strategy, "off");
    assert_eq!(route.preferred_backend.as_deref(), Some("example.com:80"));
    assert_eq!(route.backends.len(), 1);
    assert_eq!(route.updated_at, now(5));
}

#[test]
fn a_start_installs_the_handles_it_is_given() {
    let rt = runtime();
    let mut m = InstanceManager::new();
    m.prepare_create("i".to_string(), conf("example.com:80"), now(0));
    let tcp = sleeper(&rt);
    let udp = sleeper(&rt);
    assert_ne!(tcp.id(), udp.id());
    m.finish_start("i", Ok((Some(tcp.clone()), Some(udp.clone()))), "creation", now(1)).unwrap();
    assert_eq!(m.data("i").unwrap().tcp_abort.as_ref().unwrap().id(), tcp.id());
    assert_eq!(m.data("i").unwrap().udp_abort.as_ref().unwrap().id(), udp.id());

    // a restart cancels them and installs the new ones, each in its place
    let generation = m.data("i").unwrap().generation;
    assert_eq!(m.prepare_restart("i", None, now(2)).unwrap(), generation + 1);
    rt.block_on(async { tokio::task::yield_now().await });
    assert!(tcp.is_finished());
    assert!(udp.is_finished());
    let next_tcp = sleeper(&rt);
    let next_udp = sleeper(&rt);
    let restarted = m
        .finish_start("i", Ok((Some(next_tcp.clone()), Some(next_udp.clone()))), "restart", now(3))
        .unwrap();
    assert!(matches!(restarted.status, InstanceStatus::Running));
    assert_eq!(m.data("i").unwrap().tcp_abort.as_ref().unwrap().id(), next_tcp.id());
    assert_eq!(m.data("i").unwrap().udp_abort.as_ref().unwrap().id(), next_udp.id());
    assert_eq!(m.data("i").unwrap().generation, generation + 1);
    assert!(!next_tcp.is_finished());

    // a handle installed by the starter stands where its transport says
    let late = sleeper(&rt);
    assert!(m.install_handle("i", generation + 1, Transport::Tcp, late.clone()).is_ok());
    assert_eq!(m.data("i").unwrap().tcp_abort.as_ref().unwrap().id(), late.id());
    assert_eq!(m.data("i").unwrap().udp_abort.as_ref().unwrap().id(), next_udp.id());
}

#[test]
fn a_starter_goes_on_or_gives_up() {
    let rt = runtime();
    let tcp = sleeper(&rt);
    let udp = sleeper(&rt);

    // a task that is ready: the starter keeps what it holds
    match after_ready(Transport::Udp, &ReadyOutcome::Ready, Some(tcp.clone()), Some(udp.clone())) {
        StartStep::GoOn { tcp: t, udp: u } => {
            assert_eq!(t.unwrap().id(), tcp.id());
            assert_eq!(u.unwrap().id(), udp.id());
        }
        StartStep::GiveUp { .. } => panic!("a ready task is no reason to give up"),
    }

    // a task that is not: both are to be cancelled, and the reason is told
    let outcomes = [
        (Transport::Udp, ReadyOutcome::BindFailed("in use".to_string()), "udp bind failed: in use"),
        (Transport::Tcp, ReadyOutcome::Closed, "tcp startup failed (ready channel closed)"),
        (Transport::Tcp, ReadyOutcome::TimedOut, "tcp startup timed out"),
    ];
    for (transport, outcome, message) in outcomes {
        match after_ready(transport, &outcome, Some(tcp.clone()), Some(udp.clone())) {
            StartStep::GiveUp { cancel_tcp, cancel_udp, why } => {
                assert_eq!(cancel_tcp.unwrap().id(), tcp.id());
                assert_eq!(cancel_udp.unwrap().id(), udp.id());
                assert_eq!(why, message);
            }
            StartStep::GoOn { .. } => panic!("expected the starter to give up"),
        }
    }
    match after_ready(Transport::Tcp, &ReadyOutcome::TimedOut, Some(tcp.clone()), None) {
        StartStep::GiveUp { cancel_tcp, cancel_udp, .. } => {
            assert_eq!(cancel_tcp.unwrap().id(), tcp.id());
            assert!(cancel_udp.is_none());
        }
        StartStep::GoOn { .. } => panic!("expected the starter to give up"),
    }

    // a handle that was installed is held from then on
    match after_install(Ok(()), Transport::Tcp, tcp.clone(), None, Some(udp.clone())) {
        StartStep::GoOn { tcp: t, udp: u } => {
            assert_eq!(t.unwrap().id(), tcp.id());
            assert_eq!(u.unwrap().id(), udp.id());
        }
        StartStep::GiveUp { .. } => panic!("an installed handle is no reason to give up"),
    }
    match after_install(Ok(()), Transport::Udp, udp.clone(), None, None) {
        StartStep::GoOn { tcp: t, udp: u } => {
            assert!(t.is_none());
            assert_eq!(u.unwrap().id(), udp.id());
        }
        StartStep::GiveUp { .. } => panic!("an installed handle is no reason to give up"),
    }
    // one that was refused: what was held before is to be cancelled
    let refused = Err("instance generation changed during start".to_string());
    match after_install(refused, Transport::Tcp, tcp.clone(), None, Some(udp.clone())) {
        StartStep::GiveUp { cancel_tcp, cancel_udp, why } => {
            assert!(cancel_tcp.is_none());
            assert_eq!(cancel_udp.unwrap().id(), udp.id());
            assert_eq!(why, "instance generation changed during start");
        }
        StartStep::GoOn { .. } => panic!("expected the starter to give up"),
    }
}

#[test]
fn a_page_of_connections_names_the_remote_where_no_backend_is_chosen() {
    let rt = runtime();
    let mut m = running(&rt, "i");
    let stats = m.stats_mut("i").unwrap();
    let first = stats.on_connection_open(SockAddr { ip: IpAddress::V4(0x0a00_0001), port: 1001 });
    let _second = stats.on_connection_open(SockAddr { ip: IpAddress::V4(0x0a00_0002), port: 1002 });
    let chosen = SockAddr { ip: IpAddress::V4(0x0a09_0909), port: 443 };
    stats.on_connection_backend(first, &RemoteAddr::SocketAddr(chosen));
    let query = ConnectionsQuery { protocol: Some("tcp".to_string()), limit: None, offset: None };
    let ConnectionsPageResponse::Tcp(page) = m.connections_page("i", &query).unwrap() else {
        panic!("expected tcp response");
    };
    assert_eq!(page.id, "i");
    assert_eq!(page.total, 2);
    let mut rows: Vec<(String, u16, String)> = page
        .connections
        .iter()
        .map(|c| (c.src_ip.clone(), c.src_port, c.backend.clone()))
        .collect();
    rows.sort();
    assert_eq!(
        rows,
        vec![
            ("10.0.0.1".to_string(), 1001, "10.9.9.9:443".to_string()),
            ("10.0.0.2".to_string(), 1002, "example.com:80".to_string()),
        ]
    );
}
