use bombardier::client::{client_plan, massage, AuthTarget, CertFormat, TlsError};
use bombardier::cmd::{arg_value_as_u16, is_csv, is_u16, is_yml};
use bombardier::hub::{
    classify_frame, collect_submission, hub_socket_url, ContentType, ErrorResponse, HubFrame, NodeAction,
    NodeEvent, NodeRegistry, NodeSession, NodesResponse, SubmittedPart,
};
use bombardier::model::{Auth, Config, Database, KeyValue, Ssl};
use bombardier::report::{
    filter_stats_by_name, get_all_percentiles, get_error_count, get_percentile, get_request_name_set,
    get_sorted_latencies, sum_of_latencies,
};
use bombardier::stats::Stats;

#[test]
fn test_is_yml() {
    assert_eq!(is_yml(String::from("/some/file/path/file.yml")), Ok(()));
    assert_eq!(is_yml(String::from("/some/file/path/file.csv")), Err(String::from("Should be a .yml file")));
}

#[test]
fn test_is_csv() {
    assert_eq!(is_csv(String::from("/some/file/path/file.csv")), Ok(()));
    assert_eq!(is_csv(String::from("/some/file/path/file.yml")), Err(String::from("Should be a .csv file")));
}

#[test]
fn test_is_u16() {
    assert_eq!(is_u16(String::from("0")), Ok(()));
    assert_eq!(is_u16(String::from("abc")), Err(String::from("Should be an integer")));
}

#[test]
fn u16_edges() {
    assert_eq!(is_u16(String::from("65535")), Ok(()));
    assert!(is_u16(String::from("65536")).is_err());
    assert!(is_u16(String::from("")).is_err());
    assert!(is_u16(String::from("+")).is_err());
    assert_eq!(is_u16(String::from("+8000")), Ok(()));
    assert!(is_u16(String::from("-1")).is_err());
    assert!(is_yml(String::from("a.yaml")).is_ok());
    assert_eq!(arg_value_as_u16("8000"), 8000);
    assert_eq!(arg_value_as_u16("xyz"), 0);
}

fn stat(name: &str, status: u16, latency: u32) -> Stats {
    Stats::new(name, status, latency, 0)
}

#[test]
fn test_get_percentile() {
    let times = vec![200, 203, 210, 256, 315];
    assert_eq!(get_percentile(&times, 10), 200);
    assert_eq!(get_percentile(&times, 59), 203);
    assert_eq!(get_percentile(&times, 60), 210);
    assert_eq!(get_percentile(&times, 90), 256);
    assert_eq!(get_percentile(&vec![], 51), 0);
}

#[test]
fn test_get_all_percentile() {
    let times = vec![1, 2, 3, 4, 5, 6, 7, 8, 9, 10];
    assert_eq!(get_all_percentiles(&times), (9, 9, 9));
}

#[test]
fn test_get_request_name_set() {
    let stats = vec![Stats::new("name1", 0, 0, 0), Stats::new("name1", 0, 0, 0), Stats::new("name2", 0, 0, 0)];
    let names = get_request_name_set(&stats);
    assert_eq!(names.len(), 2);

    let names = get_request_name_set(&vec![]);
    assert_eq!(names.len(), 0);
}

#[test]
fn test_filter_stats_by_name() {
    let stats = vec![Stats::new("name1", 0, 0, 0), Stats::new("name1", 0, 0, 0), Stats::new("name2", 0, 0, 0)];
    assert_eq!(filter_stats_by_name(&stats, "name1").len(), 2);
    assert_eq!(filter_stats_by_name(&stats, "name2").len(), 1);
    assert_eq!(filter_stats_by_name(&stats, "name3").len(), 0);
    assert_eq!(filter_stats_by_name(&vec![], "name2").len(), 0);
}

#[test]
fn test_get_sorted_latencies() {
    let stats1 = stat("name1", 0, 250);
    let stats2 = stat("name1", 0, 100);
    let stats3 = stat("name1", 0, 300);
    let stats4 = stat("name1", 0, 50);
    let expected = vec![stats4.latency, stats2.latency, stats1.latency, stats3.latency];
    let stats = vec![stats1, stats2, stats3, stats4];

    assert_eq!(get_sorted_latencies(&stats), expected);
}

#[test]
fn test_get_error_count() {
    let stats1 = stat("name1", 200, 250);
    let stats2 = stat("name1", 399, 100);
    let stats3 = stat("name1", 400, 300);
    let stats4 = stat("name1", 504, 50);
    let stats = vec![stats1, stats2, stats3, stats4];

    assert_eq!(get_error_count(&stats), 2);
}

#[test]
fn latency_sum() {
    assert_eq!(sum_of_latencies(&vec![u32::MAX, u32::MAX, 2]), 2 * (u32::MAX as u64) + 2);
    assert_eq!(sum_of_latencies(&vec![]), 0);
}

#[test]
fn distributed_fan_out() {
    let mut registry = NodeRegistry::new();
    assert!(registry.check_admission().is_err());
    registry.register(String::from("node-a"));
    registry.register(String::from("node-b"));
    registry.register(String::from("node-a"));
    assert_eq!(registry.get_total_nodes(), 2);
    assert!(registry.check_admission().is_ok());
    let ids = registry.dispatch_all();
    assert_eq!(ids, vec![String::from("node-a"), String::from("node-b")]);
    assert_eq!(registry.get_currently_bombarding_nodes(), 2);
    let busy = registry.check_admission().unwrap_err();
    assert_eq!(busy.code, 500);
    assert_eq!(busy.description, "Bombarding in progress");
    assert_eq!(classify_frame("done"), HubFrame::Done);
    assert_eq!(classify_frame("[{\"name\":\"x\"}]"), HubFrame::StatsBatch);
    registry.mark_done("node-a");
    assert_eq!(registry.get_currently_bombarding_nodes(), 1);
    registry.mark_done("node-b");
    assert_eq!(registry.get_currently_bombarding_nodes(), 0);
    assert_eq!(registry.nodes_response(), NodesResponse::new(2, 0));
    registry.remove("node-a");
    assert_eq!(registry.get_total_nodes(), 1);
    registry.remove("node-z");
    assert_eq!(registry.get_total_nodes(), 1);
}

#[test]
fn no_nodes_refused() {
    let registry = NodeRegistry::new();
    let e = registry.check_admission().unwrap_err();
    assert_eq!(e.code, 500);
    assert_eq!(e.description, "No nodes available for execution");
}

fn part(name: &str, filename: Option<&str>, ct: Option<&str>, content: &str) -> SubmittedPart {
    SubmittedPart {
        name: String::from(name),
        filename: filename.map(String::from),
        content_type: ct.map(String::from),
        content: String::from(content),
    }
}

#[test]
fn job_submission() {
    let ok = vec![
        part("config", Some("config.yml"), Some("text/yaml"), "iterations: 1"),
        part("scenarios", Some("s.yml"), Some("text/yaml"), "scenarios: []"),
        part("data", None, None, "/data/users.csv"),
    ];
    let s = collect_submission(&ok).ok().unwrap();
    assert_eq!(s.config, "iterations: 1");
    assert_eq!(s.scenarios, "scenarios: []");
    assert_eq!(s.environment, "");
    assert_eq!(s.data_file, "/data/users.csv");

    let bad = vec![
        part("config", Some("config.json"), Some("application/json"), "{}"),
        part("environment", Some("env.yml"), Some("text/yaml"), "variables: {}"),
    ];
    let errs = collect_submission(&bad).err().unwrap();
    assert_eq!(errs.len(), 2);
    assert_eq!(errs[0].code, 400);
    assert_eq!(errs[0].description, "config.json param should be of type text/yaml");
    assert_eq!(errs[1].description, "config and scenarios file parameters are mandatory");
    assert_eq!(ContentType::Yml.as_str(), "text/yaml");
    let e = ErrorResponse::new(400, "bad");
    assert_eq!(e.code, 400);
    assert_eq!(e.description, "bad");
}

#[test]
fn node_accepts_one_job_at_a_time() {
    let mut s = NodeSession::new();
    assert_eq!(s.handle(NodeEvent::JobFrame), NodeAction::StartRun);
    assert_eq!(s.handle(NodeEvent::JobFrame), NodeAction::RejectBusy);
    assert_eq!(s.handle(NodeEvent::OtherFrame), NodeAction::Ignore);
    assert_eq!(s.handle(NodeEvent::RunComplete), NodeAction::Ignore);
    assert_eq!(s.handle(NodeEvent::JobFrame), NodeAction::StartRun);
    assert_eq!(s.handle(NodeEvent::BadFrame), NodeAction::CloseConnection);
    assert!(!s.running);
    assert_eq!(s.handle(NodeEvent::CloseFrame), NodeAction::Exit);
    assert_eq!(hub_socket_url("127.0.0.1:9000"), "ws://127.0.0.1:9000/ws");
}

fn tls_config(ignore: bool, cert: &str, keystore: &str) -> Config {
    Config {
        thread_count: 1,
        iterations: 1,
        execution_time: 0,
        think_time: 0,
        rampup_time: 1,
        handle_cookies: true,
        continue_on_error: false,
        database: Database { db_type: String::new(), url: String::new(), user: String::new(), password: String::new(), name: String::new() },
        ssl: Ssl {
            ignore_ssl: ignore,
            accept_invalid_hostnames: true,
            certificate: String::from(cert),
            keystore: String::from(keystore),
            keystore_password: String::from("pw"),
        },
        distributed: false,
        data_file: String::new(),
        report_file: String::new(),
    }
}

#[test]
fn client_plans() {
    let p = client_plan(&tls_config(true, "ca.PEM", "id.p12")).ok().unwrap();
    assert!(p.cookie_store && p.accept_invalid_certs && !p.accept_invalid_hostnames);
    assert!(p.root_certificate.is_none() && p.identity.is_none());
    let p = client_plan(&tls_config(false, "ca.PEM", "id.p12")).ok().unwrap();
    assert!(!p.accept_invalid_certs && p.accept_invalid_hostnames);
    assert_eq!(p.root_certificate.unwrap().1, CertFormat::Pem);
    assert_eq!(p.identity.unwrap().1, "pw");
    assert_eq!(client_plan(&tls_config(false, "ca.crt", "")).err(), Some(TlsError::CertificateType));
}

#[test]
fn basic_auth_is_injected() {
    let basic = Auth {
        auth_type: String::from("basic"),
        basic: vec![
            KeyValue { key: String::from("username"), value: String::from("user") },
            KeyValue { key: String::from("password"), value: String::from("pass") },
        ],
    };
    let none = Auth { auth_type: String::from("noauth"), basic: vec![] };
    let mut items = vec![
        AuthTarget { auth: basic, headers: vec![] },
        AuthTarget { auth: none, headers: vec![] },
    ];
    massage(&mut items);
    assert_eq!(items[0].headers.len(), 1);
    assert_eq!(items[0].headers[0].key, "authorization");
    assert_eq!(items[0].headers[0].value, "dXNlcjpwYXNz");
    assert_eq!(items[1].headers.len(), 0);
}

fn stamped(ts: &str, latency: u32) -> Stats {
    Stats { timestamp: String::from(ts), thread_count: 1, status: 200, latency, name: String::from("n") }
}

#[test]
fn execution_time_from_timestamps() {
    let a = stamped("2021-03-04T05:06:07.000+00:00", 1000);
    let b = stamped("2021-03-04T05:06:09.000+00:00", 150);
    assert_eq!(bombardier::report::get_execution_time(&vec![a.clone(), b.clone()]), 3);
    let c = stamped("2021-03-04T05:06:07.000+00:00", 0);
    let d = stamped("2021-03-04T05:06:09.000+00:00", 0);
    assert_eq!(bombardier::report::get_execution_time(&vec![d, c]), -2);
    assert_eq!(bombardier::report::get_execution_time(&vec![]), 0);
}

#[test]
fn test_arg_value_as_u16() {
    let command = "bombardier";
    let subcommand = "hub";
    let short_flag = "p";
    let valid_flag_value = "8000";
    let invalid_flag_value = "xyz";
    let help = "port";
    let arg_name = "server port";

    let clap_app = clap::App::new("Bombardier").subcommand(
        clap::SubCommand::with_name(subcommand)
            .arg(clap::Arg::with_name(arg_name).short(short_flag).takes_value(true).required(true).help(help)),
    );
    let matches = clap_app.get_matches_from(vec![command, subcommand, &format!("-{}", short_flag), valid_flag_value]);
    let value = matches.subcommand().1.and_then(|m| m.value_of(arg_name)).unwrap_or("");
    assert_eq!(arg_value_as_u16(value), valid_flag_value.parse::<u16>().unwrap());

    let clap_app = clap::App::new("Bombardier").subcommand(
        clap::SubCommand::with_name(subcommand)
            .arg(clap::Arg::with_name(arg_name).short(short_flag).takes_value(true).required(true).help(help)),
    );
    let matches = clap_app.get_matches_from(vec![command, subcommand, &format!("-{}", short_flag), invalid_flag_value]);
    let value = matches.subcommand().1.and_then(|m| m.value_of(arg_name)).unwrap_or("");
    assert_eq!(arg_value_as_u16(value), 0);
}
