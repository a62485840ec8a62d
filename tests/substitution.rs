use bombardier::model::{Body, Config, ConfigError, Database, Extractor, ExtractFrom, ExtractorType, KeyValue, Request, Ssl};
use bombardier::model::{check_der_or_pem, check_p12_or_pfx, default_to_one, needs_preprocessing, prepare_requests, preprocess, validate_config};
use bombardier::store::VarStore;
use bombardier::substitution::{find_and_replace, param_substitution};

fn store(pairs: &[(&str, &str)]) -> VarStore {
    let mut s = VarStore::new();
    for (k, v) in pairs {
        s.insert(String::from(*k), String::from(*v));
    }
    s
}

fn request(name: &str, method: &str, url: &str) -> Request {
    Request {
        id: 7,
        name: String::from(name),
        url: String::from(url),
        method: String::from(method),
        headers: vec![],
        body: Body { raw: String::new(), urlencoded: vec![], formdata: vec![] },
        extractors: vec![],
        requires_preprocessing: false,
    }
}

pub fn config() -> Config {
    Config {
        thread_count: 1,
        iterations: 1,
        execution_time: 0,
        think_time: 0,
        rampup_time: 1,
        handle_cookies: false,
        continue_on_error: false,
        database: Database {
            db_type: String::new(),
            url: String::new(),
            user: String::new(),
            password: String::new(),
            name: String::new(),
        },
        ssl: Ssl {
            ignore_ssl: false,
            accept_invalid_hostnames: false,
            certificate: String::new(),
            keystore: String::new(),
            keystore_password: String::new(),
        },
        distributed: false,
        data_file: String::new(),
        report_file: String::new(),
    }
}

#[test]
fn test_param_substitution_with_no_sustitutions() {
    let scenarios_yaml = r"
    version: 1.0
    scenarios:
    - name: scenario1
      requests:
      - name: echoGet
        method: GET
        url: 'https://google.com/'
        extractors:
        - type: gjsonpath
          extract:
            authHeader: 'headers.authorization'
            host: 'headers.host'";

    let env_map = store(&[("url", "https://google.com")]);
    let substituted_string = param_substitution(scenarios_yaml, &env_map);
    assert_eq!(String::from(scenarios_yaml), substituted_string);
}

#[test]
fn test_param_substitution_with_multiple_sustitutions() {
    let scenarios_yaml = r"
    version: 1.0
    scenarios:
    - name: scenario1
      requests:
      - name: echoGet
        method: {{method}}
        url: '{{baseurl}}'
        headers:
          authorization: 'jwt {{token}}'
        body:
          urlencoded:
            param1: '{{param1Value}}'
            param2: '{{param2Value}}'";

    let env_map = store(&[
        ("method", "POST"),
        ("baseurl", "https://google.com"),
        ("token", "some_token_value"),
        ("param1Value", "value1"),
        ("param2Value", "value2"),
    ]);

    let expected_substituted_yaml = r"
    version: 1.0
    scenarios:
    - name: scenario1
      requests:
      - name: echoGet
        method: POST
        url: 'https://google.com'
        headers:
          authorization: 'jwt some_token_value'
        body:
          urlencoded:
            param1: 'value1'
            param2: 'value2'";

    let substituted_string = param_substitution(scenarios_yaml, &env_map);
    assert_eq!(substituted_string, String::from(expected_substituted_yaml));
}

#[test]
fn test_param_substitution_with_missing_sustitutions() {
    let scenarios_yaml = r"
    version: 1.0
    scenarios:
    - name: scenario1
      requests:
      - name: echoGet
        method: {{method}}
        url: '{{baseurl}}'";

    let env_map = store(&[("baseurl", "https://google.com")]);

    let expected_substituted_yaml = r"
    version: 1.0
    scenarios:
    - name: scenario1
      requests:
      - name: echoGet
        method: {{method}}
        url: 'https://google.com'";

    let substituted_string = param_substitution(scenarios_yaml, &env_map);
    assert_eq!(substituted_string, String::from(expected_substituted_yaml));
}

#[test]
fn test_process() {
    let request = request("echoGet", "{{method}}", "{{baseurl}}");
    let env_map = store(&[("method", "POST"), ("baseurl", "https://google.com")]);
    let processed_request = preprocess(&request, &env_map);

    assert_eq!(processed_request.method, String::from("POST"));
    assert_eq!(processed_request.url, String::from("https://google.com"))
}

#[test]
fn find_and_replace_escapes_quotes() {
    let env = store(&[("v", "say \"hi\"")]);
    let out = find_and_replace(String::from("{\"x\":\"{{v}}\"}"), &env);
    assert_eq!(out, "{\"x\":\"say \\\"hi\\\"\"}");
}

#[test]
fn substitution_edge_cases() {
    let env = store(&[("a", "1"), ("_b2", "two")]);
    assert_eq!(param_substitution("", &env), "");
    assert_eq!(param_substitution("{{a}}{{_b2}}", &env), "1two");
    assert_eq!(param_substitution("{{{a}}}", &env), "{1}");
    assert_eq!(param_substitution("{{ a }}", &env), "{{ a }}");
    assert_eq!(param_substitution("{{1a}}", &env), "{{1a}}");
    assert_eq!(param_substitution("{{a", &env), "{{a");
    assert_eq!(param_substitution("{{unknown}} {{a}}", &env), "{{unknown}} 1");
}

#[test]
fn substituted_values_are_not_rescanned() {
    let env = store(&[("a", "{{b}}"), ("b", "x")]);
    assert_eq!(param_substitution("{{a}}", &env), "{{b}}");
}

#[test]
fn store_last_write_wins() {
    let mut s = VarStore::new();
    s.insert(String::from("k"), String::from("v1"));
    s.insert(String::from("k"), String::from("v2"));
    assert_eq!(s.len(), 1);
    assert_eq!(s.get("k").unwrap(), "v2");
    assert!(s.get("missing").is_none());
}

#[test]
fn stores_of_workers_are_separate() {
    let seed = store(&[("token", "seed")]);
    let mut a = seed.fork();
    let b = seed.fork();
    a.insert(String::from("token"), String::from("changed"));
    assert_eq!(a.get("token").unwrap(), "changed");
    assert_eq!(b.get("token").unwrap(), "seed");
    assert_eq!(seed.get("token").unwrap(), "seed");
}

#[test]
fn extend_merges_record() {
    let mut s = store(&[("a", "1"), ("b", "2")]);
    let rec = store(&[("b", "3"), ("c", "4")]);
    s.extend(&rec);
    assert_eq!(s.len(), 3);
    assert_eq!(s.get("a").unwrap(), "1");
    assert_eq!(s.get("b").unwrap(), "3");
    assert_eq!(s.get("c").unwrap(), "4");
}

#[test]
fn preprocessing_mark() {
    let plain = request("get", "GET", "http://x/ok");
    assert!(!needs_preprocessing(&plain));
    let mut with_header = plain.clone();
    with_header.headers.push(KeyValue { key: String::from("Authorization"), value: String::from("Bearer {{token}}") });
    assert!(needs_preprocessing(&with_header));
    let mut with_extractor = plain.clone();
    with_extractor.extractors.push(Extractor {
        from: ExtractFrom::Body,
        extractor_type: ExtractorType::GjsonPath,
        extract: vec![KeyValue { key: String::from("t"), value: String::from("{{path}}") }],
    });
    assert!(needs_preprocessing(&with_extractor));
    let prepared = prepare_requests(vec![plain, with_header]);
    assert_eq!(prepared.len(), 2);
    assert!(!prepared[0].requires_preprocessing);
    assert!(prepared[1].requires_preprocessing);
    assert_eq!(prepared[1].headers[0].value, "Bearer {{token}}");
}

#[test]
fn preprocess_substitutes_every_field() {
    let mut r = request("{{n}}", "GET", "http://{{host}}/x");
    r.headers.push(KeyValue { key: String::from("X-{{h}}"), value: String::from("{{v}}") });
    r.body.raw = String::from("{\"id\":\"{{id}}\"}");
    let env = store(&[("n", "named"), ("host", "example.org"), ("h", "Trace"), ("v", "on"), ("id", "42")]);
    let out = preprocess(&r, &env);
    assert_eq!(out.id, 7);
    assert_eq!(out.name, "named");
    assert_eq!(out.url, "http://example.org/x");
    assert_eq!(out.headers[0].key, "X-Trace");
    assert_eq!(out.headers[0].value, "on");
    assert_eq!(out.body.raw, "{\"id\":\"42\"}");
}

#[test]
fn test_error_for_exec_time_and_iterations_as_zero() {
    let mut c = config();
    c.iterations = 0;
    c.execution_time = 0;
    let err = validate_config(&c).unwrap_err();
    assert_eq!(err, ConfigError::NoBudget);
    assert_eq!(err.description(), "Both execution time and iterations cannot be 0");
}

#[test]
fn config_validation() {
    let c = config();
    assert!(validate_config(&c).is_ok());
    let mut z = config();
    z.rampup_time = 0;
    assert_eq!(validate_config(&z), Err(ConfigError::ZeroRampUp));
    let mut t = config();
    t.thread_count = 0;
    assert_eq!(validate_config(&t), Err(ConfigError::ZeroThreads));
    let mut cert = config();
    cert.ssl.certificate = String::from("ca.crt");
    assert_eq!(validate_config(&cert), Err(ConfigError::CertificateType));
    let mut ks = config();
    ks.ssl.keystore = String::from("id.jks");
    assert_eq!(validate_config(&ks), Err(ConfigError::KeystoreType));
    let mut both = config();
    both.execution_time = 30;
    assert!(validate_config(&both).is_ok());
    assert!(check_der_or_pem("a.pem") && check_der_or_pem("a.der") && check_der_or_pem(""));
    assert!(!check_der_or_pem("a.crt"));
    assert!(check_p12_or_pfx("a.p12") && check_p12_or_pfx("a.pfx") && !check_p12_or_pfx("a.pem"));
    assert_eq!(default_to_one(), 1);
}

#[test]
fn prepared_ids_are_distinct() {
    let prepared = prepare_requests(vec![request("a", "GET", "u"), request("b", "GET", "u"), request("c", "GET", "u")]);
    assert_ne!(prepared[0].id, prepared[1].id);
    assert_ne!(prepared[0].id, prepared[2].id);
    assert_ne!(prepared[1].id, prepared[2].id);
}
