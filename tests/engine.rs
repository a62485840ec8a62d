use bombardier::convert::{convert_request, get_file_name, process_request, ConvertError, RequestCache, WireBody};
use bombardier::data::{get_vec_data_map, DataProvider};
use bombardier::engine::{is_execution_time_over, stamp, thread_delay_ms, ActiveWorkers, Step, Worker};
use bombardier::extract::{
    body_jobs, execute_body_extractors, execute_header_extractors, evaluate_job, is_json_response,
    is_xml_response, needs_body, pick_capture, response_content_type, BodyJob,
};
use bombardier::model::{
    Body, Config, Database, Extractor, ExtractFrom, ExtractorType, FormDataField, FormDataFieldType,
    KeyValue, Request, Ssl,
};
use bombardier::stats::{
    basic_auth_header, csv_header, csv_text, done_message, get_db_writer, influx_point, sink_plan,
    Stats, StatsBuffer, BATCH_SIZE,
};
use bombardier::store::VarStore;

fn kv(k: &str, v: &str) -> KeyValue {
    KeyValue { key: String::from(k), value: String::from(v) }
}

fn config(threads: u32, iterations: u64, continue_on_error: bool) -> Config {
    Config {
        thread_count: threads,
        iterations,
        execution_time: 0,
        think_time: 0,
        rampup_time: 1,
        handle_cookies: false,
        continue_on_error,
        database: Database {
            db_type: String::new(),
            url: String::new(),
            user: String::new(),
            password: String::new(),
            name: String::new(),
        },
        ssl: Ssl {
            ignore_ssl: false,
            accept_invalid_hostnames: false,
            certificate: String::new(),
            keystore: String::new(),
            keystore_password: String::new(),
        },
        distributed: false,
        data_file: String::new(),
        report_file: String::new(),
    }
}

fn template(id: u128, name: &str, method: &str, url: &str) -> Request {
    Request {
        id,
        name: String::from(name),
        url: String::from(url),
        method: String::from(method),
        headers: vec![],
        body: Body { raw: String::new(), urlencoded: vec![], formdata: vec![] },
        extractors: vec![],
        requires_preprocessing: false,
    }
}

/// Runs one worker over a scenario whose responses have the given statuses
/// (`None`: the request could not be sent), returning every batch emitted.
fn run_worker(cfg: &Config, names: &[&str], statuses: &[Option<u16>], active: &ActiveWorkers) -> Vec<Vec<Stats>> {
    let requests: Vec<Request> = names.iter().enumerate().map(|(i, n)| template(i as u128, n, "GET", "http://x/")).collect();
    let mut w = Worker::new(cfg, &requests);
    let mut batches = vec![];
    while !w.should_stop(0) {
        w.begin_iteration();
        loop {
            match w.next_step() {
                Step::Send(i) => match statuses[i] {
                    Some(status) => w.record_response(status, 10, active),
                    None => w.record_failure(),
                },
                Step::EndIteration => break,
            }
        }
        batches.push(w.finish_iteration());
    }
    batches
}

#[test]
fn test_get_file_name_using_abs_path() {
    let file_path = "/home/bombardier/names.txt";
    let file_name = get_file_name(file_path);
    assert_eq!(file_name, "names.txt");
}

#[test]
fn test_get_file_name_using_rel_path() {
    let file_path = "./names.txt";
    let file_name = get_file_name(file_path);
    assert_eq!(file_name, "names.txt");
}

#[test]
fn test_get_file_name_using_empty_path() {
    let file_path = "";
    let file_name = get_file_name(file_path);
    assert_eq!(file_name, "");
}

#[test]
fn smoke_iteration_mode() {
    let cfg = config(1, 3, false);
    let mut active = ActiveWorkers::new(1);
    active.spawn();
    let batches = run_worker(&cfg, &["get_ok"], &[Some(200)], &active);
    let stats: Vec<Stats> = batches.into_iter().flatten().collect();
    assert_eq!(stats.len(), 3);
    for s in &stats {
        assert_eq!(s.name, "get_ok");
        assert_eq!(s.status, 200);
        assert_eq!(s.thread_count, 1);
    }
    let plan = sink_plan(&cfg);
    assert!(plan.csv && !plan.db && !plan.socket);
    let text = csv_text(&stats);
    assert_eq!(text.lines().count(), 3);
    assert!(text.lines().all(|l| l.contains(", 1, 200, 10, get_ok")));
}

#[test]
fn error_break_skips_rest_of_iteration() {
    let cfg = config(1, 5, false);
    let mut active = ActiveWorkers::new(1);
    active.spawn();
    let batches = run_worker(&cfg, &["getOK", "getFail", "getOK"], &[Some(200), Some(500), Some(200)], &active);
    assert_eq!(batches.len(), 5);
    for b in &batches {
        assert_eq!(b.len(), 2);
        assert_eq!(b[0].name, "getOK");
        assert_eq!(b[1].name, "getFail");
    }
    assert_eq!(batches.iter().map(|b| b.len()).sum::<usize>(), 10);
}

#[test]
fn continue_on_error_runs_everything() {
    let cfg = config(1, 2, true);
    let mut active = ActiveWorkers::new(1);
    active.spawn();
    let batches = run_worker(&cfg, &["a", "b", "c"], &[Some(200), None, Some(503)], &active);
    assert_eq!(batches.len(), 2);
    for b in &batches {
        assert_eq!(b.len(), 2);
        assert_eq!(b[1].name, "c");
    }
}

#[test]
fn transport_failure_breaks_without_stat() {
    let cfg = config(1, 1, false);
    let mut active = ActiveWorkers::new(1);
    active.spawn();
    let batches = run_worker(&cfg, &["a", "b", "c"], &[Some(200), None, Some(200)], &active);
    assert_eq!(batches.len(), 1);
    assert_eq!(batches[0].len(), 1);
}

#[test]
fn completions_are_threads_times_iterations() {
    let cfg = config(4, 6, false);
    let mut active = ActiveWorkers::new(4);
    let mut total = 0;
    for _ in 0..4 {
        active.spawn();
        total += run_worker(&cfg, &["a", "b"], &[Some(200), Some(201)], &active).len();
    }
    assert_eq!(total, 24);
}

#[test]
fn concurrent_workers_in_range() {
    let mut active = ActiveWorkers::new(3);
    active.spawn();
    assert_eq!(stamp("x", 200, 1, &active).thread_count, 1);
    active.spawn();
    active.spawn();
    assert_eq!(stamp("x", 200, 1, &active).thread_count, 3);
    active.exit();
    assert_eq!(active.current(), 2);
}

#[test]
fn time_mode_and_ramp_up() {
    assert!(is_execution_time_over(100, 161, 60));
    assert!(!is_execution_time_over(100, 160, 60));
    assert!(!is_execution_time_over(100, 90, 0));
    assert_eq!(thread_delay_ms(1, 4), 250);
    assert_eq!(thread_delay_ms(3, 7), 428);
    let cfg = Config { iterations: 0, execution_time: 5, ..config(1, 0, false) };
    let w = Worker::new(&cfg, &vec![template(1, "a", "GET", "http://x/")]);
    assert!(!w.should_stop(5));
    assert!(w.should_stop(6));
}

#[test]
fn convert_body_policy() {
    let mut raw = template(1, "raw", "POST", "https://google.com/");
    raw.body.raw = String::from("{ \"test\":\"test\" }");
    raw.body.urlencoded.push(kv("key1", "value1"));
    let w = convert_request(&raw).unwrap();
    assert!(matches!(w.body, WireBody::Raw(ref s) if s == "{ \"test\":\"test\" }"));

    let mut form = template(2, "form", "POST", "https://google.com/");
    form.body.formdata.push(FormDataField {
        name: String::from("key22"),
        field_type: FormDataFieldType::Text,
        value: String::from("value22"),
        mime_type: None,
    });
    form.body.formdata.push(FormDataField {
        name: String::from("upload"),
        field_type: FormDataFieldType::File,
        value: String::from("/tmp/data/names.txt"),
        mime_type: None,
    });
    form.body.urlencoded.push(kv("key1", "value1"));
    let w = convert_request(&form).unwrap();
    match w.body {
        WireBody::Multipart(parts) => {
            assert_eq!(parts.len(), 2);
            assert!(!parts[0].is_file);
            assert_eq!(parts[1].file_name, "names.txt");
            assert_eq!(parts[1].mime_type, "application/octet-stream");
        }
        _ => panic!("expected a multipart body"),
    }

    let mut enc = template(3, "enc", "POST", "https://google.com/");
    enc.body.urlencoded.push(kv("key1", "value1"));
    enc.body.urlencoded.push(kv("key2", "value2"));
    let w = convert_request(&enc).unwrap();
    assert!(matches!(w.body, WireBody::UrlEncoded(ref p) if p.len() == 2));

    let mut get = template(4, "get", "GET", "https://google.com/");
    get.headers.push(kv("authorization", "jwt some_token_value"));
    get.headers.push(kv("accept", "application/json"));
    let w = convert_request(&get).unwrap();
    assert_eq!(w.method, "GET");
    assert_eq!(w.url, "https://google.com/");
    assert_eq!(w.headers.len(), 2);
    assert!(matches!(w.body, WireBody::Empty));
}

#[test]
fn convert_errors() {
    let bad_url = template(4, "x", "GET", "not a url");
    assert_eq!(convert_request(&bad_url).unwrap_err(), ConvertError::Url);
    let no_host = template(5, "x", "GET", "mailto:someone");
    assert_eq!(convert_request(&no_host).unwrap_err(), ConvertError::Url);
    let bad_method = template(1, "x", "", "http://x/");
    assert_eq!(convert_request(&bad_method).unwrap_err(), ConvertError::Method);
    let mut bad_name = template(2, "x", "GET", "http://x/");
    bad_name.headers.push(kv("bad name", "v"));
    assert_eq!(convert_request(&bad_name).unwrap_err(), ConvertError::HeaderName);
    let mut bad_value = template(3, "x", "GET", "http://x/");
    bad_value.headers.push(kv("x-ok", "line\nbreak"));
    assert_eq!(convert_request(&bad_value).unwrap_err(), ConvertError::HeaderValue);
}

#[test]
fn cache_hit_after_first_use() {
    let t = template(99, "plain", "GET", "http://x/ok");
    let env = VarStore::new();
    let mut cache = RequestCache::new();
    let mut misses = 0;
    for _worker in 0..2 {
        for _iteration in 0..10 {
            if !cache.contains(t.id) {
                misses += 1;
            }
            let w = process_request(&t, &env, &mut cache).unwrap();
            assert_eq!(w.url, "http://x/ok");
        }
    }
    assert!(misses <= 2);
    assert_eq!(cache.len(), 1);
}

#[test]
fn multipart_requests_are_not_cached() {
    let mut t = template(5, "upload", "POST", "http://x/up");
    t.body.formdata.push(FormDataField {
        name: String::from("f"),
        field_type: FormDataFieldType::Text,
        value: String::from("v"),
        mime_type: None,
    });
    let env = VarStore::new();
    let mut cache = RequestCache::new();
    process_request(&t, &env, &mut cache).unwrap();
    assert_eq!(cache.len(), 0);
}

#[test]
fn extractor_chain() {
    let mut login = template(1, "loginPOST", "POST", "http://x/login");
    login.extractors.push(Extractor {
        from: ExtractFrom::Body,
        extractor_type: ExtractorType::GjsonPath,
        extract: vec![kv("token", "token")],
    });
    let mut me = template(2, "meGET", "GET", "http://x/me");
    me.headers.push(kv("Authorization", "Bearer {{token}}"));
    me.requires_preprocessing = true;

    let mut store = VarStore::new();
    let response_headers = vec![kv("content-type", "application/json")];
    execute_header_extractors(&response_headers, &login.extractors, &mut store);
    assert!(needs_body(&login.extractors));
    let ct = response_content_type(&response_headers);
    let jobs = body_jobs(&login.extractors, &ct);
    assert_eq!(jobs.len(), 1);
    execute_body_extractors(&jobs, "{\"token\":\"abc.def-123\"}", &mut store);
    assert_eq!(store.get("token").unwrap(), "abc.def-123");

    let mut cache = RequestCache::new();
    let wire = process_request(&me, &store, &mut cache).unwrap();
    assert_eq!(wire.headers[0].key, "Authorization");
    assert_eq!(wire.headers[0].value, "Bearer abc.def-123");
    assert_eq!(cache.len(), 0);
}

#[test]
fn header_extractor_binding() {
    let e = vec![Extractor {
        from: ExtractFrom::Headers,
        extractor_type: ExtractorType::Unspecified,
        extract: vec![kv("server", "Server")],
    }];
    let mut store = VarStore::new();
    execute_header_extractors(&vec![kv("server", "gunicorn/19.9.0")], &e, &mut store);
    assert_eq!(store.len(), 1);
    assert_eq!(store.get("server").unwrap().as_str(), "gunicorn/19.9.0");

    let mut untouched = VarStore::new();
    execute_header_extractors(&vec![kv("date", "today")], &e, &mut untouched);
    assert_eq!(untouched.len(), 0);
}

#[test]
fn content_type_policy() {
    assert!(is_json_response("application/json; charset=utf-8"));
    assert!(!is_json_response("text/html"));
    assert!(is_xml_response("application/xml"));
    assert!(is_xml_response("text/html; charset=utf-8"));
    assert!(!is_xml_response("application/json"));
    let e = vec![
        Extractor { from: ExtractFrom::Body, extractor_type: ExtractorType::GjsonPath, extract: vec![kv("a", "x")] },
        Extractor { from: ExtractFrom::Body, extractor_type: ExtractorType::Xpath, extract: vec![kv("b", "//y")] },
        Extractor { from: ExtractFrom::Body, extractor_type: ExtractorType::RegEx, extract: vec![kv("c", "z")] },
        Extractor { from: ExtractFrom::Body, extractor_type: ExtractorType::Unspecified, extract: vec![kv("d", "w")] },
    ];
    let on_html = body_jobs(&e, "text/html");
    assert_eq!(on_html.len(), 2);
    assert_eq!(on_html[0].var, "b");
    assert_eq!(on_html[1].var, "c");
    let on_json = body_jobs(&e, "application/json");
    assert_eq!(on_json.len(), 2);
    assert_eq!(on_json[0].var, "a");
}

fn regex_job(pattern: &str) -> BodyJob {
    BodyJob { var: String::from("v"), kind: ExtractorType::RegEx, pattern: String::from(pattern) }
}

#[test]
fn test_regex_extractor_without_group() {
    let text = "my birthday is on 15-Mar";
    assert_eq!(evaluate_job(&regex_job(r"\d{2}-[A-Z]{1}[a-z]{2}"), text).unwrap(), String::from("15-Mar"));
}

#[test]
fn test_regex_extractor_with_group() {
    let text = "Not my favorite movie: 'Citizen Kane' (1941).";
    assert_eq!(evaluate_job(&regex_job(r"'([^']+)'\s+\((\d{4})\)"), text).unwrap(), String::from("Citizen Kane"));
}

#[test]
fn regex_miss_leaves_variable() {
    assert!(evaluate_job(&regex_job("nomatch"), "text").is_none());
    assert!(evaluate_job(&regex_job("(unclosed"), "text").is_none());
    let jobs = vec![regex_job("nomatch")];
    let mut store = VarStore::new();
    store.insert(String::from("v"), String::from("old"));
    execute_body_extractors(&jobs, "text", &mut store);
    assert_eq!(store.get("v").unwrap(), "old");
    assert_eq!(pick_capture(&vec![Some(String::from("all")), None]), "");
    assert_eq!(pick_capture(&vec![Some(String::from("all"))]), "all");
}

#[test]
fn test_json_extractor() {
    let body = "{\"headers\":{\"Host\":\"httpbin.org\"}}";
    let job = BodyJob { var: String::from("host"), kind: ExtractorType::GjsonPath, pattern: String::from("headers.Host") };
    assert_eq!(evaluate_job(&job, body).unwrap(), "httpbin.org");
    let missing = BodyJob { var: String::from("x"), kind: ExtractorType::GjsonPath, pattern: String::from("nope") };
    assert_eq!(evaluate_job(&missing, body).unwrap(), "");
}

#[test]
fn test_get_data() {
    let table = vec![
        vec![String::from("header1"), String::from("header2"), String::from("header3")],
        vec![String::from("value11"), String::from("value12"), String::from("value13")],
        vec![String::from("value21"), String::from("value22"), String::from("value23")],
    ];
    let mut data_provider = DataProvider::from_table(table).unwrap();
    let data = data_provider.get_data();
    assert_eq!(data.get("header1").unwrap(), "value11");
    let data = data_provider.get_data();
    assert_eq!(data.get("header2").unwrap(), "value22");
    let data = data_provider.get_data();
    assert_eq!(data.get("header3").unwrap(), "value13");
}

#[test]
fn data_wraps_around() {
    let table = vec![
        vec![String::from("row")],
        vec![String::from("r1")],
        vec![String::from("r2")],
        vec![String::from("r3")],
    ];
    let mut p = DataProvider::from_table(table).unwrap();
    let used: Vec<String> = (0..7).map(|_| p.get_data().get("row").unwrap().clone()).collect();
    assert_eq!(used, vec!["r1", "r2", "r3", "r1", "r2", "r3", "r1"]);
    assert!(DataProvider::from_table(vec![]).is_none());
    let mut empty = DataProvider::from_table(vec![vec![String::from("h")]]).unwrap();
    assert_eq!(empty.get_data().len(), 0);
}

#[test]
fn vec_data_map() {
    let table = vec![
        vec![String::from("a"), String::from("b")],
        vec![String::from("1"), String::from("2")],
        vec![String::from("3")],
    ];
    let maps = get_vec_data_map(&table);
    assert_eq!(maps.len(), 2);
    assert_eq!(maps[0].get("b").unwrap(), "2");
    assert_eq!(maps[1].len(), 1);
    assert!(get_vec_data_map(&vec![]).is_empty());
}

fn stat(name: &str, status: u16, latency: u32) -> Stats {
    Stats { timestamp: String::from("2021-03-04T05:06:07.089+00:00"), thread_count: 1, status, latency, name: String::from(name) }
}

#[test]
fn test_write_to_csv() {
    assert_eq!(csv_header(), "timestamp, thread_count, status, latency, name\n");
    let row = stat("test", 200, 200).to_row();
    assert!(row.contains("1, 200, 200, test"));
    assert_eq!(row, format!("2021-03-04T05:06:07.089+00:00, 1, 200, 200, {:35}\n", "test"));
}

#[test]
fn pipeline_writes_every_stat_once() {
    let mut buffer = StatsBuffer::new();
    let mut written = 0;
    let mut sent = 0;
    for i in 0..37 {
        let batch: Vec<Stats> = (0..(i % 4)).map(|_| stat("n", 200, 1)).collect();
        sent += batch.len();
        if let Some(out) = buffer.push_batch(batch) {
            assert!(out.len() >= BATCH_SIZE);
            written += out.len();
            assert_eq!(buffer.len(), 0);
        }
    }
    written += buffer.drain().len();
    assert_eq!(written, sent);
    assert_eq!(done_message(), "done");
}

#[test]
fn influx_and_auth() {
    let point = influx_point(&stat("get_ok", 200, 12), 1614834367089);
    assert_eq!(point, "stats,request=get_ok latency=12,status=200 1614834367089\n");
    assert_eq!(basic_auth_header("user", "pass"), "Basic dXNlcjpwYXNz");
    let db = Database {
        db_type: String::from("InfluxDB"),
        url: String::from("http://db:8086"),
        user: String::from("user"),
        password: String::from("pass"),
        name: String::from("perf"),
    };
    let t = get_db_writer(&db).unwrap();
    assert_eq!(t.url, "http://db:8086/write?db=perf&precision=ms");
    assert_eq!(t.headers.len(), 2);
    assert_eq!(t.headers[1].value, "Basic dXNlcjpwYXNz");
    let other = Database { db_type: String::from("mysql"), ..db.clone() };
    assert!(get_db_writer(&other).is_none());
    let no_url = Database { url: String::new(), ..db.clone() };
    assert!(get_db_writer(&no_url).is_none());
    let body = bombardier::stats::influx_body(&vec![stat("a", 200, 3), Stats { timestamp: String::from("bad"), ..stat("b", 500, 4) }]);
    assert_eq!(body, "stats,request=a latency=3,status=200 1614834367089\n");
}

fn xpath_job(pattern: &str) -> BodyJob {
    BodyJob { var: String::from("v"), kind: ExtractorType::Xpath, pattern: String::from(pattern) }
}

const SLIDESHOW: &str = "<?xml version='1.0' encoding='us-ascii'?>
<slideshow title=\"Sample Slide Show\">
    <slide type=\"all\">
      <title>Wake up to WonderWidgets!</title>
    </slide>
    <slide type=\"all\">
        <title>Overview</title>
        <item>Why <em>WonderWidgets</em> are great</item>
        <item/>
        <item>Who <em>buys</em> WonderWidgets</item>
    </slide>
</slideshow>";

#[test]
fn test_xml_extractor() {
    assert_eq!(evaluate_job(&xpath_job("//slide/title"), SLIDESHOW).unwrap(), String::from("Wake up to WonderWidgets!"));
    assert_eq!(evaluate_job(&xpath_job("//slide/@type"), SLIDESHOW).unwrap(), String::from("all"));
    assert_eq!(evaluate_job(&xpath_job("//slide[2]/item[3]/em[1]"), SLIDESHOW).unwrap(), String::from("buys"));
    assert!(evaluate_job(&xpath_job("//nothing"), SLIDESHOW).is_none());
}

#[test]
fn test_html_extractor() {
    let page = "<!DOCTYPE html><html><head></head><body><h1>Herman Melville - Moby-Dick</h1><div><p>Availing himself of the mild, summer-cool weather</p></div></body></html>";
    assert_eq!(evaluate_job(&xpath_job("//h1"), page).unwrap(), String::from("Herman Melville - Moby-Dick"));
    assert!(evaluate_job(&xpath_job("//body//p"), page).unwrap().contains("summer-cool weather"));
}
