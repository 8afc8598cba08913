use serverless_core::catalog::Catalog;
use serverless_core::deployment::Deployment;
use serverless_core::dispatch::{
    asset_result, init_failure, marshal, observe, plan, reject, route, DispatchError, MetricName,
    Plan, Request, Response, RunResult, Sample, Statistics,
};
use serverless_core::isolate::{IsolateCache, IsolateInitError};
use serverless_core::table::StrTable;

fn strings(items: &[&str]) -> Vec<String> {
    items.iter().map(|s| s.to_string()).collect()
}

fn acme() -> Deployment {
    Deployment {
        id: "d1".to_string(),
        function_id: "f1".to_string(),
        hostnames: strings(&["acme.example"]),
        assets: strings(&["logo.png"]),
        environment_variables: StrTable::new(),
        memory_limit: 128,
        timeout: 50,
        code_key: "d1.js".to_string(),
    }
}

fn catalog_with_acme() -> Catalog {
    let mut catalog = Catalog::new();
    assert!(catalog.install(&acme()).is_ok());
    catalog
}

fn request(target: &str, host: Option<&str>, body: &[u8]) -> Request {
    let mut headers = StrTable::new();
    if let Some(host) = host {
        headers.insert("host".to_string(), host.to_string());
    }
    headers.insert("accept".to_string(), "*/*".to_string());
    Request { method: "GET".to_string(), target: target.to_string(), headers, body: body.to_vec() }
}

fn response(status: u16, body: &[u8]) -> Response {
    Response { status, headers: StrTable::new(), body: body.to_vec() }
}

#[test]
fn asset_request_is_served_from_the_blob_store() {
    let catalog = catalog_with_acme();
    let cache = IsolateCache::new();
    let req = request("/logo.png", Some("acme.example"), b"");
    let to = route(&req).unwrap();
    assert_eq!(to.hostname, "acme.example");
    assert_eq!(to.asset_path, "logo.png");
    match plan(&catalog, &to.hostname, &to.asset_path, req.len() as u64) {
        Plan::Asset { deployment, asset, labels, samples } => {
            assert_eq!(deployment.id, "d1");
            assert_eq!(asset, "logo.png");
            assert_eq!(labels.deployment, "d1");
            assert_eq!(labels.function, "f1");
            assert_eq!(
                samples,
                vec![
                    Sample { name: MetricName::Requests, value: 1 },
                    Sample { name: MetricName::BytesIn, value: 0 },
                ]
            );
        }
        other => panic!("planned {:?}", other),
    }
    let reply = marshal(asset_result(Some(response(200, b"\x89PNG bytes"))));
    assert_eq!(reply.status, 200);
    assert_eq!(reply.body, b"\x89PNG bytes".to_vec());
    assert_eq!(cache.constructed(), 0);
    assert_eq!(cache.len(), 0);
}

#[test]
fn other_paths_run_the_isolate() {
    let catalog = catalog_with_acme();
    let mut cache = IsolateCache::new();
    let req = request("/api", Some("acme.example"), b"ping");
    let to = route(&req).unwrap();
    assert_eq!(to.asset_path, "api");
    let deployment = match plan(&catalog, &to.hostname, &to.asset_path, req.len() as u64) {
        Plan::Isolate { deployment, labels, samples } => {
            assert_eq!(labels.deployment, "d1");
            assert_eq!(labels.function, "f1");
            assert_eq!(
                samples,
                vec![
                    Sample { name: MetricName::Requests, value: 1 },
                    Sample { name: MetricName::BytesIn, value: 4 },
                ]
            );
            deployment
        }
        other => panic!("planned {:?}", other),
    };
    let acquired = cache.get_or_create(&to.hostname, &deployment, Some(b"code".to_vec())).unwrap();
    assert_eq!(acquired.instance, 0);
    let options = acquired.fresh.expect("an isolate is built");
    assert_eq!(options.code, b"code".to_vec());
    assert_eq!(options.memory_limit, 128);
    assert_eq!(options.timeout, 50);
    assert_eq!(cache.constructed(), 1);

    let result = RunResult::Response(response(200, b"hi"));
    let statistics = Statistics { cpu_time_ms: 3, memory_usage_bytes: 4096 };
    assert_eq!(
        observe(&result, Some(statistics)),
        vec![
            Sample { name: MetricName::IsolateCpuTime, value: 3 },
            Sample { name: MetricName::IsolateMemoryUsage, value: 4096 },
            Sample { name: MetricName::BytesOut, value: 2 },
        ]
    );
    let reply = marshal(result);
    assert_eq!(reply.status, 200);
    assert_eq!(reply.body, b"hi".to_vec());
}

#[test]
fn timeout_is_answered_with_200_timeouted() {
    let reply = marshal(RunResult::Timeout);
    assert_eq!(reply.status, 200);
    assert_eq!(reply.body, b"Timeouted".to_vec());
    assert_eq!(reply.headers.len(), 0);
}

#[test]
fn memory_limit_is_answered_with_200_memory_limited() {
    let reply = marshal(RunResult::MemoryLimit);
    assert_eq!(reply.status, 200);
    assert_eq!(reply.body, b"MemoryLimited".to_vec());
}

#[test]
fn script_error_is_answered_with_500_and_its_message() {
    let reply = marshal(RunResult::Error("boom: \u{e9}".to_string()));
    assert_eq!(reply.status, 500);
    assert_eq!(reply.body, "boom: \u{e9}".as_bytes().to_vec());
}

#[test]
fn response_is_marshalled_as_it_is() {
    let mut headers = StrTable::new();
    headers.insert("content-type".to_string(), "text/plain".to_string());
    let reply = marshal(RunResult::Response(Response {
        status: 201,
        headers,
        body: b"made".to_vec(),
    }));
    assert_eq!(reply.status, 201);
    assert_eq!(reply.body, b"made".to_vec());
    assert_eq!(reply.headers.get("content-type"), Some(&"text/plain".to_string()));
}

#[test]
fn request_without_host_is_answered_with_400() {
    let req = request("/api", None, b"");
    let error = route(&req).unwrap_err();
    assert_eq!(error, DispatchError::MissingHost);
    let reply = reject(error);
    assert_eq!(reply.status, 400);
    assert!(reply.body.is_empty());
}

#[test]
fn request_without_a_worker_thread_is_answered_with_500() {
    let reply = reject(DispatchError::Unassigned);
    assert_eq!(reply.status, 500);
    assert_eq!(reply.body, b"Could not assign a worker thread.".to_vec());
    assert_eq!(reply.headers.len(), 0);
}

#[test]
fn unknown_hostname_is_answered_with_404() {
    let catalog = catalog_with_acme();
    let req = request("/logo.png", Some("unknown.example"), b"body");
    let to = route(&req).unwrap();
    match plan(&catalog, &to.hostname, &to.asset_path, req.len() as u64) {
        Plan::NotFound => {}
        other => panic!("planned {:?}", other),
    }
    let reply = marshal(RunResult::NotFound);
    assert_eq!(reply.status, 404);
    assert_eq!(reply.body, b"Deployment not found".to_vec());
}

#[test]
fn unknown_hostname_in_an_empty_catalog() {
    let catalog = Catalog::new();
    assert!(matches!(plan(&catalog, "acme.example", "logo.png", 0), Plan::NotFound));
}

#[test]
fn asset_match_is_exact() {
    let catalog = catalog_with_acme();
    for path in ["logo", "logo.png/", "logo.png?x=1", "/logo.png", "LOGO.PNG", "", "img/logo.png"] {
        assert!(
            matches!(plan(&catalog, "acme.example", path, 0), Plan::Isolate { .. }),
            "path {:?}",
            path
        );
    }
    assert!(matches!(plan(&catalog, "acme.example", "logo.png", 0), Plan::Asset { .. }));
}

#[test]
fn deployment_without_assets_always_runs_the_isolate() {
    let mut d = acme();
    d.assets = Vec::new();
    let mut catalog = Catalog::new();
    catalog.install(&d).unwrap();
    assert!(matches!(plan(&catalog, "acme.example", "logo.png", 0), Plan::Isolate { .. }));
    assert!(matches!(plan(&catalog, "acme.example", "", 0), Plan::Isolate { .. }));
}

#[test]
fn failed_asset_fetch_is_an_error() {
    match asset_result(None) {
        RunResult::Error(message) => assert_eq!(message, "Could not retrieve asset."),
        other => panic!("got {:?}", other),
    }
    let reply = marshal(asset_result(None));
    assert_eq!(reply.status, 500);
    assert_eq!(reply.body, b"Could not retrieve asset.".to_vec());
}

#[test]
fn failed_isolate_construction_is_an_error() {
    for error in [IsolateInitError::CodeUnavailable, IsolateInitError::InstancesExhausted] {
        let reply = marshal(init_failure(error));
        assert_eq!(reply.status, 500);
        assert_eq!(reply.body, b"Could not initialize isolate.".to_vec());
    }
}

#[test]
fn labels_are_those_of_the_resolved_deployment() {
    let mut catalog = catalog_with_acme();
    let other = Deployment {
        id: "d2".to_string(),
        function_id: "f2".to_string(),
        hostnames: strings(&["beta.example", "www.beta.example"]),
        assets: Vec::new(),
        environment_variables: StrTable::new(),
        memory_limit: 64,
        timeout: 10,
        code_key: "d2.js".to_string(),
    };
    catalog.install(&other).unwrap();
    for (host, id, function) in
        [("acme.example", "d1", "f1"), ("beta.example", "d2", "f2"), ("www.beta.example", "d2", "f2")]
    {
        match plan(&catalog, host, "api", 9) {
            Plan::Isolate { deployment, labels, samples } => {
                assert_eq!(deployment.id, id);
                assert_eq!(labels.deployment, id);
                assert_eq!(labels.function, function);
                assert_eq!(samples[0], Sample { name: MetricName::Requests, value: 1 });
                assert_eq!(samples[1], Sample { name: MetricName::BytesIn, value: 9 });
                assert_eq!(samples.len(), 2);
            }
            other => panic!("planned {:?}", other),
        }
    }
}

#[test]
fn route_takes_the_first_character_off_the_target() {
    let cases = [
        ("/", ""),
        ("/a", "a"),
        ("/a/b.css", "a/b.css"),
        ("//x", "/x"),
        ("", ""),
        ("*", ""),
        ("/\u{e9}t\u{e9}.png", "\u{e9}t\u{e9}.png"),
        ("\u{1f600}/x", "/x"),
    ];
    for (target, path) in cases {
        let to = route(&request(target, Some("acme.example"), b"")).unwrap();
        assert_eq!(to.asset_path, path, "target {:?}", target);
        assert_eq!(to.hostname, "acme.example");
    }
}

#[test]
fn route_reads_the_host_header_only() {
    let mut headers = StrTable::new();
    headers.insert("x-host".to_string(), "acme.example".to_string());
    headers.insert("Host".to_string(), "acme.example".to_string());
    let req = Request { method: "GET".to_string(), target: "/".to_string(), headers, body: Vec::new() };
    assert_eq!(route(&req).unwrap_err(), DispatchError::MissingHost);
}

#[test]
fn observe_reports_what_was_measured() {
    let statistics = Statistics { cpu_time_ms: 12, memory_usage_bytes: 1 << 20 };
    assert_eq!(observe(&RunResult::Timeout, None), Vec::<Sample>::new());
    assert_eq!(
        observe(&RunResult::Timeout, Some(statistics)),
        vec![
            Sample { name: MetricName::IsolateCpuTime, value: 12 },
            Sample { name: MetricName::IsolateMemoryUsage, value: 1 << 20 },
        ]
    );
    assert_eq!(
        observe(&RunResult::Response(response(200, b"")), None),
        vec![Sample { name: MetricName::BytesOut, value: 0 }]
    );
    assert_eq!(observe(&RunResult::Error("e".to_string()), None), Vec::<Sample>::new());
    assert_eq!(observe(&RunResult::NotFound, None), Vec::<Sample>::new());
    assert_eq!(observe(&RunResult::MemoryLimit, None), Vec::<Sample>::new());
}

#[test]
fn metrics_are_exported_under_their_names() {
    assert_eq!(MetricName::Requests.as_str(), "lagon_requests");
    assert_eq!(MetricName::BytesIn.as_str(), "lagon_bytes_in");
    assert_eq!(MetricName::BytesOut.as_str(), "lagon_bytes_out");
    assert_eq!(MetricName::IsolateCpuTime.as_str(), "lagon_isolate_cpu_time");
    assert_eq!(MetricName::IsolateMemoryUsage.as_str(), "lagon_isolate_memory_usage");
    assert!(MetricName::Requests.is_counter());
    assert!(MetricName::BytesIn.is_counter());
    assert!(MetricName::BytesOut.is_counter());
    assert!(!MetricName::IsolateCpuTime.is_counter());
    assert!(!MetricName::IsolateMemoryUsage.is_counter());
}

#[test]
fn request_and_response_lengths_are_those_of_their_bodies() {
    assert_eq!(request("/", Some("h"), b"12345").len(), 5);
    assert_eq!(response(200, b"abc").len(), 3);
}
