//! The request dispatcher's decisions.
//!
//! A request is routed by its `Host` header, planned against the catalog on
//! the worker thread of its hostname, served from an asset or by an isolate,
//! and the outcome is marshalled into an HTTP response. The functions here
//! decide each step and say which metrics it emits; reading the request,
//! fetching blobs, running the isolate and writing the response are the
//! caller's.

use crate::catalog::{Catalog, CatalogView};
use crate::deployment::{Deployment, DeploymentView, Labels, LabelsView};
use crate::isolate::IsolateInitError;
use crate::table::{texts, StrTable};
use crate::text::{asset_path, strip_leading, text_bytes};
use vstd::prelude::*;
use vstd::utf8::encode_utf8;

verus! {

/// An inbound HTTP request. Header names are in lower case.
#[derive(Debug)]
pub struct Request {
    pub method: String,
    pub target: String,
    pub headers: StrTable<String>,
    pub body: Vec<u8>,
}

impl Request {
    /// The length of the body.
    pub fn len(&self) -> (n: usize)
        ensures
            n == self.body@.len(),
    {
        self.body.len()
    }
}

/// An HTTP response.
#[derive(Debug)]
pub struct Response {
    pub status: u16,
    pub headers: StrTable<String>,
    pub body: Vec<u8>,
}

#[verifier::ext_equal]
pub struct ResponseView {
    pub status: u16,
    pub headers: Map<Seq<char>, Seq<char>>,
    pub body: Seq<u8>,
}

impl View for Response {
    type V = ResponseView;

    open spec fn view(&self) -> ResponseView {
        ResponseView { status: self.status, headers: texts(self.headers@), body: self.body@ }
    }
}

impl Response {
    /// The length of the body.
    pub fn len(&self) -> (n: usize)
        ensures
            n == self.body@.len(),
    {
        self.body.len()
    }
}

/// How serving a request ended.
#[derive(Debug)]
pub enum RunResult {
    /// The function, or the asset handler, answered.
    Response(Response),
    /// The function failed with a message.
    Error(String),
    /// The function ran out of time.
    Timeout,
    /// The function ran out of memory.
    MemoryLimit,
    /// The request's hostname resolves to no deployment.
    NotFound,
}

#[verifier::ext_equal]
pub enum RunResultView {
    Response(ResponseView),
    Error(Seq<char>),
    Timeout,
    MemoryLimit,
    NotFound,
}

impl View for RunResult {
    type V = RunResultView;

    open spec fn view(&self) -> RunResultView {
        match self {
            RunResult::Response(response) => RunResultView::Response(response@),
            RunResult::Error(message) => RunResultView::Error(message@),
            RunResult::Timeout => RunResultView::Timeout,
            RunResult::MemoryLimit => RunResultView::MemoryLimit,
            RunResult::NotFound => RunResultView::NotFound,
        }
    }
}

/// What an isolate reports of one run.
#[derive(Debug, Clone, Copy, PartialEq, Eq)]
pub struct Statistics {
    /// Processor time, in milliseconds.
    pub cpu_time_ms: u64,
    /// Memory in use, in bytes.
    pub memory_usage_bytes: u64,
}

/// The metrics of a node.
#[derive(Debug, Clone, Copy, PartialEq, Eq)]
pub enum MetricName {
    /// Counter `lagon_requests`.
    Requests,
    /// Counter `lagon_bytes_in`.
    BytesIn,
    /// Counter `lagon_bytes_out`.
    BytesOut,
    /// Histogram `lagon_isolate_cpu_time`.
    IsolateCpuTime,
    /// Histogram `lagon_isolate_memory_usage`.
    IsolateMemoryUsage,
}

impl MetricName {
    /// The name under which the metric is exported.
    pub open spec fn text(self) -> Seq<char> {
        match self {
            MetricName::Requests => "lagon_requests"@,
            MetricName::BytesIn => "lagon_bytes_in"@,
            MetricName::BytesOut => "lagon_bytes_out"@,
            MetricName::IsolateCpuTime => "lagon_isolate_cpu_time"@,
            MetricName::IsolateMemoryUsage => "lagon_isolate_memory_usage"@,
        }
    }

    /// Whether the metric is a counter; the others are histograms.
    pub open spec fn counts(self) -> bool {
        self is Requests || self is BytesIn || self is BytesOut
    }

    /// The name under which the metric is exported.
    pub fn as_str(&self) -> (name: &'static str)
        ensures
            name@ == self.text(),
    {
        match self {
            MetricName::Requests => "lagon_requests",
            MetricName::BytesIn => "lagon_bytes_in",
            MetricName::BytesOut => "lagon_bytes_out",
            MetricName::IsolateCpuTime => "lagon_isolate_cpu_time",
            MetricName::IsolateMemoryUsage => "lagon_isolate_memory_usage",
        }
    }

    /// Whether the metric is a counter; the others are histograms.
    pub fn is_counter(&self) -> (counter: bool)
        ensures
            counter == self.counts(),
    {
        match self {
            MetricName::Requests | MetricName::BytesIn | MetricName::BytesOut => true,
            MetricName::IsolateCpuTime | MetricName::IsolateMemoryUsage => false,
        }
    }
}

/// One emission: what a counter grows by, or what a histogram records.
#[derive(Debug, Clone, Copy, PartialEq, Eq)]
pub struct Sample {
    pub name: MetricName,
    pub value: u64,
}

/// Why a request was turned away before it reached a worker.
#[derive(Debug, Clone, Copy, PartialEq, Eq)]
pub enum DispatchError {
    /// The request has no `Host` header.
    MissingHost,
    /// No worker thread could be drawn for the request's hostname.
    Unassigned,
}

/// Where a request goes.
#[derive(Debug)]
pub struct Routed {
    /// The hostname that the request names; the key of its deployment.
    pub hostname: String,
    /// The path of the asset that the request would be, if it is one.
    pub asset_path: String,
}

pub struct RoutedView {
    pub hostname: Seq<char>,
    pub asset_path: Seq<char>,
}

impl View for Routed {
    type V = RoutedView;

    open spec fn view(&self) -> RoutedView {
        RoutedView { hostname: self.hostname@, asset_path: self.asset_path@ }
    }
}

/// What a worker does with a request.
#[derive(Debug)]
pub enum Plan {
    /// The hostname resolves to no deployment. Nothing is emitted.
    NotFound,
    /// The path is an asset of the deployment: fetch it from the blob store.
    Asset { deployment: Deployment, asset: String, labels: Labels, samples: Vec<Sample> },
    /// Run the request through the deployment's isolate.
    Isolate { deployment: Deployment, labels: Labels, samples: Vec<Sample> },
}

#[verifier::ext_equal]
pub enum PlanView {
    NotFound,
    Asset { deployment: DeploymentView, asset: Seq<char>, labels: LabelsView, samples: Seq<Sample> },
    Isolate { deployment: DeploymentView, labels: LabelsView, samples: Seq<Sample> },
}

impl View for Plan {
    type V = PlanView;

    open spec fn view(&self) -> PlanView {
        match self {
            Plan::NotFound => PlanView::NotFound,
            Plan::Asset { deployment, asset, labels, samples } => PlanView::Asset {
                deployment: deployment@,
                asset: asset@,
                labels: labels@,
                samples: samples@,
            },
            Plan::Isolate { deployment, labels, samples } => PlanView::Isolate {
                deployment: deployment@,
                labels: labels@,
                samples: samples@,
            },
        }
    }
}

impl PlanView {
    /// What the plan emits.
    pub open spec fn emitted(self) -> Seq<Sample> {
        match self {
            PlanView::NotFound => Seq::empty(),
            PlanView::Asset { samples, .. } => samples,
            PlanView::Isolate { samples, .. } => samples,
        }
    }
}

/// The status of the responses that report a timeout or an exhausted
/// memory limit. They go out as successes; a client tells them from the
/// function's own responses by their bodies.
pub const STATUS_OK: u16 = 200;

/// The status of the response to a request without `Host` header.
pub const STATUS_BAD_REQUEST: u16 = 400;

/// The status of the response to a request for an unknown hostname.
pub const STATUS_NOT_FOUND: u16 = 404;

/// The status of the response to a request whose function failed.
pub const STATUS_ERROR: u16 = 500;

/// The name of the header that holds the hostname.
pub open spec fn host_header() -> Seq<char> {
    "host"@
}

/// The body of the response to a request whose function ran out of time.
pub open spec fn timeout_text() -> Seq<char> {
    "Timeouted"@
}

/// The body of the response to a request whose function ran out of memory.
pub open spec fn memory_limit_text() -> Seq<char> {
    "MemoryLimited"@
}

/// The body of the response to a request for an unknown hostname.
pub open spec fn not_found_text() -> Seq<char> {
    "Deployment not found"@
}

/// The message of the error that stands for an asset that could not be
/// fetched.
pub open spec fn asset_failure_text() -> Seq<char> {
    "Could not retrieve asset."@
}

/// The message of the error that stands for an isolate that could not be
/// built.
pub open spec fn init_failure_text() -> Seq<char> {
    "Could not initialize isolate."@
}

/// Where a request with this target and these headers goes: to the hostname
/// of its `host` header, with the target less its leading separator as the
/// asset path; nowhere without that header.
pub open spec fn routed(target: Seq<char>, headers: Map<Seq<char>, Seq<char>>) -> Result<
    RoutedView,
    DispatchError,
> {
    if headers.contains_key(host_header()) {
        Ok(RoutedView { hostname: headers[host_header()], asset_path: strip_leading(target) })
    } else {
        Err(DispatchError::MissingHost)
    }
}

/// What every request that resolves to a deployment emits on arrival: one
/// request, and the bytes of its body.
pub open spec fn arrival_samples(bytes_in: u64) -> Seq<Sample> {
    seq![
        Sample { name: MetricName::Requests, value: 1 },
        Sample { name: MetricName::BytesIn, value: bytes_in },
    ]
}

/// What a worker does with a request for `hostname` whose asset path is
/// `path` and whose body has `bytes_in` bytes.
pub open spec fn planned(c: CatalogView, hostname: Seq<char>, path: Seq<char>, bytes_in: u64) -> PlanView {
    if !c.contains_key(hostname) {
        PlanView::NotFound
    } else if c[hostname].has_asset(path) {
        PlanView::Asset {
            deployment: c[hostname],
            asset: path,
            labels: c[hostname].labels(),
            samples: arrival_samples(bytes_in),
        }
    } else {
        PlanView::Isolate {
            deployment: c[hostname],
            labels: c[hostname].labels(),
            samples: arrival_samples(bytes_in),
        }
    }
}

/// How the asset path ends: with the asset handler's response, or with an
/// error where the blob store gave none.
pub open spec fn asset_outcome(fetched: Option<ResponseView>) -> RunResultView {
    match fetched {
        Some(response) => RunResultView::Response(response),
        None => RunResultView::Error(asset_failure_text()),
    }
}

/// What a run emits: processor time and memory where the isolate reported
/// them, then the bytes of the body where it answered with a response.
pub open spec fn run_samples(result: RunResultView, statistics: Option<Statistics>) -> Seq<Sample> {
    let measured = match statistics {
        Some(s) => seq![
            Sample { name: MetricName::IsolateCpuTime, value: s.cpu_time_ms },
            Sample { name: MetricName::IsolateMemoryUsage, value: s.memory_usage_bytes },
        ],
        None => Seq::empty(),
    };
    let sent = match result {
        RunResultView::Response(response) => seq![
            Sample { name: MetricName::BytesOut, value: response.body.len() as u64 },
        ],
        _ => Seq::empty(),
    };
    measured + sent
}

/// A response without headers whose body is `text`.
pub open spec fn plain(status: u16, text: Seq<char>) -> ResponseView {
    ResponseView { status, headers: Map::empty(), body: encode_utf8(text) }
}

/// The HTTP response that an outcome becomes.
pub open spec fn marshaled(result: RunResultView) -> ResponseView {
    match result {
        RunResultView::Response(response) => response,
        RunResultView::Error(message) => plain(STATUS_ERROR, message),
        RunResultView::Timeout => plain(STATUS_OK, timeout_text()),
        RunResultView::MemoryLimit => plain(STATUS_OK, memory_limit_text()),
        RunResultView::NotFound => plain(STATUS_NOT_FOUND, not_found_text()),
    }
}

/// The message of the error that stands for a hostname that no worker
/// thread could be drawn for.
pub open spec fn unassigned_text() -> Seq<char> {
    "Could not assign a worker thread."@
}

/// The HTTP response to a request that was turned away: status 400 and an
/// empty body for a request without `Host` header, status 500 and a message
/// for one that no worker thread could be drawn for.
pub open spec fn turned_away(error: DispatchError) -> ResponseView {
    match error {
        DispatchError::MissingHost => plain(STATUS_BAD_REQUEST, Seq::empty()),
        DispatchError::Unassigned => plain(STATUS_ERROR, unassigned_text()),
    }
}

/// The labels of a request's metrics are those of the deployment that the
/// request's hostname resolves to, and the first thing emitted is the count
/// of one request.
pub proof fn lemma_labels_match_deployment(
    c: CatalogView,
    hostname: Seq<char>,
    path: Seq<char>,
    bytes_in: u64,
)
    requires
        c.contains_key(hostname),
    ensures
        planned(c, hostname, path, bytes_in) !is NotFound,
        planned(c, hostname, path, bytes_in) matches PlanView::Asset { labels, .. } ==> labels
            == (LabelsView { deployment: c[hostname].id, function: c[hostname].function_id }),
        planned(c, hostname, path, bytes_in) matches PlanView::Isolate { labels, .. } ==> labels
            == (LabelsView { deployment: c[hostname].id, function: c[hostname].function_id }),
        planned(c, hostname, path, bytes_in).emitted().len() == 2,
        planned(c, hostname, path, bytes_in).emitted()[0] == (Sample {
            name: MetricName::Requests,
            value: 1,
        }),
        planned(c, hostname, path, bytes_in).emitted()[1] == (Sample {
            name: MetricName::BytesIn,
            value: bytes_in,
        }),
{
}

/// A request for a hostname that is not in the catalog emits nothing and is
/// answered with status 404 and the text "Deployment not found".
pub proof fn lemma_unknown_hostname_is_not_found(
    c: CatalogView,
    hostname: Seq<char>,
    path: Seq<char>,
    bytes_in: u64,
)
    requires
        !c.contains_key(hostname),
    ensures
        planned(c, hostname, path, bytes_in) == PlanView::NotFound,
        planned(c, hostname, path, bytes_in).emitted() == Seq::<Sample>::empty(),
        marshaled(RunResultView::NotFound) == plain(404, "Deployment not found"@),
        marshaled(RunResultView::NotFound).status == 404,
{
}

/// A request whose path is an asset of its deployment is planned as an
/// asset, not as a run of the isolate, and what the blob store returned for
/// the asset reaches the client as it is.
pub proof fn lemma_asset_is_served_verbatim(
    c: CatalogView,
    hostname: Seq<char>,
    path: Seq<char>,
    bytes_in: u64,
    fetched: ResponseView,
)
    requires
        c.contains_key(hostname),
        c[hostname].has_asset(path),
    ensures
        planned(c, hostname, path, bytes_in) == (PlanView::Asset {
            deployment: c[hostname],
            asset: path,
            labels: c[hostname].labels(),
            samples: arrival_samples(bytes_in),
        }),
        marshaled(asset_outcome(Some(fetched))) == fetched,
{
}

/// A response without headers whose body is `text`.
fn plain_response(status: u16, text: &str) -> (response: Response)
    ensures
        response@ == plain(status, text@),
{
    let response = Response { status, headers: StrTable::new(), body: text_bytes(text) };
    assert(response@.headers =~= Map::<Seq<char>, Seq<char>>::empty());
    response
}

/// Routes a request: finds its hostname and its asset path.
pub fn route(request: &Request) -> (outcome: Result<Routed, DispatchError>)
    ensures
        match outcome {
            Ok(to) => routed(request.target@, texts(request.headers@)) == Ok::<
                RoutedView,
                DispatchError,
            >(to@),
            Err(error) => routed(request.target@, texts(request.headers@)) == Err::<
                RoutedView,
                DispatchError,
            >(error),
        },
{
    match request.headers.get("host") {
        Some(hostname) => Ok(
            Routed { hostname: hostname.clone(), asset_path: asset_path(request.target.as_str()) },
        ),
        None => Err(DispatchError::MissingHost),
    }
}

/// The HTTP response to a request that was turned away.
pub fn reject(error: DispatchError) -> (response: Response)
    ensures
        response@ == turned_away(error),
{
    match error {
        DispatchError::MissingHost => {
            let response = Response {
                status: STATUS_BAD_REQUEST,
                headers: StrTable::new(),
                body: Vec::new(),
            };
            proof {
                assert(response@.headers =~= Map::<Seq<char>, Seq<char>>::empty());
                assert(encode_utf8(Seq::<char>::empty()) =~= Seq::<u8>::empty());
            }
            response
        },
        DispatchError::Unassigned => plain_response(
            STATUS_ERROR,
            "Could not assign a worker thread.",
        ),
    }
}

/// Plans a request on the worker thread of its hostname.
pub fn plan(catalog: &Catalog, hostname: &str, path: &str, bytes_in: u64) -> (plan: Plan)
    ensures
        plan@ == planned(catalog@, hostname@, path@, bytes_in),
{
    match catalog.lookup(hostname) {
        None => Plan::NotFound,
        Some(found) => {
            let deployment = found.clone();
            let labels = found.labels();
            let mut samples: Vec<Sample> = Vec::new();
            samples.push(Sample { name: MetricName::Requests, value: 1 });
            samples.push(Sample { name: MetricName::BytesIn, value: bytes_in });
            assert(samples@ =~= arrival_samples(bytes_in));
            if found.has_asset(path) {
                Plan::Asset { deployment, asset: path.to_owned(), labels, samples }
            } else {
                Plan::Isolate { deployment, labels, samples }
            }
        },
    }
}

/// Ends the asset path: `fetched` is the asset handler's response, `None`
/// where the blob store gave none.
pub fn asset_result(fetched: Option<Response>) -> (result: RunResult)
    ensures
        result@ == asset_outcome(
            match fetched {
                Some(response) => Some(response@),
                None => None,
            },
        ),
{
    match fetched {
        Some(response) => RunResult::Response(response),
        None => RunResult::Error("Could not retrieve asset.".to_owned()),
    }
}

/// Ends the isolate path where no isolate could be had.
pub fn init_failure(error: IsolateInitError) -> (result: RunResult)
    ensures
        result@ == RunResultView::Error(init_failure_text()),
{
    RunResult::Error("Could not initialize isolate.".to_owned())
}

/// What a run emits.
pub fn observe(result: &RunResult, statistics: Option<Statistics>) -> (samples: Vec<Sample>)
    ensures
        samples@ == run_samples(result@, statistics),
{
    let mut samples: Vec<Sample> = Vec::new();
    match statistics {
        Some(s) => {
            samples.push(Sample { name: MetricName::IsolateCpuTime, value: s.cpu_time_ms });
            samples.push(
                Sample { name: MetricName::IsolateMemoryUsage, value: s.memory_usage_bytes },
            );
        },
        None => {},
    }
    match result {
        RunResult::Response(response) => {
            samples.push(Sample { name: MetricName::BytesOut, value: response.len() as u64 });
        },
        _ => {},
    }
    assert(samples@ =~= run_samples(result@, statistics));
    samples
}

/// Marshals an outcome into the HTTP response.
pub fn marshal(result: RunResult) -> (response: Response)
    ensures
        response@ == marshaled(result@),
{
    match result {
        RunResult::Response(response) => response,
        RunResult::Error(message) => plain_response(STATUS_ERROR, message.as_str()),
        RunResult::Timeout => plain_response(STATUS_OK, "Timeouted"),
        RunResult::MemoryLimit => plain_response(STATUS_OK, "MemoryLimited"),
        RunResult::NotFound => plain_response(STATUS_NOT_FOUND, "Deployment not found"),
    }
}

} // verus!
