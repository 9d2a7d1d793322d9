//! The shape of requests against the trace agent's HTTP API: endpoint paths
//! and query parameters. Sending them is left to the binary around the
//! library.
//!
//! Endpoints:
//!
//! `/api/traces` — traces, with `limit`, `service` and `lookback` parameters;
//! `/api/traces/{trace_id}` — the spans of one trace;
//! `/api/services` — the services reporting to the agent.

use vstd::prelude::*;

use crate::cli::App;

verus! {

/// Path of the traces endpoint.
pub const TRACES: &'static str = "/api/traces";

/// Path of the services endpoint.
pub const SERVICES: &'static str = "/api/services";

/// The agent's two query endpoints.
#[derive(Debug, Clone, Copy, PartialEq, Eq, Structural)]
pub enum Endpoint {
    Traces,
    Services,
}

impl Endpoint {
    /// The path this endpoint lives at.
    pub open spec fn spec_path(self) -> Seq<char> {
        match self {
            Endpoint::Traces => "/api/traces"@,
            Endpoint::Services => "/api/services"@,
        }
    }

    /// The path this endpoint lives at, exactly [`Endpoint::spec_path`].
    pub fn path(&self) -> (r: &'static str)
        ensures
            r@ == self.spec_path(),
    {
        match self {
            Endpoint::Traces => TRACES,
            Endpoint::Services => SERVICES,
        }
    }
}

/// The full URL of an endpoint on the agent at `url`.
pub fn endpoint(url: &str, target: Endpoint) -> (r: String)
    ensures
        r@ == url@ + target.spec_path(),
{
    url.to_owned().concat(target.path())
}

/// A handle on the trace agent's HTTP API.
#[derive(Debug, Clone, PartialEq)]
pub struct JaegerApi {
    /// URL where the trace agent runs, protocol and port included, such as
    /// `http://localhost:16686`.
    pub url: String,
}

impl JaegerApi {
    /// Instantiate a new API handle.
    pub fn new(url: &str) -> (r: JaegerApi)
        ensures
            r.url@ == url@,
    {
        JaegerApi { url: url.to_owned() }
    }
}

/// What query parameters a request carries, as key/value pairs.
pub open spec fn spec_params(
    service: Option<String>,
    limit: Option<u64>,
    lookback: Option<String>,
) -> Seq<(Seq<char>, Seq<char>)> {
    let with_service = if service is Some {
        seq![("service"@, service.unwrap()@)]
    } else {
        Seq::<(Seq<char>, Seq<char>)>::empty()
    };
    let with_limit = if limit is Some {
        with_service.push(("limit"@, crate::primitives::spec_u64_string(limit.unwrap() as nat)))
    } else {
        with_service
    };
    if lookback is Some {
        with_limit.push(("lookback"@, lookback.unwrap()@))
    } else {
        with_limit
    }
}

/// Collects the query parameters of a trace request.
#[derive(Debug, Clone, PartialEq)]
pub struct ParamBuilder {
    pub limit: Option<u64>,
    pub service: Option<String>,
    pub lookback: Option<String>,
}

impl ParamBuilder {
    pub fn new() -> (r: ParamBuilder)
        ensures
            r.limit is None,
            r.service is None,
            r.lookback is None,
    {
        ParamBuilder { limit: None, service: None, lookback: None }
    }

    /// Amount of objects to return in one request.
    pub fn limit(self, limit: Option<u64>) -> (r: ParamBuilder)
        ensures
            r.limit == limit,
            r.service == self.service,
            r.lookback == self.lookback,
    {
        ParamBuilder { limit, ..self }
    }

    /// The service whose traces to query.
    pub fn service(self, service: Option<String>) -> (r: ParamBuilder)
        ensures
            r.service == service,
            r.limit == self.limit,
            r.lookback == self.lookback,
    {
        ParamBuilder { service, ..self }
    }

    /// How far back to look for traces.
    pub fn lookback(self, lookback: Option<String>) -> (r: ParamBuilder)
        ensures
            r.lookback == lookback,
            r.limit == self.limit,
            r.service == self.service,
    {
        ParamBuilder { lookback, ..self }
    }

    /// The query parameters to put on the request: `service`, `limit` and
    /// `lookback`, in that order, each only if set; exactly [`spec_params`].
    pub fn build(self) -> (r: Vec<(String, String)>)
        ensures
            r@.map_values(|p: (String, String)| (p.0@, p.1@)) == spec_params(
                self.service,
                self.limit,
                self.lookback,
            ),
    {
        let mut out: Vec<(String, String)> = Vec::new();
        if let Some(service) = self.service {
            out.push(("service".to_owned(), service));
        }
        if let Some(limit) = self.limit {
            out.push(("limit".to_owned(), crate::primitives::u64_to_string(limit)));
        }
        if let Some(lookback) = self.lookback {
            out.push(("lookback".to_owned(), lookback));
        }
        proof {
            assert(out@.map_values(|p: (String, String)| (p.0@, p.1@)) =~= spec_params(
                self.service,
                self.limit,
                self.lookback,
            ));
        }
        out
    }
}

/// The parameters one fetch of traces uses, taken from the process
/// configuration.
pub fn build_parameters(app: &App) -> (r: Vec<(String, String)>)
    ensures
        r@.map_values(|p: (String, String)| (p.0@, p.1@)) == spec_params(
            app.service,
            app.limit,
            app.lookback,
        ),
{
    ParamBuilder::new().service(app.service.clone()).limit(app.limit).lookback(
        app.lookback.clone(),
    ).build()
}

} // verus!
