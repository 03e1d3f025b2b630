use vstd::prelude::*;

use crate::params::ProxyUrlParams;

verus! {

/// The token usage that a streamed response reported.
#[derive(Debug, Clone, PartialEq, Eq)]
pub struct UsageRecord {
    /// The model that served the completion.
    pub model: String,
    pub prompt_tokens: u64,
    /// Zero where the report left it out.
    pub completion_tokens: u64,
    pub total_tokens: u64,
}

/// What is known of a call besides its body and query: taken from its headers on arrival.
#[derive(Debug, Clone, PartialEq, Eq)]
pub struct RequestMetadata {
    /// The client's IP address.
    pub ip_address: Option<String>,
    /// The client's country code.
    pub country: Option<String>,
    /// The ray id that the edge network gave the call.
    pub cf_ray: Option<String>,
    /// The host that the call was made to.
    pub domain: Option<String>,
    /// The label of this deployment.
    pub deployment: Option<String>,
}

/// One usage event for the analytics sink.
#[derive(Debug, Clone, PartialEq, Eq)]
pub struct UsageAnalytics {
    /// Application identifier from request parameters
    pub app_id: String,
    /// Tenant identifier from request parameters
    pub tenant_id: Option<String>,
    /// Module identifier from request parameters
    pub module_id: Option<String>,
    /// Session identifier from request parameters
    pub session_id: Option<String>,
    /// Request identifier from request parameters
    pub request_id: Option<String>,
    /// Environment identifier from request parameters
    pub env_id: Option<String>,
    /// Client IP address
    pub ip_address: Option<String>,
    /// Country code from the edge network's headers
    pub country: Option<String>,
    /// Ray id from the edge network
    pub cf_ray: Option<String>,
    /// Domain from request
    pub domain: Option<String>,
    /// Deployment identifier
    pub deployment: Option<String>,
    /// Model name used for the completion
    pub model: String,
    /// Number of prompt tokens used
    pub prompt_tokens: u64,
    /// Number of completion tokens generated
    pub completion_tokens: u64,
    /// Total tokens used
    pub total_tokens: u64,
    /// When the usage was captured, in milliseconds since the Unix epoch
    pub timestamp: u64,
}

/// The text that stands for an optional identifier in a data point.
pub open spec fn or_unknown(o: Option<String>) -> Seq<char> {
    match o {
        Some(s) => s@,
        None => "unknown"@,
    }
}

fn text_or_unknown(o: &Option<String>) -> (r: String)
    ensures
        r@ == or_unknown(*o),
{
    match o {
        Some(s) => s.clone(),
        None => String::from_str("unknown"),
    }
}

impl UsageAnalytics {
    /// An event with every field given.
    pub fn new_with_timestamp(
        app_id: String,
        tenant_id: Option<String>,
        module_id: Option<String>,
        session_id: Option<String>,
        request_id: Option<String>,
        env_id: Option<String>,
        ip_address: Option<String>,
        country: Option<String>,
        cf_ray: Option<String>,
        domain: Option<String>,
        deployment: Option<String>,
        model: String,
        prompt_tokens: u64,
        completion_tokens: u64,
        total_tokens: u64,
        timestamp: u64,
    ) -> (r: Self)
        ensures
            r.app_id == app_id,
            r.tenant_id == tenant_id,
            r.module_id == module_id,
            r.session_id == session_id,
            r.request_id == request_id,
            r.env_id == env_id,
            r.ip_address == ip_address,
            r.country == country,
            r.cf_ray == cf_ray,
            r.domain == domain,
            r.deployment == deployment,
            r.model == model,
            r.prompt_tokens == prompt_tokens,
            r.completion_tokens == completion_tokens,
            r.total_tokens == total_tokens,
            r.timestamp == timestamp,
    {
        UsageAnalytics {
            app_id,
            tenant_id,
            module_id,
            session_id,
            request_id,
            env_id,
            ip_address,
            country,
            cf_ray,
            domain,
            deployment,
            model,
            prompt_tokens,
            completion_tokens,
            total_tokens,
            timestamp,
        }
    }

    /// The event for a usage record found in the response to a call, captured at `timestamp`.
    pub fn from_parts(
        params: &ProxyUrlParams,
        meta: &RequestMetadata,
        record: UsageRecord,
        timestamp: u64,
    ) -> (r: Self)
        ensures
            r.app_id == params.app,
            r.tenant_id == params.ten_id,
            r.module_id == params.mod_id,
            r.session_id == params.ses_id,
            r.request_id == params.req_id,
            r.env_id == params.env_id,
            r.ip_address == meta.ip_address,
            r.country == meta.country,
            r.cf_ray == meta.cf_ray,
            r.domain == meta.domain,
            r.deployment == meta.deployment,
            r.model == record.model,
            r.prompt_tokens == record.prompt_tokens,
            r.completion_tokens == record.completion_tokens,
            r.total_tokens == record.total_tokens,
            r.timestamp == timestamp,
    {
        UsageAnalytics::new_with_timestamp(
            params.app.clone(),
            params.ten_id.clone(),
            params.mod_id.clone(),
            params.ses_id.clone(),
            params.req_id.clone(),
            params.env_id.clone(),
            meta.ip_address.clone(),
            meta.country.clone(),
            meta.cf_ray.clone(),
            meta.domain.clone(),
            meta.deployment.clone(),
            record.model,
            record.prompt_tokens,
            record.completion_tokens,
            record.total_tokens,
            timestamp,
        )
    }

    /// The text fields of the event's data point, in the sink's order: IP address, country,
    /// ray id, domain, deployment, tenant, module, session, request, environment, with
    /// `unknown` for each that is absent, and the model.
    pub fn blobs(&self) -> (r: Vec<String>)
        ensures
            r@.len() == 11,
            r@[0]@ == or_unknown(self.ip_address),
            r@[1]@ == or_unknown(self.country),
            r@[2]@ == or_unknown(self.cf_ray),
            r@[3]@ == or_unknown(self.domain),
            r@[4]@ == or_unknown(self.deployment),
            r@[5]@ == or_unknown(self.tenant_id),
            r@[6]@ == or_unknown(self.module_id),
            r@[7]@ == or_unknown(self.session_id),
            r@[8]@ == or_unknown(self.request_id),
            r@[9]@ == or_unknown(self.env_id),
            r@[10]@ == self.model@,
    {
        let mut r: Vec<String> = Vec::new();
        r.push(text_or_unknown(&self.ip_address));
        r.push(text_or_unknown(&self.country));
        r.push(text_or_unknown(&self.cf_ray));
        r.push(text_or_unknown(&self.domain));
        r.push(text_or_unknown(&self.deployment));
        r.push(text_or_unknown(&self.tenant_id));
        r.push(text_or_unknown(&self.module_id));
        r.push(text_or_unknown(&self.session_id));
        r.push(text_or_unknown(&self.request_id));
        r.push(text_or_unknown(&self.env_id));
        r.push(self.model.clone());
        r
    }

    /// The numeric fields of the event's data point: prompt, completion and total tokens, and
    /// 1 to mark a streamed response.
    pub fn counts(&self) -> (r: Vec<u64>)
        ensures
            r@ == seq![self.prompt_tokens, self.completion_tokens, self.total_tokens, 1u64],
    {
        let r: Vec<u64> = vec![self.prompt_tokens, self.completion_tokens, self.total_tokens, 1];
        assert(r@ =~= seq![self.prompt_tokens, self.completion_tokens, self.total_tokens, 1u64]);
        r
    }

    /// The index of the event's data point: the tenant, or `unknown`, a colon, and the
    /// application id.
    pub fn index(&self) -> (r: String)
        ensures
            r@ == or_unknown(self.tenant_id) + ":"@ + self.app_id@,
    {
        let mut r = text_or_unknown(&self.tenant_id);
        r.append(":");
        r.append(self.app_id.as_str());
        r
    }
}

} // verus!
