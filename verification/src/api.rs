//! The history-provider port: capabilities, scan requests and plans, and
//! the provider error. Providers themselves perform I/O and live at the
//! edge; what they compute from plain values lives here.

use vstd::prelude::*;

use crate::identity::{AssetKey, WalletKey};
use crate::raw_payload::RawPayload;
use crate::sorted_map::{lookup, SortedMap};
use crate::identity::text_id;

verus! {

/// Errors a history provider can report.
#[derive(Debug)]
#[non_exhaustive]
pub enum ProviderError {
    /// The port has no configured backend; never an empty success.
    ConfigurationRequired { port: String, detail: String },
    /// The upstream asked to back off, possibly for a stated time.
    RateLimited { retry_after: Option<RetryAfter> },
    /// The provider does not support the capability at all.
    Unsupported { capability: String },
    /// A transport failure; the text of the underlying error is kept.
    Transport(String),
    /// Any other provider failure; the text of the underlying error is kept.
    Other(String),
}

/// A back-off time: whole seconds and the nanoseconds beyond them.
#[derive(Debug, Clone, Copy)]
pub struct RetryAfter {
    secs: u64,
    nanos: u32,
}

impl RetryAfter {
    /// The nanoseconds part stays below one second.
    #[verifier::type_invariant]
    spec fn wf(self) -> bool {
        self.nanos < 1_000_000_000
    }

    /// The whole seconds.
    pub closed spec fn secs_spec(self) -> u64 {
        self.secs
    }

    /// The nanoseconds beyond the whole seconds.
    pub closed spec fn nanos_spec(self) -> u32 {
        self.nanos
    }

    /// A back-off of `secs` seconds and `nanos` nanoseconds.
    pub fn new(secs: u64, nanos: u32) -> (r: Self)
        requires
            nanos < 1_000_000_000,
        ensures
            r.secs_spec() == secs,
            r.nanos_spec() == nanos,
    {
        RetryAfter { secs, nanos }
    }

    /// A back-off of `millis` milliseconds.
    pub fn from_millis(millis: u64) -> (r: Self)
        ensures
            r.secs_spec() == millis / 1000,
            r.nanos_spec() == (millis % 1000) * 1_000_000,
    {
        let secs = millis / 1000;
        let nanos = ((millis % 1000) as u32) * 1_000_000;
        RetryAfter { secs, nanos }
    }

    /// The whole seconds.
    pub fn secs(&self) -> (s: u64)
        ensures
            s == self.secs_spec(),
    {
        self.secs
    }

    /// The nanoseconds beyond the whole seconds, always below one second.
    pub fn subsec_nanos(&self) -> (n: u32)
        ensures
            n == self.nanos_spec(),
            n < 1_000_000_000,
    {
        proof {
            use_type_invariant(self);
        }
        self.nanos
    }
}

/// The message of a provider error; a rate limit with a stated time ends
/// with that time as `duration_debug` writes it.
pub open spec fn provider_error_text(e: ProviderError) -> Seq<char> {
    match e {
        ProviderError::ConfigurationRequired { port, detail } => "configuration required for port `"@
            + port@ + "`: "@ + detail@,
        ProviderError::RateLimited { retry_after } => match retry_after {
            Some(r) => "rate limited, retry after "@ + duration_debug(r.secs_spec(), r.nanos_spec()),
            None => "rate limited"@,
        },
        ProviderError::Unsupported { capability } => "capability `"@ + capability@
            + "` is not supported"@,
        ProviderError::Transport(m) => "transport error: "@ + m@,
        ProviderError::Other(m) => "provider error: "@ + m@,
    }
}

/// The `Debug` text of the `Duration` of `secs` seconds and `nanos`
/// nanoseconds, such as `1.5s`.
pub uninterp spec fn duration_debug(secs: u64, nanos: u32) -> Seq<char>;

/// The `Debug` text of `std::time::Duration::new(secs, nanos)`.
///
/// Trusted: builds the `Duration` (which cannot panic, as `nanos` stays
/// below one second and nothing carries into `secs`) and formats it with
/// std's `Debug`; the text is claimed to be `duration_debug(secs, nanos)`,
/// a function of the two numbers alone. Its form is not stated.
#[verifier::external_body]
fn duration_debug_text(secs: u64, nanos: u32) -> (s: String)
    requires
        nanos < 1_000_000_000,
    ensures
        s@ == duration_debug(secs, nanos),
{
    format!("{:?}", std::time::Duration::new(secs, nanos))
}

impl ProviderError {
    /// The human-readable message, exactly `provider_error_text`.
    pub fn to_display_string(&self) -> (s: String)
        ensures
            s@ == provider_error_text(*self),
    {
        match self {
            ProviderError::ConfigurationRequired { port, detail } => {
                let s = String::from_str("configuration required for port `");
                let s = s.concat(port.as_str());
                let s = s.concat("`: ");
                s.concat(detail.as_str())
            },
            ProviderError::RateLimited { retry_after } => match retry_after {
                Some(r) => {
                    let t = duration_debug_text(r.secs(), r.subsec_nanos());
                    String::from_str("rate limited, retry after ").concat(t.as_str())
                },
                None => String::from_str("rate limited"),
            },
            ProviderError::Unsupported { capability } => {
                let s = String::from_str("capability `");
                let s = s.concat(capability.as_str());
                s.concat("` is not supported")
            },
            ProviderError::Transport(m) => String::from_str("transport error: ").concat(m.as_str()),
            ProviderError::Other(m) => String::from_str("provider error: ").concat(m.as_str()),
        }
    }

    /// The underlying error's text, for the two variants that wrap one.
    pub fn source_message(&self) -> (r: Option<&String>)
        ensures
            self matches ProviderError::Transport(m) ==> r == Some(m),
            self matches ProviderError::Other(m) ==> r == Some(m),
            !(self is Transport || self is Other) ==> r is None,
    {
        match self {
            ProviderError::Transport(m) => Some(m),
            ProviderError::Other(m) => Some(m),
            _ => None,
        }
    }
}

/// Evidence level of one provider capability.
#[derive(Debug, Clone, Copy, PartialEq, Eq, Structural)]
#[non_exhaustive]
pub enum CapabilityStatus {
    Documented,
    FixtureVerified,
    LiveVerified,
    Unsupported,
    Unknown,
}

/// What a provider declares it can do, by capability name, and the assets
/// it is scoped to.
pub struct SourceCapabilities {
    pub by_capability: SortedMap<String, CapabilityStatus>,
    pub scoped_assets: Vec<AssetKey>,
}

/// The status of a capability: as declared, or `Unknown` when the
/// provider declares nothing for it (never `Unsupported`).
pub open spec fn declared_status(caps: Seq<(String, CapabilityStatus)>, name: Seq<char>) -> CapabilityStatus {
    match lookup(caps, text_id(name)) {
        Some(s) => s,
        None => CapabilityStatus::Unknown,
    }
}

impl Default for SourceCapabilities {
    fn default() -> (c: Self)
        ensures
            c.by_capability.pairs().len() == 0,
            c.scoped_assets@.len() == 0,
    {
        SourceCapabilities { by_capability: SortedMap::new(), scoped_assets: Vec::new() }
    }
}

impl SourceCapabilities {
    /// No declared capability and no scoped asset.
    pub fn empty() -> (c: Self)
        ensures
            c.by_capability.pairs().len() == 0,
            c.scoped_assets@.len() == 0,
    {
        Self::default()
    }

    /// The declared status of `capability`, `Unknown` when undeclared.
    pub fn status_for(&self, capability: &str) -> (r: CapabilityStatus)
        ensures
            r == declared_status(self.by_capability.pairs(), capability@),
    {
        let key = String::from_str(capability);
        match self.by_capability.get(&key) {
            Some(s) => *s,
            None => CapabilityStatus::Unknown,
        }
    }
}

/// What to scan.
#[derive(Debug)]
#[non_exhaustive]
pub enum ScanRequest {
    TokenMarketActivity { asset: AssetKey },
    WalletActivity { wallet: WalletKey },
}

/// A provider's answer to a scan request.
pub struct ScanPlan {
    pub request_echo: String,
    pub capabilities: SourceCapabilities,
}

/// One unit of scan work.
#[derive(Debug)]
pub struct ScanTask {
    pub description: String,
}

/// One scanned raw payload.
#[derive(Debug)]
pub struct ScanEnvelope {
    pub payload: RawPayload,
}

} // verus!
