//! The provider gateway: selection of the one active upstream data
//! provider, and the fetch errors the pipeline distinguishes.
//!
//! Exactly one provider is selected at process start by probing for each
//! provider's credential in a fixed priority order; the first credential
//! found wins for the lifetime of the process. The network fetch itself is
//! the caller's: the gateway only decides and classifies.

use vstd::prelude::*;

verus! {

/// The upstream data providers, in credential-probe priority order.
#[derive(Clone, Copy, Debug, PartialEq, Eq, Structural)]
pub enum Provider {
    /// Probed first.
    TwelveData,
    /// Probed second.
    AlphaVantage,
    /// Probed last.
    PolygonIo,
}

/// Why a fetch failed.
#[derive(Clone, Copy, Debug, PartialEq, Eq, Structural)]
pub enum FetchError {
    /// No provider credential is present: fatal to the ingestion path of
    /// a symbol, not to the process.
    NoProviderConfigured,
    /// The upstream rate-limited the call; the gateway does not retry, the
    /// scheduler's next tick does.
    RateLimited,
    /// The call failed for another reason: network, parse, timeout.
    Failed,
}

/// The error kinds the whole pipeline distinguishes.
#[derive(Clone, Copy, Debug, PartialEq, Eq, Structural)]
pub enum PipelineError {
    /// No provider credential is present.
    ProviderUnconfigured,
    /// A fetch failed: network, parse or rate limit.
    FetchFailed,
    /// The storage layer could not be reached or locked.
    StorageUnavailable,
    /// Directory resolution found no matching reference record.
    SymbolUnresolved,
    /// Mismatched parallel arrays or similar malformed detector input.
    MalformedInput,
}

/// The provider that the fixed priority order selects from the credential
/// probe results, if any credential is present.
pub open spec fn selected_provider(
    has_twelvedata: bool,
    has_alphavantage: bool,
    has_polygon: bool,
) -> Option<Provider> {
    if has_twelvedata {
        Some(Provider::TwelveData)
    } else if has_alphavantage {
        Some(Provider::AlphaVantage)
    } else if has_polygon {
        Some(Provider::PolygonIo)
    } else {
        None
    }
}

/// Select the active provider from the credential probe results: the first
/// credential present in priority order wins.
pub fn select_provider(
    has_twelvedata: bool,
    has_alphavantage: bool,
    has_polygon: bool,
) -> (r: Option<Provider>)
    ensures
        r == selected_provider(has_twelvedata, has_alphavantage, has_polygon),
{
    if has_twelvedata {
        Some(Provider::TwelveData)
    } else if has_alphavantage {
        Some(Provider::AlphaVantage)
    } else if has_polygon {
        Some(Provider::PolygonIo)
    } else {
        None
    }
}

/// The provider gateway: the provider selected at process start, fixed for
/// the lifetime of the process.
pub struct ProviderGateway {
    provider: Option<Provider>,
}

impl ProviderGateway {
    /// The selected provider, if any credential was present.
    pub closed spec fn provider(self) -> Option<Provider> {
        self.provider
    }

    /// Build the gateway from the credential probe results.
    pub fn new(has_twelvedata: bool, has_alphavantage: bool, has_polygon: bool) -> (r:
        ProviderGateway)
        ensures
            r.provider() == selected_provider(has_twelvedata, has_alphavantage, has_polygon),
    {
        ProviderGateway {
            provider: select_provider(has_twelvedata, has_alphavantage, has_polygon),
        }
    }

    /// The active provider, or the error every fetch must fail with when no
    /// credential is present.
    pub fn active_provider(&self) -> (r: Result<Provider, FetchError>)
        ensures
            self.provider() is Some ==> r == Ok::<Provider, FetchError>(
                self.provider()->Some_0,
            ),
            self.provider() is None ==> r == Err::<Provider, FetchError>(
                FetchError::NoProviderConfigured,
            ),
    {
        match self.provider {
            Some(p) => Ok(p),
            None => Err(FetchError::NoProviderConfigured),
        }
    }
}

/// The pipeline error that a fetch error surfaces as.
pub fn classify_fetch_error(e: &FetchError) -> (r: PipelineError)
    ensures
        *e is NoProviderConfigured ==> r == PipelineError::ProviderUnconfigured,
        !(*e is NoProviderConfigured) ==> r == PipelineError::FetchFailed,
{
    match e {
        FetchError::NoProviderConfigured => PipelineError::ProviderUnconfigured,
        FetchError::RateLimited => PipelineError::FetchFailed,
        FetchError::Failed => PipelineError::FetchFailed,
    }
}

} // verus!
