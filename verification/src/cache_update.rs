//! The outcome message of `cache update`, the command that refreshes the
//! local pricing cache.
use vstd::prelude::*;

verus! {

/// Where the pricing figures in use come from.
#[derive(Clone, Copy, Debug, PartialEq, Eq, Structural)]
pub enum PricingAvailability {
    /// A pricing cache downloaded earlier.
    Cached,
    /// Only the pricing overrides of the local configuration.
    OverridesOnly,
    /// No pricing data at all.
    Empty,
}

/// The pricing data loaded at start-up, as far as the cache command reads it.
#[derive(Clone, Debug)]
pub struct PricingCatalog {
    pub cache_path: String,
    pub refresh_needed: bool,
    pub availability: PricingAvailability,
    pub load_notice: Option<String>,
}

/// What the dashboard falls back on when a refresh fails, by availability.
/// The overrides-only wording is the one the dashboard's messages are known
/// to use; the wording for `Cached` and `Empty` is an assumption of this
/// library, chosen in the same style.
pub open spec fn failure_hint(availability: PricingAvailability) -> Seq<char> {
    match availability {
        PricingAvailability::Cached => "keeping the previously cached pricing data"@,
        PricingAvailability::OverridesOnly => "using local pricing overrides only"@,
        PricingAvailability::Empty => "no pricing data is available"@,
    }
}

/// The hint given when the state of the current pricing data is unknown.
pub open spec fn unknown_hint() -> Seq<char> {
    "current pricing fallback status is unknown"@
}

impl PricingCatalog {
    /// Says what pricing stays in use after a failed refresh.
    pub fn refresh_failure_hint(&self) -> (hint: &'static str)
        ensures
            hint@ == failure_hint(self.availability),
    {
        match self.availability {
            PricingAvailability::Cached => "keeping the previously cached pricing data",
            PricingAvailability::OverridesOnly => "using local pricing overrides only",
            PricingAvailability::Empty => "no pricing data is available",
        }
    }
}

/// A failed refresh: the message that explains it, and the underlying error.
pub struct CacheUpdateError<E> {
    pub context: String,
    pub source: E,
}

/// The message that reports a successful refresh of the cache at `path`.
pub open spec fn updated_message(path: Seq<char>) -> Seq<char> {
    "Updated "@ + path
}

/// The message that reports a failed refresh of the cache at `path`, with
/// what the dashboard falls back on.
pub open spec fn failed_message(path: Seq<char>, current: Option<&PricingCatalog>) -> Seq<char> {
    let hint = match current {
        Some(catalog) => failure_hint(catalog.availability),
        None => unknown_hint(),
    };
    "failed to update "@ + path + "; "@ + hint
}

/// Turns the result of refreshing the cache at `path` into the message to
/// print, or into the error to report, which keeps the refresh's own error
/// as its source.
pub fn finalize_cache_update<E>(
    path: &str,
    current: Option<&PricingCatalog>,
    result: Result<PricingCatalog, E>,
) -> (r: Result<String, CacheUpdateError<E>>)
    ensures
        result is Ok ==> (r matches Ok(message) && message@ == updated_message(path@)),
        result matches Err(e) ==> (r matches Err(err) && err.source == e && err.context@
            == failed_message(path@, current)),
{
    match result {
        Ok(_) => {
            let mut message = String::from_str("Updated ");
            message.append(path);
            Ok(message)
        },
        Err(err) => {
            let fallback_hint = match current {
                Some(catalog) => catalog.refresh_failure_hint(),
                None => "current pricing fallback status is unknown",
            };
            let mut context = String::from_str("failed to update ");
            context.append(path);
            context.append("; ");
            context.append(fallback_hint);
            Err(CacheUpdateError { context, source: err })
        },
    }
}

} // verus!
