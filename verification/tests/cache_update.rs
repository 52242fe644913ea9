use oc_stats::cache_update::{finalize_cache_update, PricingAvailability, PricingCatalog};

fn test_catalog(availability: PricingAvailability) -> PricingCatalog {
    PricingCatalog {
        cache_path: "/tmp/models.json".to_string(),
        refresh_needed: false,
        availability,
        load_notice: None,
    }
}

#[test]
fn cache_update_success_keeps_success_message() {
    let path = "/tmp/models.json";
    let result = finalize_cache_update::<anyhow::Error>(
        path,
        None,
        Ok(test_catalog(PricingAvailability::Cached)),
    );
    let message = match result {
        Ok(message) => message,
        Err(_) => panic!("a successful refresh reports success"),
    };

    assert_eq!(message, "Updated /tmp/models.json");
}

#[test]
fn cache_update_failure_returns_error_with_fallback_hint() {
    let path = "/tmp/models.json";
    let err = match finalize_cache_update(
        path,
        Some(&test_catalog(PricingAvailability::OverridesOnly)),
        Err(anyhow::Error::msg("network down")),
    ) {
        Ok(_) => panic!("a failed refresh reports an error"),
        Err(err) => err,
    };

    let message = format!("{:#}", err.source.context(err.context));
    assert!(message.contains("failed to update /tmp/models.json"));
    assert!(message.contains("using local pricing overrides only"));
}

#[test]
fn cache_update_failure_without_catalog_still_returns_error() {
    let path = "/tmp/models.json";
    let result: Result<PricingCatalog, anyhow::Error> = Err(anyhow::Error::msg("network down"));
    let err = match finalize_cache_update(path, None, result) {
        Ok(_) => panic!("a failed refresh reports an error"),
        Err(err) => err,
    };

    assert!(format!("{:#}", err.source.context(err.context))
        .contains("current pricing fallback status is unknown"));
}

#[test]
fn cache_update_failure_keeps_the_underlying_error() {
    let err = match finalize_cache_update(
        "/tmp/models.json",
        Some(&test_catalog(PricingAvailability::Empty)),
        Err::<PricingCatalog, &str>("network down"),
    ) {
        Ok(_) => panic!("a failed refresh reports an error"),
        Err(err) => err,
    };
    assert_eq!(err.source, "network down");
    assert_eq!(err.context, "failed to update /tmp/models.json; no pricing data is available");
}

#[test]
fn refresh_failure_hints_by_availability() {
    assert_eq!(
        test_catalog(PricingAvailability::Cached).refresh_failure_hint(),
        "keeping the previously cached pricing data"
    );
    assert_eq!(
        test_catalog(PricingAvailability::OverridesOnly).refresh_failure_hint(),
        "using local pricing overrides only"
    );
    assert_eq!(
        test_catalog(PricingAvailability::Empty).refresh_failure_hint(),
        "no pricing data is available"
    );
}
