use schoolsync::auth::{auth_check_result, auth_verify_result, simple_hash};
use schoolsync::license::{
    activation_settings, compute_license_info, refresh_decision, setting_name, ActivationResult,
    SchoolInfo, SettingKey,
};
use schoolsync::routing::{clean_static_path, mime_type_for, route_request, RequestMethod, Route};

#[test]
fn simple_hash_known_values() {
    assert_eq!(simple_hash(""), "0");
    assert_eq!(simple_hash("a"), "61");
    assert_eq!(simple_hash("abc"), "17862");
    assert_eq!(simple_hash("password"), "4889ba9b");
    assert_eq!(simple_hash("hello world"), "6aefe2c4");
    // non-ASCII characters hash by their scalar value
    assert_eq!(simple_hash("s\u{e9}kurit\u{e9}"), "8cefca2c");
}

#[test]
fn auth_results_follow_the_stored_hash() {
    assert!(!auth_check_result(None).hasPassword);
    assert!(auth_check_result(Some("anything".to_string())).hasPassword);
    let stored = simple_hash("secret");
    let ok = auth_verify_result(&stored, "secret");
    assert!(ok.success && ok.valid);
    let bad = auth_verify_result(&stored, "wrong");
    assert!(bad.success && !bad.valid);
}

#[test]
fn license_trial_runs_fourteen_days() {
    // no key, no trial start recorded: the trial starts now
    let (info, last_seen) =
        compute_license_info(None, None, None, None, None, "HW".to_string(), 0);
    assert!(info.is_trial);
    assert!(!info.is_expired);
    assert_eq!(info.days_remaining, 14);
    assert!(!info.active);
    assert_eq!(info.plan, "TRIAL");
    assert_eq!(info.hwid, "HW");
    // the clock reading is recorded as the new last-seen value
    assert_eq!(last_seen.as_deref(), Some("1970-01-01T00:00:00+00:00"));
}

#[test]
fn license_expiry_is_read_from_settings() {
    let (info, _) = compute_license_info(
        Some("KEY-1".to_string()),
        Some("1970-01-02T00:00:00+00:00".to_string()),
        None,
        None,
        Some("PRO".to_string()),
        "HW".to_string(),
        0,
    );
    assert!(!info.is_trial);
    assert!(!info.is_expired);
    assert_eq!(info.days_remaining, 1);
    assert!(info.active);
    assert!(!info.is_blocked);
    assert_eq!(info.plan, "PRO");
    assert_eq!(info.key.as_deref(), Some("KEY-1"));
    assert_eq!(info.expires_at, "1970-01-02T00:00:00+00:00");
    // past the expiry the license blocks
    let (info, _) = compute_license_info(
        Some("KEY-1".to_string()),
        Some("1970-01-02T00:00:00+00:00".to_string()),
        None,
        None,
        None,
        "HW".to_string(),
        86_400_001,
    );
    assert!(info.is_expired);
    assert!(info.is_blocked);
    assert!(!info.active);
    assert_eq!(info.days_remaining, 0);
}

#[test]
fn clock_rollback_counts_as_tampering() {
    // last seen a day in, clock back at the epoch: more than five minutes back
    let (info, last_seen) = compute_license_info(
        Some("KEY-1".to_string()),
        Some("1970-01-03T00:00:00+00:00".to_string()),
        None,
        Some("1970-01-02T00:00:00+00:00".to_string()),
        None,
        "HW".to_string(),
        0,
    );
    assert!(info.clock_tampered);
    assert!(info.is_blocked);
    assert!(!info.active);
    // a tampered clock is not recorded as seen
    assert!(last_seen.is_none());
    // within the five-minute allowance the clock is accepted
    let (info, last_seen) = compute_license_info(
        Some("KEY-1".to_string()),
        Some("1970-01-03T00:00:00+00:00".to_string()),
        None,
        Some("1970-01-01T00:04:00+00:00".to_string()),
        None,
        "HW".to_string(),
        0,
    );
    assert!(!info.clock_tampered);
    assert!(last_seen.is_some());
}

#[test]
fn activation_writes_the_linked_identity() {
    let result = ActivationResult {
        success: true,
        error: None,
        token: Some("tok".to_string()),
        expires_at: Some("2026-01-01T00:00:00+00:00".to_string()),
        plan: Some("PRO".to_string()),
        school: Some(SchoolInfo {
            id: "sch-1".to_string(),
            name: "Example School".to_string(),
            city: "Kinshasa".to_string(),
            pobox: None,
        }),
    };
    let writes = activation_settings(&"KEY-1".to_string(), &result);
    let keys: Vec<SettingKey> = writes.iter().map(|w| w.0).collect();
    assert_eq!(
        keys,
        vec![
            SettingKey::LicenseKey,
            SettingKey::LicenseToken,
            SettingKey::LicenseExpiresAt,
            SettingKey::LicensePlan,
            SettingKey::SchoolId,
            SettingKey::SchoolName,
            SettingKey::SchoolCity,
        ]
    );
    assert_eq!(writes[0].1, "KEY-1");
    assert_eq!(writes[4].1, "sch-1");
    // a failed activation writes nothing
    let failed = ActivationResult {
        success: false,
        error: Some("INVALID_KEY".to_string()),
        token: None,
        expires_at: None,
        plan: None,
        school: None,
    };
    assert!(activation_settings(&"KEY-1".to_string(), &failed).is_empty());
}

#[test]
fn refresh_decisions_follow_the_remote() {
    // inactive license: the expiry is forced a day into the past
    let d = refresh_decision(true, false, None, None, 86_400_000);
    assert!(d.ok);
    assert_eq!(d.writes.len(), 1);
    assert_eq!(d.writes[0].0, SettingKey::LicenseExpiresAt);
    assert_eq!(d.writes[0].1, "1970-01-01T00:00:00+00:00");
    // active license: the sent expiry and plan are recorded
    let d = refresh_decision(
        true,
        true,
        Some("2026-01-01T00:00:00+00:00".to_string()),
        Some("PRO".to_string()),
        0,
    );
    assert!(d.ok);
    assert_eq!(d.writes.len(), 2);
    // a failed response writes nothing
    let d = refresh_decision(false, true, None, None, 0);
    assert!(!d.ok);
    assert!(d.writes.is_empty());
}

#[test]
fn setting_names_match_the_settings_table() {
    assert_eq!(setting_name(SettingKey::LicenseKey), "license_key");
    assert_eq!(setting_name(SettingKey::SchoolId), "school_id");
    assert_eq!(setting_name(SettingKey::LocalPasswordHash), "local_password_hash");
    assert_eq!(setting_name(SettingKey::LicenseLastSeenDate), "license_last_seen_date");
}

#[test]
fn routes_reach_their_handlers() {
    assert_eq!(route_request(RequestMethod::Get, "/api/status"), Route::Status);
    assert_eq!(route_request(RequestMethod::Get, "/api/classes"), Route::Classes);
    assert_eq!(
        route_request(RequestMethod::Get, "/api/classes/123/full"),
        Route::ClassFull(123)
    );
    assert_eq!(route_request(RequestMethod::Post, "/api/grades/batch"), Route::GradesBatch);
    assert_eq!(route_request(RequestMethod::Get, "/api/events"), Route::Events);
    assert_eq!(route_request(RequestMethod::Get, "/"), Route::RootRedirect);
    assert_eq!(route_request(RequestMethod::Get, "/mobile/"), Route::StaticAsset);
    assert_eq!(route_request(RequestMethod::Get, "/assets/app.js"), Route::StaticAsset);
    assert_eq!(route_request(RequestMethod::Options, "/anything"), Route::CorsPreflight);
    assert_eq!(route_request(RequestMethod::Get, "/api/classes/x/full"), Route::NotFound);
    assert_eq!(route_request(RequestMethod::Post, "/api/classes"), Route::NotFound);
    assert_eq!(route_request(RequestMethod::Other, "/api/status"), Route::NotFound);
}

#[test]
fn static_paths_resolve_under_the_asset_root() {
    assert_eq!(clean_static_path("/mobile/index.html"), "index.html");
    assert_eq!(clean_static_path("/mobile"), "");
    assert_eq!(clean_static_path("/assets/app.js"), "assets/app.js");
    assert_eq!(clean_static_path("///x"), "x");
    assert_eq!(mime_type_for("html"), "text/html");
    assert_eq!(mime_type_for("js"), "application/javascript");
    assert_eq!(mime_type_for("jpeg"), "image/jpeg");
    assert_eq!(mime_type_for("bin"), "application/octet-stream");
}

#[test]
fn unreadable_expiry_expires_immediately() {
    // a stored expiry that does not parse falls back to the clock reading,
    // which makes the license count as expired right away
    let (info, _) = compute_license_info(
        Some("KEY-1".to_string()),
        Some("not a date".to_string()),
        None,
        None,
        None,
        "HW".to_string(),
        1_000,
    );
    assert!(!info.is_trial);
    assert!(info.is_expired);
    assert_eq!(info.days_remaining, 0);
    assert!(!info.active);
}

#[test]
fn roster_route_requires_the_exact_shape() {
    assert_eq!(route_request(RequestMethod::Get, "/api/classes//full"), Route::NotFound);
    assert_eq!(
        route_request(RequestMethod::Get, "/api/classes/12/34/full"),
        Route::NotFound
    );
    assert_eq!(route_request(RequestMethod::Post, "/api/classes/1/full"), Route::NotFound);
    assert_eq!(route_request(RequestMethod::Get, "/api/classes/0/full"), Route::ClassFull(0));
}
